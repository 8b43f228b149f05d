//! What each kind of request is answered with: lookups with their
//! not-found payloads, badges with their cache lifetimes, and the choice
//! between binary and readable encodings.

use vstd::prelude::*;
use crate::badge::{badge_svg, generate_badge_svg, resolve_color, BadgeStyle};
use crate::model::{newest, Catalog, Module, ModuleVersion};
use crate::query::{find_module, find_version_in, first_version_from, module_named};
use crate::text::{chars_of, contains_run, has_infix, same_text};

verus! {

/// Status code of a not-found answer.
pub const NOT_FOUND_STATUS: u16 = 404;

/// Cache lifetime, in seconds, of a badge for a module's latest version.
pub const LATEST_BADGE_MAX_AGE: u32 = 300;

/// Cache lifetime of a badge for an exact version, which never changes.
pub const VERSION_BADGE_MAX_AGE: u32 = 86400;

/// Cache lifetime of a badge that reports something missing.
pub const MISSING_BADGE_MAX_AGE: u32 = 60;

/// Payload of a lookup that found nothing.
pub struct NotFound {
    pub error: String,
}

/// A rendered badge and how long clients may cache it.
pub struct BadgeReply {
    pub svg: String,
    pub max_age: u32,
}

/// The module named `name`, or the payload `Module not found`.
pub fn lookup_module<'a>(c: &'a Catalog, name: &str) -> (r: Result<&'a Module, NotFound>)
    ensures
        match r {
            Ok(m) => module_named(c@, name@) == Some(m@),
            Err(e) => module_named(c@, name@) is None && e.error@ == "Module not found"@,
        },
{
    match find_module(c, name) {
        Some(m) => Ok(m),
        None => Err(NotFound { error: String::from_str("Module not found") }),
    }
}

/// The newest version of the module named `name`, or the payload saying
/// which of the two is missing.
pub fn lookup_latest<'a>(c: &'a Catalog, name: &str) -> (r: Result<&'a ModuleVersion, NotFound>)
    ensures
        match module_named(c@, name@) {
            None => r matches Err(e) && e.error@ == "Module not found"@,
            Some(m) => match newest(m) {
                Some(v) => r matches Ok(found) && found@ == v,
                None => r matches Err(e) && e.error@ == "No versions found for module"@,
            },
        },
{
    match find_module(c, name) {
        Some(m) => {
            if m.versions.len() > 0 {
                assert(m@.versions[0] == m.versions@[0]@);
                Ok(&m.versions[0])
            } else {
                Err(NotFound { error: String::from_str("No versions found for module") })
            }
        },
        None => Err(NotFound { error: String::from_str("Module not found") }),
    }
}

/// Version `version` of the module named `name`, or the payload saying
/// which of the two is missing.
pub fn lookup_version<'a>(c: &'a Catalog, name: &str, version: &str) -> (r: Result<&'a ModuleVersion, NotFound>)
    ensures
        match module_named(c@, name@) {
            None => r matches Err(e) && e.error@ == "Module not found"@,
            Some(m) => match first_version_from(m.versions, version@, 0) {
                Some(v) => r matches Ok(found) && found@ == v,
                None => r matches Err(e) && e.error@ == "Module version not found"@,
            },
        },
{
    match find_module(c, name) {
        Some(m) => match find_version_in(m, version) {
            Some(v) => Ok(v),
            None => Err(NotFound { error: String::from_str("Module version not found") }),
        },
        None => Err(NotFound { error: String::from_str("Module not found") }),
    }
}

/// Style, colour and label after applying request parameters in order:
/// `style` and `label` are taken as given, `color` is resolved, the last
/// occurrence of a key wins and other keys are ignored.
pub open spec fn query_style(pairs: Seq<(String, String)>) -> (Seq<char>, Seq<char>, Seq<char>)
    decreases pairs.len(),
{
    if pairs.len() == 0 {
        ("flat"@, "44cc11"@, "bcr"@)
    } else {
        let (style, color, label) = query_style(pairs.drop_last());
        let key = pairs.last().0@;
        let value = pairs.last().1@;
        if key == "style"@ {
            (value, color, label)
        } else if key == "color"@ {
            (style, resolve_color(value), label)
        } else if key == "label"@ {
            (style, color, value)
        } else {
            (style, color, label)
        }
    }
}

impl BadgeStyle {
    /// The style that request parameters ask for, over the default.
    pub fn from_query_pairs(pairs: &Vec<(String, String)>) -> (r: BadgeStyle)
        ensures
            (r.style@, r.color@, r.label@) == query_style(pairs@),
    {
        let mut style = BadgeStyle::default();
        let mut i: usize = 0;
        while i < pairs.len()
            invariant
                i <= pairs@.len(),
                (style.style@, style.color@, style.label@) == query_style(pairs@.take(i as int)),
            decreases pairs@.len() - i,
        {
            let key = pairs[i].0.as_str();
            let value = pairs[i].1.as_str();
            assert(pairs@.take(i + 1).drop_last() =~= pairs@.take(i as int));
            if same_text(key, "style") {
                style.style = String::from_str(value);
            } else if same_text(key, "color") {
                style.color = BadgeStyle::parse_color(value);
            } else if same_text(key, "label") {
                style.label = String::from_str(value);
            }
            i = i + 1;
        }
        assert(pairs@.take(i as int) =~= pairs@);
        style
    }

    /// Flat, critical red, labelled `bcr`: how missing things are drawn.
    pub fn missing() -> (r: BadgeStyle)
        ensures
            r.style@ == "flat"@,
            r.color@ == "e05d44"@,
            r.label@ == "bcr"@,
    {
        BadgeStyle {
            color: String::from_str("e05d44"),
            ..BadgeStyle::default()
        }
    }
}

/// The red badge that reports `message` as missing.
pub open spec fn missing_svg(message: Seq<char>) -> Seq<char> {
    badge_svg("bcr"@, message, "flat"@, "e05d44"@)
}

fn missing_badge(message: &str) -> (r: BadgeReply)
    ensures
        r.svg@ == missing_svg(message@),
        r.max_age == MISSING_BADGE_MAX_AGE,
{
    let style = BadgeStyle::missing();
    BadgeReply { svg: generate_badge_svg("bcr", message, &style), max_age: MISSING_BADGE_MAX_AGE }
}

/// The badge for the newest version of the module named `name`, drawn as
/// the request parameters ask; a red badge where the module or its
/// versions are missing.
pub fn module_badge(c: &Catalog, name: &str, params: &Vec<(String, String)>) -> (r: BadgeReply)
    ensures
        match module_named(c@, name@) {
            None => r.svg@ == missing_svg("not found"@) && r.max_age == MISSING_BADGE_MAX_AGE,
            Some(m) => match newest(m) {
                Some(v) => {
                    let (style, color, label) = query_style(params@);
                    r.svg@ == badge_svg(label, v.version, style, color)
                        && r.max_age == LATEST_BADGE_MAX_AGE
                },
                None => r.svg@ == missing_svg("no versions"@) && r.max_age == MISSING_BADGE_MAX_AGE,
            },
        },
{
    match find_module(c, name) {
        Some(m) => {
            if m.versions.len() > 0 {
                assert(m@.versions[0] == m.versions@[0]@);
                let style = BadgeStyle::from_query_pairs(params);
                let svg = generate_badge_svg(style.label.as_str(), m.versions[0].version.as_str(), &style);
                BadgeReply { svg, max_age: LATEST_BADGE_MAX_AGE }
            } else {
                missing_badge("no versions")
            }
        },
        None => missing_badge("not found"),
    }
}

/// The badge for version `version` of the module named `name`, drawn as
/// the request parameters ask; a red badge where either is missing.
pub fn module_version_badge(c: &Catalog, name: &str, version: &str, params: &Vec<(String, String)>) -> (r: BadgeReply)
    ensures
        match module_named(c@, name@) {
            None => r.svg@ == missing_svg("module not found"@) && r.max_age == MISSING_BADGE_MAX_AGE,
            Some(m) => match first_version_from(m.versions, version@, 0) {
                Some(v) => {
                    let (style, color, label) = query_style(params@);
                    r.svg@ == badge_svg(label, v.version, style, color)
                        && r.max_age == VERSION_BADGE_MAX_AGE
                },
                None => r.svg@ == missing_svg("version not found"@) && r.max_age == MISSING_BADGE_MAX_AGE,
            },
        },
{
    match find_module(c, name) {
        Some(m) => match find_version_in(m, version) {
            Some(v) => {
                let style = BadgeStyle::from_query_pairs(params);
                let svg = generate_badge_svg(style.label.as_str(), v.version.as_str(), &style);
                BadgeReply { svg, max_age: VERSION_BADGE_MAX_AGE }
            },
            None => missing_badge("version not found"),
        },
        None => missing_badge("module not found"),
    }
}

/// How a response body is encoded.
pub enum Encoding {
    /// The structured binary codec.
    Binary,
    /// Human-readable JSON, the default.
    Json,
}

/// Whether an `Accept` header asks for the binary encoding.
pub open spec fn wants_binary(accept: Option<Seq<char>>) -> bool {
    match accept {
        Some(a) => has_infix(a, "application/protobuf"@) || has_infix(a, "application/x-protobuf"@),
        None => false,
    }
}

pub open spec fn opt_text_view(accept: Option<&str>) -> Option<Seq<char>> {
    match accept {
        Some(a) => Some(a@),
        None => None,
    }
}

/// Whether the client's `Accept` header names a binary protobuf type.
pub fn accepts_protobuf(accept: Option<&str>) -> (r: bool)
    ensures
        r == wants_binary(opt_text_view(accept)),
{
    match accept {
        Some(a) => {
            let text = chars_of(a);
            let plain = chars_of("application/protobuf");
            let extended = chars_of("application/x-protobuf");
            contains_run(&text, &plain) || contains_run(&text, &extended)
        },
        None => false,
    }
}

/// Binary where the header asks for it, JSON otherwise.
pub fn choose_encoding(accept: Option<&str>) -> (r: Encoding)
    ensures
        r is Binary <==> wants_binary(opt_text_view(accept)),
{
    if accepts_protobuf(accept) {
        Encoding::Binary
    } else {
        Encoding::Json
    }
}

impl Encoding {
    /// The media type that a body in this encoding is sent with.
    pub fn content_type(&self) -> (r: &'static str)
        ensures
            r@ == match self {
                Encoding::Binary => "application/protobuf"@,
                Encoding::Json => "application/json"@,
            },
    {
        match self {
            Encoding::Binary => "application/protobuf",
            Encoding::Json => "application/json",
        }
    }
}

} // verus!
