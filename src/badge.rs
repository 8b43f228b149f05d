//! Status badge synthesis: colour names, style options and the SVG text.

use vstd::prelude::*;
use crate::text::{append_decimal, chars_of, decimal, same_text};

verus! {

/// Hex code of a colour from the fixed table of names, if `name` is one.
pub open spec fn named_color(name: Seq<char>) -> Option<Seq<char>> {
    if name == "brightgreen"@ { Some("44cc11"@) }
    else if name == "green"@ { Some("97ca00"@) }
    else if name == "yellowgreen"@ { Some("a4a61d"@) }
    else if name == "yellow"@ { Some("dfb317"@) }
    else if name == "orange"@ { Some("fe7d37"@) }
    else if name == "red"@ { Some("e05d44"@) }
    else if name == "blue"@ { Some("007ec6"@) }
    else if name == "lightgrey"@ { Some("9f9f9f"@) }
    else if name == "success"@ { Some("44cc11"@) }
    else if name == "important"@ { Some("fe7d37"@) }
    else if name == "critical"@ { Some("e05d44"@) }
    else if name == "informational"@ { Some("007ec6"@) }
    else { None }
}

pub open spec fn is_hex_digit(c: char) -> bool {
    ('0' <= c && c <= '9') || ('a' <= c && c <= 'f') || ('A' <= c && c <= 'F')
}

pub open spec fn all_hex(s: Seq<char>) -> bool {
    forall|i: int| 0 <= i < s.len() ==> is_hex_digit(#[trigger] s[i])
}

/// The colour that a badge is drawn with for the requested `name`: a table
/// entry, the text itself when it is all hex digits, else the default blue.
pub open spec fn resolve_color(name: Seq<char>) -> Seq<char> {
    match named_color(name) {
        Some(hex) => hex,
        None => if all_hex(name) { name } else { "007ec6"@ },
    }
}

fn hex_digit(c: char) -> (r: bool)
    ensures
        r == is_hex_digit(c),
{
    ('0' <= c && c <= '9') || ('a' <= c && c <= 'f') || ('A' <= c && c <= 'F')
}

fn all_hex_digits(s: &str) -> (r: bool)
    ensures
        r == all_hex(s@),
{
    let cs = chars_of(s);
    let mut i: usize = 0;
    while i < cs.len()
        invariant
            cs@ == s@,
            i <= cs@.len(),
            forall|j: int| 0 <= j < i ==> is_hex_digit(#[trigger] cs@[j]),
        decreases cs@.len() - i,
    {
        if !hex_digit(cs[i]) {
            return false;
        }
        i = i + 1;
    }
    true
}

/// Looks `name` up in the colour table.
fn table_color(name: &str) -> (r: Option<&'static str>)
    ensures
        match r {
            Some(h) => named_color(name@) == Some(h@),
            None => named_color(name@) is None,
        },
{
    if same_text(name, "brightgreen") { Some("44cc11") }
    else if same_text(name, "green") { Some("97ca00") }
    else if same_text(name, "yellowgreen") { Some("a4a61d") }
    else if same_text(name, "yellow") { Some("dfb317") }
    else if same_text(name, "orange") { Some("fe7d37") }
    else if same_text(name, "red") { Some("e05d44") }
    else if same_text(name, "blue") { Some("007ec6") }
    else if same_text(name, "lightgrey") { Some("9f9f9f") }
    else if same_text(name, "success") { Some("44cc11") }
    else if same_text(name, "important") { Some("fe7d37") }
    else if same_text(name, "critical") { Some("e05d44") }
    else if same_text(name, "informational") { Some("007ec6") }
    else { None }
}

/// How a badge is drawn.
pub struct BadgeStyle {
    /// Variant name: `flat-square`, or anything else for `flat`.
    pub style: String,
    /// Hex code of the message background, without `#`.
    pub color: String,
    /// Text of the left-hand segment.
    pub label: String,
}

impl Clone for BadgeStyle {
    fn clone(&self) -> (r: Self)
        ensures
            r.style@ == self.style@,
            r.color@ == self.color@,
            r.label@ == self.label@,
    {
        BadgeStyle { style: self.style.clone(), color: self.color.clone(), label: self.label.clone() }
    }
}

impl Default for BadgeStyle {
    /// Flat, success green, labelled `bcr`.
    fn default() -> (r: Self)
        ensures
            r.style@ == "flat"@,
            r.color@ == "44cc11"@,
            r.label@ == "bcr"@,
    {
        BadgeStyle {
            style: String::from_str("flat"),
            color: String::from_str("44cc11"),
            label: String::from_str("bcr"),
        }
    }
}

impl BadgeStyle {
    /// Resolves a colour request to the hex code the badge is drawn with.
    pub fn parse_color(color: &str) -> (r: String)
        ensures
            r@ == resolve_color(color@),
    {
        match table_color(color) {
            Some(hex) => String::from_str(hex),
            None => {
                if all_hex_digits(color) {
                    String::from_str(color)
                } else {
                    String::from_str("007ec6")
                }
            },
        }
    }
}

/// Pixel width of a text segment of `n` characters.
pub open spec fn seg_width(n: nat) -> nat {
    6 * n + 10
}

/// Opening of every badge: size, accessible label and title.
pub open spec fn svg_head(total: nat, label: Seq<char>, message: Seq<char>) -> Seq<char> {
    "<svg xmlns=\"http://www.w3.org/2000/svg\" width=\""@ + decimal(total)
        + "\" height=\"20\" role=\"img\" aria-label=\""@ + label + ": "@ + message
        + "\"><title>"@ + label + ": "@ + message + "</title>"@
}

/// The two background rectangles: dark gray label, coloured message.
pub open spec fn svg_rects(lw: nat, mw: nat, color: Seq<char>) -> Seq<char> {
    "<rect width=\""@ + decimal(lw) + "\" height=\"20\" fill=\"#555\"/><rect x=\""@
        + decimal(lw) + "\" width=\""@ + decimal(mw) + "\" height=\"20\" fill=\"#"@ + color
        + "\"/>"@
}

/// One text element at horizontal position `x`; `shadow` draws the
/// offset translucent copy.
pub open spec fn svg_text(x: nat, shadow: bool, text: Seq<char>) -> Seq<char> {
    "<text x=\""@ + decimal(x) + (if shadow {
        "\" y=\"15\" fill=\"#010101\" fill-opacity=\".3\">"@
    } else {
        "\" y=\"14\">"@
    }) + text + "</text>"@
}

pub open spec fn text_group_open() -> Seq<char> {
    "<g fill=\"#fff\" text-anchor=\"middle\" font-family=\"Verdana,Geneva,DejaVu Sans,sans-serif\" font-size=\"11\">"@
}

/// Square corners, no gradient, one copy of each text.
pub open spec fn flat_square_svg(label: Seq<char>, message: Seq<char>, color: Seq<char>) -> Seq<char> {
    let lw = seg_width(label.len());
    let mw = seg_width(message.len());
    svg_head(lw + mw, label, message) + "<g>"@ + svg_rects(lw, mw, color) + "</g>"@
        + text_group_open() + svg_text(lw / 2, false, label) + svg_text(lw + mw / 2, false, message)
        + "</g></svg>"@
}

/// Rounded clip, gradient overlay, and a shadow copy under each text.
pub open spec fn flat_svg(label: Seq<char>, message: Seq<char>, color: Seq<char>) -> Seq<char> {
    let lw = seg_width(label.len());
    let mw = seg_width(message.len());
    let total = lw + mw;
    svg_head(total, label, message)
        + "<linearGradient id=\"s\" x2=\"0\" y2=\"100%\"><stop offset=\"0\" stop-color=\"#bbb\" stop-opacity=\".1\"/><stop offset=\"1\" stop-opacity=\".1\"/></linearGradient><clipPath id=\"r\"><rect width=\""@
        + decimal(total) + "\" height=\"20\" rx=\"3\" fill=\"#fff\"/></clipPath><g clip-path=\"url(#r)\">"@
        + svg_rects(lw, mw, color) + "<rect width=\""@ + decimal(total)
        + "\" height=\"20\" fill=\"url(#s)\"/></g>"@ + text_group_open()
        + svg_text(lw / 2, true, label) + svg_text(lw / 2, false, label)
        + svg_text(lw + mw / 2, true, message) + svg_text(lw + mw / 2, false, message)
        + "</g></svg>"@
}

/// The badge document for `label` and `message` drawn in `style` and `color`.
pub open spec fn badge_svg(label: Seq<char>, message: Seq<char>, style: Seq<char>, color: Seq<char>) -> Seq<char> {
    if style == "flat-square"@ {
        flat_square_svg(label, message, color)
    } else {
        flat_svg(label, message, color)
    }
}

/// Rendering depends on the text of its inputs alone: equal labels,
/// messages, variant names and colours give the same document, byte for
/// byte, however often it is rendered.
pub proof fn lemma_render_deterministic(label: Seq<char>, message: Seq<char>, a: BadgeStyle, b: BadgeStyle)
    requires
        a.style@ == b.style@,
        a.color@ == b.color@,
    ensures
        badge_svg(label, message, a.style@, a.color@) == badge_svg(label, message, b.style@, b.color@),
{
}

fn push_head(out: &mut String, total: u128, label: &str, message: &str)
    ensures
        final(out)@ == old(out)@ + svg_head(total as nat, label@, message@),
{
    out.append("<svg xmlns=\"http://www.w3.org/2000/svg\" width=\"");
    append_decimal(out, total);
    out.append("\" height=\"20\" role=\"img\" aria-label=\"");
    out.append(label);
    out.append(": ");
    out.append(message);
    out.append("\"><title>");
    out.append(label);
    out.append(": ");
    out.append(message);
    out.append("</title>");
    assert(out@ =~= old(out)@ + svg_head(total as nat, label@, message@));
}

fn push_rects(out: &mut String, lw: u128, mw: u128, color: &str)
    ensures
        final(out)@ == old(out)@ + svg_rects(lw as nat, mw as nat, color@),
{
    out.append("<rect width=\"");
    append_decimal(out, lw);
    out.append("\" height=\"20\" fill=\"#555\"/><rect x=\"");
    append_decimal(out, lw);
    out.append("\" width=\"");
    append_decimal(out, mw);
    out.append("\" height=\"20\" fill=\"#");
    out.append(color);
    out.append("\"/>");
    assert(out@ =~= old(out)@ + svg_rects(lw as nat, mw as nat, color@));
}

fn push_text(out: &mut String, x: u128, shadow: bool, text: &str)
    ensures
        final(out)@ == old(out)@ + svg_text(x as nat, shadow, text@),
{
    out.append("<text x=\"");
    append_decimal(out, x);
    if shadow {
        out.append("\" y=\"15\" fill=\"#010101\" fill-opacity=\".3\">");
    } else {
        out.append("\" y=\"14\">");
    }
    out.append(text);
    out.append("</text>");
    assert(out@ =~= old(out)@ + svg_text(x as nat, shadow, text@));
}

fn width_of(s: &str) -> (r: u128)
    ensures
        r as nat == seg_width(s@.len()),
        r <= 6 * 0xffff_ffff_ffff_ffffu128 + 10,
{
    let n = s.unicode_len() as u128;
    n * 6 + 10
}

/// Renders the badge for `label` and `message` in `style`'s variant and colour.
pub fn generate_badge_svg(label: &str, message: &str, style: &BadgeStyle) -> (r: String)
    ensures
        r@ == badge_svg(label@, message@, style.style@, style.color@),
{
    let lw = width_of(label);
    let mw = width_of(message);
    let total = lw + mw;
    let lc = lw / 2;
    let mc = lw + mw / 2;
    let mut out = String::new();
    push_head(&mut out, total, label, message);
    if same_text(style.style.as_str(), "flat-square") {
        out.append("<g>");
        push_rects(&mut out, lw, mw, style.color.as_str());
        out.append("</g>");
        out.append("<g fill=\"#fff\" text-anchor=\"middle\" font-family=\"Verdana,Geneva,DejaVu Sans,sans-serif\" font-size=\"11\">");
        push_text(&mut out, lc, false, label);
        push_text(&mut out, mc, false, message);
        out.append("</g></svg>");
        assert(out@ =~= flat_square_svg(label@, message@, style.color@));
    } else {
        out.append("<linearGradient id=\"s\" x2=\"0\" y2=\"100%\"><stop offset=\"0\" stop-color=\"#bbb\" stop-opacity=\".1\"/><stop offset=\"1\" stop-opacity=\".1\"/></linearGradient><clipPath id=\"r\"><rect width=\"");
        append_decimal(&mut out, total);
        out.append("\" height=\"20\" rx=\"3\" fill=\"#fff\"/></clipPath><g clip-path=\"url(#r)\">");
        push_rects(&mut out, lw, mw, style.color.as_str());
        out.append("<rect width=\"");
        append_decimal(&mut out, total);
        out.append("\" height=\"20\" fill=\"url(#s)\"/></g>");
        out.append("<g fill=\"#fff\" text-anchor=\"middle\" font-family=\"Verdana,Geneva,DejaVu Sans,sans-serif\" font-size=\"11\">");
        push_text(&mut out, lc, true, label);
        push_text(&mut out, lc, false, label);
        push_text(&mut out, mc, true, message);
        push_text(&mut out, mc, false, message);
        out.append("</g></svg>");
        assert(out@ =~= flat_svg(label@, message@, style.color@));
    }
    out
}

} // verus!
