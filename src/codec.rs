//! Binary wire format of the catalog: protocol-buffer records with the
//! field layout below. Encoding writes fields in ascending order and
//! leaves empty ones out.
//!
//! - `ModuleVersion`: 1 version, 2 metadata (opaque bytes)
//! - `RepositoryMetadata`: 1 description, 2 homepage
//! - `Module`: 1 name, 2 versions (repeated), 3 repository metadata
//! - `Catalog`: 1 source url, 2 modules (repeated)
//!
//! Decoding reads fields in any order; for a text or bytes field the last
//! occurrence wins, repeated fields collect in order, occurrences of the
//! metadata field merge, and fields of other numbers are passed over.
//! A record is malformed where its fields are not well formed, where a
//! known field has another wire type than length-delimited, or where text
//! is not UTF-8.

use vstd::prelude::*;
use vstd::utf8::*;
use vstd::string::*;
use crate::wire::{copy_bytes, field_at, fields_of, key_at, le_value, read_text, varint_at, varint_width_from, span_view, split_fields, spans_view, FieldModel};
use crate::model::{
    modules_view, versions_view, Catalog, CatalogModel, MetadataModel, Module,
    ModuleModel, ModuleVersion, RepositoryMetadata, VersionModel,
};

verus! {

/// Key of field 1 with length-delimited wire type.
pub const KEY_1: u64 = 10;

/// Key of field 2 with length-delimited wire type.
pub const KEY_2: u64 = 18;

/// Key of field 3 with length-delimited wire type.
pub const KEY_3: u64 = 26;

/// Base-128 groups of `v`, least significant first, the high bit set on
/// all but the last.
pub open spec fn varint(v: nat) -> Seq<u8>
    decreases v,
{
    if v < 128 {
        seq![v as u8]
    } else {
        seq![(v % 128 + 128) as u8] + varint(v / 128)
    }
}

/// A length-delimited field: key, body length, body.
pub open spec fn msg_field(key: nat, body: Seq<u8>) -> Seq<u8> {
    varint(key) + varint(body.len()) + body
}

/// A text field, left out where the text is empty.
pub open spec fn str_field(key: nat, s: Seq<char>) -> Seq<u8> {
    if s.len() == 0 {
        Seq::empty()
    } else {
        msg_field(key, encode_utf8(s))
    }
}

/// A bytes field, left out where it is empty.
pub open spec fn bytes_field(key: nat, b: Seq<u8>) -> Seq<u8> {
    if b.len() == 0 {
        Seq::empty()
    } else {
        msg_field(key, b)
    }
}

/// A repeated message field, one length-delimited field per body.
pub open spec fn repeated(key: nat, bodies: Seq<Seq<u8>>) -> Seq<u8>
    decreases bodies.len(),
{
    if bodies.len() == 0 {
        Seq::empty()
    } else {
        repeated(key, bodies.drop_last()) + msg_field(key, bodies.last())
    }
}

/// Relies on `prost::encoding::encode_varint`, which appends the
/// base-128 groups of the value as `varint` states.
#[verifier::external_body]
fn put_varint(buf: &mut Vec<u8>, value: u64)
    ensures
        final(buf)@ == old(buf)@ + varint(value as nat),
{
    prost::encoding::encode_varint(value, buf)
}

/// Relies on `prost::encoding::encode_key`, which appends the varint of
/// `tag * 8 + 2`, the key of a length-delimited field.
#[verifier::external_body]
fn put_key(buf: &mut Vec<u8>, tag: u32)
    requires
        1 <= tag <= 3,
    ensures
        final(buf)@ == old(buf)@ + varint((tag * 8 + 2) as nat),
{
    prost::encoding::encode_key(tag, prost::encoding::WireType::LengthDelimited, buf)
}

fn put_bytes(out: &mut Vec<u8>, b: &[u8])
    ensures
        final(out)@ == old(out)@ + b@,
{
    let mut i: usize = 0;
    while i < b.len()
        invariant
            i <= b@.len(),
            out@ == old(out)@ + b@.take(i as int),
        decreases b@.len() - i,
    {
        out.push(b[i]);
        i = i + 1;
        assert(out@ =~= old(out)@ + b@.take(i as int));
    }
    assert(b@.take(i as int) =~= b@);
}

fn put_msg_field(out: &mut Vec<u8>, tag: u32, body: &[u8])
    requires
        1 <= tag <= 3,
    ensures
        final(out)@ == old(out)@ + msg_field((tag * 8 + 2) as nat, body@),
{
    put_key(out, tag);
    put_varint(out, body.len() as u64);
    put_bytes(out, body);
    assert(out@ =~= old(out)@ + msg_field((tag * 8 + 2) as nat, body@));
}

fn put_str_field(out: &mut Vec<u8>, tag: u32, s: &str)
    requires
        1 <= tag <= 3,
    ensures
        final(out)@ == old(out)@ + str_field((tag * 8 + 2) as nat, s@),
{
    if s.is_empty() {
        assert(out@ =~= old(out)@ + str_field((tag * 8 + 2) as nat, s@));
        return;
    }
    put_msg_field(out, tag, s.as_bytes());
}

/// Encoding of a module version.
pub open spec fn version_bytes(v: VersionModel) -> Seq<u8> {
    str_field(KEY_1 as nat, v.version) + bytes_field(KEY_2 as nat, v.metadata)
}

/// Encoding of repository metadata.
pub open spec fn metadata_bytes(md: MetadataModel) -> Seq<u8> {
    str_field(KEY_1 as nat, md.description) + str_field(KEY_2 as nat, md.homepage)
}

/// The metadata field of a module: absent where there is none.
pub open spec fn opt_metadata_bytes(md: Option<MetadataModel>) -> Seq<u8> {
    match md {
        Some(d) => msg_field(KEY_3 as nat, metadata_bytes(d)),
        None => Seq::empty(),
    }
}

pub open spec fn version_bodies(vs: Seq<VersionModel>) -> Seq<Seq<u8>> {
    vs.map_values(|v: VersionModel| version_bytes(v))
}

/// Encoding of a module.
pub open spec fn module_bytes(m: ModuleModel) -> Seq<u8> {
    str_field(KEY_1 as nat, m.name) + repeated(KEY_2 as nat, version_bodies(m.versions))
        + opt_metadata_bytes(m.repository_metadata)
}

pub open spec fn module_bodies(ms: Seq<ModuleModel>) -> Seq<Seq<u8>> {
    ms.map_values(|m: ModuleModel| module_bytes(m))
}

/// Encoding of a catalog.
pub open spec fn catalog_bytes(c: CatalogModel) -> Seq<u8> {
    str_field(KEY_1 as nat, c.source_url) + repeated(KEY_2 as nat, module_bodies(c.modules))
}

/// Binary encoding of a module version.
pub fn encode_version(v: &ModuleVersion) -> (r: Vec<u8>)
    ensures
        r@ == version_bytes(v@),
{
    let mut out: Vec<u8> = Vec::new();
    put_str_field(&mut out, 1, v.version.as_str());
    if v.metadata.len() > 0 {
        put_msg_field(&mut out, 2, v.metadata.as_slice());
    }
    assert(out@ =~= version_bytes(v@));
    out
}

fn encode_metadata(md: &RepositoryMetadata) -> (r: Vec<u8>)
    ensures
        r@ == metadata_bytes(md@),
{
    let mut out: Vec<u8> = Vec::new();
    put_str_field(&mut out, 1, md.description.as_str());
    put_str_field(&mut out, 2, md.homepage.as_str());
    assert(out@ =~= metadata_bytes(md@));
    out
}

/// Binary encoding of a module.
pub fn encode_module(m: &Module) -> (r: Vec<u8>)
    ensures
        r@ == module_bytes(m@),
{
    let mut out: Vec<u8> = Vec::new();
    put_str_field(&mut out, 1, m.name.as_str());
    let ghost head = out@;
    let mut i: usize = 0;
    while i < m.versions.len()
        invariant
            i <= m.versions@.len(),
            out@ == head + repeated(KEY_2 as nat, version_bodies(versions_view(m.versions@.take(i as int)))),
        decreases m.versions@.len() - i,
    {
        let body = encode_version(&m.versions[i]);
        put_msg_field(&mut out, 2, body.as_slice());
        proof {
            let vs = version_bodies(versions_view(m.versions@.take(i + 1)));
            assert(vs.drop_last() =~= version_bodies(versions_view(m.versions@.take(i as int))));
            assert(vs.last() == version_bytes(m.versions@[i as int]@));
        }
        i = i + 1;
        assert(out@ =~= head + repeated(KEY_2 as nat, version_bodies(versions_view(m.versions@.take(i as int)))));
    }
    assert(m.versions@.take(i as int) =~= m.versions@);
    match &m.repository_metadata {
        Some(md) => {
            let body = encode_metadata(md);
            put_msg_field(&mut out, 3, body.as_slice());
        },
        None => {},
    }
    assert(out@ =~= module_bytes(m@));
    out
}

/// Binary encoding of a catalog.
pub fn encode_catalog(c: &Catalog) -> (r: Vec<u8>)
    ensures
        r@ == catalog_bytes(c@),
{
    let mut out: Vec<u8> = Vec::new();
    put_str_field(&mut out, 1, c.source_url.as_str());
    let ghost head = out@;
    let mut i: usize = 0;
    while i < c.modules.len()
        invariant
            i <= c.modules@.len(),
            out@ == head + repeated(KEY_2 as nat, module_bodies(modules_view(c.modules@.take(i as int)))),
        decreases c.modules@.len() - i,
    {
        let body = encode_module(&c.modules[i]);
        put_msg_field(&mut out, 2, body.as_slice());
        proof {
            let ms = module_bodies(modules_view(c.modules@.take(i + 1)));
            assert(ms.drop_last() =~= module_bodies(modules_view(c.modules@.take(i as int))));
            assert(ms.last() == module_bytes(c.modules@[i as int]@));
        }
        i = i + 1;
        assert(out@ =~= head + repeated(KEY_2 as nat, module_bodies(modules_view(c.modules@.take(i as int)))));
    }
    assert(c.modules@.take(i as int) =~= c.modules@);
    assert(out@ =~= catalog_bytes(c@));
    out
}

/// A version after reading one more field.
pub open spec fn version_step(v: VersionModel, f: FieldModel) -> Option<VersionModel> {
    if f.tag == 1 {
        if f.wire == 2 && valid_utf8(f.body) {
            Some(VersionModel { version: decode_utf8(f.body), metadata: v.metadata })
        } else {
            None
        }
    } else if f.tag == 2 {
        if f.wire == 2 { Some(VersionModel { version: v.version, metadata: f.body }) } else { None }
    } else {
        Some(v)
    }
}

pub open spec fn version_fold(fs: Seq<FieldModel>) -> Option<VersionModel>
    decreases fs.len(),
{
    if fs.len() == 0 {
        Some(VersionModel { version: Seq::empty(), metadata: Seq::empty() })
    } else {
        match version_fold(fs.drop_last()) {
            Some(v) => version_step(v, fs.last()),
            None => None,
        }
    }
}

/// The version that a record holds; none where it is malformed.
pub open spec fn version_of_bytes(s: Seq<u8>) -> Option<VersionModel> {
    match fields_of(s) {
        Some(fs) => version_fold(fs),
        None => None,
    }
}

/// Repository metadata after reading one more field.
pub open spec fn metadata_step(d: MetadataModel, f: FieldModel) -> Option<MetadataModel> {
    if f.tag == 1 {
        if f.wire == 2 && valid_utf8(f.body) {
            Some(MetadataModel { description: decode_utf8(f.body), homepage: d.homepage })
        } else {
            None
        }
    } else if f.tag == 2 {
        if f.wire == 2 && valid_utf8(f.body) {
            Some(MetadataModel { description: d.description, homepage: decode_utf8(f.body) })
        } else {
            None
        }
    } else {
        Some(d)
    }
}

pub open spec fn metadata_fold(fs: Seq<FieldModel>) -> Option<MetadataModel>
    decreases fs.len(),
{
    if fs.len() == 0 {
        Some(MetadataModel { description: Seq::empty(), homepage: Seq::empty() })
    } else {
        match metadata_fold(fs.drop_last()) {
            Some(d) => metadata_step(d, fs.last()),
            None => None,
        }
    }
}

/// The repository metadata that a record holds; none where it is malformed.
pub open spec fn metadata_of_bytes(s: Seq<u8>) -> Option<MetadataModel> {
    match fields_of(s) {
        Some(fs) => metadata_fold(fs),
        None => None,
    }
}

/// A module being read: its name and versions so far, and the bodies of
/// its metadata fields joined, as occurrences of a message field merge.
pub struct ModuleAcc {
    pub name: Seq<char>,
    pub versions: Seq<VersionModel>,
    pub meta: Option<Seq<u8>>,
}

pub open spec fn module_step(a: ModuleAcc, f: FieldModel) -> Option<ModuleAcc> {
    if f.tag == 1 {
        if f.wire == 2 && valid_utf8(f.body) {
            Some(ModuleAcc { name: decode_utf8(f.body), versions: a.versions, meta: a.meta })
        } else {
            None
        }
    } else if f.tag == 2 {
        if f.wire == 2 {
            match version_of_bytes(f.body) {
                Some(v) => Some(ModuleAcc { name: a.name, versions: a.versions.push(v), meta: a.meta }),
                None => None,
            }
        } else {
            None
        }
    } else if f.tag == 3 {
        if f.wire == 2 {
            let before = match a.meta { Some(b) => b, None => Seq::empty() };
            Some(ModuleAcc { name: a.name, versions: a.versions, meta: Some(before + f.body) })
        } else {
            None
        }
    } else {
        Some(a)
    }
}

pub open spec fn module_fold(fs: Seq<FieldModel>) -> Option<ModuleAcc>
    decreases fs.len(),
{
    if fs.len() == 0 {
        Some(ModuleAcc { name: Seq::empty(), versions: Seq::empty(), meta: None })
    } else {
        match module_fold(fs.drop_last()) {
            Some(a) => module_step(a, fs.last()),
            None => None,
        }
    }
}

/// The module that a record holds; none where it is malformed.
pub open spec fn module_of_bytes(s: Seq<u8>) -> Option<ModuleModel> {
    match fields_of(s) {
        Some(fs) => match module_fold(fs) {
            Some(a) => match a.meta {
                None => Some(ModuleModel { name: a.name, versions: a.versions, repository_metadata: None }),
                Some(b) => match metadata_of_bytes(b) {
                    Some(d) => Some(ModuleModel { name: a.name, versions: a.versions, repository_metadata: Some(d) }),
                    None => None,
                },
            },
            None => None,
        },
        None => None,
    }
}

pub open spec fn catalog_step(c: CatalogModel, f: FieldModel) -> Option<CatalogModel> {
    if f.tag == 1 {
        if f.wire == 2 && valid_utf8(f.body) {
            Some(CatalogModel { source_url: decode_utf8(f.body), modules: c.modules })
        } else {
            None
        }
    } else if f.tag == 2 {
        if f.wire == 2 {
            match module_of_bytes(f.body) {
                Some(m) => Some(CatalogModel { source_url: c.source_url, modules: c.modules.push(m) }),
                None => None,
            }
        } else {
            None
        }
    } else {
        Some(c)
    }
}

pub open spec fn catalog_fold(fs: Seq<FieldModel>) -> Option<CatalogModel>
    decreases fs.len(),
{
    if fs.len() == 0 {
        Some(CatalogModel { source_url: Seq::empty(), modules: Seq::empty() })
    } else {
        match catalog_fold(fs.drop_last()) {
            Some(c) => catalog_step(c, fs.last()),
            None => None,
        }
    }
}

/// The catalog that a record holds; none where it is malformed.
pub open spec fn catalog_of_bytes(s: Seq<u8>) -> Option<CatalogModel> {
    match fields_of(s) {
        Some(fs) => catalog_fold(fs),
        None => None,
    }
}

proof fn lemma_version_fold_none(fs: Seq<FieldModel>, k: int)
    requires
        0 <= k <= fs.len(),
        version_fold(fs.take(k)) is None,
    ensures
        version_fold(fs) is None,
    decreases fs.len(),
{
    if k == fs.len() {
        assert(fs.take(k) =~= fs);
    } else {
        assert(fs.drop_last().take(k) =~= fs.take(k));
        lemma_version_fold_none(fs.drop_last(), k);
    }
}

proof fn lemma_metadata_fold_none(fs: Seq<FieldModel>, k: int)
    requires
        0 <= k <= fs.len(),
        metadata_fold(fs.take(k)) is None,
    ensures
        metadata_fold(fs) is None,
    decreases fs.len(),
{
    if k == fs.len() {
        assert(fs.take(k) =~= fs);
    } else {
        assert(fs.drop_last().take(k) =~= fs.take(k));
        lemma_metadata_fold_none(fs.drop_last(), k);
    }
}

proof fn lemma_module_fold_none(fs: Seq<FieldModel>, k: int)
    requires
        0 <= k <= fs.len(),
        module_fold(fs.take(k)) is None,
    ensures
        module_fold(fs) is None,
    decreases fs.len(),
{
    if k == fs.len() {
        assert(fs.take(k) =~= fs);
    } else {
        assert(fs.drop_last().take(k) =~= fs.take(k));
        lemma_module_fold_none(fs.drop_last(), k);
    }
}

proof fn lemma_catalog_fold_none(fs: Seq<FieldModel>, k: int)
    requires
        0 <= k <= fs.len(),
        catalog_fold(fs.take(k)) is None,
    ensures
        catalog_fold(fs) is None,
    decreases fs.len(),
{
    if k == fs.len() {
        assert(fs.take(k) =~= fs);
    } else {
        assert(fs.drop_last().take(k) =~= fs.take(k));
        lemma_catalog_fold_none(fs.drop_last(), k);
    }
}

pub open spec fn opt_version_view(r: Option<ModuleVersion>) -> Option<VersionModel> {
    match r {
        Some(v) => Some(v@),
        None => None,
    }
}

fn decode_version_at(buf: &[u8], start: usize, end: usize) -> (r: Option<ModuleVersion>)
    requires
        start <= end <= buf@.len(),
    ensures
        opt_version_view(r) == version_of_bytes(buf@.subrange(start as int, end as int)),
{
    let spans = match split_fields(buf, start, end) {
        Some(sp) => sp,
        None => return None,
    };
    let ghost fs = spans_view(buf@, spans@);
    let mut version = String::new();
    let mut metadata: Vec<u8> = Vec::new();
    let mut i: usize = 0;
    while i < spans.len()
        invariant
            i <= spans@.len(),
            fs == spans_view(buf@, spans@),
            fields_of(buf@.subrange(start as int, end as int)) == Some(fs),
            end <= buf@.len(),
            forall|j: int| 0 <= j < spans@.len() ==> start <= (#[trigger] spans@[j]).start <= spans@[j].end <= end,
            version_fold(fs.take(i as int)) == Some(VersionModel { version: version@, metadata: metadata@ }),
        decreases spans@.len() - i,
    {
        let sp = &spans[i];
        proof {
            assert(fs.take(i + 1).drop_last() =~= fs.take(i as int));
            assert(fs.take(i + 1).last() == fs[i as int]);
            assert(fs[i as int] == span_view(buf@, *sp));
        }
        if sp.tag == 1 {
            if sp.wire != 2 {
                proof { lemma_version_fold_none(fs, i + 1); }
                return None;
            }
            match read_text(buf, sp.start, sp.end) {
                Some(t) => { version = t; },
                None => {
                    proof { lemma_version_fold_none(fs, i + 1); }
                    return None;
                },
            }
        } else if sp.tag == 2 {
            if sp.wire != 2 {
                proof { lemma_version_fold_none(fs, i + 1); }
                return None;
            }
            metadata = copy_bytes(buf, sp.start, sp.end);
        }
        i = i + 1;
    }
    assert(fs.take(i as int) =~= fs);
    Some(ModuleVersion { version, metadata })
}

pub open spec fn opt_metadata_view(r: Option<RepositoryMetadata>) -> Option<MetadataModel> {
    match r {
        Some(d) => Some(d@),
        None => None,
    }
}

fn decode_metadata_at(buf: &[u8], start: usize, end: usize) -> (r: Option<RepositoryMetadata>)
    requires
        start <= end <= buf@.len(),
    ensures
        opt_metadata_view(r) == metadata_of_bytes(buf@.subrange(start as int, end as int)),
{
    let spans = match split_fields(buf, start, end) {
        Some(sp) => sp,
        None => return None,
    };
    let ghost fs = spans_view(buf@, spans@);
    let mut description = String::new();
    let mut homepage = String::new();
    let mut i: usize = 0;
    while i < spans.len()
        invariant
            i <= spans@.len(),
            fs == spans_view(buf@, spans@),
            fields_of(buf@.subrange(start as int, end as int)) == Some(fs),
            end <= buf@.len(),
            forall|j: int| 0 <= j < spans@.len() ==> start <= (#[trigger] spans@[j]).start <= spans@[j].end <= end,
            metadata_fold(fs.take(i as int)) == Some(MetadataModel { description: description@, homepage: homepage@ }),
        decreases spans@.len() - i,
    {
        let sp = &spans[i];
        proof {
            assert(fs.take(i + 1).drop_last() =~= fs.take(i as int));
            assert(fs.take(i + 1).last() == fs[i as int]);
            assert(fs[i as int] == span_view(buf@, *sp));
        }
        if sp.tag == 1 || sp.tag == 2 {
            if sp.wire != 2 {
                proof { lemma_metadata_fold_none(fs, i + 1); }
                return None;
            }
            match read_text(buf, sp.start, sp.end) {
                Some(t) => {
                    if sp.tag == 1 { description = t; } else { homepage = t; }
                },
                None => {
                    proof { lemma_metadata_fold_none(fs, i + 1); }
                    return None;
                },
            }
        }
        i = i + 1;
    }
    assert(fs.take(i as int) =~= fs);
    Some(RepositoryMetadata { description, homepage })
}

pub open spec fn opt_module_view(r: Option<Module>) -> Option<ModuleModel> {
    match r {
        Some(m) => Some(m@),
        None => None,
    }
}

#[verifier::rlimit(80)]
fn decode_module_at(buf: &[u8], start: usize, end: usize) -> (r: Option<Module>)
    requires
        start <= end <= buf@.len(),
    ensures
        opt_module_view(r) == module_of_bytes(buf@.subrange(start as int, end as int)),
{
    let spans = match split_fields(buf, start, end) {
        Some(sp) => sp,
        None => return None,
    };
    let ghost fs = spans_view(buf@, spans@);
    let mut name = String::new();
    let mut versions: Vec<ModuleVersion> = Vec::new();
    let mut meta: Option<Vec<u8>> = None;
    let mut i: usize = 0;
    assert(versions_view(versions@) =~= Seq::<VersionModel>::empty());
    assert(fs.take(0) =~= Seq::<FieldModel>::empty());
    while i < spans.len()
        invariant
            i <= spans@.len(),
            fs == spans_view(buf@, spans@),
            fields_of(buf@.subrange(start as int, end as int)) == Some(fs),
            end <= buf@.len(),
            forall|j: int| 0 <= j < spans@.len() ==> start <= (#[trigger] spans@[j]).start <= spans@[j].end <= end,
            module_fold(fs.take(i as int)) == Some(ModuleAcc {
                name: name@,
                versions: versions_view(versions@),
                meta: match meta { Some(b) => Some(b@), None => None },
            }),
        decreases spans@.len() - i,
    {
        let sp = &spans[i];
        proof {
            assert(fs.take(i + 1).drop_last() =~= fs.take(i as int));
            assert(fs.take(i + 1).last() == fs[i as int]);
            assert(fs[i as int] == span_view(buf@, *sp));
        }
        if sp.tag == 1 {
            if sp.wire != 2 {
                proof { lemma_module_fold_none(fs, i + 1); }
                return None;
            }
            match read_text(buf, sp.start, sp.end) {
                Some(t) => { name = t; },
                None => {
                    proof { lemma_module_fold_none(fs, i + 1); }
                    return None;
                },
            }
        } else if sp.tag == 2 {
            if sp.wire != 2 {
                proof { lemma_module_fold_none(fs, i + 1); }
                return None;
            }
            match decode_version_at(buf, sp.start, sp.end) {
                Some(v) => {
                    let ghost before = versions@;
                    versions.push(v);
                    assert(versions_view(versions@) =~= versions_view(before).push(v@));
                },
                None => {
                    proof { lemma_module_fold_none(fs, i + 1); }
                    return None;
                },
            }
        } else if sp.tag == 3 {
            if sp.wire != 2 {
                proof { lemma_module_fold_none(fs, i + 1); }
                return None;
            }
            let body = copy_bytes(buf, sp.start, sp.end);
            let mut joined = match meta {
                Some(b) => b,
                None => Vec::new(),
            };
            let ghost before = joined@;
            let mut k: usize = 0;
            while k < body.len()
                invariant
                    k <= body@.len(),
                    joined@ == before + body@.take(k as int),
                decreases body@.len() - k,
            {
                joined.push(body[k]);
                k = k + 1;
                assert(joined@ =~= before + body@.take(k as int));
            }
            assert(body@.take(k as int) =~= body@);
            meta = Some(joined);
        }
        i = i + 1;
    }
    assert(fs.take(i as int) =~= fs);
    let repository_metadata = match meta {
        None => None,
        Some(b) => match decode_metadata_at(b.as_slice(), 0, b.len()) {
            Some(d) => {
                assert(b@.subrange(0, b@.len() as int) =~= b@);
                Some(d)
            },
            None => {
                assert(b@.subrange(0, b@.len() as int) =~= b@);
                return None;
            },
        },
    };
    Some(Module { name, versions, repository_metadata })
}

pub open spec fn opt_catalog_view(r: Option<Catalog>) -> Option<CatalogModel> {
    match r {
        Some(c) => Some(c@),
        None => None,
    }
}

#[verifier::rlimit(80)]
fn decode_catalog_at(buf: &[u8], start: usize, end: usize) -> (r: Option<Catalog>)
    requires
        start <= end <= buf@.len(),
    ensures
        opt_catalog_view(r) == catalog_of_bytes(buf@.subrange(start as int, end as int)),
{
    let spans = match split_fields(buf, start, end) {
        Some(sp) => sp,
        None => return None,
    };
    let ghost fs = spans_view(buf@, spans@);
    let mut source_url = String::new();
    let mut modules: Vec<Module> = Vec::new();
    let mut i: usize = 0;
    assert(modules_view(modules@) =~= Seq::<ModuleModel>::empty());
    assert(fs.take(0) =~= Seq::<FieldModel>::empty());
    while i < spans.len()
        invariant
            i <= spans@.len(),
            fs == spans_view(buf@, spans@),
            fields_of(buf@.subrange(start as int, end as int)) == Some(fs),
            end <= buf@.len(),
            forall|j: int| 0 <= j < spans@.len() ==> start <= (#[trigger] spans@[j]).start <= spans@[j].end <= end,
            catalog_fold(fs.take(i as int)) == Some(CatalogModel { source_url: source_url@, modules: modules_view(modules@) }),
        decreases spans@.len() - i,
    {
        let sp = &spans[i];
        proof {
            assert(fs.take(i + 1).drop_last() =~= fs.take(i as int));
            assert(fs.take(i + 1).last() == fs[i as int]);
            assert(fs[i as int] == span_view(buf@, *sp));
        }
        if sp.tag == 1 {
            if sp.wire != 2 {
                proof { lemma_catalog_fold_none(fs, i + 1); }
                return None;
            }
            match read_text(buf, sp.start, sp.end) {
                Some(t) => { source_url = t; },
                None => {
                    proof { lemma_catalog_fold_none(fs, i + 1); }
                    return None;
                },
            }
        } else if sp.tag == 2 {
            if sp.wire != 2 {
                proof { lemma_catalog_fold_none(fs, i + 1); }
                return None;
            }
            match decode_module_at(buf, sp.start, sp.end) {
                Some(m) => {
                    let ghost before = modules@;
                    modules.push(m);
                    assert(modules_view(modules@) =~= modules_view(before).push(m@));
                },
                None => {
                    proof { lemma_catalog_fold_none(fs, i + 1); }
                    return None;
                },
            }
        }
        i = i + 1;
    }
    assert(fs.take(i as int) =~= fs);
    Some(Catalog { source_url, modules })
}

/// Decodes a module record; none exactly where it is malformed.
pub fn decode_module(bytes: &[u8]) -> (r: Option<Module>)
    ensures
        opt_module_view(r) == module_of_bytes(bytes@),
{
    assert(bytes@.subrange(0, bytes@.len() as int) =~= bytes@);
    decode_module_at(bytes, 0, bytes.len())
}

/// Decodes a catalog record; none exactly where it is malformed.
pub fn decode_catalog(bytes: &[u8]) -> (r: Option<Catalog>)
    ensures
        opt_catalog_view(r) == catalog_of_bytes(bytes@),
{
    assert(bytes@.subrange(0, bytes@.len() as int) =~= bytes@);
    decode_catalog_at(bytes, 0, bytes.len())
}

/// Largest value, plus one, whose varint still fits when `i` bytes
/// came before it: `2^64 / 128^i`.
spec fn varint_room(i: nat) -> nat {
    if i == 0 { 0x1_0000_0000_0000_0000 }
    else if i == 1 { 0x200_0000_0000_0000 }
    else if i == 2 { 0x4_0000_0000_0000 }
    else if i == 3 { 0x800_0000_0000 }
    else if i == 4 { 0x10_0000_0000 }
    else if i == 5 { 0x2000_0000 }
    else if i == 6 { 0x40_0000 }
    else if i == 7 { 0x8000 }
    else if i == 8 { 0x100 }
    else if i == 9 { 2 }
    else { 0 }
}

proof fn lemma_varint_width(v: nat, r: Seq<u8>, i: nat)
    requires
        i < 10,
        v < varint_room(i),
    ensures
        varint_width_from(varint(v) + r, i) == Some(varint(v).len()),
    decreases v,
{
    let s = varint(v) + r;
    if v < 128 {
        assert(s[0] == v as u8);
    } else {
        assert(i < 9);
        assert(v / 128 < varint_room(i + 1)) by (nonlinear_arith)
            requires
                v < varint_room(i),
                varint_room(i) == 128 * varint_room(i + 1),
        {
        }
        lemma_varint_width(v / 128, r, i + 1);
        assert(s.drop_first() =~= varint(v / 128) + r);
        assert(s[0] >= 128);
    }
}

proof fn lemma_varint_value(v: nat)
    ensures
        le_value(varint(v)) == v,
    decreases v,
{
    if v >= 128 {
        lemma_varint_value(v / 128);
        let s = varint(v);
        assert(s.drop_first() =~= varint(v / 128));
        assert(s[0] % 128 == v % 128);
        assert(v % 128 + 128 * (v / 128) == v) by (nonlinear_arith);
        assert(le_value(s) == (s[0] % 128) as nat + 128 * le_value(s.drop_first()));
    } else {
        let s = varint(v);
        assert(s.drop_first() =~= Seq::<u8>::empty());
        assert(le_value(Seq::<u8>::empty()) == 0);
        assert(s[0] % 128 == v);
        assert(le_value(s) == (s[0] % 128) as nat + 128 * le_value(s.drop_first()));
    }
}

/// The reader takes the varint that the writer wrote back as it was.
proof fn lemma_varint_read(v: nat, r: Seq<u8>)
    requires
        v < 0x1_0000_0000_0000_0000,
    ensures
        varint_at(varint(v) + r) == Some((v, varint(v).len())),
{
    lemma_varint_width(v, r, 0);
    lemma_varint_value(v);
    assert((varint(v) + r).take(varint(v).len() as int) =~= varint(v));
}

/// A length-delimited field written with key 10, 18 or 26 is read back
/// as that one field, followed by whatever comes after it.
proof fn lemma_msg_field_read(key: nat, body: Seq<u8>, rest: Seq<u8>)
    requires
        key == 10 || key == 18 || key == 26,
        body.len() < 0x1_0000_0000_0000_0000,
        fields_of(rest) is Some,
    ensures
        fields_of(msg_field(key, body) + rest)
            == Some(seq![FieldModel { tag: key / 8, wire: 2, body }] + fields_of(rest)->0),
{
    let s = msg_field(key, body) + rest;
    let after_key = varint(body.len()) + body + rest;
    assert(varint(key) == seq![key as u8]);
    assert(s =~= varint(key) + after_key);
    lemma_varint_read(key, after_key);
    assert(key_at(s) == Some((key / 8, 2nat, 1nat)));
    assert(s.skip(1) =~= after_key);
    lemma_varint_read(body.len(), body + rest);
    assert(after_key =~= varint(body.len()) + (body + rest));
    let lw = varint(body.len()).len();
    assert(after_key.subrange(lw as int, (lw + body.len()) as int) =~= body);
    let f = FieldModel { tag: key / 8, wire: 2, body };
    assert(field_at(s) == Some((f, 1 + lw + body.len())));
    assert(s.skip((1 + lw + body.len()) as int) =~= rest);
}

pub open spec fn field_of(key: nat, body: Seq<u8>) -> FieldModel {
    FieldModel { tag: key / 8, wire: 2, body }
}

/// The fields that `str_field` writes.
pub open spec fn text_fields(key: nat, t: Seq<char>) -> Seq<FieldModel> {
    if t.len() == 0 { Seq::empty() } else { seq![field_of(key, encode_utf8(t))] }
}

/// The fields that `bytes_field` writes.
pub open spec fn blob_fields(key: nat, b: Seq<u8>) -> Seq<FieldModel> {
    if b.len() == 0 { Seq::empty() } else { seq![field_of(key, b)] }
}

/// The fields that `repeated` writes.
pub open spec fn list_fields(key: nat, bodies: Seq<Seq<u8>>) -> Seq<FieldModel> {
    bodies.map_values(|b: Seq<u8>| field_of(key, b))
}

proof fn lemma_text_read(key: nat, t: Seq<char>, rest: Seq<u8>)
    requires
        key == 10 || key == 18 || key == 26,
        (str_field(key, t) + rest).len() < 0x1_0000_0000_0000_0000,
        fields_of(rest) is Some,
    ensures
        fields_of(str_field(key, t) + rest) == Some(text_fields(key, t) + fields_of(rest)->0),
{
    if t.len() == 0 {
        assert(str_field(key, t) + rest =~= rest);
        assert(text_fields(key, t) + fields_of(rest)->0 =~= fields_of(rest)->0);
    } else {
        lemma_msg_field_read(key, encode_utf8(t), rest);
    }
}

proof fn lemma_blob_read(key: nat, b: Seq<u8>, rest: Seq<u8>)
    requires
        key == 10 || key == 18 || key == 26,
        (bytes_field(key, b) + rest).len() < 0x1_0000_0000_0000_0000,
        fields_of(rest) is Some,
    ensures
        fields_of(bytes_field(key, b) + rest) == Some(blob_fields(key, b) + fields_of(rest)->0),
{
    if b.len() == 0 {
        assert(bytes_field(key, b) + rest =~= rest);
        assert(blob_fields(key, b) + fields_of(rest)->0 =~= fields_of(rest)->0);
    } else {
        lemma_msg_field_read(key, b, rest);
    }
}

#[verifier::rlimit(50)]
proof fn lemma_list_read(key: nat, bodies: Seq<Seq<u8>>, rest: Seq<u8>)
    requires
        key == 10 || key == 18 || key == 26,
        (repeated(key, bodies) + rest).len() < 0x1_0000_0000_0000_0000,
        fields_of(rest) is Some,
    ensures
        fields_of(repeated(key, bodies) + rest) == Some(list_fields(key, bodies) + fields_of(rest)->0),
    decreases bodies.len(),
{
    if bodies.len() == 0 {
        assert(repeated(key, bodies) + rest =~= rest);
        assert(list_fields(key, bodies) + fields_of(rest)->0 =~= fields_of(rest)->0);
    } else {
        let dl = bodies.drop_last();
        let tail = msg_field(key, bodies.last()) + rest;
        lemma_msg_field_read(key, bodies.last(), rest);
        assert(repeated(key, bodies) + rest =~= repeated(key, dl) + tail);
        lemma_list_read(key, dl, tail);
        assert(list_fields(key, bodies) + fields_of(rest)->0
            =~= list_fields(key, dl) + (seq![field_of(key, bodies.last())] + fields_of(rest)->0));
    }
}

proof fn lemma_repeated_len(key: nat, bodies: Seq<Seq<u8>>, i: int)
    requires
        0 <= i < bodies.len(),
    ensures
        repeated(key, bodies).len() >= bodies[i].len(),
    decreases bodies.len(),
{
    if i < bodies.len() - 1 {
        lemma_repeated_len(key, bodies.drop_last(), i);
    }
}

proof fn lemma_utf8_back(t: Seq<char>)
    ensures
        valid_utf8(encode_utf8(t)),
        decode_utf8(encode_utf8(t)) == t,
{
    encode_utf8_valid_utf8(t);
    encode_utf8_decode_utf8(t);
}

/// Decoding the encoding of a version gives the version back.
proof fn lemma_version_round_trip(v: VersionModel)
    requires
        version_bytes(v).len() < 0x1_0000_0000_0000_0000,
    ensures
        version_of_bytes(version_bytes(v)) == Some(v),
{
    let e = Seq::<u8>::empty();
    assert(fields_of(e) == Some(Seq::<FieldModel>::empty()));
    lemma_blob_read(18, v.metadata, e);
    assert(bytes_field(18, v.metadata) + e =~= bytes_field(18, v.metadata));
    lemma_text_read(10, v.version, bytes_field(18, v.metadata));
    let a = text_fields(10, v.version);
    let b = blob_fields(18, v.metadata);
    assert(b + Seq::<FieldModel>::empty() =~= b);
    assert(fields_of(version_bytes(v)) == Some(a + b));
    let first = VersionModel { version: v.version, metadata: Seq::empty() };
    if v.version.len() == 0 {
        assert(v.version =~= Seq::<char>::empty());
        assert(a =~= Seq::<FieldModel>::empty());
    } else {
        lemma_utf8_back(v.version);
        assert(a.drop_last() =~= Seq::<FieldModel>::empty());
        assert(version_fold(a.drop_last()) == Some(VersionModel { version: Seq::empty(), metadata: Seq::empty() }));
        assert(a.last() == field_of(10, encode_utf8(v.version)));
        assert(version_step(VersionModel { version: Seq::empty(), metadata: Seq::empty() }, a.last()) == Some(first));
    }
    assert(version_fold(a) == Some(first));
    if v.metadata.len() == 0 {
        assert(v.metadata =~= Seq::<u8>::empty());
        assert(a + b =~= a);
    } else {
        assert((a + b).drop_last() =~= a);
    }
}

/// Decoding the encoding of repository metadata gives it back.
proof fn lemma_metadata_round_trip(d: MetadataModel)
    requires
        metadata_bytes(d).len() < 0x1_0000_0000_0000_0000,
    ensures
        metadata_of_bytes(metadata_bytes(d)) == Some(d),
{
    let e = Seq::<u8>::empty();
    assert(fields_of(e) == Some(Seq::<FieldModel>::empty()));
    lemma_text_read(18, d.homepage, e);
    assert(str_field(18, d.homepage) + e =~= str_field(18, d.homepage));
    lemma_text_read(10, d.description, str_field(18, d.homepage));
    let a = text_fields(10, d.description);
    let b = text_fields(18, d.homepage);
    assert(b + Seq::<FieldModel>::empty() =~= b);
    assert(fields_of(metadata_bytes(d)) == Some(a + b));
    let first = MetadataModel { description: d.description, homepage: Seq::empty() };
    if d.description.len() == 0 {
        assert(d.description =~= Seq::<char>::empty());
        assert(a =~= Seq::<FieldModel>::empty());
    } else {
        lemma_utf8_back(d.description);
        assert(a.drop_last() =~= Seq::<FieldModel>::empty());
        assert(metadata_fold(a.drop_last()) == Some(MetadataModel { description: Seq::empty(), homepage: Seq::empty() }));
        assert(a.last() == field_of(10, encode_utf8(d.description)));
        assert(metadata_step(MetadataModel { description: Seq::empty(), homepage: Seq::empty() }, a.last()) == Some(first));
    }
    assert(metadata_fold(a) == Some(first));
    if d.homepage.len() == 0 {
        assert(d.homepage =~= Seq::<char>::empty());
        assert(a + b =~= a);
    } else {
        lemma_utf8_back(d.homepage);
        assert((a + b).drop_last() =~= a);
    }
}

proof fn lemma_module_fold_versions(pre: Seq<FieldModel>, name: Seq<char>, vs: Seq<VersionModel>)
    requires
        module_fold(pre) == Some(ModuleAcc { name, versions: Seq::empty(), meta: None }),
        forall|i: int| 0 <= i < vs.len() ==> version_of_bytes(version_bytes(#[trigger] vs[i])) == Some(vs[i]),
    ensures
        module_fold(pre + list_fields(18, version_bodies(vs))) == Some(ModuleAcc { name, versions: vs, meta: None }),
    decreases vs.len(),
{
    let fs = pre + list_fields(18, version_bodies(vs));
    if vs.len() == 0 {
        assert(fs =~= pre);
        assert(vs =~= Seq::<VersionModel>::empty());
    } else {
        let dl = vs.drop_last();
        assert forall|i: int| 0 <= i < dl.len() implies version_of_bytes(version_bytes(#[trigger] dl[i])) == Some(dl[i]) by {
            assert(dl[i] == vs[i]);
        }
        lemma_module_fold_versions(pre, name, dl);
        assert(fs.drop_last() =~= pre + list_fields(18, version_bodies(dl)));
        assert(fs.last() == field_of(18, version_bytes(vs.last())));
        assert(version_of_bytes(version_bytes(vs[vs.len() - 1])) == Some(vs[vs.len() - 1]));
        assert(dl.push(vs.last()) =~= vs);
    }
}

/// The fields that the metadata part of a module's encoding holds.
pub open spec fn meta_fields(md: Option<MetadataModel>) -> Seq<FieldModel> {
    match md {
        Some(d) => seq![field_of(26, metadata_bytes(d))],
        None => Seq::empty(),
    }
}

/// The fields that a module's encoding holds.
pub open spec fn module_field_list(m: ModuleModel) -> Seq<FieldModel> {
    text_fields(10, m.name) + list_fields(18, version_bodies(m.versions)) + meta_fields(m.repository_metadata)
}

proof fn lemma_module_fields(m: ModuleModel)
    requires
        module_bytes(m).len() < 0x1_0000_0000_0000_0000,
    ensures
        fields_of(module_bytes(m)) == Some(module_field_list(m)),
{
    let e = Seq::<u8>::empty();
    let empty_fields = Seq::<FieldModel>::empty();
    assert(fields_of(e) == Some(empty_fields));
    let vb = version_bodies(m.versions);
    let ob = opt_metadata_bytes(m.repository_metadata);
    let of = meta_fields(m.repository_metadata);
    match m.repository_metadata {
        Some(d) => {
            lemma_msg_field_read(26, metadata_bytes(d), e);
            assert(ob + e =~= ob);
            assert(of + empty_fields =~= of);
        },
        None => {
            assert(ob =~= e);
        },
    }
    assert(fields_of(ob) == Some(of));
    lemma_list_read(18, vb, ob);
    assert(module_bytes(m) =~= str_field(10, m.name) + (repeated(18, vb) + ob));
    lemma_text_read(10, m.name, repeated(18, vb) + ob);
    assert(text_fields(10, m.name) + (list_fields(18, vb) + of) =~= module_field_list(m));
}

proof fn lemma_module_versions_back(m: ModuleModel)
    requires
        module_bytes(m).len() < 0x1_0000_0000_0000_0000,
    ensures
        forall|i: int| 0 <= i < m.versions.len() ==>
            version_of_bytes(version_bytes(#[trigger] m.versions[i])) == Some(m.versions[i]),
{
    let vb = version_bodies(m.versions);
    assert forall|i: int| 0 <= i < m.versions.len() implies
        version_of_bytes(version_bytes(#[trigger] m.versions[i])) == Some(m.versions[i]) by {
        lemma_repeated_len(18, vb, i);
        lemma_version_round_trip(m.versions[i]);
    }
}

proof fn lemma_module_name_fold(name: Seq<char>)
    ensures
        module_fold(text_fields(10, name)) == Some(ModuleAcc { name, versions: Seq::empty(), meta: None }),
{
    let t = text_fields(10, name);
    if name.len() == 0 {
        assert(name =~= Seq::<char>::empty());
        assert(t =~= Seq::<FieldModel>::empty());
    } else {
        lemma_utf8_back(name);
        assert(t.drop_last() =~= Seq::<FieldModel>::empty());
        assert(t.last() == field_of(10, encode_utf8(name)));
        let init = ModuleAcc { name: Seq::empty(), versions: Seq::empty(), meta: None };
        assert(module_fold(t.drop_last()) == Some(init));
        assert(module_step(init, t.last()) == Some(ModuleAcc { name, versions: Seq::empty(), meta: None }));
    }
    assert(module_fold(Seq::<FieldModel>::empty()) == Some(ModuleAcc { name: Seq::empty(), versions: Seq::empty(), meta: None }));
}

/// Round trip: decoding the encoding of a module gives back a module equal
/// in every field, for any module whose encoding fits in memory.
pub proof fn lemma_module_round_trip(m: ModuleModel)
    requires
        module_bytes(m).len() < 0x1_0000_0000_0000_0000,
    ensures
        module_of_bytes(module_bytes(m)) == Some(m),
{
    lemma_module_fields(m);
    lemma_module_versions_back(m);
    lemma_module_name_fold(m.name);
    let t = text_fields(10, m.name);
    let tl = t + list_fields(18, version_bodies(m.versions));
    lemma_module_fold_versions(t, m.name, m.versions);
    let of = meta_fields(m.repository_metadata);
    match m.repository_metadata {
        Some(d) => {
            assert((tl + of).drop_last() =~= tl);
            assert(Seq::<u8>::empty() + metadata_bytes(d) =~= metadata_bytes(d));
            assert(metadata_bytes(d).len() <= module_bytes(m).len());
            lemma_metadata_round_trip(d);
        },
        None => {
            assert(tl + of =~= tl);
        },
    }
}

proof fn lemma_catalog_fold_modules(pre: Seq<FieldModel>, url: Seq<char>, ms: Seq<ModuleModel>)
    requires
        catalog_fold(pre) == Some(CatalogModel { source_url: url, modules: Seq::empty() }),
        forall|i: int| 0 <= i < ms.len() ==> module_of_bytes(module_bytes(#[trigger] ms[i])) == Some(ms[i]),
    ensures
        catalog_fold(pre + list_fields(18, module_bodies(ms))) == Some(CatalogModel { source_url: url, modules: ms }),
    decreases ms.len(),
{
    let fs = pre + list_fields(18, module_bodies(ms));
    if ms.len() == 0 {
        assert(fs =~= pre);
        assert(ms =~= Seq::<ModuleModel>::empty());
    } else {
        let dl = ms.drop_last();
        assert forall|i: int| 0 <= i < dl.len() implies module_of_bytes(module_bytes(#[trigger] dl[i])) == Some(dl[i]) by {
            assert(dl[i] == ms[i]);
        }
        lemma_catalog_fold_modules(pre, url, dl);
        assert(fs.drop_last() =~= pre + list_fields(18, module_bodies(dl)));
        assert(fs.last() == field_of(18, module_bytes(ms.last())));
        assert(module_of_bytes(module_bytes(ms[ms.len() - 1])) == Some(ms[ms.len() - 1]));
        assert(dl.push(ms.last()) =~= ms);
    }
}

proof fn lemma_catalog_fields(c: CatalogModel)
    requires
        catalog_bytes(c).len() < 0x1_0000_0000_0000_0000,
    ensures
        fields_of(catalog_bytes(c)) == Some(text_fields(10, c.source_url) + list_fields(18, module_bodies(c.modules))),
{
    let e = Seq::<u8>::empty();
    let empty_fields = Seq::<FieldModel>::empty();
    assert(fields_of(e) == Some(empty_fields));
    let mb = module_bodies(c.modules);
    assert(repeated(18, mb) + e =~= repeated(18, mb));
    lemma_list_read(18, mb, e);
    assert(catalog_bytes(c) =~= str_field(10, c.source_url) + repeated(18, mb));
    lemma_text_read(10, c.source_url, repeated(18, mb));
    assert(list_fields(18, mb) + empty_fields =~= list_fields(18, mb));
}

proof fn lemma_catalog_modules_back(c: CatalogModel)
    requires
        catalog_bytes(c).len() < 0x1_0000_0000_0000_0000,
    ensures
        forall|i: int| 0 <= i < c.modules.len() ==>
            module_of_bytes(module_bytes(#[trigger] c.modules[i])) == Some(c.modules[i]),
{
    let mb = module_bodies(c.modules);
    assert forall|i: int| 0 <= i < c.modules.len() implies
        module_of_bytes(module_bytes(#[trigger] c.modules[i])) == Some(c.modules[i]) by {
        lemma_repeated_len(18, mb, i);
        lemma_module_round_trip(c.modules[i]);
    }
}

proof fn lemma_catalog_url_fold(url: Seq<char>)
    ensures
        catalog_fold(text_fields(10, url)) == Some(CatalogModel { source_url: url, modules: Seq::empty() }),
{
    let t = text_fields(10, url);
    if url.len() == 0 {
        assert(url =~= Seq::<char>::empty());
        assert(t =~= Seq::<FieldModel>::empty());
    } else {
        lemma_utf8_back(url);
        assert(t.drop_last() =~= Seq::<FieldModel>::empty());
        assert(t.last() == field_of(10, encode_utf8(url)));
        let init = CatalogModel { source_url: Seq::empty(), modules: Seq::empty() };
        assert(catalog_fold(t.drop_last()) == Some(init));
        assert(catalog_step(init, t.last()) == Some(CatalogModel { source_url: url, modules: Seq::empty() }));
    }
    assert(catalog_fold(Seq::<FieldModel>::empty()) == Some(CatalogModel { source_url: Seq::empty(), modules: Seq::empty() }));
}

/// Round trip: decoding the encoding of a catalog gives it back, for any
/// catalog whose encoding fits in memory.
pub proof fn lemma_catalog_round_trip(c: CatalogModel)
    requires
        catalog_bytes(c).len() < 0x1_0000_0000_0000_0000,
    ensures
        catalog_of_bytes(catalog_bytes(c)) == Some(c),
{
    lemma_catalog_fields(c);
    lemma_catalog_modules_back(c);
    lemma_catalog_url_fold(c.source_url);
    lemma_catalog_fold_modules(text_fields(10, c.source_url), c.source_url, c.modules);
}

} // verus!
