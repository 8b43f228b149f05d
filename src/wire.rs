//! Reading protocol-buffer records: field keys, varints and field
//! boundaries, as prost reads them, over a byte region.

use vstd::prelude::*;
use vstd::utf8::*;
use prost::encoding::WireType;

verus! {

/// Width of the varint at the front of `s` (reached after `i` bytes):
/// it ends at the first byte below 0x80, within ten bytes, and a tenth
/// byte may only be 0 or 1.
pub open spec fn varint_width_from(s: Seq<u8>, i: nat) -> Option<nat>
    decreases s.len(),
{
    if s.len() == 0 || i >= 10 {
        None
    } else if s[0] < 128 {
        if i == 9 && s[0] >= 2 { None } else { Some(1) }
    } else {
        match varint_width_from(s.drop_first(), i + 1) {
            Some(w) => Some(w + 1),
            None => None,
        }
    }
}

/// Value of base-128 groups, least significant first.
pub open spec fn le_value(s: Seq<u8>) -> nat
    decreases s.len(),
{
    if s.len() == 0 {
        0
    } else {
        (s[0] % 128) as nat + 128 * le_value(s.drop_first())
    }
}

/// Value and width of the varint at the front of `s`.
pub open spec fn varint_at(s: Seq<u8>) -> Option<(nat, nat)> {
    match varint_width_from(s, 0) {
        Some(w) => Some((le_value(s.take(w as int)), w)),
        None => None,
    }
}

/// Tag, wire type and width of the field key at the front of `s`.
pub open spec fn key_at(s: Seq<u8>) -> Option<(nat, nat, nat)> {
    match varint_at(s) {
        Some((k, w)) => if k <= u32::MAX && k % 8 <= 5 && k / 8 >= 1 {
            Some((k / 8, k % 8, w))
        } else {
            None
        },
        None => None,
    }
}

/// Width of a group value that starts at the front of `rest`, up to and
/// including its end key, as prost's `skip_field` passes over it.
pub uninterp spec fn group_width(rest: Seq<u8>, tag: nat) -> Option<nat>;

/// Width of a value of wire type `wire` at the front of `rest`.
pub open spec fn skip_width(rest: Seq<u8>, wire: nat, tag: nat) -> Option<nat> {
    if wire == 0 {
        match varint_at(rest) {
            Some((_, w)) => Some(w),
            None => None,
        }
    } else if wire == 1 {
        if rest.len() >= 8 { Some(8) } else { None }
    } else if wire == 2 {
        match varint_at(rest) {
            Some((n, w)) => if w + n <= rest.len() { Some(w + n) } else { None },
            None => None,
        }
    } else if wire == 3 {
        group_width(rest, tag)
    } else if wire == 5 {
        if rest.len() >= 4 { Some(4) } else { None }
    } else {
        None
    }
}

/// One field of a record. For a length-delimited field the body is its
/// content; for another wire type, the encoded value.
pub struct FieldModel {
    pub tag: nat,
    pub wire: nat,
    pub body: Seq<u8>,
}

/// The field at the front of `s` and its whole width.
pub open spec fn field_at(s: Seq<u8>) -> Option<(FieldModel, nat)> {
    match key_at(s) {
        None => None,
        Some((tag, wire, kw)) => {
            let rest = s.skip(kw as int);
            if wire == 2 {
                match varint_at(rest) {
                    Some((n, lw)) => if lw + n <= rest.len() {
                        Some((FieldModel { tag, wire, body: rest.subrange(lw as int, (lw + n) as int) }, kw + lw + n))
                    } else {
                        None
                    },
                    None => None,
                }
            } else {
                match skip_width(rest, wire, tag) {
                    Some(w) => if w <= rest.len() {
                        Some((FieldModel { tag, wire, body: rest.take(w as int) }, kw + w))
                    } else {
                        None
                    },
                    None => None,
                }
            }
        },
    }
}

/// The fields that `s` is made of, in order; none where `s` is not a
/// sequence of well-formed fields.
pub open spec fn fields_of(s: Seq<u8>) -> Option<Seq<FieldModel>>
    decreases s.len(),
{
    if s.len() == 0 {
        Some(Seq::empty())
    } else {
        match field_at(s) {
            Some((f, w)) => if 0 < w <= s.len() {
                match fields_of(s.skip(w as int)) {
                    Some(rest) => Some(seq![f] + rest),
                    None => None,
                }
            } else {
                None
            },
            None => None,
        }
    }
}

/// Relies on `prost::encoding::decode_key` over the bytes from `pos` to
/// `end`: it reads the key varint as `varint_at` states and accepts
/// exactly the keys that `key_at` accepts; it returns the tag, the wire
/// type's number and the count of bytes left after the key.
#[verifier::external_body]
fn read_key(input: &[u8], pos: usize, end: usize) -> (r: Option<(u32, u8, usize)>)
    requires
        pos <= end <= input@.len(),
    ensures
        r is Some <==> key_at(input@.subrange(pos as int, end as int)) is Some,
        r matches Some((t, w, rem)) ==> rem <= end - pos
            && key_at(input@.subrange(pos as int, end as int)) == Some((t as nat, w as nat, (end - pos - rem) as nat)),
{
    let mut rest = &input[pos..end];
    match prost::encoding::decode_key(&mut rest) {
        Ok((tag, WireType::Varint)) => Some((tag, 0, rest.len())),
        Ok((tag, WireType::SixtyFourBit)) => Some((tag, 1, rest.len())),
        Ok((tag, WireType::LengthDelimited)) => Some((tag, 2, rest.len())),
        Ok((tag, WireType::StartGroup)) => Some((tag, 3, rest.len())),
        Ok((tag, WireType::EndGroup)) => Some((tag, 4, rest.len())),
        Ok((tag, WireType::ThirtyTwoBit)) => Some((tag, 5, rest.len())),
        Err(_) => None,
    }
}

/// Relies on `prost::encoding::decode_varint` over the bytes from `pos`
/// to `end`: it accepts exactly what `varint_at` accepts and returns that
/// value and the count of bytes left after it.
#[verifier::external_body]
fn read_varint(input: &[u8], pos: usize, end: usize) -> (r: Option<(u64, usize)>)
    requires
        pos <= end <= input@.len(),
    ensures
        r is Some <==> varint_at(input@.subrange(pos as int, end as int)) is Some,
        r matches Some((v, rem)) ==> rem <= end - pos
            && varint_at(input@.subrange(pos as int, end as int)) == Some((v as nat, (end - pos - rem) as nat)),
{
    let mut rest = &input[pos..end];
    match prost::encoding::decode_varint(&mut rest) {
        Ok(v) => Some((v, rest.len())),
        Err(_) => None,
    }
}

/// Relies on `prost::encoding::skip_field` over the bytes from `pos` to
/// `end`, with a fresh decode context: it passes over a value of the given
/// wire type as `skip_width` states and returns the count of bytes left.
#[verifier::external_body]
fn skip_value(input: &[u8], pos: usize, end: usize, wire: u8, tag: u32) -> (r: Option<usize>)
    requires
        pos <= end <= input@.len(),
        wire <= 5,
    ensures
        r is Some <==> skip_width(input@.subrange(pos as int, end as int), wire as nat, tag as nat) is Some,
        r matches Some(rem) ==> rem <= end - pos
            && skip_width(input@.subrange(pos as int, end as int), wire as nat, tag as nat) == Some((end - pos - rem) as nat),
        wire == 3 ==> (r is Some <==> group_width(input@.subrange(pos as int, end as int), tag as nat) is Some),
{
    let wire_type = match wire {
        0 => WireType::Varint,
        1 => WireType::SixtyFourBit,
        2 => WireType::LengthDelimited,
        3 => WireType::StartGroup,
        4 => WireType::EndGroup,
        _ => WireType::ThirtyTwoBit,
    };
    let mut rest = &input[pos..end];
    match prost::encoding::skip_field(wire_type, tag, &mut rest, prost::encoding::DecodeContext::default()) {
        Ok(()) => Some(rest.len()),
        Err(_) => None,
    }
}

/// Relies on `String::from_utf8`: it accepts exactly the valid UTF-8
/// byte strings, and the text holds the characters they encode.
#[verifier::external_body]
fn text_from_utf8(bytes: Vec<u8>) -> (r: Option<String>)
    ensures
        r is Some <==> valid_utf8(bytes@),
        r matches Some(s) ==> s@ == decode_utf8(bytes@),
{
    String::from_utf8(bytes).ok()
}

/// Where one field lies in a buffer.
pub struct FieldSpan {
    pub tag: u32,
    pub wire: u8,
    pub start: usize,
    pub end: usize,
}

pub open spec fn span_view(buf: Seq<u8>, sp: FieldSpan) -> FieldModel {
    FieldModel { tag: sp.tag as nat, wire: sp.wire as nat, body: buf.subrange(sp.start as int, sp.end as int) }
}

pub open spec fn spans_view(buf: Seq<u8>, sps: Seq<FieldSpan>) -> Seq<FieldModel> {
    sps.map_values(|sp: FieldSpan| span_view(buf, sp))
}

/// The fields of the bytes from `start` to `end`.
pub fn split_fields(buf: &[u8], start: usize, end: usize) -> (r: Option<Vec<FieldSpan>>)
    requires
        start <= end <= buf@.len(),
    ensures
        r is Some <==> fields_of(buf@.subrange(start as int, end as int)) is Some,
        r matches Some(v) ==> fields_of(buf@.subrange(start as int, end as int)) == Some(spans_view(buf@, v@))
            && forall|i: int| 0 <= i < v@.len() ==> start <= (#[trigger] v@[i]).start <= v@[i].end <= end,
{
    let ghost region = buf@.subrange(start as int, end as int);
    let mut out: Vec<FieldSpan> = Vec::new();
    let mut pos: usize = start;
    while pos < end
        invariant
            start <= pos <= end <= buf@.len(),
            region == buf@.subrange(start as int, end as int),
            fields_of(region) is Some <==> fields_of(buf@.subrange(pos as int, end as int)) is Some,
            fields_of(buf@.subrange(pos as int, end as int)) matches Some(rest)
                ==> fields_of(region) == Some(spans_view(buf@, out@) + rest),
            forall|i: int| 0 <= i < out@.len() ==> start <= (#[trigger] out@[i]).start <= out@[i].end <= end,
        decreases end - pos,
    {
        let ghost rem = buf@.subrange(pos as int, end as int);
        let (tag, wire, after_key) = match read_key(buf, pos, end) {
            Some(k) => k,
            None => return None,
        };
        let kpos = end - after_key;
        let ghost rest = rem.skip(kpos - pos);
        assert(rest =~= buf@.subrange(kpos as int, end as int));
        let (bstart, bend) = if wire == 2 {
            let (n, after_len) = match read_varint(buf, kpos, end) {
                Some(x) => x,
                None => return None,
            };
            if n > after_len as u64 {
                return None;
            }
            let s = end - after_len;
            (s, s + n as usize)
        } else {
            let after = match skip_value(buf, kpos, end, wire, tag) {
                Some(x) => x,
                None => return None,
            };
            (kpos, end - after)
        };
        let ghost f = FieldSpan { tag, wire, start: bstart, end: bend };
        proof {
            let lw = (bstart - kpos) as int;
            if wire == 2 {
                assert(rest.subrange(lw, (bend - kpos) as int) =~= buf@.subrange(bstart as int, bend as int));
            } else {
                assert(rest.take((bend - kpos) as int) =~= buf@.subrange(bstart as int, bend as int));
            }
            assert(field_at(rem) == Some((span_view(buf@, f), (bend - pos) as nat)));
            assert(rem.skip(bend - pos) =~= buf@.subrange(bend as int, end as int));
        }
        let ghost old_out = out@;
        out.push(FieldSpan { tag, wire, start: bstart, end: bend });
        proof {
            assert(spans_view(buf@, out@) =~= spans_view(buf@, old_out) + seq![span_view(buf@, f)]);
            match fields_of(buf@.subrange(bend as int, end as int)) {
                Some(r2) => {
                    assert(spans_view(buf@, out@) + r2 =~= spans_view(buf@, old_out) + (seq![span_view(buf@, f)] + r2));
                },
                None => {},
            }
        }
        pos = bend;
    }
    proof {
        assert(buf@.subrange(pos as int, end as int) =~= Seq::<u8>::empty());
        assert(spans_view(buf@, out@) + Seq::<FieldModel>::empty() =~= spans_view(buf@, out@));
    }
    Some(out)
}

/// The text whose UTF-8 encoding is the bytes from `s` to `e`, if they are valid UTF-8.
pub fn read_text(buf: &[u8], s: usize, e: usize) -> (r: Option<String>)
    requires
        s <= e <= buf@.len(),
    ensures
        r is Some <==> valid_utf8(buf@.subrange(s as int, e as int)),
        r matches Some(t) ==> t@ == decode_utf8(buf@.subrange(s as int, e as int)),
{
    text_from_utf8(copy_bytes(buf, s, e))
}

/// The bytes from `s` to `e`.
pub fn copy_bytes(buf: &[u8], s: usize, e: usize) -> (r: Vec<u8>)
    requires
        s <= e <= buf@.len(),
    ensures
        r@ == buf@.subrange(s as int, e as int),
{
    let mut bytes: Vec<u8> = Vec::new();
    let mut i: usize = s;
    while i < e
        invariant
            s <= i <= e <= buf@.len(),
            bytes@ == buf@.subrange(s as int, i as int),
        decreases e - i,
    {
        bytes.push(buf[i]);
        i = i + 1;
        assert(bytes@ =~= buf@.subrange(s as int, i as int));
    }
    bytes
}

} // verus!
