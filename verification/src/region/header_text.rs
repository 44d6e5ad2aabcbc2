//! The header's text fields as the writer cuts them and the reader gives
//! them back: the longest prefix of the text that fits the field without
//! cutting a character.

use vstd::prelude::*;
use vstd::utf8::{
    char_is_scalar, decode_utf8, decode_utf8_encode_utf8, decode_utf8_split, encode_scalar, encode_utf8,
    encode_utf8_decode_utf8, encode_utf8_valid_utf8, has_width_1_encoding, has_width_2_encoding,
    has_width_3_encoding, is_char_boundary, valid_utf8, valid_utf8_split,
};
use super::text::{field_text, is_text_end};
use super::writer::{text_cut, text_field, zeros};

verus! {

/// The text holds no NUL character.
pub open spec fn no_nul(s: Seq<char>) -> bool {
    forall|i: int| 0 <= i < s.len() ==> s[i] != '\0'
}

/// The text a field of `width` bytes keeps of `s`: its longest prefix whose
/// UTF-8 encoding fits, cut at a character boundary.
pub open spec fn cut_text(s: Seq<char>, width: int) -> Seq<char> {
    let e = encode_utf8(s);
    let end = choose|end: int| text_cut(e, width, end);
    decode_utf8(e.take(end))
}

/// Only one place cuts a text to a width.
proof fn lemma_cut_unique(b: Seq<u8>, width: int, e1: int, e2: int)
    requires
        text_cut(b, width, e1),
        text_cut(b, width, e2),
    ensures
        e1 == e2,
{
}

/// A scalar other than NUL encodes without zero bytes.
proof fn lemma_scalar_nonzero(v: u32)
    requires
        v != 0,
        v <= 0x10FFFF,
    ensures
        forall|i: int| 0 <= i < encode_scalar(v).len() ==> encode_scalar(v)[i] != 0,
{
    if has_width_1_encoding(v) {
        assert((v & 0x7F) as u8 != 0) by (bit_vector) requires 0 < v <= 0x7F;
    } else if has_width_2_encoding(v) {
        assert(0xC0 | ((v >> 6) & 0x1F) as u8 != 0) by (bit_vector);
        assert(0x80 | (v & 0x3F) as u8 != 0) by (bit_vector);
    } else if has_width_3_encoding(v) {
        assert(0xE0 | ((v >> 12) & 0x0F) as u8 != 0) by (bit_vector);
        assert(0x80 | ((v >> 6) & 0x3F) as u8 != 0) by (bit_vector);
        assert(0x80 | (v & 0x3F) as u8 != 0) by (bit_vector);
    } else {
        assert(0xF0 | ((v >> 18) & 0x7) as u8 != 0) by (bit_vector);
        assert(0x80 | ((v >> 12) & 0x3F) as u8 != 0) by (bit_vector);
        assert(0x80 | ((v >> 6) & 0x3F) as u8 != 0) by (bit_vector);
        assert(0x80 | (v & 0x3F) as u8 != 0) by (bit_vector);
    }
}

/// A text without NUL characters encodes without zero bytes.
proof fn lemma_encode_nonzero(s: Seq<char>)
    requires
        no_nul(s),
    ensures
        forall|i: int| 0 <= i < encode_utf8(s).len() ==> encode_utf8(s)[i] != 0,
    decreases s.len(),
{
    if s.len() > 0 {
        let v = s[0] as u32;
        char_is_scalar(s[0]);
        assert(s[0] != '\0');
        assert(v != 0) by {
            if v == 0 {
                vstd::utf8::char_u32_cast(s[0], v);
                assert((0u32 as char) == '\0');
            }
        }
        lemma_scalar_nonzero(v);
        lemma_encode_nonzero(s.drop_first());
        let head = encode_scalar(v);
        let rest = encode_utf8(s.drop_first());
        assert(encode_utf8(s) == head + rest);
        assert forall|i: int| 0 <= i < encode_utf8(s).len() implies encode_utf8(s)[i] != 0 by {
            if i >= head.len() {
                assert(encode_utf8(s)[i] == rest[i - head.len()]);
            }
        }
    }
}

/// What the writer cuts of a text is a prefix of it whose encoding fits
/// the field.
pub proof fn cut_text_is_a_prefix(s: Seq<char>, width: int)
    requires
        width >= 0,
    ensures
        s.take(cut_text(s, width).len() as int) == cut_text(s, width),
        encode_utf8(cut_text(s, width)).len() <= width,
{
    let e = encode_utf8(s);
    encode_utf8_valid_utf8(s);
    lemma_cut_exists(e, width);
    let end = choose|end: int| text_cut(e, width, end);
    encode_utf8_valid_utf8(s);
    encode_utf8_decode_utf8(s);
    decode_utf8_split(e, end);
    valid_utf8_split(e, end);
    let p = decode_utf8(e.subrange(0, end));
    assert(e.take(end) == e.subrange(0, end));
    assert(s == p + decode_utf8(e.subrange(end, e.len() as int)));
    assert(s.take(p.len() as int) =~= p);
    decode_utf8_encode_utf8(e.subrange(0, end));
}

/// Some place cuts a valid text to a width: the last character boundary
/// within it.
proof fn lemma_cut_exists(b: Seq<u8>, width: int)
    requires
        width >= 0,
        valid_utf8(b),
    ensures
        exists|end: int| text_cut(b, width, end),
{
    vstd::utf8::is_char_boundary_start_end_of_seq(b);
    let top = if b.len() < width { b.len() as int } else { width };
    lemma_last_boundary(b, width, top);
}

/// Searching down from `k` finds the last character boundary at most
/// `width`.
proof fn lemma_last_boundary(b: Seq<u8>, width: int, k: int)
    requires
        0 <= k <= width,
        k <= b.len(),
        is_char_boundary(b, 0),
        forall|j: int| k < j <= width && j <= b.len() ==> !is_char_boundary(b, j),
    ensures
        exists|end: int| text_cut(b, width, end),
    decreases k,
{
    if is_char_boundary(b, k) {
        assert(text_cut(b, width, k));
    } else {
        lemma_last_boundary(b, width, k - 1);
    }
}

/// A field written with the cut of a NUL-free text reads back as that cut.
pub proof fn lemma_field_reads_back(s: Seq<char>, width: int, field: Seq<u8>)
    requires
        width >= 0,
        no_nul(s),
        text_field(s, width, field),
    ensures
        field_text(field) == cut_text(s, width),
{
    let e = encode_utf8(s);
    let end = choose|end: int| text_cut(e, width, end) && field == e.take(end) + zeros(width - end);
    let c = choose|end: int| text_cut(e, width, end);
    lemma_cut_unique(e, width, end, c);
    lemma_encode_nonzero(s);
    assert(field.len() == width);
    assert forall|i: int| 0 <= i < end implies field[i] != 0 by {
        assert(field[i] == e[i]);
    }
    assert(is_text_end(field, end));
    let t = choose|t: int| is_text_end(field, t);
    if t < end {
        assert(field[t] != 0);
    } else if end < t {
        assert(field[end] == 0);
    }
    assert(field.subrange(0, end) =~= e.take(end));
    encode_utf8_valid_utf8(s);
    valid_utf8_split(e, end);
    assert(e.take(end) == e.subrange(0, end));
}

} // verus!
