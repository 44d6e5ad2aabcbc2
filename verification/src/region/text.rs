//! The header's fixed-width text fields: NUL-padded UTF-8.

use vstd::prelude::*;
use vstd::utf8::{decode_utf8, valid_utf8};

verus! {

/// `e` is where the text of a NUL-padded field `b` ends: its first NUL,
/// or its end.
pub open spec fn is_text_end(b: Seq<u8>, e: int) -> bool {
    &&& 0 <= e <= b.len()
    &&& forall|i: int| 0 <= i < e ==> b[i] != 0
    &&& e < b.len() ==> b[e] == 0
}

/// Where the text of `b` ends.
pub fn nul_prefix_len(b: &[u8]) -> (e: usize)
    ensures
        is_text_end(b@, e as int),
{
    let mut e: usize = 0;
    while e < b.len()
        invariant
            e <= b@.len(),
            forall|i: int| 0 <= i < e ==> b@[i] != 0,
        decreases b@.len() - e,
    {
        if b[e] == 0 {
            return e;
        }
        e += 1;
    }
    e
}

/// What `String::from_utf8_lossy` makes of the bytes: their text where
/// they are valid UTF-8, replacement characters standing for the rest.
pub uninterp spec fn lossy_of(b: Seq<u8>) -> Seq<char>;

/// `String::from_utf8_lossy` of std, made owned: the text named
/// [`lossy_of`], which for valid UTF-8 bytes is the text they encode.
#[verifier::external_body]
fn utf8_lossy(b: &[u8]) -> (s: String)
    ensures
        s@ == lossy_of(b@),
        valid_utf8(b@) ==> s@ == decode_utf8(b@),
{
    String::from_utf8_lossy(b).into_owned()
}

/// Only one place ends a field's text.
proof fn lemma_text_end_unique(b: Seq<u8>, e1: int, e2: int)
    requires
        is_text_end(b, e1),
        is_text_end(b, e2),
    ensures
        e1 == e2,
{
    if e1 < e2 {
        assert(b[e1] != 0);
    } else if e2 < e1 {
        assert(b[e2] != 0);
    }
}

/// The text of a NUL-padded field: its bytes up to the first NUL, read as
/// UTF-8, lossily where they are not valid.
pub open spec fn field_text(b: Seq<u8>) -> Seq<char> {
    let e = choose|e: int| is_text_end(b, e);
    let t = b.subrange(0, e);
    if valid_utf8(t) { decode_utf8(t) } else { lossy_of(t) }
}

/// The text of a NUL-padded field.
pub fn str_field(b: &[u8]) -> (s: String)
    ensures
        s@ == field_text(b@),
        exists|e: int| is_text_end(b@, e) && (valid_utf8(b@.subrange(0, e)) ==> s@ == decode_utf8(
            b@.subrange(0, e),
        )),
{
    let e = nul_prefix_len(b);
    let t = &b[0..e];
    let s = utf8_lossy(t);
    proof {
        assert(is_text_end(b@, e as int));
        let c = choose|c: int| is_text_end(b@, c);
        lemma_text_end_unique(b@, e as int, c);
        assert(t@ == b@.subrange(0, e as int));
    }
    s
}

} // verus!
