//! Finding the point elements of a GPX file without an XML parser: each
//! `<name …>` tag, and the body it opens, up to its closing tag or the
//! next point, whichever comes first (so a file of unclosed points is
//! still read in linear time); and the quoted value of an attribute in a
//! tag's text.

use vstd::prelude::*;
use super::read::{chars_of, is_white, occurs_at, trim_chars, trimmed};

verus! {

/// Where a point element lies in a file's characters: the text of its tag
/// (after the name, up to the `>` or `<` that ends it), its body, and
/// where the scan goes on.
#[derive(Debug, Clone, Copy, PartialEq, Eq, Structural)]
pub struct Found {
    pub tag_start: usize,
    pub tag_end: usize,
    pub body_start: usize,
    pub body_end: usize,
    pub next: usize,
}

/// Where `needle` first occurs in `hay` at or after `from`, ending by
/// `limit`.
pub open spec fn find_spec(hay: Seq<char>, needle: Seq<char>, from: int, limit: int) -> Option<int>
    decreases limit + 1 - from,
{
    if from < 0 || from + needle.len() > limit || limit > hay.len() {
        None
    } else if occurs_at(hay, needle, from) {
        Some(from)
    } else {
        find_spec(hay, needle, from + 1, limit)
    }
}

/// Where the first `>` or `<` at or after `from` stands.
pub open spec fn find_angle(hay: Seq<char>, from: int) -> Option<int>
    decreases hay.len() - from,
{
    if from < 0 || from >= hay.len() {
        None
    } else if hay[from] == '>' || hay[from] == '<' {
        Some(from)
    } else {
        find_angle(hay, from + 1)
    }
}

/// `<name`, the start of an element.
pub open spec fn opening(name: Seq<char>) -> Seq<char> {
    seq!['<'] + name
}

/// `</name`, the start of its closing tag.
pub open spec fn closing(name: Seq<char>) -> Seq<char> {
    seq!['<', '/'] + name
}

/// The body of a point whose tag ends at `e`: none for a self-closing tag
/// or one cut off by a `<`; else from after the `>` to the closing tag or
/// the next point, whichever comes first.
pub open spec fn body_of(text: Seq<char>, name: Seq<char>, after: int, e: int) -> (int, int) {
    if text[e - 1] == '/' || text[e] != '>' {
        (e, e)
    } else {
        let b = e + 1;
        let next = match find_spec(text, opening(name), b, text.len() as int) {
            Some(n) => n,
            None => text.len() as int,
        };
        match find_spec(text, closing(name), b, next) {
            Some(c) => (b, c),
            None => (b, next),
        }
    }
}

/// The next point element of `text` at or after `from`: the first `<name`
/// whose tag text starts with white space (so `<trkptx` is no `<trkpt`)
/// and is ended by a `>` or `<`.
pub open spec fn next_found(text: Seq<char>, name: Seq<char>, from: int) -> Option<Found>
    decreases text.len() + 1 - from,
{
    if from < 0 || from > text.len() {
        None
    } else {
        match find_spec(text, opening(name), from, text.len() as int) {
            None => None,
            Some(q) => {
                let after = q + opening(name).len();
                match find_angle(text, after) {
                    None => None,
                    Some(e) => if e <= from || e > text.len() {
                        None
                    } else if after < e && is_white(text[after]) {
                        let body = body_of(text, name, after, e);
                        Some(
                            Found {
                                tag_start: after as usize,
                                tag_end: e as usize,
                                body_start: body.0 as usize,
                                body_end: body.1 as usize,
                                next: e as usize,
                            },
                        )
                    } else {
                        next_found(text, name, e)
                    },
                }
            },
        }
    }
}

/// Where `needle` first occurs in `hay` at or after `from`, ending by
/// `limit`.
fn find_in(hay: &Vec<char>, needle: &Vec<char>, from: usize, limit: usize) -> (r: Option<usize>)
    requires
        limit <= hay@.len(),
    ensures
        r matches Some(i) ==> find_spec(hay@, needle@, from as int, limit as int) == Some(i as int),
        r is None ==> find_spec(hay@, needle@, from as int, limit as int) is None,
{
    let n = needle.len();
    if n > limit {
        return None;
    }
    let mut i = from;
    while i <= limit - n
        invariant
            n == needle@.len(),
            n <= limit <= hay@.len(),
            from <= i,
            find_spec(hay@, needle@, from as int, limit as int) == find_spec(hay@, needle@, i as int, limit as int),
        decreases limit - n + 1 - i,
    {
        let mut k: usize = 0;
        let mut same = true;
        while k < n
            invariant
                n == needle@.len(),
                i + n <= limit <= hay@.len(),
                k <= n,
                same == forall|x: int| 0 <= x < k ==> hay@[i + x] == needle@[x],
            decreases n - k,
        {
            if hay[i + k] != needle[k] {
                same = false;
            }
            k += 1;
        }
        proof {
            if same {
                assert(hay@.subrange(i as int, i + n) =~= needle@);
            } else {
                let x = choose|x: int| 0 <= x < n && hay@[i + x] != needle@[x];
                assert(hay@.subrange(i as int, i + n)[x] != needle@[x]);
            }
        }
        if same {
            return Some(i);
        }
        i += 1;
    }
    None
}

/// Where the first `>` or `<` at or after `from` stands.
fn find_angle_in(hay: &Vec<char>, from: usize) -> (r: Option<usize>)
    ensures
        r matches Some(i) ==> find_angle(hay@, from as int) == Some(i as int),
        r is None ==> find_angle(hay@, from as int) is None,
{
    let mut i = from;
    while i < hay.len()
        invariant
            from <= i,
            find_angle(hay@, from as int) == find_angle(hay@, i as int),
        decreases hay@.len() - i,
    {
        if hay[i] == '>' || hay[i] == '<' {
            return Some(i);
        }
        i += 1;
    }
    None
}

/// `<` or `</` followed by `name`.
fn tag_start(name: &Vec<char>, close: bool) -> (r: Vec<char>)
    ensures
        r@ == if close { closing(name@) } else { opening(name@) },
{
    let mut r: Vec<char> = Vec::new();
    r.push('<');
    if close {
        r.push('/');
    }
    let mut k: usize = 0;
    while k < name.len()
        invariant
            k <= name@.len(),
            r@ == (if close { seq!['<', '/'] } else { seq!['<'] }) + name@.take(k as int),
        decreases name@.len() - k,
    {
        r.push(name[k]);
        k += 1;
        assert(r@ =~= (if close { seq!['<', '/'] } else { seq!['<'] }) + name@.take(k as int));
    }
    assert(name@.take(name@.len() as int) =~= name@);
    r
}

/// Whether `c` is white space (`char::is_whitespace`).
fn white(c: char) -> (b: bool)
    ensures
        b == is_white(c),
{
    let v = c as u32;
    (0x9 <= v && v <= 0xd) || v == 0x20 || v == 0x85 || v == 0xa0 || v == 0x1680 || (0x2000 <= v && v <= 0x200a)
        || v == 0x2028 || v == 0x2029 || v == 0x202f || v == 0x205f || v == 0x3000
}

/// The next point element `<name …>` of `text` (its characters) at or
/// after `from`: see [`next_found`].
pub fn next_element(text: &Vec<char>, name: &Vec<char>, from: usize) -> (r: Option<Found>)
    ensures
        r == next_found(text@, name@, from as int),
{
    let open = tag_start(name, false);
    let close = tag_start(name, true);
    let len = text.len();
    if from > len {
        return None;
    }
    let mut at = from;
    loop
        invariant
            len == text@.len(),
            from <= at <= len,
            open@ == opening(name@),
            close@ == closing(name@),
            next_found(text@, name@, from as int) == next_found(text@, name@, at as int),
        decreases len - at,
    {
        let q = match find_in(text, &open, at, len) {
            Some(q) => q,
            None => return None,
        };
        proof { lemma_find_bounds(text@, open@, at as int, len as int); }
        let after = q + open.len();
        let e = match find_angle_in(text, after) {
            Some(e) => e,
            None => return None,
        };
        proof { lemma_angle_bounds(text@, after as int); }
        if e <= at {
            return None;
        }
        if after < e && white(text[after]) {
            let (body_start, body_end) = if text[e - 1] == '/' || text[e] != '>' {
                (e, e)
            } else {
                let b = e + 1;
                let next = match find_in(text, &open, b, len) {
                    Some(n) => n,
                    None => len,
                };
                proof { lemma_find_bounds(text@, open@, b as int, len as int); }
                match find_in(text, &close, b, next) {
                    Some(c) => (b, c),
                    None => (b, next),
                }
            };
            return Some(Found { tag_start: after, tag_end: e, body_start, body_end, next: e });
        }
        at = e;
    }
}

/// The first position at or after `from` that holds no white space (or
/// the end of `t`).
pub open spec fn skip_white(t: Seq<char>, from: int) -> int
    decreases t.len() - from,
{
    if from < 0 || from >= t.len() {
        from
    } else if is_white(t[from]) {
        skip_white(t, from + 1)
    } else {
        from
    }
}

/// Where the quoted value lies of an attribute whose name ends at `q`:
/// after optional white space, `=`, optional white space and a quote
/// (`"` or `'`), up to the next such quote.
pub open spec fn quoted_value(t: Seq<char>, q: int) -> Option<(int, int)> {
    let a = skip_white(t, q);
    if 0 <= a < t.len() && t[a] == '=' {
        let b = skip_white(t, a + 1);
        if 0 <= b < t.len() && (t[b] == '"' || t[b] == '\'') {
            match find_spec(t, seq![t[b]], b + 1, t.len() as int) {
                Some(c) => Some((b + 1, c)),
                None => None,
            }
        } else {
            None
        }
    } else {
        None
    }
}

/// Where the raw value of attribute `name` lies in a tag's text `t`,
/// searching from `from`: at the first occurrence of `name` that follows
/// white space within the search (so `xlat` is no `lat`, and an
/// occurrence right where the search starts does not count). `None` if
/// there is none, or if that occurrence is not followed by `=` and a
/// quoted value.
pub open spec fn attr_span(t: Seq<char>, name: Seq<char>, from: int) -> Option<(int, int)>
    decreases t.len() + 1 - from,
{
    if from < 0 || from > t.len() || name.len() == 0 {
        None
    } else {
        match find_spec(t, name, from, t.len() as int) {
            None => None,
            Some(i) => {
                proof {
                    lemma_find_bounds(t, name, from, t.len() as int);
                }
                if i > from && is_white(t[i - 1]) {
                    quoted_value(t, i + name.len())
                } else {
                    attr_span(t, name, i + name.len())
                }
            },
        }
    }
}

/// The first position at or after `from` that holds no white space.
fn skip_white_in(t: &Vec<char>, from: usize) -> (r: usize)
    requires
        from <= t@.len(),
    ensures
        r == skip_white(t@, from as int),
        from <= r <= t@.len(),
{
    let mut i = from;
    while i < t.len() && white(t[i])
        invariant
            from <= i <= t@.len(),
            skip_white(t@, from as int) == skip_white(t@, i as int),
        decreases t@.len() - i,
    {
        i += 1;
    }
    i
}

/// The value of attribute `name="…"` (or `'…'`) in a tag's text, white
/// space trimmed: see [`attr_span`].
pub fn attr_text(tag: &str, name: &str) -> (r: Option<String>)
    requires
        name@.len() > 0,
    ensures
        match attr_span(tag@, name@, 0) {
            None => r is None,
            Some((a, b)) => r matches Some(s) && trimmed(tag@.subrange(a, b), s@),
        },
{
    let t = chars_of(tag);
    let n = chars_of(name);
    let len = t.len();
    let mut at: usize = 0;
    loop
        invariant
            t@ == tag@,
            n@ == name@,
            n@.len() > 0,
            len == t@.len(),
            at <= len,
            attr_span(t@, n@, 0) == attr_span(t@, n@, at as int),
        decreases len - at,
    {
        let i = match find_in(&t, &n, at, len) {
            Some(i) => i,
            None => return None,
        };
        proof { lemma_find_bounds(t@, n@, at as int, len as int); }
        let q = i + n.len();
        if i > at && white(t[i - 1]) {
            let a = skip_white_in(&t, q);
            if a >= len || t[a] != '=' {
                return None;
            }
            let b = skip_white_in(&t, a + 1);
            if b >= len || !(t[b] == '"' || t[b] == '\'') {
                return None;
            }
            let mut quote: Vec<char> = Vec::new();
            quote.push(t[b]);
            assert(quote@ =~= seq![t@[b as int]]);
            let c = match find_in(&t, &quote, b + 1, len) {
                Some(c) => c,
                None => return None,
            };
            proof { lemma_find_bounds(t@, quote@, b + 1, len as int); }
            return Some(trim_chars(&t, b + 1, c));
        }
        at = q;
    }
}

/// A found occurrence lies inside the limit.
pub proof fn lemma_find_bounds(hay: Seq<char>, needle: Seq<char>, from: int, limit: int)
    ensures
        find_spec(hay, needle, from, limit) matches Some(i) ==> from <= i && i + needle.len() <= limit
            && limit <= hay.len(),
    decreases limit + 1 - from,
{
    if !(from < 0 || from + needle.len() > limit || limit > hay.len()) && !occurs_at(hay, needle, from) {
        lemma_find_bounds(hay, needle, from + 1, limit);
    }
}

/// A found angle lies inside the text.
proof fn lemma_angle_bounds(hay: Seq<char>, from: int)
    ensures
        find_angle(hay, from) matches Some(i) ==> from <= i < hay.len(),
    decreases hay.len() - from,
{
    if 0 <= from < hay.len() && !(hay[from] == '>' || hay[from] == '<') {
        lemma_angle_bounds(hay, from + 1);
    }
}

} // verus!
