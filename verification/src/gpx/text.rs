//! Text as GPX documents hold it: zero-padded numbers, UTC times in
//! ISO 8601, and escaped element content.

use vstd::prelude::*;
use super::date::{civil_from_days, days_from_epoch, div_floor, rem_floor, valid_date};

verus! {

/// `String::push`: appends one character.
pub assume_specification[ String::push ](s: &mut String, ch: char)
    ensures
        final(s)@ == old(s)@.push(ch),
;

/// The decimal digit character of `d` (0–9).
pub open spec fn digit_char(d: int) -> char {
    (d + 48) as char
}

/// The decimal digits of `n`, most significant first.
pub open spec fn decimal(n: nat) -> Seq<char>
    decreases n,
{
    if n < 10 {
        seq![digit_char(n as int)]
    } else {
        decimal(n / 10).push(digit_char((n % 10) as int))
    }
}

/// `k` zero characters (none for `k <= 0`).
pub open spec fn zeros(k: int) -> Seq<char> {
    Seq::new(if k > 0 { k as nat } else { 0 }, |i: int| '0')
}

/// `n` as Rust's `{:0w$}` prints it: the sign, then the digits with
/// leading zeros to make `width` characters in all.
pub open spec fn zero_padded(n: int, width: int) -> Seq<char> {
    if n >= 0 {
        zeros(width - decimal(n as nat).len()) + decimal(n as nat)
    } else {
        seq!['-'] + zeros(width - 1 - decimal((-n) as nat).len()) + decimal((-n) as nat)
    }
}

fn digit(d: u64) -> (c: char)
    requires
        d < 10,
    ensures
        c == digit_char(d as int),
{
    if d == 0 { '0' }
    else if d == 1 { '1' }
    else if d == 2 { '2' }
    else if d == 3 { '3' }
    else if d == 4 { '4' }
    else if d == 5 { '5' }
    else if d == 6 { '6' }
    else if d == 7 { '7' }
    else if d == 8 { '8' }
    else { '9' }
}

/// Appends the decimal digits of `v`.
pub fn push_decimal(out: &mut String, v: u64)
    ensures
        final(out)@ == old(out)@ + decimal(v as nat),
    decreases v,
{
    if v >= 10 {
        push_decimal(out, v / 10);
        out.push(digit(v % 10));
        assert(final(out)@ =~= old(out)@ + decimal(v as nat));
    } else {
        out.push(digit(v));
        assert(final(out)@ =~= old(out)@ + decimal(v as nat));
    }
}

/// The lowercase hexadecimal digit character of `d` (0–15).
pub open spec fn hex_char(d: int) -> char {
    if d < 10 { (d + 48) as char } else { (d + 87) as char }
}

/// `16^k` (1 for `k <= 0`).
pub open spec fn pow16(k: int) -> int
    decreases k,
{
    if k <= 0 { 1 } else { 16 * pow16(k - 1) }
}

/// `v` as Rust's `{:08x}` prints a `u32`: eight lowercase hexadecimal
/// digits, most significant first.
pub open spec fn hex8(v: u32) -> Seq<char> {
    Seq::new(8, |i: int| hex_char((v as int / pow16(7 - i)) % 16))
}

proof fn lemma_pow16_positive(k: int)
    ensures
        pow16(k) >= 1,
    decreases k,
{
    if k > 0 {
        lemma_pow16_positive(k - 1);
    }
}

fn hex_digit(d: u32) -> (c: char)
    requires
        d < 16,
    ensures
        c == hex_char(d as int),
{
    if d == 0 { '0' }
    else if d == 1 { '1' }
    else if d == 2 { '2' }
    else if d == 3 { '3' }
    else if d == 4 { '4' }
    else if d == 5 { '5' }
    else if d == 6 { '6' }
    else if d == 7 { '7' }
    else if d == 8 { '8' }
    else if d == 9 { '9' }
    else if d == 10 { 'a' }
    else if d == 11 { 'b' }
    else if d == 12 { 'c' }
    else if d == 13 { 'd' }
    else if d == 14 { 'e' }
    else { 'f' }
}

/// Appends `v` as eight lowercase hexadecimal digits.
pub fn push_hex8(out: &mut String, v: u32)
    ensures
        final(out)@ == old(out)@ + hex8(v),
{
    let ghost start = out@;
    let mut p: u32 = 0x1000_0000;
    let mut i: usize = 0;
    assert(pow16(7) == 0x1000_0000) by {
        reveal_with_fuel(pow16, 8);
    }
    while i < 8
        invariant
            i <= 8,
            i < 8 ==> p as int == pow16(7 - i),
            out@ == start + hex8(v).take(i as int),
        decreases 8 - i,
    {
        proof { lemma_pow16_positive(7 - i); }
        let d = (v / p) % 16;
        out.push(hex_digit(d));
        proof {
            assert(hex8(v)[i as int] == hex_char((v as int / pow16(7 - i)) % 16));
            assert(out@ =~= start + hex8(v).take(i + 1));
            if i < 7 {
                assert(pow16(7 - i) == 16 * pow16(7 - i - 1));
            }
        }
        p = p / 16;
        i = i + 1;
    }
    assert(hex8(v).take(8) =~= hex8(v));
}

/// How many decimal digits `v` has.
fn decimal_len(v: u64) -> (n: usize)
    ensures
        n == decimal(v as nat).len(),
        1 <= n <= 20,
    decreases v,
{
    if v >= 10 {
        let k = decimal_len(v / 10);
        if k >= 20 {
            proof { lemma_decimal_len_bound(v as nat); }
        }
        k + 1
    } else {
        1
    }
}

/// A `u64` has at most 20 digits.
proof fn lemma_decimal_len_bound(v: nat)
    requires
        v <= u64::MAX,
    ensures
        decimal(v).len() <= 20,
{
    reveal_with_fuel(pow10, 21);
    lemma_decimal_len_below(v, 20);
}

/// Fewer than `10^k` means at most `k` digits.
pub proof fn lemma_decimal_len_below(v: nat, k: nat)
    requires
        k >= 1,
        v < pow10(k),
    ensures
        decimal(v).len() <= k,
    decreases k,
{
    if v >= 10 {
        assert(v / 10 < pow10((k - 1) as nat)) by {
            assert(k >= 2) by {
                if k == 1 {
                    assert(pow10(1) == 10) by { reveal_with_fuel(pow10, 2); }
                }
            }
            assert(pow10(k) == 10 * pow10((k - 1) as nat));
        }
        lemma_decimal_len_below(v / 10, (k - 1) as nat);
    }
}

/// `10^k`.
pub open spec fn pow10(k: nat) -> nat
    decreases k,
{
    if k == 0 { 1 } else { 10 * pow10((k - 1) as nat) }
}

/// Appends `k` zero characters.
fn push_zeros(out: &mut String, k: usize)
    ensures
        final(out)@ == old(out)@ + zeros(k as int),
{
    let mut i: usize = 0;
    while i < k
        invariant
            i <= k,
            out@ == old(out)@ + zeros(i as int),
        decreases k - i,
    {
        out.push('0');
        i += 1;
        assert(out@ =~= old(out)@ + zeros(i as int));
    }
}

/// Appends `n` as `{:0width$}` prints it.
fn push_padded(out: &mut String, n: i64, width: usize)
    requires
        n > i64::MIN,
    ensures
        final(out)@ == old(out)@ + zero_padded(n as int, width as int),
{
    if n >= 0 {
        let len = decimal_len(n as u64);
        let fill = if width > len { width - len } else { 0 };
        push_zeros(out, fill);
        push_decimal(out, n as u64);
        assert(zeros(fill as int) =~= zeros(width - decimal(n as nat).len()));
        assert(final(out)@ =~= old(out)@ + zero_padded(n as int, width as int));
    } else {
        let v = (-n) as u64;
        out.push('-');
        let len = decimal_len(v);
        let fill = if width > len + 1 { width - len - 1 } else { 0 };
        push_zeros(out, fill);
        push_decimal(out, v);
        assert(zeros(fill as int) =~= zeros(width - 1 - decimal(v as nat).len()));
        assert(final(out)@ =~= old(out)@ + zero_padded(n as int, width as int));
    }
}

/// A UTC time written as ISO 8601 with milliseconds.
pub open spec fn iso_fields(y: int, mo: int, d: int, h: int, mi: int, s: int, ms: int) -> Seq<char> {
    zero_padded(y, 4) + seq!['-'] + zero_padded(mo, 2) + seq!['-'] + zero_padded(d, 2) + seq!['T']
        + zero_padded(h, 2) + seq![':'] + zero_padded(mi, 2) + seq![':'] + zero_padded(s, 2) + seq!['.']
        + zero_padded(ms, 3) + seq!['Z']
}

/// `t` is the instant `ms` milliseconds after the Unix epoch, in UTC, as
/// ISO 8601 with milliseconds (e.g. `2026-09-24T07:30:00.000Z`).
pub open spec fn is_iso_time(t: Seq<char>, ms: int) -> bool {
    let secs = ms / 1000;
    let millis = ms % 1000;
    let days = secs / 86400;
    let rem = secs % 86400;
    exists|y: int, mo: int, d: int| #![trigger days_from_epoch(y, mo, d)]
        valid_date(y, mo, d) && days_from_epoch(y, mo, d) == days
        && t == iso_fields(y, mo, d, rem / 3600, rem % 3600 / 60, rem % 60, millis)
}

/// UTC time as ISO 8601 with milliseconds, e.g. `2026-09-24T07:30:00.000Z`.
pub fn iso_time(ms: i64) -> (s: String)
    ensures
        is_iso_time(s@, ms as int),
{
    let secs = div_floor(ms, 1000);
    let millis = rem_floor(ms, 1000);
    let days = div_floor(secs, 86400);
    let rem = rem_floor(secs, 86400);
    assert(-1_000_000_000_000 <= days <= 1_000_000_000_000) by (nonlinear_arith)
        requires secs == ms as int / 1000, days == secs as int / 86400;
    let (y, mo, d) = civil_from_days(days);
    let mut out = String::new();
    push_padded(&mut out, y, 4);
    out.push('-');
    push_padded(&mut out, mo, 2);
    out.push('-');
    push_padded(&mut out, d, 2);
    out.push('T');
    push_padded(&mut out, rem / 3600, 2);
    out.push(':');
    push_padded(&mut out, rem % 3600 / 60, 2);
    out.push(':');
    push_padded(&mut out, rem % 60, 2);
    out.push('.');
    push_padded(&mut out, millis, 3);
    out.push('Z');
    assert(out@ =~= iso_fields(y as int, mo as int, d as int, (rem / 3600) as int, (rem % 3600 / 60) as int, (rem % 60) as int, millis as int));
    assert(days_from_epoch(y as int, mo as int, d as int) == days);
    out
}

/// What an XML element's text holds for one character: markup characters
/// as entities, tab, newline and carriage return as they are, characters
/// XML 1.0 does not allow dropped, everything else as it is.
pub open spec fn escaped_char(c: char) -> Seq<char> {
    if c == '&' {
        seq!['&', 'a', 'm', 'p', ';']
    } else if c == '<' {
        seq!['&', 'l', 't', ';']
    } else if c == '>' {
        seq!['&', 'g', 't', ';']
    } else if c == '"' {
        seq!['&', 'q', 'u', 'o', 't', ';']
    } else if c == '\'' {
        seq!['&', 'a', 'p', 'o', 's', ';']
    } else if c == '\t' || c == '\n' || c == '\r' {
        seq![c]
    } else if (c as u32) < 0x20 || c == '\u{fffe}' || c == '\u{ffff}' {
        Seq::empty()
    } else {
        seq![c]
    }
}

/// Text escaped character by character.
pub open spec fn escaped(s: Seq<char>) -> Seq<char>
    decreases s.len(),
{
    if s.len() == 0 {
        Seq::empty()
    } else {
        escaped(s.drop_last()) + escaped_char(s.last())
    }
}

/// A character that may stand as it is in an XML element's text: no `<`,
/// `>` or quote, and no character XML 1.0 does not allow.
pub open spec fn xml_text_char(c: char) -> bool {
    &&& c != '<' && c != '>' && c != '"' && c != '\''
    &&& (c as u32) >= 0x20 || c == '\t' || c == '\n' || c == '\r'
    &&& c != '\u{fffe}' && c != '\u{ffff}'
}

/// Escaped text is safe inside an XML element, whatever text it came from:
/// each of its characters may stand there as it is.
pub proof fn escaped_text_is_safe(s: Seq<char>)
    ensures
        forall|i: int| 0 <= i < escaped(s).len() ==> xml_text_char(#[trigger] escaped(s)[i]),
    decreases s.len(),
{
    if s.len() > 0 {
        escaped_text_is_safe(s.drop_last());
        let a = escaped(s.drop_last());
        let c = s.last();
        let b = escaped_char(c);
        assert forall|k: int| 0 <= k < b.len() implies xml_text_char(#[trigger] b[k]) by {
            if c == '&' {
                assert(b == seq!['&', 'a', 'm', 'p', ';']);
            } else if c == '<' {
                assert(b == seq!['&', 'l', 't', ';']);
            } else if c == '>' {
                assert(b == seq!['&', 'g', 't', ';']);
            } else if c == '"' {
                assert(b == seq!['&', 'q', 'u', 'o', 't', ';']);
            } else if c == '\'' {
                assert(b == seq!['&', 'a', 'p', 'o', 's', ';']);
            }
        }
        assert forall|i: int| 0 <= i < escaped(s).len() implies xml_text_char(#[trigger] escaped(s)[i]) by {
            if i < a.len() {
                assert(escaped(s)[i] == a[i]);
            } else {
                assert(escaped(s)[i] == b[i - a.len()]);
            }
        }
    }
}

/// Text safe inside an XML element: markup characters escaped and
/// characters XML 1.0 does not allow dropped.
pub fn escape(s: &str) -> (r: String)
    ensures
        r@ == escaped(s@),
{
    let mut out = String::new();
    for c in it: s.chars()
        invariant
            it.seq() == s@,
            out@ == escaped(s@.take(it.index() as int)),
    {
        let ghost before = out@;
        let ghost k = it.index();
        if c == '&' {
            out.push('&'); out.push('a'); out.push('m'); out.push('p'); out.push(';');
        } else if c == '<' {
            out.push('&'); out.push('l'); out.push('t'); out.push(';');
        } else if c == '>' {
            out.push('&'); out.push('g'); out.push('t'); out.push(';');
        } else if c == '"' {
            out.push('&'); out.push('q'); out.push('u'); out.push('o'); out.push('t'); out.push(';');
        } else if c == '\'' {
            out.push('&'); out.push('a'); out.push('p'); out.push('o'); out.push('s'); out.push(';');
        } else if c == '\t' || c == '\n' || c == '\r' {
            out.push(c);
        } else if (c as u32) < 0x20 || c == '\u{fffe}' || c == '\u{ffff}' {
        } else {
            out.push(c);
        }
        proof {
            assert(s@.take(k + 1).drop_last() =~= s@.take(k as int));
            assert(s@.take(k + 1).last() == c);
            assert(out@ =~= before + escaped_char(c));
        }
    }
    assert(s@.take(s@.len() as int) =~= s@);
    out
}

} // verus!
