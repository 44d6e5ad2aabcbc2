//! Reading GPX text: clock times as GPX writes them, and the text of an
//! element. The file is untrusted: it is scanned without an XML parser,
//! and anything malformed is skipped.

use vstd::prelude::*;
use vstd::string::StringSliceAdditionalSpecFns;
use super::date::{days_from_civil, days_from_epoch, days_in_month, month_len, valid_date};
use super::text::{decimal, digit_char, iso_fields, is_iso_time, pow10, zero_padded, zeros};
use vstd::utf8::{is_ascii_chars, is_ascii_chars_encode_utf8};

verus! {

pub open spec fn is_digit(c: u8) -> bool {
    48 <= c <= 57
}

/// `len` decimal digits start at `from`.
pub open spec fn digits_at(b: Seq<u8>, from: int, len: int) -> bool {
    &&& 0 <= from
    &&& from + len <= b.len()
    &&& forall|i: int| from <= i < from + len ==> is_digit(#[trigger] b[i])
}

/// The value of the `len` decimal digits at `from`.
pub open spec fn number_at(b: Seq<u8>, from: int, len: nat) -> int
    decreases len,
{
    if len == 0 {
        0
    } else {
        10 * number_at(b, from, (len - 1) as nat) + (b[from + len - 1] - 48)
    }
}

/// Byte `at` exists and is one of `set`.
pub open spec fn byte_in(b: Seq<u8>, at: int, set: Seq<u8>) -> bool {
    0 <= at < b.len() && set.contains(b[at])
}

/// How many digits follow from `i` on.
pub open spec fn digit_run(b: Seq<u8>, i: int) -> nat
    decreases b.len() - i,
{
    if 0 <= i < b.len() && is_digit(b[i]) {
        1 + digit_run(b, i + 1)
    } else {
        0
    }
}

/// Milliseconds of a fraction of `k` digits at `i`: its first three
/// digits, zeros for missing ones.
pub open spec fn fraction_millis(b: Seq<u8>, i: int, k: int) -> int {
    100 * (if k > 0 { b[i] - 48 } else { 0 }) + 10 * (if k > 1 { b[i + 1] - 48 } else { 0 })
        + (if k > 2 { b[i + 2] - 48 } else { 0 })
}

/// The UTC offset in minutes of the zone designator at `i`, which must end
/// the text: `Z`, or `+HH:MM` / `-HH:MM` with hours to 23, minutes to 59.
pub open spec fn zone_at(b: Seq<u8>, i: int) -> Option<int> {
    if byte_in(b, i, seq![90u8, 122u8]) && i + 1 == b.len() {
        Some(0)
    } else if byte_in(b, i, seq![43u8, 45u8]) && i + 6 == b.len() && byte_in(b, i + 3, seq![58u8])
        && digits_at(b, i + 1, 2) && digits_at(b, i + 4, 2) && number_at(b, i + 1, 2) <= 23
        && number_at(b, i + 4, 2) <= 59 {
        let m = number_at(b, i + 1, 2) * 60 + number_at(b, i + 4, 2);
        Some(if b[i] == 43 { m } else { -m })
    } else {
        None
    }
}

/// The fixed part `YYYY-MM-DDTHH:MM:SS` is laid out right: separators
/// (`T`, `t` or a space between date and time) and digits.
pub open spec fn layout_ok(b: Seq<u8>) -> bool {
    &&& byte_in(b, 4, seq![45u8])
    &&& byte_in(b, 7, seq![45u8])
    &&& byte_in(b, 10, seq![84u8, 116u8, 32u8])
    &&& byte_in(b, 13, seq![58u8])
    &&& byte_in(b, 16, seq![58u8])
    &&& digits_at(b, 0, 4)
    &&& digits_at(b, 5, 2)
    &&& digits_at(b, 8, 2)
    &&& digits_at(b, 11, 2)
    &&& digits_at(b, 14, 2)
    &&& digits_at(b, 17, 2)
}

/// The fields name a day of 1970–2100 and a time of day (a leap second
/// allowed).
pub open spec fn fields_ok(b: Seq<u8>) -> bool {
    let y = number_at(b, 0, 4);
    let mo = number_at(b, 5, 2);
    let d = number_at(b, 8, 2);
    &&& 1970 <= y <= 2100
    &&& 1 <= mo <= 12
    &&& 1 <= d <= month_len(y, mo)
    &&& number_at(b, 11, 2) <= 23
    &&& number_at(b, 14, 2) <= 59
    &&& number_at(b, 17, 2) <= 60
}

/// A fraction follows the seconds (after `.` or `,`).
pub open spec fn has_fraction(b: Seq<u8>) -> bool {
    byte_in(b, 19, seq![46u8, 44u8])
}

/// Where the fraction, if any, ends.
pub open spec fn fraction_end(b: Seq<u8>) -> int {
    if has_fraction(b) { 20 + digit_run(b, 20) as int } else { 19 }
}

/// The milliseconds the fraction gives.
pub open spec fn fraction_value(b: Seq<u8>) -> int {
    if has_fraction(b) { fraction_millis(b, 20, digit_run(b, 20) as int) } else { 0 }
}

/// Milliseconds since the Unix epoch of an ISO 8601 / RFC 3339 time as GPX
/// writes it: `YYYY-MM-DDTHH:MM:SS`, an optional fraction of at least one
/// digit, then the zone. `None` for anything else, or for a time before
/// 1970 or after 2100.
pub open spec fn time_ms_of(b: Seq<u8>) -> Option<int> {
    if !layout_ok(b) || !fields_ok(b) || (has_fraction(b) && digit_run(b, 20) == 0) {
        None
    } else {
        match zone_at(b, fraction_end(b)) {
            None => None,
            Some(off) => {
                let ms = (days_from_epoch(number_at(b, 0, 4), number_at(b, 5, 2), number_at(b, 8, 2)) * 86400
                    + number_at(b, 11, 2) * 3600 + number_at(b, 14, 2) * 60 + number_at(b, 17, 2) - off * 60) * 1000
                    + fraction_value(b);
                if 0 <= ms <= 4_102_444_800_000 { Some(ms) } else { None }
            },
        }
    }
}

/// Byte `at` exists and is `c`, or `c2`, or `c3`.
fn byte_is(b: &[u8], at: usize, c: u8, c2: u8, c3: u8) -> (r: bool)
    ensures
        r == byte_in(b@, at as int, seq![c, c2, c3]),
{
    proof { crate::le::lemma_slice_len_bound(b); }
    if at < b.len() {
        let x = b[at];
        proof {
            if x == c || x == c2 || x == c3 {
                assert(seq![c, c2, c3][if x == c { 0int } else if x == c2 { 1int } else { 2int }] == x);
            }
        }
        x == c || x == c2 || x == c3
    } else {
        false
    }
}

/// The value of `len` (at most 4) decimal digits at `from`, if they are
/// digits.
fn number(b: &[u8], from: usize, len: usize) -> (r: Option<i64>)
    requires
        len <= 4,
        from <= usize::MAX - len,
    ensures
        r is Some <==> digits_at(b@, from as int, len as int),
        r matches Some(v) ==> v == number_at(b@, from as int, len as nat) && 0 <= v < 10000,
{
    if from + len > b.len() {
        return None;
    }
    let mut v: i64 = 0;
    let mut k: usize = 0;
    while k < len
        invariant
            k <= len <= 4,
            from <= usize::MAX - len,
            from + len <= b@.len(),
            v == number_at(b@, from as int, k as nat),
            0 <= v < if k == 0 { 1int } else if k == 1 { 10int } else if k == 2 { 100int } else if k == 3 { 1000int } else { 10000int },
            forall|i: int| from <= i < from + k ==> is_digit(#[trigger] b@[i]),
        decreases len - k,
    {
        let c = b[from + k];
        if c < 48 || c > 57 {
            return None;
        }
        v = 10 * v + (c - 48) as i64;
        k += 1;
    }
    Some(v)
}

/// The fixed part's fields, when laid out right and in range.
fn fields(b: &[u8]) -> (r: Option<(i64, i64, i64, i64, i64, i64)>)
    ensures
        r is Some <==> layout_ok(b@) && fields_ok(b@),
        r matches Some(f) ==> f.0 == number_at(b@, 0, 4) && f.1 == number_at(b@, 5, 2) && f.2 == number_at(b@, 8, 2)
            && f.3 == number_at(b@, 11, 2) && f.4 == number_at(b@, 14, 2) && f.5 == number_at(b@, 17, 2)
            && 0 <= f.3 && 0 <= f.4 && 0 <= f.5,
{
    proof { lemma_same_set(b@); }
    if !(byte_is(b, 4, 45, 45, 45) && byte_is(b, 7, 45, 45, 45) && byte_is(b, 10, 84, 116, 32)
        && byte_is(b, 13, 58, 58, 58) && byte_is(b, 16, 58, 58, 58)) {
        return None;
    }
    let (y, mo, d, h, mi, sec) = match (number(b, 0, 4), number(b, 5, 2), number(b, 8, 2), number(b, 11, 2), number(b, 14, 2), number(b, 17, 2)) {
        (Some(y), Some(mo), Some(d), Some(h), Some(mi), Some(sec)) => (y, mo, d, h, mi, sec),
        _ => return None,
    };
    if !(1970 <= y && y <= 2100) || !(1 <= mo && mo <= 12) || !(1 <= d && d <= days_in_month(y, mo)) || h > 23
        || mi > 59 || sec > 60 {
        return None;
    }
    Some((y, mo, d, h, mi, sec))
}

/// Where the fraction ends and its milliseconds, unless it has no digit.
fn fraction(b: &[u8]) -> (r: Option<(usize, i64)>)
    ensures
        r is Some <==> !(has_fraction(b@) && digit_run(b@, 20) == 0),
        r matches Some(f) ==> f.0 == fraction_end(b@) && f.1 == fraction_value(b@) && 0 <= f.1 < 1000,
{
    proof { crate::le::lemma_slice_len_bound(b); lemma_pair_set(b@); }
    if !byte_is(b, 19, 46, 44, 44) {
        return Some((19, 0));
    }
    let mut k: usize = 0;
    while 20 + k < b.len() && 48 <= b[20 + k] && b[20 + k] <= 57
        invariant
            20 + k <= b@.len(),
            b@.len() <= usize::MAX,
            digit_run(b@, 20) == k + digit_run(b@, 20 + k),
            forall|j: int| 20 <= j < 20 + k ==> is_digit(#[trigger] b@[j]),
        decreases b@.len() - k,
    {
        k += 1;
    }
    if k == 0 {
        return None;
    }
    let d0 = (b[20] - 48) as i64;
    let d1 = if k > 1 { (b[21] - 48) as i64 } else { 0 };
    let d2 = if k > 2 { (b[22] - 48) as i64 } else { 0 };
    Some((20 + k, 100 * d0 + 10 * d1 + d2))
}

/// The UTC offset of the zone designator at `i`, in minutes.
fn zone(b: &[u8], i: usize) -> (r: Option<i64>)
    ensures
        r matches Some(z) ==> zone_at(b@, i as int) == Some(z as int) && -1439 <= z <= 1439,
        r is None ==> zone_at(b@, i as int) is None,
{
    proof { crate::le::lemma_slice_len_bound(b); lemma_pair_set(b@); lemma_same_set(b@); }
    if byte_is(b, i, 90, 122, 122) && i < b.len() && i + 1 == b.len() {
        return Some(0);
    }
    if !(byte_is(b, i, 43, 45, 45) && b.len() >= 6 && i == b.len() - 6 && byte_is(b, i + 3, 58, 58, 58)) {
        return None;
    }
    let (oh, om) = match (number(b, i + 1, 2), number(b, i + 4, 2)) {
        (Some(oh), Some(om)) => (oh, om),
        _ => return None,
    };
    if oh > 23 || om > 59 {
        return None;
    }
    let m = oh * 60 + om;
    Some(if b[i] == 43 { m } else { -m })
}

/// Milliseconds since the Unix epoch of an ISO 8601 / RFC 3339 time as GPX
/// writes it (see [`time_ms_of`]).
pub fn parse_time_ms(s: &str) -> (r: Option<i64>)
    ensures
        r matches Some(v) ==> time_ms_of(s.spec_bytes()) == Some(v as int),
        r is None ==> time_ms_of(s.spec_bytes()) is None,
        r matches Some(v) ==> 0 <= v <= 4_102_444_800_000,
{
    let b = s.as_bytes();
    let (y, mo, d, h, mi, sec) = match fields(b) {
        Some(f) => f,
        None => return None,
    };
    let (i, millis) = match fraction(b) {
        Some(f) => f,
        None => return None,
    };
    let off = match zone(b, i) {
        Some(z) => z,
        None => return None,
    };
    let days = days_from_civil(y, mo, d);
    proof {
        super::date::lemma_year_start_mono(1970, y as int);
        super::date::lemma_year_start_mono(y as int, 2101);
        super::date::lemma_months_fit(y as int, mo as int);
    }
    assert(0 <= days <= 50_000);
    let secs = days * 86400 + h * 3600 + mi * 60 + sec - off * 60;
    let ms = secs * 1000 + millis;
    if 0 <= ms && ms <= 4_102_444_800_000 {
        Some(ms)
    } else {
        None
    }
}

/// Text as the bytes of its (ASCII) characters.
pub open spec fn ascii_bytes(t: Seq<char>) -> Seq<u8> {
    Seq::new(t.len(), |i: int| t[i] as u8)
}

/// The digits at `from` are read the same wherever else the bytes differ.
proof fn lemma_number_at_same(b1: Seq<u8>, b2: Seq<u8>, from: int, len: nat)
    requires
        forall|i: int| from <= i < from + len ==> b1[i] == b2[i],
    ensures
        number_at(b1, from, len) == number_at(b2, from, len),
    decreases len,
{
    if len > 0 {
        lemma_number_at_same(b1, b2, from, (len - 1) as nat);
    }
}

/// Zeros read as zero.
proof fn lemma_zeros_value(k: nat)
    ensures
        number_at(ascii_bytes(zeros(k as int)), 0, k) == 0,
        digits_at(ascii_bytes(zeros(k as int)), 0, k as int),
    decreases k,
{
    if k > 0 {
        let z = ascii_bytes(zeros(k as int));
        let z1 = ascii_bytes(zeros(k - 1));
        lemma_zeros_value((k - 1) as nat);
        lemma_number_at_same(z, z1, 0, (k - 1) as nat);
        assert(z[k - 1] == 48u8);
    }
}

/// Leading zeros, then the decimal digits of `n`, read as `n`.
proof fn lemma_padded_value(k: nat, n: nat)
    ensures
        ({
            let t = zeros(k as int) + decimal(n);
            &&& digits_at(ascii_bytes(t), 0, t.len() as int)
            &&& number_at(ascii_bytes(t), 0, t.len() as nat) == n
        }),
    decreases n,
{
    let t = zeros(k as int) + decimal(n);
    let b = ascii_bytes(t);
    if n < 10 {
        lemma_zeros_value(k);
        lemma_number_at_same(b, ascii_bytes(zeros(k as int)), 0, k);
        assert(b[k as int] == (n + 48) as u8);
    } else {
        lemma_padded_value(k, n / 10);
        let t1 = zeros(k as int) + decimal(n / 10);
        let b1 = ascii_bytes(t1);
        assert(t =~= t1.push(digit_char((n % 10) as int)));
        lemma_number_at_same(b, b1, 0, t1.len());
        assert(b[t1.len() as int] == (n % 10 + 48) as u8);
        assert forall|i: int| 0 <= i < t.len() implies is_digit(#[trigger] b[i]) by {
            if i < t1.len() {
                assert(b[i] == b1[i]);
            }
        }
    }
}

/// `zero_padded(n, w)` of a number with at most `w` digits is `w` digits
/// that read as `n`.
pub proof fn lemma_zero_padded_reads(n: int, w: nat)
    requires
        0 <= n < pow10(w),
        w >= 1,
    ensures
        zero_padded(n, w as int).len() == w,
        digits_at(ascii_bytes(zero_padded(n, w as int)), 0, w as int),
        number_at(ascii_bytes(zero_padded(n, w as int)), 0, w) == n,
{
    super::text::lemma_decimal_len_below(n as nat, w);
    lemma_padded_value((w - decimal(n as nat).len()) as nat, n as nat);
    assert(zeros(w - decimal(n as nat).len()) =~= zeros((w - decimal(n as nat).len()) as nat as int));
}

/// A piece of the text read in place.
proof fn lemma_piece(t: Seq<char>, from: int, p: Seq<char>)
    requires
        0 <= from,
        from + p.len() <= t.len(),
        t.subrange(from, from + p.len()) == p,
        digits_at(ascii_bytes(p), 0, p.len() as int),
    ensures
        digits_at(ascii_bytes(t), from, p.len() as int),
        number_at(ascii_bytes(t), from, p.len()) == number_at(ascii_bytes(p), 0, p.len()),
{
    let b = ascii_bytes(t);
    let bp = ascii_bytes(p);
    assert forall|i: int| from <= i < from + p.len() implies is_digit(#[trigger] b[i]) by {
        assert(t[i] == p[i - from]);
        assert(bp[i - from] == b[i]);
    }
    lemma_number_at_shift(b, bp, from, p.len());
}

/// Digits at `from` read as the same digits at 0 of a copy.
proof fn lemma_number_at_shift(b: Seq<u8>, c: Seq<u8>, from: int, len: nat)
    requires
        forall|i: int| 0 <= i < len ==> b[from + i] == c[i],
    ensures
        number_at(b, from, len) == number_at(c, 0, len),
    decreases len,
{
    if len > 0 {
        lemma_number_at_shift(b, c, from, (len - 1) as nat);
        assert(b[from + len - 1] == c[len - 1]);
    }
}

/// The text of a time of 1970–2100 as written, read field by field.
proof fn lemma_iso_layout(t: Seq<char>, y: int, mo: int, d: int, h: int, mi: int, s: int, millis: int)
    requires
        t == iso_fields(y, mo, d, h, mi, s, millis),
        1970 <= y <= 2100,
        valid_date(y, mo, d),
        0 <= h <= 23,
        0 <= mi <= 59,
        0 <= s <= 59,
        0 <= millis <= 999,
    ensures
        ({
            let b = ascii_bytes(t);
            &&& layout_ok(b)
            &&& number_at(b, 0, 4) == y
            &&& number_at(b, 5, 2) == mo
            &&& number_at(b, 8, 2) == d
            &&& number_at(b, 11, 2) == h
            &&& number_at(b, 14, 2) == mi
            &&& number_at(b, 17, 2) == s
            &&& has_fraction(b)
            &&& digit_run(b, 20) == 3
            &&& fraction_end(b) == 23
            &&& fraction_value(b) == millis
            &&& zone_at(b, 23) == Some(0int)
        }),
{
    assert(pow10(2) == 100) by { reveal_with_fuel(pow10, 3); }
    assert(pow10(3) == 1000) by { reveal_with_fuel(pow10, 4); }
    assert(pow10(4) == 10000) by { reveal_with_fuel(pow10, 5); }
    lemma_zero_padded_reads(y, 4);
    lemma_zero_padded_reads(mo, 2);
    lemma_zero_padded_reads(d, 2);
    lemma_zero_padded_reads(h, 2);
    lemma_zero_padded_reads(mi, 2);
    lemma_zero_padded_reads(s, 2);
    lemma_zero_padded_reads(millis, 3);
    let py = zero_padded(y, 4);
    let pmo = zero_padded(mo, 2);
    let pd = zero_padded(d, 2);
    let ph = zero_padded(h, 2);
    let pmi = zero_padded(mi, 2);
    let ps = zero_padded(s, 2);
    let pms = zero_padded(millis, 3);
    assert(t.len() == 24);
    assert(t.subrange(0, 4) =~= py);
    assert(t.subrange(5, 7) =~= pmo);
    assert(t.subrange(8, 10) =~= pd);
    assert(t.subrange(11, 13) =~= ph);
    assert(t.subrange(14, 16) =~= pmi);
    assert(t.subrange(17, 19) =~= ps);
    assert(t.subrange(20, 23) =~= pms);
    lemma_piece(t, 0, py);
    lemma_piece(t, 5, pmo);
    lemma_piece(t, 8, pd);
    lemma_piece(t, 11, ph);
    lemma_piece(t, 14, pmi);
    lemma_piece(t, 17, ps);
    lemma_piece(t, 20, pms);
    let b = ascii_bytes(t);
    assert(b[4] == 45u8 && b[7] == 45u8 && b[10] == 84u8 && b[13] == 58u8 && b[16] == 58u8);
    assert(seq![45u8][0] == 45u8 && seq![84u8, 116u8, 32u8][0] == 84u8 && seq![58u8][0] == 58u8);
    assert(b[19] == 46u8 && seq![46u8, 44u8][0] == 46u8);
    assert(b[23] == 90u8 && seq![90u8, 122u8][0] == 90u8);
    assert(is_digit(b[20]) && is_digit(b[21]) && is_digit(b[22]));
    assert(digit_run(b, 24) == 0);
    assert(digit_run(b, 23) == 0);
    assert(digit_run(b, 22) == 1);
    assert(digit_run(b, 21) == 2);
    assert(digit_run(b, 20) == 3);
    assert(fraction_value(b) == millis) by {
        reveal_with_fuel(number_at, 4);
    }
}

/// Decimal digits are ASCII.
proof fn lemma_decimal_ascii(n: nat)
    ensures
        is_ascii_chars(decimal(n)),
    decreases n,
{
    if n >= 10 {
        lemma_decimal_ascii(n / 10);
        assert forall|i: int| 0 <= i < decimal(n).len() implies '\0' <= #[trigger] decimal(n)[i] <= '\u{7f}' by {
            if i < decimal(n / 10).len() {
                assert(decimal(n)[i] == decimal(n / 10)[i]);
            }
        }
    }
}

/// Two ASCII texts joined are ASCII.
proof fn lemma_concat_ascii(a: Seq<char>, b: Seq<char>)
    requires
        is_ascii_chars(a),
        is_ascii_chars(b),
    ensures
        is_ascii_chars(a + b),
{
    assert forall|i: int| 0 <= i < (a + b).len() implies '\0' <= #[trigger] (a + b)[i] <= '\u{7f}' by {
        if i < a.len() {
            assert((a + b)[i] == a[i]);
        } else {
            assert((a + b)[i] == b[i - a.len()]);
        }
    }
}

/// One ASCII character is ASCII text.
proof fn lemma_char_ascii(c: char)
    requires
        c <= '\u{7f}',
    ensures
        is_ascii_chars(seq![c]),
{
    assert forall|i: int| 0 <= i < seq![c].len() implies '\0' <= #[trigger] seq![c][i] <= '\u{7f}' by {
        assert(seq![c][i] == c);
    }
}

/// A zero-padded number is ASCII.
proof fn lemma_padded_ascii(n: int, width: int)
    ensures
        is_ascii_chars(zero_padded(n, width)),
{
    if n >= 0 {
        lemma_decimal_ascii(n as nat);
        let z = zeros(width - decimal(n as nat).len());
        assert(is_ascii_chars(z));
        lemma_concat_ascii(z, decimal(n as nat));
    } else {
        lemma_decimal_ascii((-n) as nat);
        let z = zeros(width - 1 - decimal((-n) as nat).len());
        assert(is_ascii_chars(z));
        lemma_char_ascii('-');
        lemma_concat_ascii(seq!['-'], z);
        lemma_concat_ascii(seq!['-'] + z, decimal((-n) as nat));
    }
}

/// An ISO 8601 time as [`super::text::iso_time`] writes it is ASCII.
pub proof fn lemma_iso_time_ascii(t: Seq<char>, ms: int)
    requires
        is_iso_time(t, ms),
    ensures
        is_ascii_chars(t),
{
    let secs = ms / 1000;
    let millis = ms % 1000;
    let days = secs / 86400;
    let rem = secs % 86400;
    let (y, mo, d) = choose|y: int, mo: int, d: int| #![trigger days_from_epoch(y, mo, d)]
        valid_date(y, mo, d) && days_from_epoch(y, mo, d) == days
        && t == iso_fields(y, mo, d, rem / 3600, rem % 3600 / 60, rem % 60, millis);
    lemma_char_ascii('-');
    lemma_char_ascii('T');
    lemma_char_ascii(':');
    lemma_char_ascii('.');
    lemma_char_ascii('Z');
    let p1 = zero_padded(y, 4);
    let p2 = zero_padded(mo, 2);
    let p3 = zero_padded(d, 2);
    let p4 = zero_padded(rem / 3600, 2);
    let p5 = zero_padded(rem % 3600 / 60, 2);
    let p6 = zero_padded(rem % 60, 2);
    let p7 = zero_padded(millis, 3);
    lemma_padded_ascii(y, 4);
    lemma_padded_ascii(mo, 2);
    lemma_padded_ascii(d, 2);
    lemma_padded_ascii(rem / 3600, 2);
    lemma_padded_ascii(rem % 3600 / 60, 2);
    lemma_padded_ascii(rem % 60, 2);
    lemma_padded_ascii(millis, 3);
    let a1 = p1 + seq!['-'];
    lemma_concat_ascii(p1, seq!['-']);
    let a2 = a1 + p2;
    lemma_concat_ascii(a1, p2);
    let a3 = a2 + seq!['-'];
    lemma_concat_ascii(a2, seq!['-']);
    let a4 = a3 + p3;
    lemma_concat_ascii(a3, p3);
    let a5 = a4 + seq!['T'];
    lemma_concat_ascii(a4, seq!['T']);
    let a6 = a5 + p4;
    lemma_concat_ascii(a5, p4);
    let a7 = a6 + seq![':'];
    lemma_concat_ascii(a6, seq![':']);
    let a8 = a7 + p5;
    lemma_concat_ascii(a7, p5);
    let a9 = a8 + seq![':'];
    lemma_concat_ascii(a8, seq![':']);
    let a10 = a9 + p6;
    lemma_concat_ascii(a9, p6);
    let a11 = a10 + seq!['.'];
    lemma_concat_ascii(a10, seq!['.']);
    let a12 = a11 + p7;
    lemma_concat_ascii(a11, p7);
    lemma_concat_ascii(a12, seq!['Z']);
    assert(t == a12 + seq!['Z']);
}

/// A time [`super::text::iso_time`] writes for an instant from 1970 to
/// 2100 parses back, through the string's UTF-8 bytes, as that instant:
/// `parse_time_ms(&iso_time(ms)) == Some(ms)`.
pub proof fn iso_time_text_parses_back(s: &str, ms: int)
    requires
        0 <= ms <= 4_102_444_800_000,
        is_iso_time(s@, ms),
    ensures
        time_ms_of(s.spec_bytes()) == Some(ms),
{
    lemma_iso_time_ascii(s@, ms);
    is_ascii_chars_encode_utf8(s@);
    assert(s.spec_bytes() =~= ascii_bytes(s@));
    iso_times_read_back(s@, ms);
}

/// A time written by [`super::text::iso_time`] for an instant from 1970 to
/// 2100 reads back as that instant.
#[verifier::spinoff_prover]
#[verifier::rlimit(40)]
pub proof fn iso_times_read_back(t: Seq<char>, ms: int)
    requires
        0 <= ms <= 4_102_444_800_000,
        is_iso_time(t, ms),
    ensures
        time_ms_of(ascii_bytes(t)) == Some(ms),
{
    let secs = ms / 1000;
    let millis = ms % 1000;
    let days = secs / 86400;
    let rem = secs % 86400;
    let (y, mo, d) = choose|y: int, mo: int, d: int| #![trigger days_from_epoch(y, mo, d)]
        valid_date(y, mo, d) && days_from_epoch(y, mo, d) == days
        && t == iso_fields(y, mo, d, rem / 3600, rem % 3600 / 60, rem % 60, millis);
    let h = rem / 3600;
    let mi = rem % 3600 / 60;
    let s = rem % 60;
    assert(0 <= days <= 47482);
    super::date::lemma_date_in_year(y, mo, d);
    if y < 1970 {
        super::date::lemma_year_start_mono(y + 1, 1970);
    }
    if y > 2100 {
        super::date::lemma_year_start_mono(2101, y);
    }
    lemma_iso_layout(t, y, mo, d, h, mi, s, millis);
    assert(h * 3600 + mi * 60 + s == rem);
    assert(days * 86400 + rem == secs);
    assert(secs * 1000 + millis == ms);
}

/// `needle` occurs in `hay` at `i`.
pub open spec fn occurs_at(hay: Seq<char>, needle: Seq<char>, i: int) -> bool {
    0 <= i && i + needle.len() <= hay.len() && hay.subrange(i, i + needle.len()) == needle
}

/// `i` is where `needle` first occurs in `hay`.
pub open spec fn first_at(hay: Seq<char>, needle: Seq<char>, i: int) -> bool {
    occurs_at(hay, needle, i) && forall|j: int| 0 <= j < i ==> !occurs_at(hay, needle, j)
}

/// Unicode white space (the `White_Space` property).
pub open spec fn is_white(c: char) -> bool {
    let v = c as u32;
    (0x9 <= v <= 0xd) || v == 0x20 || v == 0x85 || v == 0xa0 || v == 0x1680 || (0x2000 <= v <= 0x200a)
        || v == 0x2028 || v == 0x2029 || v == 0x202f || v == 0x205f || v == 0x3000
}

/// `char::is_whitespace`.
fn char_is_white(c: char) -> (b: bool)
    ensures
        b == is_white(c),
{
    let v = c as u32;
    (0x9 <= v && v <= 0xd) || v == 0x20 || v == 0x85 || v == 0xa0 || v == 0x1680 || (0x2000 <= v && v <= 0x200a)
        || v == 0x2028 || v == 0x2029 || v == 0x202f || v == 0x205f || v == 0x3000
}

/// `t` is `s` without white space at either end.
pub open spec fn trimmed(s: Seq<char>, t: Seq<char>) -> bool {
    exists|a: int, b: int| {
        &&& 0 <= a <= b <= s.len()
        &&& t == s.subrange(a, b)
        &&& forall|i: int| 0 <= i < a ==> is_white(#[trigger] s[i])
        &&& forall|i: int| b <= i < s.len() ==> is_white(#[trigger] s[i])
        &&& a < b ==> !is_white(s[a]) && !is_white(s[b - 1])
    }
}

/// The text of the first `<name>…</name>` in `body`, trimmed: after the
/// first opening tag, up to the first closing tag after it.
pub open spec fn element_text(body: Seq<char>, name: Seq<char>, text: Option<Seq<char>>) -> bool {
    let open = seq!['<'] + name + seq!['>'];
    let close = seq!['<', '/'] + name + seq!['>'];
    match text {
        None => (forall|i: int| !#[trigger] occurs_at(body, open, i)) || exists|i: int| {
            &&& first_at(body, open, i)
            &&& forall|j: int| !#[trigger] occurs_at(body.subrange(i + open.len(), body.len() as int), close, j)
        },
        Some(t) => exists|i: int, j: int|
            #![trigger first_at(body, open, i), first_at(body.subrange(i + open.len(), body.len() as int), close, j)]
            {
                &&& first_at(body, open, i)
                &&& first_at(body.subrange(i + open.len(), body.len() as int), close, j)
                &&& trimmed(body.subrange(i + open.len(), body.len() as int).subrange(0, j), t)
            },
    }
}

/// The characters of `s`.
pub fn chars_of(s: &str) -> (v: Vec<char>)
    ensures
        v@ == s@,
{
    let mut v: Vec<char> = Vec::new();
    for c in it: s.chars()
        invariant
            it.seq() == s@,
            v@ == s@.take(it.index() as int),
    {
        v.push(c);
        assert(v@ =~= s@.take(it.index() + 1));
    }
    assert(s@.take(s@.len() as int) =~= s@);
    v
}

/// Whether `needle` occurs in `hay` at `i`.
fn matches_at(hay: &Vec<char>, needle: &Vec<char>, i: usize) -> (r: bool)
    ensures
        r == occurs_at(hay@, needle@, i as int),
{
    let hl = hay.len();
    if i > hl || needle.len() > hl - i {
        return false;
    }
    let mut k: usize = 0;
    while k < needle.len()
        invariant
            hl == hay@.len(),
            i + needle@.len() <= hay@.len(),
            k <= needle@.len(),
            forall|x: int| 0 <= x < k ==> hay@[i + x] == needle@[x],
        decreases needle@.len() - k,
    {
        if hay[i + k] != needle[k] {
            assert(hay@.subrange(i as int, i + needle@.len())[k as int] != needle@[k as int]);
            return false;
        }
        k += 1;
    }
    assert(hay@.subrange(i as int, i + needle@.len()) =~= needle@);
    true
}

/// Where `needle` first occurs in `hay` from `from` on.
fn find_from(hay: &Vec<char>, needle: &Vec<char>, from: usize) -> (r: Option<usize>)
    requires
        from <= hay@.len(),
    ensures
        r matches Some(i) ==> from <= i && occurs_at(hay@, needle@, i as int)
            && forall|j: int| from <= j < i ==> !occurs_at(hay@, needle@, j),
        r is None ==> forall|j: int| from <= j ==> !occurs_at(hay@, needle@, j),
{
    let mut i = from;
    while i < hay.len()
        invariant
            from <= i <= hay@.len(),
            forall|j: int| from <= j < i ==> !occurs_at(hay@, needle@, j),
        decreases hay@.len() - i,
    {
        if matches_at(hay, needle, i) {
            return Some(i);
        }
        i += 1;
    }
    if matches_at(hay, needle, i) {
        return Some(i);
    }
    None
}

/// `s` without white space at either end.
pub(crate) fn trim_chars(s: &Vec<char>, from: usize, to: usize) -> (r: String)
    requires
        from <= to <= s@.len(),
    ensures
        trimmed(s@.subrange(from as int, to as int), r@),
{
    let ghost w = s@.subrange(from as int, to as int);
    let mut a = from;
    while a < to && char_is_white(s[a])
        invariant
            from <= a <= to,
            to <= s@.len(),
            forall|i: int| from <= i < a ==> is_white(#[trigger] s@[i]),
        decreases to - a,
    {
        a += 1;
    }
    let mut b = to;
    while b > a && char_is_white(s[b - 1])
        invariant
            a <= b <= to,
            to <= s@.len(),
            forall|i: int| b <= i < to ==> is_white(#[trigger] s@[i]),
        decreases b,
    {
        b -= 1;
    }
    let mut out = String::new();
    let mut k = a;
    while k < b
        invariant
            a <= k <= b,
            b <= s@.len(),
            out@ == s@.subrange(a as int, k as int),
        decreases b - k,
    {
        out.push(s[k]);
        k += 1;
        assert(out@ =~= s@.subrange(a as int, k as int));
    }
    proof {
        let aa = (a - from) as int;
        let bb = (b - from) as int;
        assert(out@ =~= w.subrange(aa, bb));
        assert forall|i: int| 0 <= i < aa implies is_white(#[trigger] w[i]) by { assert(w[i] == s@[from + i]); }
        assert forall|i: int| bb <= i < w.len() implies is_white(#[trigger] w[i]) by { assert(w[i] == s@[from + i]); }
        if aa < bb {
            assert(w[aa] == s@[a as int]);
            assert(w[bb - 1] == s@[b - 1]);
        }
    }
    out
}

/// The text of the first `<name>…</name>` in `body`, trimmed.
pub fn element(body: &str, name: &str) -> (r: Option<String>)
    ensures
        element_text(body@, name@, match r { Some(t) => Some(t@), None => None }),
{
    let b = chars_of(body);
    let n = chars_of(name);
    let mut open: Vec<char> = Vec::new();
    open.push('<');
    let mut close: Vec<char> = Vec::new();
    close.push('<');
    close.push('/');
    let mut k: usize = 0;
    while k < n.len()
        invariant
            k <= n@.len(),
            open@ == seq!['<'] + n@.take(k as int),
            close@ == seq!['<', '/'] + n@.take(k as int),
        decreases n@.len() - k,
    {
        open.push(n[k]);
        close.push(n[k]);
        k += 1;
        assert(open@ =~= seq!['<'] + n@.take(k as int));
        assert(close@ =~= seq!['<', '/'] + n@.take(k as int));
    }
    open.push('>');
    close.push('>');
    assert(n@.take(n@.len() as int) =~= n@);
    assert(open@ =~= seq!['<'] + name@ + seq!['>']);
    assert(close@ =~= seq!['<', '/'] + name@ + seq!['>']);
    let i = match find_from(&b, &open, 0) {
        Some(i) => i,
        None => return None,
    };
    let bl = b.len();
    let start = i + open.len();
    let ghost rest = b@.subrange(start as int, b@.len() as int);
    let j = match find_from(&b, &close, start) {
        Some(j) => j,
        None => {
            proof {
                assert forall|x: int| !#[trigger] occurs_at(rest, close@, x) by {
                    if occurs_at(rest, close@, x) {
                        assert(b@.subrange(start + x, start + x + close@.len()) =~= rest.subrange(x, x + close@.len()));
                        assert(occurs_at(b@, close@, start + x));
                    }
                }
                assert(first_at(b@, open@, i as int));
            }
            return None;
        },
    };
    let t = trim_chars(&b, start, j);
    proof {
        let jj = (j - start) as int;
        assert(b@.subrange(j as int, j + close@.len()) =~= rest.subrange(jj, jj + close@.len()));
        assert forall|x: int| 0 <= x < jj implies !occurs_at(rest, close@, x) by {
            if occurs_at(rest, close@, x) {
                assert(b@.subrange(start + x, start + x + close@.len()) =~= rest.subrange(x, x + close@.len()));
                assert(occurs_at(b@, close@, start + x));
            }
        }
        assert(rest.subrange(0, jj) =~= b@.subrange(start as int, j as int));
        assert(first_at(rest, close@, jj));
        assert(first_at(b@, open@, i as int));
    }
    Some(t)
}

/// A set of three bytes of which two or three are the same holds the same
/// bytes as the shorter list.
proof fn lemma_same_set(b: Seq<u8>)
    ensures
        forall|at: int, c: u8| byte_in(b, at, seq![c, c, c]) == byte_in(b, at, seq![c]),
{
    assert forall|at: int, c: u8| byte_in(b, at, seq![c, c, c]) == byte_in(b, at, seq![c]) by {
        if byte_in(b, at, seq![c, c, c]) {
            assert(seq![c][0] == c);
        }
        if byte_in(b, at, seq![c]) {
            assert(seq![c, c, c][0] == c);
        }
    }
}

/// As [`lemma_same_set`], for two distinct bytes.
proof fn lemma_pair_set(b: Seq<u8>)
    ensures
        forall|at: int, c: u8, c2: u8| byte_in(b, at, seq![c, c2, c2]) == byte_in(b, at, seq![c, c2]),
{
    assert forall|at: int, c: u8, c2: u8| byte_in(b, at, seq![c, c2, c2]) == byte_in(b, at, seq![c, c2]) by {
        let s3 = seq![c, c2, c2];
        let s2 = seq![c, c2];
        if byte_in(b, at, s3) {
            let k = choose|k: int| 0 <= k < s3.len() && s3[k] == b[at];
            if k == 0 { assert(s2[0] == b[at]); } else { assert(s2[1] == b[at]); }
        }
        if byte_in(b, at, s2) {
            let k = choose|k: int| 0 <= k < s2.len() && s2[k] == b[at];
            if k == 0 { assert(s3[0] == b[at]); } else { assert(s3[1] == b[at]); }
        }
    }
}

} // verus!
