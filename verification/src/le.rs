//! Little-endian integers in byte sequences: how region files and stored
//! geometries hold them.

use vstd::prelude::*;

verus! {

/// The unsigned value of `b[at..at + 2]`, little-endian.
pub open spec fn le_u16(b: Seq<u8>, at: int) -> int {
    b[at] + 256 * b[at + 1]
}

/// The unsigned value of `b[at..at + 4]`, little-endian.
pub open spec fn le_u32(b: Seq<u8>, at: int) -> int {
    le_u16(b, at) + 65536 * le_u16(b, at + 2)
}

/// The unsigned value of `b[at..at + 8]`, little-endian.
pub open spec fn le_u64(b: Seq<u8>, at: int) -> int {
    le_u32(b, at) + 0x1_0000_0000 * le_u32(b, at + 4)
}

/// The two's-complement value of `b[at..at + 4]`, little-endian.
pub open spec fn le_i32(b: Seq<u8>, at: int) -> int {
    let u = le_u32(b, at);
    if u < 0x8000_0000 { u } else { u - 0x1_0000_0000 }
}

/// The two's-complement value of `b[at..at + 8]`, little-endian.
pub open spec fn le_i64(b: Seq<u8>, at: int) -> int {
    let u = le_u64(b, at);
    if u < 0x8000_0000_0000_0000 { u } else { u - 0x1_0000_0000_0000_0000 }
}

/// A slice is never longer than the address space.
pub proof fn lemma_slice_len_bound<T>(s: &[T])
    ensures
        s@.len() <= usize::MAX,
{
    vstd::slice::axiom_spec_len(s);
}

proof fn lemma_u16_bound(b: Seq<u8>, at: int)
    requires 0 <= at, at + 2 <= b.len(),
    ensures 0 <= le_u16(b, at) <= 0xffff,
{
}

proof fn lemma_u32_bound(b: Seq<u8>, at: int)
    requires 0 <= at, at + 4 <= b.len(),
    ensures 0 <= le_u32(b, at) <= 0xffff_ffff,
{
    lemma_u16_bound(b, at);
    lemma_u16_bound(b, at + 2);
}

pub fn read_u16(b: &[u8], at: usize) -> (r: u16)
    requires at + 2 <= b@.len(),
    ensures r == le_u16(b@, at as int),
{
    b[at] as u16 + 256 * (b[at + 1] as u16)
}

pub fn read_u32(b: &[u8], at: usize) -> (r: u32)
    requires at + 4 <= b@.len(),
    ensures r == le_u32(b@, at as int),
{
    proof { lemma_slice_len_bound(b); }
    let lo = read_u16(b, at) as u32;
    let hi = read_u16(b, at + 2) as u32;
    lo + 65536 * hi
}

pub fn read_u64(b: &[u8], at: usize) -> (r: u64)
    requires at + 8 <= b@.len(),
    ensures r == le_u64(b@, at as int),
{
    proof { lemma_slice_len_bound(b); }
    let lo = read_u32(b, at) as u64;
    let hi = read_u32(b, at + 4) as u64;
    proof {
        lemma_u32_bound(b@, at as int);
        lemma_u32_bound(b@, at + 4);
    }
    assert(hi * 0x1_0000_0000 <= 0xffff_ffff_0000_0000) by (nonlinear_arith)
        requires hi <= 0xffff_ffff;
    lo + 0x1_0000_0000 * hi
}

pub fn read_i32(b: &[u8], at: usize) -> (r: i32)
    requires at + 4 <= b@.len(),
    ensures r == le_i32(b@, at as int),
{
    let u = read_u32(b, at);
    if u < 0x8000_0000 {
        u as i32
    } else {
        ((u - 0x8000_0000) as i32) - 0x7fff_ffff - 1
    }
}

pub fn read_i64(b: &[u8], at: usize) -> (r: i64)
    requires at + 8 <= b@.len(),
    ensures r == le_i64(b@, at as int),
{
    let u = read_u64(b, at);
    if u < 0x8000_0000_0000_0000 {
        u as i64
    } else {
        ((u - 0x8000_0000_0000_0000) as i64) - 0x7fff_ffff_ffff_ffff - 1
    }
}


// --- encoding ---

/// The two little-endian bytes of `x`.
pub open spec fn u16_bytes(x: u16) -> Seq<u8> {
    seq![(x % 256) as u8, (x / 256) as u8]
}

/// The four little-endian bytes of `x`.
pub open spec fn u32_bytes(x: u32) -> Seq<u8> {
    u16_bytes((x % 65536) as u16) + u16_bytes((x / 65536) as u16)
}

/// The eight little-endian bytes of `x`.
pub open spec fn u64_bytes(x: u64) -> Seq<u8> {
    u32_bytes((x % 0x1_0000_0000) as u32) + u32_bytes((x / 0x1_0000_0000) as u32)
}

/// The four little-endian bytes of `x` in two's complement.
pub open spec fn i32_bytes(x: i32) -> Seq<u8> {
    u32_bytes((if x >= 0 { x as int } else { x + 0x1_0000_0000 }) as u32)
}

/// The eight little-endian bytes of `x` in two's complement.
pub open spec fn i64_bytes(x: i64) -> Seq<u8> {
    u64_bytes((if x >= 0 { x as int } else { x + 0x1_0000_0000_0000_0000 }) as u64)
}

pub proof fn lemma_u16_round_trip(x: u16, b: Seq<u8>, at: int)
    requires
        0 <= at,
        at + 2 <= b.len(),
        b.subrange(at, at + 2) == u16_bytes(x),
    ensures
        le_u16(b, at) == x,
{
    assert(b[at] == u16_bytes(x)[0]);
    assert(b[at + 1] == u16_bytes(x)[1]);
}

pub proof fn lemma_u32_round_trip(x: u32, b: Seq<u8>, at: int)
    requires
        0 <= at,
        at + 4 <= b.len(),
        b.subrange(at, at + 4) == u32_bytes(x),
    ensures
        le_u32(b, at) == x,
{
    let lo = (x % 65536) as u16;
    let hi = (x / 65536) as u16;
    assert(b.subrange(at, at + 2) =~= b.subrange(at, at + 4).subrange(0, 2));
    assert(b.subrange(at + 2, at + 4) =~= b.subrange(at, at + 4).subrange(2, 4));
    assert(u32_bytes(x).subrange(0, 2) =~= u16_bytes(lo));
    assert(u32_bytes(x).subrange(2, 4) =~= u16_bytes(hi));
    lemma_u16_round_trip(lo, b, at);
    lemma_u16_round_trip(hi, b, at + 2);
}

pub proof fn lemma_u64_round_trip(x: u64, b: Seq<u8>, at: int)
    requires
        0 <= at,
        at + 8 <= b.len(),
        b.subrange(at, at + 8) == u64_bytes(x),
    ensures
        le_u64(b, at) == x,
{
    let lo = (x % 0x1_0000_0000) as u32;
    let hi = (x / 0x1_0000_0000) as u32;
    assert(b.subrange(at, at + 4) =~= b.subrange(at, at + 8).subrange(0, 4));
    assert(b.subrange(at + 4, at + 8) =~= b.subrange(at, at + 8).subrange(4, 8));
    assert(u64_bytes(x).subrange(0, 4) =~= u32_bytes(lo));
    assert(u64_bytes(x).subrange(4, 8) =~= u32_bytes(hi));
    lemma_u32_round_trip(lo, b, at);
    lemma_u32_round_trip(hi, b, at + 4);
}

pub proof fn lemma_i32_round_trip(x: i32, b: Seq<u8>, at: int)
    requires
        0 <= at,
        at + 4 <= b.len(),
        b.subrange(at, at + 4) == i32_bytes(x),
    ensures
        le_i32(b, at) == x,
{
    lemma_u32_round_trip((if x >= 0 { x as int } else { x + 0x1_0000_0000 }) as u32, b, at);
}

pub proof fn lemma_i64_round_trip(x: i64, b: Seq<u8>, at: int)
    requires
        0 <= at,
        at + 8 <= b.len(),
        b.subrange(at, at + 8) == i64_bytes(x),
    ensures
        le_i64(b, at) == x,
{
    lemma_u64_round_trip((if x >= 0 { x as int } else { x + 0x1_0000_0000_0000_0000 }) as u64, b, at);
}

pub fn push_u16(out: &mut Vec<u8>, x: u16)
    ensures
        final(out)@ == old(out)@ + u16_bytes(x),
{
    out.push((x % 256) as u8);
    out.push((x / 256) as u8);
    assert(final(out)@ =~= old(out)@ + u16_bytes(x));
}

pub fn push_u32(out: &mut Vec<u8>, x: u32)
    ensures
        final(out)@ == old(out)@ + u32_bytes(x),
{
    push_u16(out, (x % 65536) as u16);
    push_u16(out, (x / 65536) as u16);
    assert(final(out)@ =~= old(out)@ + u32_bytes(x));
}

pub fn push_u64(out: &mut Vec<u8>, x: u64)
    ensures
        final(out)@ == old(out)@ + u64_bytes(x),
{
    push_u32(out, (x % 0x1_0000_0000) as u32);
    push_u32(out, (x / 0x1_0000_0000) as u32);
    assert(final(out)@ =~= old(out)@ + u64_bytes(x));
}

pub fn push_i32(out: &mut Vec<u8>, x: i32)
    ensures
        final(out)@ == old(out)@ + i32_bytes(x),
{
    let u: u32 = if x >= 0 { x as u32 } else { ((x as i64) + 0x1_0000_0000) as u32 };
    push_u32(out, u);
}

pub fn push_i64(out: &mut Vec<u8>, x: i64)
    ensures
        final(out)@ == old(out)@ + i64_bytes(x),
{
    let u: u64 = if x >= 0 { x as u64 } else { ((x as i128) + 0x1_0000_0000_0000_0000) as u64 };
    push_u64(out, u);
}

} // verus!
