use vstd::prelude::*;

verus! {

/// The little-endian bytes of a `u32`.
pub open spec fn le_u32(v: u32) -> Seq<u8> {
    seq![v as u8, (v >> 8u32) as u8, (v >> 16u32) as u8, (v >> 24u32) as u8]
}

/// The little-endian bytes of a `u64`.
pub open spec fn le_u64(v: u64) -> Seq<u8> {
    le_u32(v as u32) + le_u32((v >> 32u64) as u32)
}

/// The little-endian bytes of a `u128`.
pub open spec fn le_u128(v: u128) -> Seq<u8> {
    le_u64(v as u64) + le_u64((v >> 64u128) as u64)
}

/// The `u32` whose little-endian bytes start at `at`.
pub open spec fn u32_at(b: Seq<u8>, at: int) -> u32 {
    (b[at] as u32) | ((b[at + 1] as u32) << 8u32) | ((b[at + 2] as u32) << 16u32) | ((b[at
        + 3] as u32) << 24u32)
}

/// The `u64` whose little-endian bytes start at `at`.
pub open spec fn u64_at(b: Seq<u8>, at: int) -> u64 {
    (u32_at(b, at) as u64) | ((u32_at(b, at + 4) as u64) << 32u64)
}

/// The `u128` whose little-endian bytes start at `at`.
pub open spec fn u128_at(b: Seq<u8>, at: int) -> u128 {
    (u64_at(b, at) as u128) | ((u64_at(b, at + 8) as u128) << 64u128)
}

proof fn lemma_u32_bits(v: u32)
    ensures
        ((v as u8) as u32) | ((((v >> 8u32) as u8) as u32) << 8u32) | ((((v >> 16u32) as u8) as u32)
            << 16u32) | ((((v >> 24u32) as u8) as u32) << 24u32) == v,
{
    assert(((v as u8) as u32) | ((((v >> 8u32) as u8) as u32) << 8u32) | ((((v >> 16u32) as u8)
        as u32) << 16u32) | ((((v >> 24u32) as u8) as u32) << 24u32) == v) by (bit_vector);
}

/// Reading a `u32` back from its little-endian bytes gives it unchanged.
pub proof fn lemma_u32_round_trip(b: Seq<u8>, at: int, v: u32)
    requires
        0 <= at,
        at + 4 <= b.len(),
        b.subrange(at, at + 4) == le_u32(v),
    ensures
        u32_at(b, at) == v,
{
    assert(b[at] == b.subrange(at, at + 4)[0]);
    assert(b[at + 1] == b.subrange(at, at + 4)[1]);
    assert(b[at + 2] == b.subrange(at, at + 4)[2]);
    assert(b[at + 3] == b.subrange(at, at + 4)[3]);
    lemma_u32_bits(v);
}

/// Reading a `u64` back from its little-endian bytes gives it unchanged.
pub proof fn lemma_u64_round_trip(b: Seq<u8>, at: int, v: u64)
    requires
        0 <= at,
        at + 8 <= b.len(),
        b.subrange(at, at + 8) == le_u64(v),
    ensures
        u64_at(b, at) == v,
{
    assert(b.subrange(at, at + 4) =~= b.subrange(at, at + 8).subrange(0, 4));
    assert(b.subrange(at + 4, at + 8) =~= b.subrange(at, at + 8).subrange(4, 8));
    assert(le_u64(v).subrange(0, 4) =~= le_u32(v as u32));
    assert(le_u64(v).subrange(4, 8) =~= le_u32((v >> 32u64) as u32));
    lemma_u32_round_trip(b, at, v as u32);
    lemma_u32_round_trip(b, at + 4, (v >> 32u64) as u32);
    assert(((v as u32) as u64) | ((((v >> 32u64) as u32) as u64) << 32u64) == v) by (bit_vector);
}

/// Reading a `u128` back from its little-endian bytes gives it unchanged.
pub proof fn lemma_u128_round_trip(b: Seq<u8>, at: int, v: u128)
    requires
        0 <= at,
        at + 16 <= b.len(),
        b.subrange(at, at + 16) == le_u128(v),
    ensures
        u128_at(b, at) == v,
{
    assert(b.subrange(at, at + 8) =~= b.subrange(at, at + 16).subrange(0, 8));
    assert(b.subrange(at + 8, at + 16) =~= b.subrange(at, at + 16).subrange(8, 16));
    assert(le_u128(v).subrange(0, 8) =~= le_u64(v as u64));
    assert(le_u128(v).subrange(8, 16) =~= le_u64((v >> 64u128) as u64));
    lemma_u64_round_trip(b, at, v as u64);
    lemma_u64_round_trip(b, at + 8, (v >> 64u128) as u64);
    assert(((v as u64) as u128) | ((((v >> 64u128) as u64) as u128) << 64u128) == v)
        by (bit_vector);
}

pub fn push_u32(out: &mut Vec<u8>, v: u32)
    ensures
        final(out)@ == old(out)@ + le_u32(v),
{
    out.push(v as u8);
    out.push((v >> 8u32) as u8);
    out.push((v >> 16u32) as u8);
    out.push((v >> 24u32) as u8);
    assert(final(out)@ =~= old(out)@ + le_u32(v));
}

pub fn push_u64(out: &mut Vec<u8>, v: u64)
    ensures
        final(out)@ == old(out)@ + le_u64(v),
{
    push_u32(out, v as u32);
    push_u32(out, (v >> 32u64) as u32);
    assert(final(out)@ =~= old(out)@ + le_u64(v));
}

pub fn push_u128(out: &mut Vec<u8>, v: u128)
    ensures
        final(out)@ == old(out)@ + le_u128(v),
{
    push_u64(out, v as u64);
    push_u64(out, (v >> 64u128) as u64);
    assert(final(out)@ =~= old(out)@ + le_u128(v));
}

pub fn read_u32(b: &[u8], at: usize) -> (r: u32)
    requires
        at + 4 <= b@.len(),
    ensures
        r == u32_at(b@, at as int),
{
    (b[at] as u32) | ((b[at + 1] as u32) << 8u32) | ((b[at + 2] as u32) << 16u32) | ((b[at
        + 3] as u32) << 24u32)
}

pub fn read_u64(b: &[u8], at: usize) -> (r: u64)
    requires
        at + 8 <= b@.len(),
    ensures
        r == u64_at(b@, at as int),
{
    let _n = b.len();
    (read_u32(b, at) as u64) | ((read_u32(b, at + 4) as u64) << 32u64)
}

pub fn read_u128(b: &[u8], at: usize) -> (r: u128)
    requires
        at + 16 <= b@.len(),
    ensures
        r == u128_at(b@, at as int),
{
    let _n = b.len();
    (read_u64(b, at) as u128) | ((read_u64(b, at + 8) as u128) << 64u128)
}

} // verus!
