//! Little-endian integers inside byte buffers.

use vstd::prelude::*;

verus! {

/// The unsigned 16-bit little-endian integer stored at `s[o..o + 2]`.
pub open spec fn le_u16(s: Seq<u8>, o: int) -> int {
    s[o] + 256 * s[o + 1]
}

/// The unsigned 32-bit little-endian integer stored at `s[o..o + 4]`.
pub open spec fn le_u32(s: Seq<u8>, o: int) -> int {
    s[o] + 256 * s[o + 1] + 65536 * s[o + 2] + 16777216 * s[o + 3]
}

/// The little-endian encoding of a 32-bit value.
pub open spec fn u32_le_bytes(v: u32) -> Seq<u8> {
    seq![(v % 256) as u8, ((v / 256) % 256) as u8, ((v / 65536) % 256) as u8, ((v / 16777216) % 256) as u8]
}

/// `s` with the bytes from `at` on replaced by `b` (same length as `s`).
pub open spec fn splice(s: Seq<u8>, at: int, b: Seq<u8>) -> Seq<u8> {
    s.take(at) + b + s.skip(at + b.len())
}

/// The unsigned little-endian integer of `w` bytes stored at `s[o..o + w]`.
pub open spec fn le_n(s: Seq<u8>, o: int, w: nat) -> int
    decreases w,
{
    if w == 0 {
        0
    } else {
        s[o] + 256 * le_n(s, o + 1, (w - 1) as nat)
    }
}

/// 256 to the power `w`.
pub open spec fn pow256(w: nat) -> int
    decreases w,
{
    if w == 0 {
        1
    } else {
        256 * pow256((w - 1) as nat)
    }
}

/// A `w`-byte little-endian integer is below 256 to the power `w`.
pub proof fn lemma_le_n_bound(s: Seq<u8>, o: int, w: nat)
    ensures
        0 <= le_n(s, o, w) < pow256(w),
    decreases w,
{
    if w > 0 {
        lemma_le_n_bound(s, o + 1, (w - 1) as nat);
        let (b, r, p) = (s[o] as int, le_n(s, o + 1, (w - 1) as nat), pow256((w - 1) as nat));
        assert(b + 256 * r < 256 * p) by (nonlinear_arith)
            requires 0 <= b <= 255, 0 <= r < p;
    }
}

/// Powers of 256 grow with the exponent, up to 2^64 for 8 bytes.
pub proof fn lemma_pow256_le(a: nat, b: nat)
    requires
        a <= b,
    ensures
        pow256(a) <= pow256(b),
        pow256(a) >= 1,
    decreases b,
{
    if b > 0 {
        if a < b {
            lemma_pow256_le(a, (b - 1) as nat);
        } else {
            lemma_pow256_le((a - 1) as nat, (b - 1) as nat);
        }
    }
}

/// Reads the little-endian integer of `w` bytes (at most 8) at `data[at..at + w]`.
pub fn read_le(data: &[u8], at: usize, w: usize) -> (v: u64)
    requires
        w <= 8,
        at + w <= data@.len(),
    ensures
        v == le_n(data@, at as int, w as nat),
{
    proof {
        lemma_pow256_le(w as nat, 8);
        reveal_with_fuel(pow256, 9);
        assert(pow256(8) == 0x1_0000_0000_0000_0000);
    }
    assert(data@.len() == data.len());
    let mut acc: u64 = 0;
    let mut j: usize = w;
    while j > 0
        invariant
            j <= w <= 8,
            at + w <= data@.len() <= usize::MAX,
            acc == le_n(data@, at + j, (w - j) as nat),
            pow256(w as nat) <= 0x1_0000_0000_0000_0000,
        decreases j,
    {
        proof {
            lemma_le_n_bound(data@, at + j, (w - j) as nat);
            lemma_pow256_le((w - j + 1) as nat, w as nat);
            let p = pow256((w - j) as nat);
            assert(pow256((w - j + 1) as nat) == 256 * p);
            assert(data@[at + j - 1] + 256 * acc < 256 * p) by (nonlinear_arith)
                requires data@[at + j - 1] <= 255, acc < p;
        }
        let b = data[at + j - 1] as u64;
        assert(b + 256 * acc == le_n(data@, at + j - 1, (w - j + 1) as nat));
        acc = b + 256 * acc;
        j = j - 1;
    }
    acc
}

/// Reads the little-endian 32-bit integer at `data[at..at + 4]`.
pub fn read_u32_le(data: &[u8], at: usize) -> (v: u32)
    requires
        at + 4 <= data@.len(),
    ensures
        v == le_u32(data@, at as int),
{
    let b0 = data[at] as u32;
    let b1 = data[at + 1] as u32;
    let b2 = data[at + 2] as u32;
    let b3 = data[at + 3] as u32;
    b0 + 256 * b1 + 65536 * b2 + 16777216 * b3
}

/// Overwrites `data[at..at + 4]` with the little-endian encoding of `v`.
pub fn write_u32_le(data: &mut Vec<u8>, at: usize, v: u32)
    requires
        at + 4 <= old(data)@.len(),
    ensures
        final(data)@ == splice(old(data)@, at as int, u32_le_bytes(v)),
{
    assert(data@.len() == data.len());
    let (a1, a2, a3) = (at + 1, at + 2, at + 3);
    data[at] = (v % 256) as u8;
    data[a1] = ((v / 256) % 256) as u8;
    data[a2] = ((v / 65536) % 256) as u8;
    data[a3] = ((v / 16777216) % 256) as u8;
    assert(data@ =~= splice(old(data)@, at as int, u32_le_bytes(v)));
}

/// Reading back the little-endian encoding of a 32-bit value gives the value.
pub proof fn lemma_u32_le_roundtrip(v: u32)
    ensures
        u32_le_bytes(v).len() == 4,
        le_u32(u32_le_bytes(v), 0) == v,
{
    let b = u32_le_bytes(v);
    assert(b[0] == v % 256 && b[1] == (v / 256) % 256 && b[2] == (v / 65536) % 256 && b[3] == (v / 16777216) % 256);
    assert(v % 256 + 256 * ((v / 256) % 256) + 65536 * ((v / 65536) % 256) + 16777216 * ((v / 16777216) % 256) == v) by (nonlinear_arith)
        requires 0 <= v < 4294967296;
}

} // verus!
