//! Little-endian integer decoding.

use vstd::prelude::*;

verus! {

/// `256^n`.
pub open spec fn pow256(n: nat) -> nat
    decreases n,
{
    if n == 0 {
        1
    } else {
        256 * pow256((n - 1) as nat)
    }
}

/// The unsigned integer that the bytes `s` encode in little-endian order.
pub open spec fn le_value(s: Seq<u8>) -> nat
    decreases s.len(),
{
    if s.len() == 0 {
        0
    } else {
        s[0] as nat + 256 * le_value(s.drop_first())
    }
}

/// The little-endian integer stored in `b[off .. off + n]`.
pub open spec fn le_field(b: Seq<u8>, off: int, n: int) -> nat {
    le_value(b.subrange(off, off + n))
}

pub proof fn lemma_pow256_values()
    ensures
        pow256(0) == 1,
        pow256(1) == 0x100,
        pow256(2) == 0x1_0000,
        pow256(4) == 0x1_0000_0000,
        pow256(8) == 0x1_0000_0000_0000_0000,
        pow256(16) == 0x1_0000_0000_0000_0000_0000_0000_0000_0000,
{
    reveal_with_fuel(pow256, 17);
}

proof fn lemma_le_value_bound(s: Seq<u8>)
    ensures
        le_value(s) < pow256(s.len()),
    decreases s.len(),
{
    if s.len() > 0 {
        lemma_le_value_bound(s.drop_first());
    }
}

proof fn lemma_le_value_step(s: Seq<u8>, j: int, e: int)
    requires
        0 <= j < e <= s.len(),
    ensures
        le_value(s.subrange(j, e)) == s[j] as nat + 256 * le_value(s.subrange(j + 1, e)),
{
    assert(s.subrange(j, e).drop_first() =~= s.subrange(j + 1, e));
}

/// Decode `n` little-endian bytes starting at `off` (at most 16).
fn read_le(b: &[u8], off: usize, n: usize) -> (v: u128)
    requires
        n <= 16,
        off + n <= b@.len(),
    ensures
        v == le_field(b@, off as int, n as int),
        v < pow256(n as nat),
{
    let len = b.len();
    let mut acc: u128 = 0;
    let mut i: usize = n;
    proof {
        lemma_pow256_values();
        assert(b@.subrange(off + n, off + n).len() == 0);
    }
    while i > 0
        invariant
            i <= n <= 16,
            off + n <= b@.len(),
            len == b@.len(),
            acc == le_value(b@.subrange(off + i, off + n)),
            acc < pow256((n - i) as nat),
            pow256(16) == 0x1_0000_0000_0000_0000_0000_0000_0000_0000,
        decreases i,
    {
        proof {
            lemma_le_value_step(b@, off + i - 1, off + n as int);
            lemma_pow_mono((n - i) as nat, 15);
        }
        let byte = b[off + (i - 1)];
        acc = acc * 256 + byte as u128;
        i = i - 1;
    }
    acc
}

proof fn lemma_pow_mono(a: nat, b: nat)
    requires
        a <= b,
    ensures
        pow256(a) <= pow256(b),
    decreases b,
{
    if a < b {
        lemma_pow_mono(a, (b - 1) as nat);
    }
}

/// Read a little-endian `u16` at byte offset `off`.
pub fn read_u16(b: &[u8], off: usize) -> (v: u16)
    requires
        off + 2 <= b@.len(),
    ensures
        v == le_field(b@, off as int, 2),
{
    proof { lemma_pow256_values(); }
    read_le(b, off, 2) as u16
}

/// Read a little-endian `u32` at byte offset `off`.
pub fn read_u32(b: &[u8], off: usize) -> (v: u32)
    requires
        off + 4 <= b@.len(),
    ensures
        v == le_field(b@, off as int, 4),
{
    proof { lemma_pow256_values(); }
    read_le(b, off, 4) as u32
}

/// Read a little-endian `u64` at byte offset `off`.
pub fn read_u64(b: &[u8], off: usize) -> (v: u64)
    requires
        off + 8 <= b@.len(),
    ensures
        v == le_field(b@, off as int, 8),
{
    proof { lemma_pow256_values(); }
    read_le(b, off, 8) as u64
}

/// Read a little-endian `u128` at byte offset `off`.
pub fn read_u128(b: &[u8], off: usize) -> (v: u128)
    requires
        off + 16 <= b@.len(),
    ensures
        v == le_field(b@, off as int, 16),
{
    read_le(b, off, 16)
}

} // verus!
