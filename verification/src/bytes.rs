//! Byte-level helpers: little-endian integers and slice copies.
use vstd::prelude::*;

verus! {

/// The little-endian encoding of `v` on `n` bytes.
pub open spec fn le_bytes(v: nat, n: nat) -> Seq<u8>
    decreases n,
{
    if n == 0 {
        Seq::empty()
    } else {
        seq![(v % 256) as u8] + le_bytes(v / 256, (n - 1) as nat)
    }
}

/// The value of a little-endian byte sequence.
pub open spec fn le_value(s: Seq<u8>) -> nat
    decreases s.len(),
{
    if s.len() == 0 {
        0
    } else {
        s[0] as nat + 256 * le_value(s.drop_first())
    }
}

/// Appends every byte of `src` to `dst`.
pub fn append_bytes(dst: &mut Vec<u8>, src: &[u8])
    ensures
        final(dst)@ == old(dst)@ + src@,
{
    let mut i: usize = 0;
    while i < src.len()
        invariant
            i <= src@.len(),
            dst@ == old(dst)@ + src@.subrange(0, i as int),
        decreases src@.len() - i,
    {
        dst.push(src[i]);
        i = i + 1;
        assert(dst@ == old(dst)@ + src@.subrange(0, i as int));
    }
    assert(src@.subrange(0, src@.len() as int) == src@);
}

/// 256 to the power `n`.
pub open spec fn pow256(n: nat) -> nat
    decreases n,
{
    if n == 0 {
        1
    } else {
        256 * pow256((n - 1) as nat)
    }
}

/// `le_bytes(v, n)` has `n` bytes.
pub proof fn lemma_le_bytes_len(v: nat, n: nat)
    ensures
        le_bytes(v, n).len() == n,
    decreases n,
{
    if n > 0 {
        lemma_le_bytes_len(v / 256, (n - 1) as nat);
    }
}

/// A little-endian value of `s.len()` bytes is below `256^s.len()`.
pub proof fn lemma_le_value_bound(s: Seq<u8>)
    ensures
        le_value(s) < pow256(s.len()),
    decreases s.len(),
{
    if s.len() > 0 {
        lemma_le_value_bound(s.drop_first());
    }
}

/// `pow256` grows with its exponent.
pub proof fn lemma_pow256_mono(a: nat, b: nat)
    requires
        a <= b,
    ensures
        pow256(a) <= pow256(b),
    decreases b,
{
    if a < b {
        lemma_pow256_mono(a, (b - 1) as nat);
    }
}

/// Reading back the little-endian encoding of `v` on `n` bytes gives `v`
/// when it fits.
pub proof fn lemma_le_roundtrip(v: nat, n: nat)
    requires
        v < pow256(n),
    ensures
        le_value(le_bytes(v, n)) == v,
    decreases n,
{
    if n > 0 {
        lemma_le_roundtrip(v / 256, (n - 1) as nat);
        lemma_le_bytes_len(v, n);
        assert(le_bytes(v, n).drop_first() =~= le_bytes(v / 256, (n - 1) as nat));
    }
}

/// The powers of 256 that the fixed-width fields use.
pub proof fn lemma_pow256_values()
    ensures
        pow256(4) == 0x1_0000_0000,
        pow256(7) == 0x100_0000_0000_0000,
        pow256(8) == 0x1_0000_0000_0000_0000,
{
    reveal_with_fuel(pow256, 9);
}

/// Appends the little-endian encoding of `v` on `n` bytes.
pub fn push_le(dst: &mut Vec<u8>, v: u64, n: usize)
    ensures
        final(dst)@ == old(dst)@ + le_bytes(v as nat, n as nat),
    decreases n,
{
    if n > 0 {
        dst.push((v % 256) as u8);
        push_le(dst, v / 256, n - 1);
        assert(final(dst)@ =~= old(dst)@ + le_bytes(v as nat, n as nat));
    } else {
        assert(dst@ =~= old(dst)@ + le_bytes(v as nat, n as nat));
    }
}

/// Reads the little-endian value of `n` bytes (at most 8) at `start`.
pub fn read_le(b: &[u8], start: usize, n: usize) -> (res: u64)
    requires
        start + n <= b.len(),
        n <= 8,
    ensures
        res as nat == le_value(b@.subrange(start as int, start + n)),
    decreases n,
{
    if n == 0 {
        0
    } else {
        let rest = read_le(b, start + 1, n - 1);
        proof {
            let s = b@.subrange(start as int, start + n);
            assert(s.drop_first() =~= b@.subrange(start + 1, start + n));
            lemma_le_value_bound(b@.subrange(start + 1, start + n));
            lemma_pow256_mono((n - 1) as nat, 7);
            lemma_pow256_values();
        }
        b[start] as u64 + 256 * rest
    }
}

} // verus!
