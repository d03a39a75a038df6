//! Fixed-width little-endian integer encodings used in signed payloads.

use crate::amount::le_value;
use vstd::prelude::*;

verus! {

/// The first `n` little-endian base-256 digits of `x`.
pub open spec fn le_digits(x: nat, n: nat) -> Seq<u8>
    decreases n,
{
    if n == 0 {
        Seq::empty()
    } else {
        seq![(x % 256) as u8] + le_digits(x / 256, (n - 1) as nat)
    }
}

/// Eight little-endian bytes of a `u64`.
pub open spec fn u64_le(x: u64) -> Seq<u8> {
    le_digits(x as nat, 8)
}

/// Four little-endian bytes of a length, as a `u32`.
pub open spec fn u32_le(x: nat) -> Seq<u8> {
    le_digits(x, 4)
}

/// 256 to the power `n`.
pub open spec fn pow256(n: nat) -> nat
    decreases n,
{
    if n == 0 {
        1
    } else {
        256 * pow256((n - 1) as nat)
    }
}

/// Appends the first `n` little-endian digits of `x` to `out`.
pub fn push_le_digits(out: &mut Vec<u8>, x: u64, n: usize)
    ensures
        final(out)@ == old(out)@ + le_digits(x as nat, n as nat),
{
    let mut v: u64 = x;
    let mut i: usize = 0;
    while i < n
        invariant
            i <= n,
            out@ + le_digits(v as nat, (n - i) as nat) == old(out)@ + le_digits(
                x as nat,
                n as nat,
            ),
        decreases n - i,
    {
        let ghost before = out@;
        let ghost k = (n - i) as nat;
        assert(le_digits(v as nat, k) == seq![(v % 256) as u8] + le_digits(
            (v / 256) as nat,
            (k - 1) as nat,
        ));
        out.push((v % 256) as u8);
        assert(before + le_digits(v as nat, k) =~= out@ + le_digits(
            (v / 256) as nat,
            (k - 1) as nat,
        ));
        v = v / 256;
        i = i + 1;
    }
    assert(le_digits(v as nat, 0) =~= Seq::<u8>::empty());
    assert(out@ + Seq::<u8>::empty() =~= out@);
}

/// Appends all of `src` to `out`.
pub fn push_all(out: &mut Vec<u8>, src: &[u8])
    ensures
        final(out)@ == old(out)@ + src@,
{
    let mut i: usize = 0;
    while i < src.len()
        invariant
            i <= src@.len(),
            out@ == old(out)@ + src@.subrange(0, i as int),
        decreases src@.len() - i,
    {
        out.push(src[i]);
        assert(src@.subrange(0, i + 1) =~= src@.subrange(0, i as int).push(src@[i as int]));
        i = i + 1;
    }
    assert(src@.subrange(0, src@.len() as int) =~= src@);
}

/// A value spelled by `n` little-endian digits is below `256^n`.
pub proof fn lemma_le_value_bound(s: Seq<u8>)
    ensures
        le_value(s) < pow256(s.len()),
    decreases s.len(),
{
    if s.len() > 0 {
        lemma_le_value_bound(s.drop_first());
        let r = le_value(s.drop_first());
        let p = pow256(s.drop_first().len());
        assert(s[0] as nat + 256 * r < 256 * p) by (nonlinear_arith)
            requires
                r < p,
                s[0] < 256,
        ;
    }
}

/// Reads a `u64` from the first eight bytes of `b`, little-endian first.
pub fn read_u64_le(b: &[u8]) -> (r: u64)
    requires
        b@.len() >= 8,
    ensures
        r as nat == le_value(b@.subrange(0, 8)),
{
    let mut acc: u64 = 0;
    let mut i: usize = 8;
    while i > 0
        invariant
            i <= 8,
            b@.len() >= 8,
            acc as nat == le_value(b@.subrange(i as int, 8)),
        decreases i,
    {
        let ghost tail = b@.subrange(i as int, 8);
        proof {
            lemma_le_value_bound(tail);
            reveal_with_fuel(pow256, 8);
            assert(tail.len() <= 7);
            assert(pow256(tail.len()) <= pow256(7)) by {
                lemma_pow256_monotone(tail.len(), 7);
            }
            assert(pow256(7) == 72057594037927936nat);
        }
        let ghost next = b@.subrange(i - 1, 8);
        assert(next.drop_first() =~= tail);
        acc = acc * 256 + b[i - 1] as u64;
        i = i - 1;
    }
    acc
}

/// Powers of 256 grow with the exponent.
pub proof fn lemma_pow256_monotone(a: nat, b: nat)
    requires
        a <= b,
    ensures
        pow256(a) <= pow256(b),
    decreases b - a,
{
    if a < b {
        lemma_pow256_monotone(a, (b - 1) as nat);
    }
}

} // verus!

verus! {

/// Whether two byte strings are equal.
pub fn bytes_equal(a: &[u8], b: &[u8]) -> (r: bool)
    ensures
        r == (a@ == b@),
{
    if a.len() != b.len() {
        return false;
    }
    let mut i: usize = 0;
    while i < a.len()
        invariant
            i <= a@.len(),
            a@.len() == b@.len(),
            forall|j: int| 0 <= j < i ==> a@[j] == b@[j],
        decreases a@.len() - i,
    {
        if a[i] != b[i] {
            return false;
        }
        i = i + 1;
    }
    assert(a@ =~= b@);
    true
}

} // verus!
