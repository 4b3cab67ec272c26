//! The mathematical model of the tree: leaf and parent digests, power-of-two
//! padding, and the pairwise reduction that yields the root.

use std::collections::hash_map::DefaultHasher;
use vstd::bytes::spec_u64_to_le_bytes;
use vstd::prelude::*;
use vstd::std_specs::hash::DefaultHasherAdditionalSpecFns;

verus! {

/// Digest of one stored value: the `DefaultHasher` digest of the value's
/// little-endian bytes, written as a single block.
pub open spec fn leaf_hash(value: u64) -> u64 {
    DefaultHasher::spec_finish(seq![spec_u64_to_le_bytes(value)])
}

/// Digest of a parent node: the `DefaultHasher` digest of the two child
/// digests' little-endian bytes, left child written first.
pub open spec fn combine_hash(left: u64, right: u64) -> u64 {
    DefaultHasher::spec_finish(seq![spec_u64_to_le_bytes(left), spec_u64_to_le_bytes(right)])
}

/// Whether `n` is a power of two.
pub open spec fn is_pow2(n: nat) -> bool
    decreases n,
{
    if n == 0 {
        false
    } else if n == 1 {
        true
    } else {
        n % 2 == 0 && is_pow2(n / 2)
    }
}

/// The padded leaf count for `n` stored values: the smallest power of two
/// that is at least `n`, and at least 1.
pub open spec fn padded_len(n: nat) -> nat
    decreases n,
{
    if n <= 1 {
        1
    } else {
        2 * padded_len((n + 1) / 2)
    }
}

/// The padded, hashed leaf level for a sequence of stored values: the first
/// `values.len()` digests hash the stored values in order, the rest hash the
/// default value 0.
pub open spec fn leaf_digests(values: Seq<u64>) -> Seq<u64> {
    Seq::new(
        padded_len(values.len()),
        |i: int|
            if i < values.len() {
                leaf_hash(values[i])
            } else {
                leaf_hash(0)
            },
    )
}

/// One reduction level: adjacent digests combined pairwise, left to right,
/// order preserved.
pub open spec fn reduce_level(s: Seq<u64>) -> Seq<u64> {
    Seq::new(s.len() / 2, |i: int| combine_hash(s[2 * i], s[2 * i + 1]))
}

/// The root digest of a leaf level: repeated pairwise reduction until one
/// digest remains.
pub open spec fn merkle_root(s: Seq<u64>) -> u64
    recommends
        is_pow2(s.len()),
    decreases s.len(),
{
    if s.len() <= 1 {
        s[0]
    } else {
        merkle_root(reduce_level(s))
    }
}

/// The padded leaf count is at least 1, at least `n`, and a power of two.
pub proof fn lemma_padded_len_bounds(n: nat)
    ensures
        padded_len(n) >= 1,
        padded_len(n) >= n,
        is_pow2(padded_len(n)),
    decreases n,
{
    if n <= 1 {
    } else {
        lemma_padded_len_bounds((n + 1) / 2);
    }
}

/// The padded leaf count is the smallest power of two at or above `n`.
pub proof fn lemma_padded_len_min(n: nat, p: nat)
    requires
        is_pow2(p),
        p >= n,
    ensures
        padded_len(n) <= p,
    decreases n,
{
    if n <= 1 {
    } else {
        lemma_padded_len_min((n + 1) / 2, p / 2);
    }
}

/// Of two distinct powers of two, the larger is at least double the smaller.
pub proof fn lemma_pow2_double(a: nat, b: nat)
    requires
        is_pow2(a),
        is_pow2(b),
        a < b,
    ensures
        2 * a <= b,
    decreases b,
{
    if a == 1 {
    } else {
        lemma_pow2_double(a / 2, b / 2);
    }
}

} // verus!
