//! The growth schedule of the buffer's capacity.

use vstd::arithmetic::power2::{lemma2_to64, lemma_pow2_pos, lemma_pow2_unfold, pow2};
use vstd::prelude::*;

verus! {

/// Capacity of the first region allocated for an empty buffer.
pub const INITIAL_CAPACITY: usize = 4;

/// Capacity chosen when a buffer of capacity `c` is full.
pub open spec fn next_capacity(c: nat) -> nat {
    if c == 0 {
        INITIAL_CAPACITY as nat
    } else {
        2 * c
    }
}

/// Capacity of a buffer that started empty and has grown `k` times.
pub open spec fn capacity_after_growths(k: nat) -> nat
    decreases k,
{
    if k == 0 {
        0
    } else {
        next_capacity(capacity_after_growths((k - 1) as nat))
    }
}

/// `c` is a capacity that some number of growths from empty produces.
pub open spec fn is_reachable_capacity(c: nat) -> bool {
    exists|k: nat| capacity_after_growths(k) == c
}

/// Growing a reachable capacity gives a reachable capacity.
pub proof fn lemma_next_capacity_reachable(c: nat)
    requires
        is_reachable_capacity(c),
    ensures
        is_reachable_capacity(next_capacity(c)),
{
    let k = choose|k: nat| capacity_after_growths(k) == c;
    assert(capacity_after_growths(k + 1) == next_capacity(c));
}

/// After the `k`-th growth from empty, the capacity is `4 * 2^(k - 1)`.
pub proof fn lemma_capacity_after_growths(k: nat)
    requires
        k >= 1,
    ensures
        capacity_after_growths(k) == INITIAL_CAPACITY * pow2((k - 1) as nat),
    decreases k,
{
    if k == 1 {
        lemma2_to64();
        assert(capacity_after_growths(0) == 0);
    } else {
        let p = pow2((k - 2) as nat);
        lemma_capacity_after_growths((k - 1) as nat);
        lemma_pow2_pos((k - 2) as nat);
        lemma_pow2_unfold((k - 1) as nat);
        assert(2 * (INITIAL_CAPACITY * p) == INITIAL_CAPACITY * (2 * p)) by (nonlinear_arith);
    }
}

/// Every reachable capacity is zero or four times a power of two.
pub proof fn lemma_reachable_capacity_shape(c: nat)
    requires
        is_reachable_capacity(c),
    ensures
        c == 0 || exists|j: nat| c == INITIAL_CAPACITY * #[trigger] pow2(j),
{
    let k = choose|k: nat| capacity_after_growths(k) == c;
    if k >= 1 {
        lemma_capacity_after_growths(k);
        assert(c == INITIAL_CAPACITY * pow2((k - 1) as nat));
    }
}

} // verus!
