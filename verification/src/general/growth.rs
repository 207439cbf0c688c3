//! The rule by which the buffer of an escadra string grows.

use vstd::arithmetic::power2::{lemma2_to64, lemma_pow2_unfold, pow2};
use vstd::prelude::*;

verus! {

/// The capacity that the growth rule reaches from `capacity` for a content of
/// `needed` bytes. The buffer is one byte larger than the capacity, and it
/// doubles until the content and its terminator fit: the result is the
/// smallest `(capacity + 1) * 2^k - 1` that is at least `needed`.
pub open spec fn grown_capacity(capacity: nat, needed: nat) -> nat
    decreases
        (if needed > capacity {
            needed - capacity
        } else {
            0
        }),
{
    if needed <= capacity {
        capacity
    } else {
        grown_capacity(2 * capacity + 1, needed)
    }
}

/// Whether `grown` is the capacity that `doublings` doublings of the buffer
/// reach from `capacity`, and the first that takes `needed` bytes of content
/// with their terminator.
pub open spec fn grows_in(capacity: nat, needed: nat, grown: nat, doublings: nat) -> bool {
    &&& grown + 1 == (capacity + 1) * pow2(doublings)
    &&& grown >= needed
    &&& doublings > 0 ==> (capacity + 1) * pow2((doublings - 1) as nat) <= needed
}

/// The growth rule doubles the buffer as often as the content asks for and no
/// more often: the capacity it gives is the smallest
/// `(capacity + 1) * 2^k - 1` that is at least `needed`, so that it is
/// `capacity` itself where that is enough.
pub proof fn lemma_grown_capacity(capacity: nat, needed: nat)
    ensures
        grown_capacity(capacity, needed) >= needed,
        grown_capacity(capacity, needed) >= capacity,
        needed <= capacity ==> grown_capacity(capacity, needed) == capacity,
        exists|doublings: nat| #[trigger]
            grows_in(capacity, needed, grown_capacity(capacity, needed), doublings),
    decreases
            (if needed > capacity {
                needed - capacity
            } else {
                0
            }),
{
    let grown = grown_capacity(capacity, needed);
    if needed <= capacity {
        lemma2_to64();
        assert(grows_in(capacity, needed, grown, 0));
    } else {
        let doubled = 2 * capacity + 1;
        lemma_grown_capacity(doubled, needed);
        let before = choose|doublings: nat| #[trigger] grows_in(doubled, needed, grown, doublings);
        let size = capacity + 1;
        lemma_pow2_unfold(before + 1);
        assert(size * pow2(before + 1) == (2 * size) * pow2(before)) by (nonlinear_arith)
            requires
                pow2(before + 1) == 2 * pow2(before),
        ;
        if before == 0 {
            lemma2_to64();
            assert(size * pow2(0) == size) by (nonlinear_arith)
                requires
                    pow2(0) == 1,
            ;
        } else {
            let earlier = (before - 1) as nat;
            lemma_pow2_unfold(before);
            assert(size * pow2(before) == (2 * size) * pow2(earlier)) by (nonlinear_arith)
                requires
                    pow2(before) == 2 * pow2(earlier),
            ;
        }
        assert(grows_in(capacity, needed, grown, before + 1));
    }
}
} // verus!
