//! The circular index mapping shared by the ring containers: the logical
//! position `i` of a ring whose first element sits at physical slot `first`
//! lives at physical slot `(first + i) % cap`.

use vstd::prelude::*;
use vstd::arithmetic::div_mod::{lemma_mod_sub_multiples_vanish, lemma_small_mod};

verus! {

/// Physical slot of logical position `i` in a ring of `cap` slots whose
/// first element sits at physical slot `first`.
pub open spec fn ring_index(first: int, i: int, cap: int) -> int {
    (first + i) % cap
}

/// With `first` inside the ring and `i` at most one full turn, the circular
/// mapping needs at most one wraparound subtraction, and lands inside the
/// ring.
pub broadcast proof fn lemma_ring_index(first: int, i: int, cap: int)
    requires
        0 < cap,
        0 <= first < cap,
        0 <= i <= cap,
    ensures
        #[trigger] ring_index(first, i, cap) == if first + i < cap {
            first + i
        } else {
            first + i - cap
        },
        0 <= ring_index(first, i, cap) < cap,
{
    if first + i < cap {
        lemma_small_mod((first + i) as nat, cap as nat);
    } else {
        lemma_mod_sub_multiples_vanish(first + i, cap);
        lemma_small_mod((first + i - cap) as nat, cap as nat);
    }
}

} // verus!
