//! Arithmetic on cumulative counters: totals that are kept in 64 bits and
//! the traffic between two samples of a counter.

use vstd::arithmetic::div_mod::lemma_add_mod_noop;
use vstd::prelude::*;

verus! {

/// A natural number reduced to 64 bits, as unsigned machine addition
/// reduces it.
pub open spec fn wrap(n: nat) -> u64 {
    (n % 0x1_0000_0000_0000_0000) as u64
}

/// The traffic between two samples of a cumulative counter: their
/// difference, or zero where the counter fell back (it was reset, or it
/// wrapped).
pub open spec fn interval_delta(previous: u64, current: u64) -> u64 {
    if current >= previous {
        (current - previous) as u64
    } else {
        0
    }
}

/// Adds to a running total as the machine does, dropping the carry.
pub(crate) fn add_wrapped(
    total: u64,
    amount: u64,
    Ghost(sum): Ghost<nat>,
    Ghost(more): Ghost<nat>,
) -> (r: u64)
    requires
        total == wrap(sum),
        amount == wrap(more),
    ensures
        r == wrap(sum + more),
{
    proof {
        lemma_add_mod_noop(sum as int, more as int, 0x1_0000_0000_0000_0000);
    }
    total.wrapping_add(amount)
}

} // verus!
