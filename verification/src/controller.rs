//! The adaptive controller: the window's capacity follows the variance of
//! the samples, one step at a time.

use crate::stats::Variance;
use vstd::prelude::*;

verus! {

/// The capacity of a new window.
pub const INITIAL_WINDOW_SIZE: usize = 10;

/// The greatest capacity.
pub const MAX_WINDOW_SIZE: usize = 20;

/// The least capacity.
pub const MIN_WINDOW_SIZE: usize = 5;

/// A variance above this widens the window.
pub const INCREASE_THRESHOLD: u32 = 10;

/// A variance below this narrows the window.
pub const DECREASE_THRESHOLD: u32 = 2;

/// The capacity lies between the least and the greatest.
pub open spec fn is_capacity(capacity: int) -> bool {
    MIN_WINDOW_SIZE <= capacity <= MAX_WINDOW_SIZE
}

/// The capacity that follows `capacity` when the variance is the fraction
/// `numerator / denominator`: one more above the upper threshold, one less
/// below the lower one, and never past the least or the greatest capacity.
pub open spec fn adjusted(capacity: int, numerator: int, denominator: int) -> int {
    if numerator > INCREASE_THRESHOLD * denominator && capacity < MAX_WINDOW_SIZE {
        capacity + 1
    } else if numerator < DECREASE_THRESHOLD * denominator && capacity > MIN_WINDOW_SIZE {
        capacity - 1
    } else {
        capacity
    }
}

/// The controller moves the capacity by at most one and never out of its
/// bounds, and it leaves the capacity alone while the variance is between
/// the thresholds.
pub proof fn lemma_adjusted(capacity: int, numerator: int, denominator: int)
    ensures
        capacity - 1 <= adjusted(capacity, numerator, denominator) <= capacity + 1,
        is_capacity(capacity) ==> is_capacity(adjusted(capacity, numerator, denominator)),
        DECREASE_THRESHOLD * denominator <= numerator <= INCREASE_THRESHOLD * denominator
            ==> adjusted(capacity, numerator, denominator) == capacity,
{
}

/// The capacity for the next sample.
pub fn adjust_window_size(window_size: usize, variance: &Variance) -> (next: usize)
    ensures
        next == adjusted(window_size as int, variance.numerator(), variance.denominator as int),
{
    if variance.exceeds(INCREASE_THRESHOLD) && window_size < MAX_WINDOW_SIZE {
        window_size + 1
    } else if variance.is_below(DECREASE_THRESHOLD) && window_size > MIN_WINDOW_SIZE {
        window_size - 1
    } else {
        window_size
    }
}

} // verus!
