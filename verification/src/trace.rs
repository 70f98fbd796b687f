//! Whole runs of the predictor: what holds after any sequence of samples,
//! and what a constant sequence leads to.

use crate::controller::{is_capacity, INITIAL_WINDOW_SIZE, MIN_WINDOW_SIZE};
use crate::forecast::{lemma_delta_of, lemma_step_delta, lemma_step_valid, State, BASE_DELTA};
use crate::outliers::lemma_inliers_of_equal;
use crate::stats::{
    all_equal, lemma_mean_of_equal, lemma_median_of_equal, lemma_variance_sign, sum,
    sum_of_squares, variance_numerator,
};
use crate::window::lemma_inserted_len;
use vstd::prelude::*;

verus! {

/// The state after the samples of `inputs`, in their order, from the initial
/// state.
pub open spec fn run(inputs: Seq<i32>) -> State
    decreases inputs.len(),
{
    if inputs.len() == 0 {
        State::initial()
    } else {
        run(inputs.drop_last()).step(inputs.last())
    }
}

/// A window of `count` samples that are all `v`.
pub open spec fn constant(v: i32, count: nat) -> Seq<i32> {
    Seq::new(count, |i: int| v)
}

/// The capacity after `count` equal samples from the initial state: it
/// falls by one with each sample from the second on until it is the least.
pub open spec fn settling_capacity(count: nat) -> int {
    if count < 2 {
        INITIAL_WINDOW_SIZE as int
    } else if count < 6 {
        INITIAL_WINDOW_SIZE + 1 - count
    } else {
        MIN_WINDOW_SIZE as int
    }
}

/// The length of the window after `count` equal samples from the initial
/// state: every sample stays until the capacity has come down to the least,
/// and from then on the window holds as many samples as the capacity.
pub open spec fn settling_length(count: nat) -> nat {
    if count <= 6 {
        count
    } else {
        MIN_WINDOW_SIZE as nat
    }
}

/// Whatever samples arrive, and however many, the capacity stays between
/// the least and the greatest, and the window is longer than the capacity
/// by one sample at most.
pub proof fn lemma_run_bounds(inputs: Seq<i32>)
    ensures
        run(inputs).valid(),
        is_capacity(run(inputs).capacity),
        run(inputs).window.len() <= run(inputs).capacity + 1,
        inputs.len() >= 1 ==> run(inputs).window.len() >= 1,
        inputs.len() == 0 ==> run(inputs).window.len() == 0,
    decreases inputs.len(),
{
    if inputs.len() > 0 {
        lemma_run_bounds(inputs.drop_last());
        lemma_step_valid(run(inputs.drop_last()), inputs.last());
    }
}

/// The first sample of a run emits nothing. Every later one emits an
/// interval, whose half-width is zero or the base half-width and never
/// more.
pub proof fn lemma_run_output(inputs: Seq<i32>, sample: i32)
    ensures
        run(inputs).output(sample) is Some <==> inputs.len() >= 1,
        0 <= run(inputs).arrive(sample).adapt().delta() <= BASE_DELTA,
        run(inputs).output(sample) matches Some(interval) ==> {
            ||| interval.1 - interval.0 == 0
            ||| interval.1 - interval.0 == 2 * BASE_DELTA
        },
{
    lemma_run_bounds(inputs);
    lemma_inserted_len(run(inputs).window, run(inputs).capacity, sample);
    lemma_step_delta(run(inputs), sample);
}

/// One cycle on `v` from a window that holds only samples equal to `v`: the
/// window still holds only such samples, its variance is zero, the capacity
/// falls by one unless it is the least already, and the interval that is
/// emitted has `v` in its middle.
pub proof fn lemma_constant_step(v: i32, count: nat, capacity: int)
    requires
        is_capacity(capacity),
        count <= capacity + 1,
    ensures
        ({
            let state = State { window: constant(v, count), capacity };
            let held = if count >= capacity {
                capacity
            } else {
                count as int + 1
            };
            let next = if held >= 2 && capacity > MIN_WINDOW_SIZE {
                capacity - 1
            } else {
                capacity
            };
            let delta = if held < next {
                0
            } else {
                BASE_DELTA as int
            };
            &&& state.step(v) == State { window: constant(v, held as nat), capacity: next }
            &&& variance_numerator(constant(v, held as nat)) == 0
            &&& state.output(v) == if held >= 2 {
                Some((v - delta, v + delta))
            } else {
                None
            }
        }),
{
    let state = State { window: constant(v, count), capacity };
    let held: nat = if count >= capacity {
        capacity as nat
    } else {
        count + 1
    };
    let window = constant(v, held);
    let arrived = state.arrive(v);
    lemma_inserted_len(state.window, capacity, v);
    assert(arrived.window == window);
    assert(all_equal(window));
    lemma_variance_sign(window);
    lemma_inliers_of_equal(window);
    lemma_mean_of_equal(window);
    lemma_median_of_equal(window);
    lemma_delta_of(held, arrived.adapt().capacity);
}

/// From the initial state, equal samples leave the window holding only
/// such samples, with a variance of zero, and bring the capacity down to
/// the least by the sixth sample, where it stays.
pub proof fn lemma_constant_run(v: i32, count: nat)
    ensures
        run(constant(v, count)) == (State {
            window: constant(v, settling_length(count)),
            capacity: settling_capacity(count),
        }),
        variance_numerator(run(constant(v, count)).window) == 0,
        count >= 6 ==> run(constant(v, count)).capacity == MIN_WINDOW_SIZE,
    decreases count,
{
    if count > 0 {
        let before = (count - 1) as nat;
        lemma_constant_run(v, before);
        lemma_constant_step(v, settling_length(before), settling_capacity(before));
        assert(constant(v, count).drop_last() == constant(v, before));
    } else {
        assert(constant(v, count) == Seq::<i32>::empty());
        assert(sum(constant(v, count)) == 0 && sum_of_squares(constant(v, count)) == 0);
    }
}

/// From the initial state, each of the equal samples after the first emits
/// an interval with the sample in its middle. The second to the fifth emit
/// the sample alone; from the sixth on the filter keeps a whole window of
/// the least capacity, and the interval reaches the base half-width to
/// either side.
pub proof fn lemma_constant_output(v: i32, count: nat)
    requires
        count >= 1,
    ensures
        count < 5 ==> run(constant(v, count)).output(v) == Some((v as int, v as int)),
        count >= 5 ==> run(constant(v, count)).output(v) == Some(
            (v - BASE_DELTA, v + BASE_DELTA),
        ),
{
    lemma_constant_run(v, count);
    lemma_constant_step(v, settling_length(count), settling_capacity(count));
}

} // verus!
