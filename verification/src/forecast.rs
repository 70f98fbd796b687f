//! The predictor: one cycle per sample, from the arrival of the sample to
//! the interval that is emitted for it.

use crate::controller::{
    adjust_window_size, adjusted, is_capacity, lemma_adjusted, INITIAL_WINDOW_SIZE,
};
use crate::input::{parse_sample, parsed, ParseError};
use crate::outliers::{filter_outliers, inliers, lemma_inliers};
use crate::stats::{
    calculate_average, calculate_median, calculate_variance, mean, median, trunc_div,
    variance_denominator, variance_numerator,
};
use crate::window::{insert, inserted, lemma_inserted_len};
use std::collections::VecDeque;
use vstd::prelude::*;

verus! {

/// The half-width of the interval when the filter keeps every sample of a
/// full window.
pub const BASE_DELTA: usize = 1;

/// The half-width of the interval: the base half-width times the share of
/// the capacity that the filter kept, rounded down.
pub open spec fn delta_of(kept: nat, capacity: int) -> int
    recommends
        capacity > 0,
{
    (BASE_DELTA * kept) / capacity
}

/// The half-width is zero while the filter keeps fewer samples than the
/// capacity. It is the base half-width when the filter keeps as many as the
/// capacity, or one more, which is the most that a window can hold.
pub proof fn lemma_delta_of(kept: nat, capacity: int)
    requires
        is_capacity(capacity),
        kept <= capacity + 1,
    ensures
        kept < capacity ==> delta_of(kept, capacity) == 0,
        kept >= capacity ==> delta_of(kept, capacity) == BASE_DELTA,
        0 <= delta_of(kept, capacity) <= BASE_DELTA,
{
    let k = kept as int;
    assert(k < capacity ==> k / capacity == 0) by (nonlinear_arith)
        requires
            k >= 0,
            capacity > 0,
    ;
    assert(capacity <= k ==> k / capacity == 1) by (nonlinear_arith)
        requires
            k <= capacity + 1,
            capacity >= 2,
    ;
}

/// The point prediction: the mean of the smoothed value and the median,
/// rounded toward zero.
pub open spec fn combined(smoothed: int, middle: int) -> int {
    trunc_div(smoothed + middle, 2)
}

/// The window and its capacity, as the contracts speak of them.
pub struct State {
    pub window: Seq<i32>,
    pub capacity: int,
}

impl State {
    /// The state before the first sample.
    pub open spec fn initial() -> State {
        State { window: Seq::empty(), capacity: INITIAL_WINDOW_SIZE as int }
    }

    /// The capacity is within its bounds, and the window is longer than
    /// the capacity by one sample at most.
    pub open spec fn valid(self) -> bool {
        &&& is_capacity(self.capacity)
        &&& self.window.len() <= self.capacity + 1
    }

    /// The state once `sample` has entered the window.
    pub open spec fn arrive(self, sample: i32) -> State {
        State { window: inserted(self.window, self.capacity, sample), capacity: self.capacity }
    }

    /// Whether an interval is emitted: the window holds two samples or more.
    pub open spec fn emits(self) -> bool {
        self.window.len() >= 2
    }

    /// The state once the controller has seen the variance of the window.
    pub open spec fn adapt(self) -> State {
        State {
            window: self.window,
            capacity: adjusted(
                self.capacity,
                variance_numerator(self.window),
                variance_denominator(self.window),
            ),
        }
    }

    /// The point prediction for the window.
    pub open spec fn prediction(self) -> int {
        combined(mean(inliers(self.window)), median(self.window))
    }

    /// The half-width of the interval for the window and the capacity.
    pub open spec fn delta(self) -> int {
        delta_of(inliers(self.window).len(), self.capacity)
    }

    /// The interval for the window and the capacity: its lower and its
    /// upper bound.
    pub open spec fn interval(self) -> (int, int) {
        (self.prediction() - self.delta(), self.prediction() + self.delta())
    }

    /// The state after a whole cycle on `sample`.
    pub open spec fn step(self, sample: i32) -> State {
        let arrived = self.arrive(sample);
        if arrived.emits() {
            arrived.adapt()
        } else {
            arrived
        }
    }

    /// What the cycle on `sample` emits: nothing while the window holds a
    /// single sample, else the interval for the window with `sample` in it
    /// and the capacity that the controller has just set.
    pub open spec fn output(self, sample: i32) -> Option<(int, int)> {
        let arrived = self.arrive(sample);
        if arrived.emits() {
            Some(arrived.adapt().interval())
        } else {
            None
        }
    }
}

/// A cycle keeps the capacity within its bounds and the window no longer
/// than the capacity and one sample. Once the sample has arrived the window
/// is not empty and within the capacity that the cycle began with.
pub proof fn lemma_step_valid(state: State, sample: i32)
    requires
        state.valid(),
    ensures
        state.step(sample).valid(),
        state.step(sample).window == state.arrive(sample).window,
        1 <= state.step(sample).window.len() <= state.capacity,
{
    let arrived = state.arrive(sample);
    lemma_inserted_len(state.window, state.capacity, sample);
    lemma_adjusted(
        arrived.capacity,
        variance_numerator(arrived.window),
        variance_denominator(arrived.window),
    );
}

/// The interval of a cycle is never wider on either side than the base
/// half-width: its half-width is zero where the filter keeps fewer samples
/// than the new capacity, and the base half-width where it keeps as many or
/// one more.
pub proof fn lemma_step_delta(state: State, sample: i32)
    requires
        state.valid(),
    ensures
        ({
            let next = state.arrive(sample).adapt();
            let kept = inliers(next.window).len();
            &&& 1 <= kept <= next.window.len() <= next.capacity + 1
            &&& 0 <= next.delta() <= BASE_DELTA
            &&& kept < next.capacity ==> next.delta() == 0
            &&& kept >= next.capacity ==> next.delta() == BASE_DELTA
            &&& state.output(sample) matches Some(interval) ==> interval.1 - interval.0 == 2
                * next.delta()
        }),
{
    let arrived = state.arrive(sample);
    let next = arrived.adapt();
    lemma_inserted_len(state.window, state.capacity, sample);
    lemma_adjusted(
        arrived.capacity,
        variance_numerator(arrived.window),
        variance_denominator(arrived.window),
    );
    lemma_inliers(next.window);
    lemma_delta_of(inliers(next.window).len(), next.capacity);
}

/// A prediction interval.
#[derive(Clone, Copy, Debug, PartialEq, Eq)]
pub struct Interval {
    pub lower: i64,
    pub upper: i64,
}

impl View for Interval {
    type V = (int, int);

    open spec fn view(&self) -> (int, int) {
        (self.lower as int, self.upper as int)
    }
}

/// The half-width of the interval for `kept` samples and a capacity of
/// `window_size`.
pub fn dynamic_delta(kept: usize, window_size: usize) -> (delta: usize)
    requires
        window_size > 0,
    ensures
        delta == delta_of(kept as nat, window_size as int),
{
    BASE_DELTA * kept / window_size
}

/// The point prediction from the smoothed value and the median.
pub fn combine(smoothed: i32, middle: i32) -> (prediction: i32)
    ensures
        prediction == combined(smoothed as int, middle as int),
{
    ((smoothed as i64 + middle as i64) / 2) as i32
}

/// The window of recent samples with its capacity.
#[derive(Debug)]
pub struct Predictor {
    buffer: VecDeque<i32>,
    window_size: usize,
}

impl View for Predictor {
    type V = State;

    closed spec fn view(&self) -> State {
        State { window: self.buffer@, capacity: self.window_size as int }
    }
}

impl Predictor {
    /// The capacity is within its bounds, and the window is longer than
    /// the capacity by one sample at most.
    pub open spec fn wf(&self) -> bool {
        self@.valid()
    }

    /// A predictor that has seen no sample.
    pub fn new() -> (predictor: Predictor)
        ensures
            predictor.wf(),
            predictor@ == State::initial(),
    {
        Predictor {
            buffer: VecDeque::with_capacity(INITIAL_WINDOW_SIZE),
            window_size: INITIAL_WINDOW_SIZE,
        }
    }

    /// The capacity.
    pub fn window_size(&self) -> (capacity: usize)
        ensures
            capacity == self@.capacity,
    {
        self.window_size
    }

    /// The number of samples in the window.
    pub fn len(&self) -> (count: usize)
        ensures
            count == self@.window.len(),
    {
        self.buffer.len()
    }

    /// The samples in the window, oldest first.
    pub fn window(&self) -> (buffer: &VecDeque<i32>)
        ensures
            buffer@ == self@.window,
    {
        &self.buffer
    }

    /// Runs one cycle on `sample`: the sample enters the window, and once
    /// the window holds two samples the controller sets the capacity for the
    /// next cycle and the interval is emitted. The window is then within
    /// the capacity that the cycle began with, and the interval reaches no
    /// further to either side than the base half-width.
    pub fn observe(&mut self, sample: i32) -> (emitted: Option<Interval>)
        requires
            old(self).wf(),
        ensures
            final(self).wf(),
            final(self)@ == old(self)@.step(sample),
            1 <= final(self)@.window.len() <= old(self)@.capacity,
            match emitted {
                Some(interval) => {
                    &&& old(self)@.output(sample) == Some(interval@)
                    &&& interval.upper - interval.lower == 0 || interval.upper - interval.lower
                        == 2 * BASE_DELTA
                },
                None => old(self)@.output(sample) is None,
            },
    {
        insert(&mut self.buffer, self.window_size, sample);
        proof {
            lemma_step_valid(old(self)@, sample);
            lemma_step_delta(old(self)@, sample);
        }
        if self.buffer.len() >= 2 {
            let variance = calculate_variance(&self.buffer);
            let filtered_buffer = filter_outliers(&self.buffer);
            proof {
            }
            let smoothed_value = calculate_average(&filtered_buffer);
            self.window_size = adjust_window_size(self.window_size, &variance);
            let prediction = combine(smoothed_value, calculate_median(&self.buffer));
            let dynamic_delta = dynamic_delta(filtered_buffer.len(), self.window_size);
            Some(
                Interval {
                    lower: prediction as i64 - dynamic_delta as i64,
                    upper: prediction as i64 + dynamic_delta as i64,
                },
            )
        } else {
            None
        }
    }

    /// Runs one cycle on the sample that `line` holds. A line that holds
    /// none is reported and leaves the predictor as it was, so that the
    /// caller may go on with the next line or stop.
    pub fn feed(&mut self, line: &[u8]) -> (emitted: Result<Option<Interval>, ParseError>)
        requires
            old(self).wf(),
        ensures
            final(self).wf(),
            match emitted {
                Ok(result) => {
                    &&& parsed(line@) matches Ok(sample)
                    &&& final(self)@ == old(self)@.step(sample)
                    &&& match result {
                        Some(interval) => old(self)@.output(sample) == Some(interval@),
                        None => old(self)@.output(sample) is None,
                    }
                },
                Err(error) => {
                    &&& parsed(line@) matches Err(reason)
                    &&& reason == error
                    &&& final(self)@ == old(self)@
                },
            },
    {
        match parse_sample(line) {
            Ok(sample) => Ok(self.observe(sample)),
            Err(error) => Err(error),
        }
    }
}

} // verus!
