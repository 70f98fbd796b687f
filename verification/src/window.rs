//! The window of recent samples: first in, first out, and never longer than
//! its capacity once a sample has arrived.
//!
//! The capacity is not part of the window. It may fall by one while the
//! window is full, and the window is then longer than the capacity by one
//! sample until the next arrival, which evicts to make up for it.

use std::collections::VecDeque;
use vstd::prelude::*;

verus! {

/// The window after `sample` has arrived: a window that holds `capacity`
/// samples or more first gives up its oldest ones until it holds one fewer
/// than `capacity`.
pub open spec fn inserted(window: Seq<i32>, capacity: int, sample: i32) -> Seq<i32>
    recommends
        capacity > 0,
{
    if window.len() >= capacity {
        window.skip(window.len() - capacity + 1).push(sample)
    } else {
        window.push(sample)
    }
}

/// After an arrival the window holds the sample at its newest end, is not
/// empty, is within the capacity, and is longer than before by one sample at
/// most. A full window has given up exactly its oldest sample.
pub proof fn lemma_inserted_len(window: Seq<i32>, capacity: int, sample: i32)
    requires
        capacity > 0,
    ensures
        1 <= inserted(window, capacity, sample).len() <= capacity,
        inserted(window, capacity, sample).len() <= window.len() + 1,
        window.len() < capacity ==> inserted(window, capacity, sample).len() == window.len() + 1,
        window.len() >= capacity ==> inserted(window, capacity, sample).len() == capacity,
        inserted(window, capacity, sample).last() == sample,
        window.len() == capacity ==> inserted(window, capacity, sample)
            == window.drop_first().push(sample),
{
    if window.len() == capacity {
        assert(window.skip(1) == window.drop_first());
    }
}

/// Appends `sample` at the newest end of the window, after the oldest
/// samples have left a window that holds `window_size` samples or more.
pub fn insert(buffer: &mut VecDeque<i32>, window_size: usize, sample: i32)
    requires
        window_size > 0,
    ensures
        final(buffer)@ == inserted(old(buffer)@, window_size as int, sample),
        1 <= final(buffer)@.len() <= window_size,
{
    while buffer.len() >= window_size
        invariant
            window_size > 0,
            buffer@.len() <= old(buffer)@.len(),
            buffer@ == old(buffer)@.skip(old(buffer)@.len() - buffer@.len()),
            old(buffer)@.len() >= window_size ==> buffer@.len() >= window_size - 1,
            old(buffer)@.len() < window_size ==> buffer@.len() == old(buffer)@.len(),
        decreases buffer@.len(),
    {
        let ghost before = buffer@;
        buffer.pop_front();
        assert(buffer@ == before.skip(1));
    }
    assert(old(buffer)@.skip(0) == old(buffer)@);
    buffer.push_back(sample);
}

} // verus!
