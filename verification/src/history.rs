//! The bounded history of processed samples.

use std::collections::VecDeque;
use vstd::prelude::*;

verus! {

/// The sample found `index` positions behind the newest one of `history`, which
/// lists the newest sample first. Positions that hold nothing read as silence.
pub open spec fn tap(history: Seq<i32>, index: int) -> i32 {
    if 0 <= index < history.len() {
        history[index]
    } else {
        0
    }
}

/// The history that follows `history` once `sample` has arrived: the new sample
/// in front, and behind it as much of the old history as `capacity` leaves room
/// for, the oldest samples going first.
pub open spec fn pushed(history: Seq<i32>, capacity: nat, sample: i32) -> Seq<i32> {
    if history.len() < capacity {
        seq![sample] + history
    } else {
        seq![sample] + history.subrange(0, capacity - 1)
    }
}

/// The largest capacity a buffer can have: as many samples as the machine can
/// hold in one allocation.
pub open spec fn max_capacity() -> nat {
    (isize::MAX / 4) as nat
}

/// The capacity that a request for `capacity` samples is fitted to: the request
/// itself where it can be met, 1 for a request for none, and the largest
/// capacity for a request beyond it.
pub open spec fn fitted(capacity: usize) -> nat {
    if capacity == 0 {
        1
    } else if capacity > max_capacity() {
        max_capacity()
    } else {
        capacity as nat
    }
}

/// The history that follows `history` once all of `samples` have arrived, in
/// order: `samples[0]` first.
pub open spec fn pushed_all(history: Seq<i32>, capacity: nat, samples: Seq<i32>) -> Seq<i32>
    decreases samples.len(),
{
    if samples.len() == 0 {
        history
    } else {
        pushed(pushed_all(history, capacity, samples.drop_last()), capacity, samples.last())
    }
}

/// Whether every sample of `history` is silence.
pub open spec fn silent(history: Seq<i32>) -> bool {
    forall|i: int| 0 <= i < history.len() ==> history[i] == 0
}

/// A fixed-capacity record of the most recent samples, newest first.
///
/// Its view is the sequence of stored samples: index 0 is the sample pushed last.
/// A well-formed buffer never holds more than its capacity, and its capacity is at
/// least 1; every constructor yields such a buffer and every method keeps it so.
pub struct HistoryBuffer {
    samples: VecDeque<i32>,
    limit: usize,
}

impl View for HistoryBuffer {
    type V = Seq<i32>;

    closed spec fn view(&self) -> Seq<i32> {
        self.samples@
    }
}

impl HistoryBuffer {
    /// The number of samples the buffer keeps before it evicts the oldest.
    pub closed spec fn spec_capacity(&self) -> nat {
        self.limit as nat
    }

    /// Well-formedness: the capacity is at least 1 and bounds the stored samples.
    pub open spec fn wf(&self) -> bool {
        1 <= self.spec_capacity() && self@.len() <= self.spec_capacity()
    }

    /// An empty buffer of the smallest capacity, to stand in until the stream's
    /// sample rate is known.
    pub fn new() -> (buffer: Self)
        ensures
            buffer.wf(),
            buffer@ == Seq::<i32>::empty(),
            buffer.spec_capacity() == 1,
    {
        HistoryBuffer { samples: VecDeque::with_capacity(1), limit: 1 }
    }

    /// An empty buffer for `capacity` samples, fitted to what a buffer can have:
    /// a request for none is raised to 1.
    pub fn with_capacity(capacity: usize) -> (buffer: Self)
        ensures
            buffer.wf(),
            buffer@ == Seq::<i32>::empty(),
            buffer.spec_capacity() == fitted(capacity),
    {
        let limit: usize = fit_capacity(capacity);
        HistoryBuffer { samples: VecDeque::with_capacity(limit), limit }
    }

    /// Drops every stored sample and sets the capacity to `capacity`, fitted to
    /// what a buffer can have: a request for none is raised to 1. Whatever was
    /// pushed before, every position then reads as silence.
    pub fn resize_and_clear(&mut self, capacity: usize)
        ensures
            final(self).wf(),
            final(self)@ == Seq::<i32>::empty(),
            final(self).spec_capacity() == fitted(capacity),
            forall|index: int| tap(final(self)@, index) == 0,
    {
        *self = HistoryBuffer::with_capacity(capacity);
    }

    /// Stores `sample` as the newest one. A full buffer first gives up its oldest.
    pub fn push(&mut self, sample: i32)
        requires
            old(self).wf(),
        ensures
            final(self).wf(),
            final(self)@ == pushed(old(self)@, old(self).spec_capacity(), sample),
            final(self).spec_capacity() == old(self).spec_capacity(),
    {
        if self.samples.len() >= self.limit {
            self.samples.pop_back();
        }
        self.samples.push_front(sample);
    }

    /// The sample `relative_index` positions older than the newest (0 is the
    /// newest), or silence where the buffer holds none.
    pub fn lookup(&self, relative_index: usize) -> (sample: i32)
        ensures
            sample == tap(self@, relative_index as int),
    {
        if relative_index < self.samples.len() {
            self.samples[relative_index]
        } else {
            0
        }
    }

    /// The number of samples stored.
    pub fn len(&self) -> (n: usize)
        ensures
            n == self@.len(),
    {
        self.samples.len()
    }

    /// Whether nothing is stored.
    pub fn is_empty(&self) -> (empty: bool)
        ensures
            empty <==> self@.len() == 0,
    {
        self.samples.len() == 0
    }

    /// The capacity.
    pub fn capacity(&self) -> (c: usize)
        ensures
            c == self.spec_capacity(),
    {
        self.limit
    }
}

/// Computes [`fitted`].
pub fn fit_capacity(capacity: usize) -> (limit: usize)
    ensures
        limit == fitted(capacity),
        1 <= limit,
{
    let most: usize = (isize::MAX / 4) as usize;
    if capacity == 0 {
        1
    } else if capacity > most {
        most
    } else {
        capacity
    }
}

} // verus!
