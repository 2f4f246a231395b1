//! The sliding-window adapter: one ring buffer plus a fixed window size
//! and step size, for moving a window of values through a stream.

use crate::buffer::SliceRingImpl;
use vstd::prelude::*;

verus! {

/// Wraps one [`SliceRingImpl`] together with a fixed `window_size` and
/// `step_size`, both positive.  Values are appended as they arrive;
/// whenever a full window is buffered it can be read, and the window is
/// moved along by dropping `step_size` values from the front.  Reading
/// never advances by itself, so windows overlap when `step_size` is
/// smaller than `window_size`.
pub struct SlidingWindow<T> {
    ring: SliceRingImpl<T>,
    window_size: usize,
    step_size: usize,
}

impl<T> SlidingWindow<T> {
    /// The values currently buffered, oldest first.
    pub closed spec fn contents(&self) -> Seq<T> {
        self.ring@
    }

    /// The fixed window size.
    pub closed spec fn spec_window_size(&self) -> int {
        self.window_size as int
    }

    /// The fixed step size.
    pub closed spec fn spec_step_size(&self) -> int {
        self.step_size as int
    }

    /// Well-formedness: the ring is well formed and both parameters are
    /// positive.
    pub closed spec fn well_formed(&self) -> bool {
        &&& self.ring.well_formed()
        &&& self.window_size >= 1
        &&& self.step_size >= 1
    }
}

impl<T: Copy> SlidingWindow<T> {
    /// Creates an adapter over an empty ring.  `window_size` and
    /// `step_size` must both be positive: a zero value is a programming
    /// error, not a runtime condition.
    pub fn new(window_size: usize, step_size: usize) -> (r: SlidingWindow<T>)
        requires
            window_size >= 1,
            step_size >= 1,
        ensures
            r.well_formed(),
            r.contents() == Seq::<T>::empty(),
            r.spec_window_size() == window_size,
            r.spec_step_size() == step_size,
    {
        SlidingWindow { ring: SliceRingImpl::new(), window_size, step_size }
    }

    /// Appends `values` to the back of the buffered stream.
    pub fn append(&mut self, values: &[T])
        requires
            old(self).well_formed(),
            old(self).contents().len() + values@.len() <= usize::MAX / 2,
        ensures
            final(self).well_formed(),
            final(self).contents() == old(self).contents() + values@,
            final(self).spec_window_size() == old(self).spec_window_size(),
            final(self).spec_step_size() == old(self).spec_step_size(),
    {
        self.ring.push_many_back(values);
    }

    /// Whether a full window of values is buffered.
    pub fn has_full_window(&self) -> (r: bool)
        requires
            self.well_formed(),
        ensures
            r == (self.spec_window_size() <= self.contents().len()),
    {
        self.window_size <= self.ring.len()
    }

    /// Whether enough values are buffered to advance by one step.
    pub fn can_step(&self) -> (r: bool)
        requires
            self.well_formed(),
        ensures
            r == (self.spec_step_size() <= self.contents().len()),
    {
        self.step_size <= self.ring.len()
    }

    /// Copies the current window into `output` without advancing.
    /// `output` must be exactly one window long and a full window must be
    /// buffered: anything else is a programming error, since a silently
    /// truncated window would desynchronize window boundaries.
    pub fn read_window(&self, output: &mut [T])
        requires
            self.well_formed(),
            old(output)@.len() == self.spec_window_size(),
            self.spec_window_size() <= self.contents().len(),
        ensures
            final(output)@.len() == old(output)@.len(),
            forall|i: int|
                0 <= i < final(output)@.len() ==> final(output)@[i] == self.contents()[i],
    {
        self.ring.read_many_front(output);
    }

    /// Moves the window along by one step, discarding `step_size` values
    /// from the front.  Enough values must be buffered: running dry is a
    /// programming error.
    pub fn advance(&mut self)
        requires
            old(self).well_formed(),
            old(self).spec_step_size() <= old(self).contents().len(),
        ensures
            final(self).well_formed(),
            final(self).contents() == old(self).contents().skip(old(self).spec_step_size()),
            final(self).spec_window_size() == old(self).spec_window_size(),
            final(self).spec_step_size() == old(self).spec_step_size(),
    {
        self.ring.drop_many_front(self.step_size);
    }

    /// Reads the current window and then advances by one step, in that
    /// order, always: the values read reflect the pre-step state.
    pub fn read_window_and_advance(&mut self, output: &mut [T])
        requires
            old(self).well_formed(),
            old(output)@.len() == old(self).spec_window_size(),
            old(self).spec_window_size() <= old(self).contents().len(),
            old(self).spec_step_size() <= old(self).contents().len(),
        ensures
            final(self).well_formed(),
            final(output)@.len() == old(output)@.len(),
            forall|i: int|
                0 <= i < final(output)@.len() ==> final(output)@[i] == old(self).contents()[i],
            final(self).contents() == old(self).contents().skip(old(self).spec_step_size()),
            final(self).spec_window_size() == old(self).spec_window_size(),
            final(self).spec_step_size() == old(self).spec_step_size(),
    {
        self.read_window(output);
        self.advance();
    }
}

} // verus!
