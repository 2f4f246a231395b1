//! Bulk-oriented ring buffer: a power-of-two-sized circular store that
//! appends a slice of elements to the back, drops a count of elements
//! from the front, and copies a prefix of elements from the front into a
//! caller-supplied buffer, growing its backing storage only when it
//! must.  It lets a caller slide a window of arbitrary size and step
//! through a potentially unbounded stream of values while reusing the
//! same input and output buffers across iterations.
//!
//! The [`SliceRing`] trait states the contract the bulk operations obey:
//! the buffered elements form a first-in first-out queue, and every
//! observable outcome is determined by the queue's contents alone.
//! [`SliceRingImpl`] is the circular store built for that contract, with
//! a constant-time drop; the same contract is also implemented for
//! [`std::collections::VecDeque`] as a simple reference baseline.
//! [`SlidingWindow`] wraps a ring with a fixed window size and step size
//! for moving a window through a stream.
//!
//! Elements are duplicated by plain copy (`T: Copy`); dropped slots are
//! simply abandoned and overwritten by later appends, so no element is
//! released twice.  Zero-sized element types get no special treatment.

mod arith;
mod buffer;
mod deque;
mod laws;
mod ring;
mod window;

pub use arith::is_power_of_two;
pub use arith::pow2_above;
pub use arith::slot;
pub use arith::spec_count;
pub use arith::wrap;
pub use buffer::SliceRingImpl;
pub use buffer::ring_contents;
pub use laws::lemma_capacity_invariant;
pub use laws::lemma_drop_all;
pub use laws::lemma_equivalent_append;
pub use laws::lemma_equivalent_drop;
pub use laws::lemma_equivalent_read;
pub use laws::lemma_length_invariant;
pub use laws::lemma_order_preservation;
pub use ring::SliceRing;
pub use window::SlidingWindow;
