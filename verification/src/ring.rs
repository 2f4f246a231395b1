//! The bulk-ring contract: the bulk operations and the semantics that any
//! conforming ring buffer provides.

use vstd::math::min;
use vstd::prelude::*;

verus! {

/// Ring-buffer operations on slices of values.
///
/// `contents` is the sequence of logically present elements, oldest first,
/// and `inv` is the implementation's well-formedness condition.  The bulk
/// operations behave as a first-in first-out queue over `contents`:
/// appending adds to the back; dropping and reading touch only the front.
/// Elements are duplicated by plain copy; the ring never hands out
/// references into its storage.
///
/// Asking to drop or read more elements than are present is not an error:
/// both operations report how many elements they actually handled, which
/// may be less than requested.
pub trait SliceRing<T: Copy>: Sized {
    /// The implementation's well-formedness condition, established by its
    /// constructors and preserved by every operation.
    spec fn inv(&self) -> bool;

    /// The logically present elements, oldest first.
    spec fn contents(&self) -> Seq<T>;

    /// Returns the number of elements present in this ring.
    fn len(&self) -> (r: usize)
        requires
            self.inv(),
        ensures
            r == self.contents().len(),
    ;

    /// Appends all of `values` to the back of this ring, preserving both
    /// the previous contents and the order of `values`.
    fn push_many_back(&mut self, values: &[T])
        requires
            old(self).inv(),
            old(self).contents().len() + values@.len() <= usize::MAX / 2,
        ensures
            final(self).inv(),
            final(self).contents() == old(self).contents() + values@,
    ;

    /// Removes up to `count` elements from the front of this ring.
    /// Returns how many elements were removed: less than `count` exactly
    /// when fewer elements were present, in which case the ring is emptied.
    fn drop_many_front(&mut self, count: usize) -> (r: usize)
        requires
            old(self).inv(),
        ensures
            final(self).inv(),
            r == min(count as int, old(self).contents().len() as int),
            final(self).contents() == old(self).contents().skip(r as int),
    ;

    /// Copies the first `output.len()` elements present in this ring into
    /// `output`, removing nothing.  Returns how many elements were copied:
    /// less than `output.len()` exactly when fewer elements are present.
    /// The tail of `output` past the copied prefix is left untouched.
    fn read_many_front(&self, output: &mut [T]) -> (r: usize)
        requires
            self.inv(),
        ensures
            r == min(old(output)@.len() as int, self.contents().len() as int),
            final(output)@.len() == old(output)@.len(),
            forall|i: int| 0 <= i < r ==> final(output)@[i] == self.contents()[i],
            forall|i: int| r <= i < old(output)@.len() ==> final(output)@[i] == old(output)@[i],
    ;
}

} // verus!
