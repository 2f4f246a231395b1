//! The reference baseline: the bulk-ring contract implemented for the
//! standard double-ended queue, element by element, with no claim to the
//! circular store's constant-time drop.

use crate::ring::SliceRing;
use std::collections::VecDeque;
use vstd::prelude::*;

verus! {

impl<T: Copy> SliceRing<T> for VecDeque<T> {
    open spec fn inv(&self) -> bool {
        true
    }

    open spec fn contents(&self) -> Seq<T> {
        self@
    }

    fn len(&self) -> (r: usize) {
        self.len()
    }

    fn push_many_back(&mut self, values: &[T]) {
        let mut i: usize = 0;
        while i < values.len()
            invariant
                0 <= i <= values@.len(),
                self@ == old(self)@ + values@.subrange(0, i as int),
            decreases values@.len() - i,
        {
            self.push_back(values[i]);
            proof {
                assert(self@ =~= old(self)@ + values@.subrange(0, i as int + 1));
            }
            i = i + 1;
        }
        proof {
            assert(values@.subrange(0, values@.len() as int) =~= values@);
        }
    }

    fn drop_many_front(&mut self, count: usize) -> (r: usize) {
        let current = self.len();
        let real_count = if count <= current {
            count
        } else {
            current
        };
        let mut i: usize = 0;
        while i < real_count
            invariant
                0 <= i <= real_count,
                real_count <= old(self)@.len(),
                self@ == old(self)@.skip(i as int),
            decreases real_count - i,
        {
            self.pop_front();
            proof {
                assert(self@ =~= old(self)@.skip(i as int + 1));
            }
            i = i + 1;
        }
        real_count
    }

    fn read_many_front(&self, output: &mut [T]) -> (r: usize) {
        let current = self.len();
        let out_len = output.len();
        let real_count = if current <= out_len {
            current
        } else {
            out_len
        };
        let mut i: usize = 0;
        while i < real_count
            invariant
                0 <= i <= real_count,
                real_count <= self@.len(),
                real_count <= old(output)@.len(),
                output@.len() == old(output)@.len(),
                forall|j: int| 0 <= j < i ==> output@[j] == self@[j],
                forall|j: int| i <= j < output@.len() ==> output@[j] == old(output)@[j],
            decreases real_count - i,
        {
            let v = self[i];
            output[i] = v;
            i = i + 1;
        }
        real_count
    }
}

} // verus!
