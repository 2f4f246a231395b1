//! The optimized circular store: a flat backing array of power-of-two
//! length, a read cursor and a write cursor, with bulk append, drop and
//! read operations and a growth algorithm that relocates wrapped contents.

use crate::arith::is_power_of_two;
use crate::arith::lemma_count_is_mod;
use crate::arith::lemma_mod_addr_space;
use crate::arith::lemma_pow2_above_least;
use crate::arith::lemma_pow2_above_props;
use crate::arith::lemma_pow2_double;
use crate::arith::lemma_pow2_pos;
use crate::arith::lemma_wrap_is_mod;
use crate::arith::pow2_above;
use crate::arith::slot;
use crate::arith::spec_count;
use crate::ring::SliceRing;
use vstd::math::min;
use vstd::prelude::*;

verus! {

/// Usable capacity of a ring created by `new`: one less than a power of
/// two, since the ring always leaves one slot empty.
const INITIAL_CAPACITY: usize = 7;

/// Smallest usable capacity a ring is ever created with.
const MINIMUM_CAPACITY: usize = 1;

/// The elements logically present in a store of `cap` slots whose readable
/// area starts at `first` and ends just before `next`, oldest first.
pub open spec fn ring_contents<T>(store: Seq<Option<T>>, first: int, next: int, cap: int) -> Seq<
    T,
> {
    Seq::new(
        spec_count(first, next, cap) as nat,
        |i: int| store[slot(first, i, cap)].unwrap(),
    )
}

/// Calculates the number of elements left to be read in a store of `size`
/// slots whose readable area starts at `tail` and ends just before `head`.
/// The wrapping subtraction makes this correct for every pair of cursors,
/// because the power-of-two `size` divides the address space.
fn count(tail: usize, head: usize, size: usize) -> (r: usize)
    requires
        is_power_of_two(size as int),
    ensures
        r == (head - tail) % (size as int),
        r < size,
        tail < size && head < size ==> r == spec_count(tail as int, head as int, size as int),
{
    proof {
        lemma_pow2_pos(size as int);
        lemma_mod_addr_space(head - tail, size as int);
        if tail < size && head < size {
            lemma_count_is_mod(tail as int, head as int, size as int);
        }
    }
    head.wrapping_sub(tail) % size
}

/// Reduces an index back into a store of `size` slots, where `size` is a
/// power of two.
fn wrap_index(index: usize, size: usize) -> (r: usize)
    requires
        is_power_of_two(size as int),
    ensures
        r == (index as int) % (size as int),
{
    proof {
        lemma_pow2_pos(size as int);
    }
    index % size
}

/// Returns the least power of two strictly greater than `x`.
fn next_power_of_two(x: usize) -> (r: usize)
    requires
        x <= usize::MAX / 2,
    ensures
        r == pow2_above(x as int),
{
    proof {
        lemma_pow2_above_props(x as int);
    }
    let mut p: usize = 1;
    while p <= x
        invariant
            x <= usize::MAX / 2,
            is_power_of_two(p as int),
            p <= pow2_above(x as int),
        decreases pow2_above(x as int) - p,
    {
        proof {
            lemma_pow2_above_props(x as int);
            lemma_pow2_double(p as int, pow2_above(x as int));
        }
        p = p * 2;
    }
    proof {
        lemma_pow2_above_least(x as int, p as int);
    }
    p
}

/// The readable area starts at `first_readable` and goes until
/// `next_writable`, which is one past the last readable slot and itself
/// not readable.  Both cursors wrap around at the store's length.  One
/// slot is permanently unused, so an empty ring (`first_readable ==
/// next_writable`) is distinguishable from a full one.  Free slots hold
/// `None`; every slot in the readable area holds `Some` value.
pub struct SliceRingImpl<T> {
    /// Index into `buf` of the first element that could be read.
    /// Wraps around at `buf.len()`.
    pub first_readable: usize,
    /// Index into `buf` where the next element could be written.
    /// Wraps around at `buf.len()`.
    pub next_writable: usize,
    /// The backing store; its length is the ring's total slot count and is
    /// always a power of two.
    pub buf: Vec<Option<T>>,
}

impl<T> SliceRingImpl<T> {
    /// Total slot count of the backing store.
    pub open spec fn spec_cap(&self) -> int {
        self.buf@.len() as int
    }

    /// Number of logically present elements.
    pub open spec fn spec_len(&self) -> int {
        spec_count(self.first_readable as int, self.next_writable as int, self.spec_cap())
    }

    /// Well-formedness: the store's length is a power of two of at least
    /// two, both cursors lie inside the store, and every readable slot
    /// holds a value.
    pub open spec fn well_formed(&self) -> bool {
        &&& 2 <= self.spec_cap()
        &&& is_power_of_two(self.spec_cap())
        &&& (self.first_readable as int) < self.spec_cap()
        &&& (self.next_writable as int) < self.spec_cap()
        &&& forall|i: int|
            0 <= i < self.spec_len() ==> self.buf@[#[trigger] slot(
                self.first_readable as int,
                i,
                self.spec_cap(),
            )] is Some
    }
}

impl<T> View for SliceRingImpl<T> {
    type V = Seq<T>;

    open spec fn view(&self) -> Seq<T> {
        ring_contents(
            self.buf@,
            self.first_readable as int,
            self.next_writable as int,
            self.spec_cap(),
        )
    }
}

impl<T> SliceRingImpl<T> {
    /// Creates an empty `SliceRingImpl` with the default capacity.
    pub fn new() -> (r: SliceRingImpl<T>)
        ensures
            r.well_formed(),
            r@ == Seq::<T>::empty(),
            r.spec_cap() == 8,
            r.first_readable == 0,
            r.next_writable == 0,
    {
        proof {
            reveal_with_fuel(pow2_above, 4);
        }
        SliceRingImpl::with_capacity(INITIAL_CAPACITY)
    }

    /// Creates an empty `SliceRingImpl` with space for at least `n`
    /// elements: the store's length is the least power of two at least
    /// `max(n + 1, 2)`, one slot staying permanently empty.
    pub fn with_capacity(n: usize) -> (r: SliceRingImpl<T>)
        requires
            n <= usize::MAX / 2,
        ensures
            r.well_formed(),
            r@ == Seq::<T>::empty(),
            r.spec_cap() == pow2_above(if n >= 1 {
                n as int
            } else {
                1
            }),
            r.spec_cap() > n,
            r.first_readable == 0,
            r.next_writable == 0,
    {
        let least_wanted = if n + 1 >= MINIMUM_CAPACITY + 1 {
            n + 1
        } else {
            MINIMUM_CAPACITY + 1
        };
        let ghost target = pow2_above(if n >= 1 { n as int } else { 1 });
        proof {
            reveal_with_fuel(is_power_of_two, 2);
            lemma_pow2_above_props(if n >= 1 { n as int } else { 1 });
        }
        let mut cap: usize = 2;
        while cap < least_wanted
            invariant
                least_wanted == if n >= 1 { n + 1 } else { 2int },
                n <= usize::MAX / 2,
                is_power_of_two(cap as int),
                2 <= cap,
                cap <= target,
                target == pow2_above(if n >= 1 { n as int } else { 1 }),
            decreases target - cap,
        {
            proof {
                lemma_pow2_above_props(if n >= 1 { n as int } else { 1 });
                lemma_pow2_double(cap as int, target);
            }
            cap = cap * 2;
        }
        proof {
            lemma_pow2_above_least(if n >= 1 { n as int } else { 1 }, cap as int);
        }
        let mut buf: Vec<Option<T>> = Vec::with_capacity(cap);
        let mut i: usize = 0;
        while i < cap
            invariant
                buf@.len() == i,
                i <= cap,
            decreases cap - i,
        {
            buf.push(None);
            i = i + 1;
        }
        SliceRingImpl { first_readable: 0, next_writable: 0, buf }
    }

    /// Total slot count of the backing store.  Zero-sized element types
    /// get no special treatment: every slot is a real `Option` slot.
    pub fn cap(&self) -> (r: usize)
        ensures
            r == self.spec_cap(),
    {
        self.buf.len()
    }

    /// Usable capacity: one less than the store's length, since one slot
    /// always stays empty.
    pub fn capacity(&self) -> (r: usize)
        requires
            self.spec_cap() >= 1,
        ensures
            r == self.spec_cap() - 1,
    {
        self.cap() - 1
    }

    /// Whether the readable area occupies one contiguous index range, as
    /// opposed to wrapping around the end of the store.
    pub fn is_continuous(&self) -> (r: bool)
        ensures
            r == (self.first_readable <= self.next_writable),
    {
        self.first_readable <= self.next_writable
    }

    /// Returns the number of elements in the `SliceRingImpl`.
    pub fn len(&self) -> (r: usize)
        requires
            self.well_formed(),
        ensures
            r == self@.len(),
    {
        count(self.first_readable, self.next_writable, self.cap())
    }

    /// Returns the index into the underlying store for the slot `addend`
    /// places after `index`.  The wrapping addition makes this correct for
    /// every pair of operands, because the power-of-two store size divides
    /// the address space.
    pub fn wrap_add(&self, index: usize, addend: usize) -> (r: usize)
        requires
            is_power_of_two(self.spec_cap()),
        ensures
            r == (index + addend) % self.spec_cap(),
            r < self.spec_cap(),
    {
        let size = self.cap();
        proof {
            lemma_pow2_pos(size as int);
            lemma_mod_addr_space(index + addend, size as int);
        }
        wrap_index(index.wrapping_add(addend), size)
    }
}

impl<T: Copy> SliceRingImpl<T> {
    /// Re-establishes the circular layout after the backing store has just
    /// been enlarged from `old_cap` slots: the cursors still describe a
    /// readable area meaningful under `old_cap`.  If that area was
    /// contiguous it is already valid as a prefix of the larger store and
    /// nothing moves.  Otherwise it wrapped around the old end, and the
    /// shorter of its two halves is copied so the logical sequence stays
    /// in order: either the wrapped-around front half moves to just past
    /// the old end, or the rear half moves to the very end of the enlarged
    /// store.  The logical contents are unchanged either way.
    pub fn handle_cap_increase(&mut self, old_cap: usize)
        requires
            2 <= old_cap,
            is_power_of_two(old_cap as int),
            is_power_of_two(old(self).spec_cap()),
            old_cap < old(self).spec_cap(),
            (old(self).first_readable as int) < old_cap,
            (old(self).next_writable as int) < old_cap,
            forall|i: int|
                0 <= i < spec_count(
                    old(self).first_readable as int,
                    old(self).next_writable as int,
                    old_cap as int,
                ) ==> old(self).buf@[#[trigger] slot(
                    old(self).first_readable as int,
                    i,
                    old_cap as int,
                )] is Some,
        ensures
            final(self).well_formed(),
            final(self).spec_cap() == old(self).spec_cap(),
            final(self)@ == ring_contents(
                old(self).buf@,
                old(self).first_readable as int,
                old(self).next_writable as int,
                old_cap as int,
            ),
            // contiguous readable area: nothing moves at all
            old(self).first_readable <= old(self).next_writable ==> {
                &&& final(self).first_readable == old(self).first_readable
                &&& final(self).next_writable == old(self).next_writable
                &&& final(self).buf@ == old(self).buf@
            },
            // wrapped, with the front half the shorter: it is copied to just
            // past the old end, the write cursor advances by the old
            // capacity, the read cursor stays, and the area is contiguous
            old(self).first_readable > old(self).next_writable && (old(self).next_writable as int)
                < old_cap - old(self).first_readable ==> {
                &&& final(self).first_readable == old(self).first_readable
                &&& final(self).next_writable == old(self).next_writable + old_cap
                &&& forall|j: int|
                    0 <= j < old(self).next_writable ==> final(self).buf@[old_cap + j] == old(self).buf@[j]
                &&& final(self).first_readable <= final(self).next_writable
            },
            // wrapped, with the rear half the shorter or tied: it is copied
            // to the very end of the enlarged store, the read cursor is
            // re-based there, the write cursor stays, and the area is still
            // wrapped
            old(self).first_readable > old(self).next_writable && old_cap - old(self).first_readable <= (old(self).next_writable as int) ==> {
                &&& final(self).first_readable == old(self).spec_cap() - (old_cap - old(self).first_readable)
                &&& final(self).next_writable == old(self).next_writable
                &&& forall|j: int|
                    final(self).first_readable <= j < final(self).spec_cap() ==> final(self).buf@[j]
                        == old(self).buf@[j - final(self).first_readable + old(self).first_readable]
                &&& (final(self).next_writable as int) < final(self).first_readable
            },
    {
        let ghost old_contents = ring_contents(
            old(self).buf@,
            old(self).first_readable as int,
            old(self).next_writable as int,
            old_cap as int,
        );
        let ghost ofirst = old(self).first_readable as int;
        let ghost ocap = old_cap as int;
        let total = self.cap();
        proof {
            lemma_pow2_double(old_cap as int, old(self).spec_cap());
        }
        if self.is_continuous() {
            proof {
                assert forall|i: int|
                    0 <= i < self.spec_len() implies self.buf@[#[trigger] slot(
                        self.first_readable as int,
                        i,
                        self.spec_cap(),
                    )] is Some by {
                    assert(old(self).buf@[slot(ofirst, i, ocap)] is Some);
                }
                assert(self@ =~= old_contents);
            }
            return ;
        }
        if self.next_writable < old_cap - self.first_readable {
            // the front half `[0, next_writable)`, wrapped around from the
            // old end, is the shorter: copy it to just past the old end.
            let nw = self.next_writable;
            let mut i: usize = 0;
            while i < nw
                invariant
                    0 <= i <= nw,
                    nw == self.next_writable,
                    self.first_readable == old(self).first_readable,
                    self.next_writable == old(self).next_writable,
                    self.buf@.len() == old(self).spec_cap(),
                    (nw as int) < old_cap - self.first_readable,
                    (self.first_readable as int) < old_cap,
                    2 * old_cap <= self.spec_cap(),
                    total == self.spec_cap(),
                    forall|j: int|
                        0 <= j < self.buf@.len() && !(old_cap <= j < old_cap + i)
                            ==> self.buf@[j] == old(self).buf@[j],
                    forall|j: int| 0 <= j < i ==> self.buf@[old_cap + j] == old(self).buf@[j],
                decreases nw - i,
            {
                let v = self.buf[i];
                self.buf[old_cap + i] = v;
                i = i + 1;
            }
            self.next_writable = nw + old_cap;
            proof {
                assert forall|k: int|
                    0 <= k < self.spec_len() implies self.buf@[#[trigger] slot(
                        self.first_readable as int,
                        k,
                        self.spec_cap(),
                    )] is Some by {
                    assert(old(self).buf@[slot(ofirst, k, ocap)] is Some);
                }
                assert forall|k: int| 0 <= k < self.spec_len() implies self@[k]
                    == old_contents[k] by {
                    assert(old(self).buf@[slot(ofirst, k, ocap)] is Some);
                }
                assert(self@ =~= old_contents);
            }
        } else {
            // the rear half `[first_readable, old_cap)` is the shorter:
            // copy it to the very end of the enlarged store.
            let new_cap = self.cap();
            let head_len = old_cap - self.first_readable;
            let new_first = new_cap - head_len;
            let mut i: usize = 0;
            while i < head_len
                invariant
                    0 <= i <= head_len,
                    head_len == old_cap - self.first_readable,
                    new_first == new_cap - head_len,
                    new_cap == self.spec_cap(),
                    self.first_readable == old(self).first_readable,
                    self.next_writable == old(self).next_writable,
                    self.buf@.len() == old(self).spec_cap(),
                    (self.first_readable as int) < old_cap,
                    (self.next_writable as int) < self.first_readable,
                    2 * old_cap <= self.spec_cap(),
                    old_cap < self.spec_cap(),
                    total == self.spec_cap(),
                    forall|j: int|
                        0 <= j < self.buf@.len() && !(new_first <= j < new_first + i)
                            ==> self.buf@[j] == old(self).buf@[j],
                    forall|j: int|
                        new_first <= j < new_first + i ==> self.buf@[j] == old(self).buf@[
                            j - new_first + self.first_readable
                        ],
                decreases head_len - i,
            {
                let v = self.buf[self.first_readable + i];
                self.buf[new_first + i] = v;
                i = i + 1;
            }
            self.first_readable = new_first;
            proof {
                assert forall|k: int|
                    0 <= k < self.spec_len() implies self.buf@[#[trigger] slot(
                        self.first_readable as int,
                        k,
                        self.spec_cap(),
                    )] is Some by {
                    assert(old(self).buf@[slot(ofirst, k, ocap)] is Some);
                }
                assert forall|k: int| 0 <= k < self.spec_len() implies self@[k]
                    == old_contents[k] by {
                    assert(old(self).buf@[slot(ofirst, k, ocap)] is Some);
                }
                assert(self@ =~= old_contents);
            }
        }
    }

    /// Appends all of `values` to the back, preserving the previous
    /// contents and their order.  When the new length would exceed the
    /// usable capacity, the backing store first grows to the least power
    /// of two strictly greater than that length and the readable area is
    /// relocated, before any new value is written.  The usable capacity
    /// never decreases, and is unchanged whenever the new length already
    /// fits.
    #[verifier::rlimit(60)]
    pub fn push_many_back(&mut self, values: &[T])
        requires
            old(self).well_formed(),
            old(self)@.len() + values@.len() <= usize::MAX / 2,
        ensures
            final(self).well_formed(),
            final(self)@ == old(self)@ + values@,
            old(self).spec_cap() <= final(self).spec_cap(),
            old(self)@.len() + values@.len() < old(self).spec_cap() ==> final(self).spec_cap()
                == old(self).spec_cap(),
            old(self)@.len() + values@.len() >= old(self).spec_cap() ==> final(self).spec_cap()
                == pow2_above((old(self)@.len() + values@.len()) as int),
    {
        let additional = values.len();
        let current = self.len();
        let required = current + additional;
        if self.capacity() < required {
            let old_cap = self.cap();
            let new_cap = next_power_of_two(required);
            proof {
                lemma_pow2_above_props(required as int);
            }
            let ghost pre = *self;
            while self.buf.len() < new_cap
                invariant
                    pre.well_formed(),
                    self.first_readable == pre.first_readable,
                    self.next_writable == pre.next_writable,
                    old_cap == pre.spec_cap(),
                    old_cap <= self.buf@.len() <= new_cap,
                    forall|j: int| 0 <= j < old_cap ==> self.buf@[j] == pre.buf@[j],
                decreases new_cap - self.buf@.len(),
            {
                self.buf.push(None);
            }
            proof {
                assert forall|i: int|
                    0 <= i < spec_count(
                        self.first_readable as int,
                        self.next_writable as int,
                        old_cap as int,
                    ) implies self.buf@[#[trigger] slot(
                        self.first_readable as int,
                        i,
                        old_cap as int,
                    )] is Some by {
                    assert(pre.buf@[slot(pre.first_readable as int, i, old_cap as int)] is Some);
                }
            }
            self.handle_cap_increase(old_cap);
            proof {
                assert forall|k: int| 0 <= k < pre@.len() implies self@[k] == pre@[k] by {
                    assert(pre.buf@[slot(pre.first_readable as int, k, old_cap as int)] is Some);
                }
                assert(self@ =~= pre@);
            }
        }
        let ghost base = *self;
        let mut i: usize = 0;
        while i < additional
            invariant
                0 <= i <= additional,
                additional == values@.len(),
                base.well_formed(),
                self.first_readable == base.first_readable,
                self.next_writable == base.next_writable,
                self.buf@.len() == base.spec_cap(),
                base@.len() + additional < base.spec_cap(),
                forall|j: int|
                    0 <= j < i ==> self.buf@[#[trigger] slot(
                        base.next_writable as int,
                        j,
                        base.spec_cap(),
                    )] == Some(values@[j]),
                forall|j: int|
                    0 <= j < self.buf@.len() && !(base.next_writable <= j < base.next_writable
                        + i) && !(j < base.next_writable + i - base.spec_cap())
                        ==> self.buf@[j] == base.buf@[j],
            decreases additional - i,
        {
            let dst = self.wrap_add(self.next_writable, i);
            proof {
                lemma_wrap_is_mod(self.next_writable + i, base.spec_cap());
            }
            self.buf[dst] = Some(values[i]);
            i = i + 1;
        }
        self.next_writable = self.wrap_add(self.next_writable, additional);
        proof {
            lemma_wrap_is_mod(base.next_writable + additional, base.spec_cap());
            assert forall|k: int|
                0 <= k < self.spec_len() implies self.buf@[#[trigger] slot(
                    self.first_readable as int,
                    k,
                    self.spec_cap(),
                )] is Some by {
                if k < base@.len() {
                    assert(base.buf@[slot(base.first_readable as int, k, base.spec_cap())]
                        is Some);
                } else {
                    assert(self.buf@[slot(base.next_writable as int, k - base@.len(),
                        base.spec_cap())] == Some(values@[k - base@.len()]));
                }
            }
            assert forall|k: int| 0 <= k < self@.len() implies self@[k] == (base@ + values@)[
                k
            ] by {
                if k < base@.len() {
                    assert(base.buf@[slot(base.first_readable as int, k, base.spec_cap())]
                        is Some);
                } else {
                    assert(self.buf@[slot(base.next_writable as int, k - base@.len(),
                        base.spec_cap())] == Some(values@[k - base@.len()]));
                }
            }
            assert(self@ =~= base@ + values@);
            assert(self@ =~= old(self)@ + values@);
        }
    }

    /// Removes up to `count` elements from the front; returns how many
    /// were removed, which is less than `count` exactly when fewer
    /// elements were present, in which case the ring is emptied.  The
    /// retained suffix is unchanged, and no storage is freed or
    /// reallocated: only the read cursor advances.
    pub fn drop_many_front(&mut self, count: usize) -> (r: usize)
        requires
            old(self).well_formed(),
        ensures
            final(self).well_formed(),
            r == min(count as int, old(self)@.len() as int),
            final(self)@ == old(self)@.skip(r as int),
            final(self).buf@ == old(self).buf@,
    {
        let current = self.len();
        let real_count = if count <= current {
            count
        } else {
            current
        };
        self.first_readable = self.wrap_add(self.first_readable, real_count);
        proof {
            lemma_wrap_is_mod(old(self).first_readable + real_count, self.spec_cap());
            assert forall|k: int|
                0 <= k < self.spec_len() implies self.buf@[#[trigger] slot(
                    self.first_readable as int,
                    k,
                    self.spec_cap(),
                )] is Some by {
                assert(old(self).buf@[slot(
                    old(self).first_readable as int,
                    k + real_count,
                    old(self).spec_cap(),
                )] is Some);
            }
            assert forall|k: int| 0 <= k < self@.len() implies self@[k] == old(self)@.skip(
                real_count as int,
            )[k] by {
                assert(old(self).buf@[slot(
                    old(self).first_readable as int,
                    k + real_count,
                    old(self).spec_cap(),
                )] is Some);
            }
            assert(self@ =~= old(self)@.skip(real_count as int));
        }
        real_count
    }

    /// Copies the first `output.len()` elements present into `output`,
    /// removing nothing and moving no cursor.  Returns how many elements
    /// were copied, which is less than `output.len()` exactly when fewer
    /// are present.  The tail of `output` past the copied prefix is left
    /// untouched, so the caller must check the returned count before
    /// trusting it.
    pub fn read_many_front(&self, output: &mut [T]) -> (r: usize)
        requires
            self.well_formed(),
        ensures
            r == min(old(output)@.len() as int, self@.len() as int),
            final(output)@.len() == old(output)@.len(),
            forall|i: int| 0 <= i < r ==> final(output)@[i] == self@[i],
            forall|i: int| r <= i < old(output)@.len() ==> final(output)@[i] == old(output)@[i],
    {
        let current = self.len();
        let out_len = output.len();
        let real_count = if current <= out_len {
            current
        } else {
            out_len
        };
        let mut i: usize = 0;
        while i < real_count
            invariant
                0 <= i <= real_count,
                self.well_formed(),
                real_count <= self@.len(),
                real_count <= old(output)@.len(),
                output@.len() == old(output)@.len(),
                forall|j: int| 0 <= j < i ==> output@[j] == self@[j],
                forall|j: int| i <= j < output@.len() ==> output@[j] == old(output)@[j],
            decreases real_count - i,
        {
            let src_index = self.wrap_add(self.first_readable, i);
            proof {
                lemma_wrap_is_mod(self.first_readable + i, self.spec_cap());
                assert(self.buf@[slot(self.first_readable as int, i as int, self.spec_cap())]
                    is Some);
            }
            let v = self.buf[src_index];
            output[i] = v.unwrap();
            i = i + 1;
        }
        real_count
    }
}

/// The circular store satisfies the bulk-ring contract.  The inherent
/// methods above carry the stronger, capacity-aware contracts; the trait
/// methods forward to them and promise the shared queue semantics.
impl<T: Copy> SliceRing<T> for SliceRingImpl<T> {
    open spec fn inv(&self) -> bool {
        self.well_formed()
    }

    open spec fn contents(&self) -> Seq<T> {
        self@
    }

    fn len(&self) -> (r: usize) {
        self.len()
    }

    fn push_many_back(&mut self, values: &[T]) {
        self.push_many_back(values)
    }

    fn drop_many_front(&mut self, count: usize) -> (r: usize) {
        self.drop_many_front(count)
    }

    fn read_many_front(&self, output: &mut [T]) -> (r: usize) {
        self.read_many_front(output)
    }
}

} // verus!
