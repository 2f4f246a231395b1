//! The general laws of the bulk-ring contract, stated over the logical
//! contents that the operations' contracts are written against.

use crate::arith::is_power_of_two;
use crate::buffer::SliceRingImpl;
use vstd::math::min;
use vstd::prelude::*;

verus! {

/// Length invariant: appending `n` values increases the logical length by
/// exactly `n`, and dropping `c` values decreases it by exactly
/// `min(c, length)`.
pub proof fn lemma_length_invariant<T>(s: Seq<T>, values: Seq<T>, c: int)
    requires
        0 <= c,
    ensures
        (s + values).len() == s.len() + values.len(),
        s.skip(min(c, s.len() as int)).len() == s.len() - min(c, s.len() as int),
{
}

/// Order preservation: after values are appended to the back and
/// `dropped` values are discarded from the front, the `j`-th readable
/// value comes from the initial contents while they last and then from
/// the appended values, in append order.
pub proof fn lemma_order_preservation<T>(initial: Seq<T>, appended: Seq<T>, dropped: int, j: int)
    requires
        0 <= dropped,
        0 <= j,
        dropped + j < initial.len() + appended.len(),
    ensures
        (initial + appended).skip(dropped)[j] == if dropped + j < initial.len() {
            initial[dropped + j]
        } else {
            appended[dropped + j - initial.len()]
        },
{
}

/// Dropping at least as many values as are present removes exactly the
/// length and leaves the buffer empty.
pub proof fn lemma_drop_all<T>(s: Seq<T>, c: int)
    requires
        c >= s.len(),
    ensures
        min(c, s.len() as int) == s.len(),
        s.skip(min(c, s.len() as int)) == Seq::<T>::empty(),
{
    assert(s.skip(s.len() as int) =~= Seq::<T>::empty());
}

/// Capacity invariant: on any well-formed ring the backing store's length
/// is a power of two strictly greater than the logical length, so the
/// usable capacity (one less than a power of two) always suffices for the
/// elements present.
pub proof fn lemma_capacity_invariant<T>(r: SliceRingImpl<T>)
    requires
        r.well_formed(),
    ensures
        is_power_of_two(r.spec_cap()),
        r@.len() < r.spec_cap(),
{
}

/// Equivalence across implementations, appending: the contract determines
/// the contents after `push_many_back` from the starting contents and the
/// appended values alone, so any two conforming implementations that hold
/// equal contents still hold equal contents afterwards.
pub proof fn lemma_equivalent_append<T>(
    s1: Seq<T>,
    s2: Seq<T>,
    values: Seq<T>,
    t1: Seq<T>,
    t2: Seq<T>,
)
    requires
        s1 == s2,
        t1 == s1 + values,
        t2 == s2 + values,
    ensures
        t1 == t2,
{
}

/// Equivalence across implementations, dropping: the contract determines
/// both the returned count and the remaining contents of
/// `drop_many_front` from the starting contents and the requested count
/// alone.
pub proof fn lemma_equivalent_drop<T>(
    s1: Seq<T>,
    s2: Seq<T>,
    count: int,
    r1: int,
    t1: Seq<T>,
    r2: int,
    t2: Seq<T>,
)
    requires
        s1 == s2,
        r1 == min(count, s1.len() as int),
        t1 == s1.skip(r1),
        r2 == min(count, s2.len() as int),
        t2 == s2.skip(r2),
    ensures
        r1 == r2,
        t1 == t2,
{
}

/// Equivalence across implementations, reading: the contract determines
/// the returned count and the whole final output buffer of
/// `read_many_front` from the contents and the initial output buffer
/// alone.
pub proof fn lemma_equivalent_read<T>(
    s1: Seq<T>,
    s2: Seq<T>,
    o1: Seq<T>,
    o2: Seq<T>,
    r1: int,
    f1: Seq<T>,
    r2: int,
    f2: Seq<T>,
)
    requires
        s1 == s2,
        o1 == o2,
        r1 == min(o1.len() as int, s1.len() as int),
        f1.len() == o1.len(),
        forall|i: int| 0 <= i < r1 ==> f1[i] == s1[i],
        forall|i: int| r1 <= i < o1.len() ==> f1[i] == o1[i],
        r2 == min(o2.len() as int, s2.len() as int),
        f2.len() == o2.len(),
        forall|i: int| 0 <= i < r2 ==> f2[i] == s2[i],
        forall|i: int| r2 <= i < o2.len() ==> f2[i] == o2[i],
    ensures
        r1 == r2,
        f1 == f2,
{
    assert(f1 =~= f2);
}

} // verus!
