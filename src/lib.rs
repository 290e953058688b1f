mod map;

pub use map::{ArenaMap, IntoIter};
use std::marker::PhantomData;
use vstd::prelude::*;

verus! {

/// The untyped 32-bit slot offset underlying every handle.
#[derive(Clone, Copy, PartialEq, Eq, Structural, PartialOrd, Ord, Hash, Debug)]
pub struct RawIdx(u32);

impl View for RawIdx {
    type V = u32;

    closed spec fn view(&self) -> u32 {
        self.0
    }
}

impl From<u32> for RawIdx {
    fn from(id: u32) -> (r: RawIdx)
        ensures
            r@ == id,
    {
        RawIdx(id)
    }
}

impl vstd::std_specs::convert::FromSpecImpl<u32> for RawIdx {
    open spec fn obeys_from_spec() -> bool {
        true
    }

    closed spec fn from_spec(v: u32) -> RawIdx {
        RawIdx(v)
    }
}

impl From<RawIdx> for u32 {
    fn from(raw: RawIdx) -> (r: u32)
        ensures
            r == raw@,
    {
        raw.0
    }
}

impl vstd::std_specs::convert::FromSpecImpl<RawIdx> for u32 {
    open spec fn obeys_from_spec() -> bool {
        true
    }

    open spec fn from_spec(v: RawIdx) -> u32 {
        v@
    }
}

/// A handle to a slot, typed by the kind of entity it denotes.
///
/// The parameter `T` only separates index spaces: an `Idx<A>` is not accepted
/// where an `Idx<B>` is expected, although both hold a plain `RawIdx`.
#[derive(Debug, Hash)]
pub struct Idx<T> {
    raw: RawIdx,
    _marker: PhantomData<T>,
}

impl<T> View for Idx<T> {
    type V = u32;

    closed spec fn view(&self) -> u32 {
        self.raw@
    }
}

impl<T> Idx<T> {
    /// A placeholder handle (raw value 0) for a slot that is not known yet.
    /// It cannot be told apart from the first handle an arena gives out.
    pub fn dummy() -> (r: Self)
        ensures
            r@ == 0,
    {
        Idx { raw: RawIdx(0), _marker: PhantomData }
    }

    pub fn from_raw(raw: RawIdx) -> (r: Self)
        ensures
            r@ == raw@,
    {
        Idx { raw, _marker: PhantomData }
    }

    pub fn into_raw(self) -> (r: RawIdx)
        ensures
            r@ == self@,
    {
        self.raw
    }
}

impl<T> Clone for Idx<T> {
    fn clone(&self) -> (r: Self)
        ensures
            r@ == self@,
    {
        Idx { raw: self.raw, _marker: PhantomData }
    }
}

impl<T> Copy for Idx<T> {

}

impl<T> PartialEq for Idx<T> {
    fn eq(&self, other: &Self) -> (r: bool) {
        self.raw == other.raw
    }
}

impl<T> vstd::std_specs::cmp::PartialEqSpecImpl for Idx<T> {
    open spec fn obeys_eq_spec() -> bool {
        true
    }

    open spec fn eq_spec(&self, other: &Self) -> bool {
        self@ == other@
    }
}

impl<T> Eq for Idx<T> {

}

/// The contents of an arena holding `start` after each of `values` has been
/// allocated into it in turn.
pub open spec fn allocated<T>(start: Seq<T>, values: Seq<T>) -> Seq<T>
    decreases values.len(),
{
    if values.len() == 0 {
        start
    } else {
        allocated(start, values.drop_last()).push(values.last())
    }
}

/// Allocation appends: the arena holds what it held, then the new values.
pub proof fn lemma_allocated_appends<T>(start: Seq<T>, values: Seq<T>)
    ensures
        allocated(start, values) == start + values,
    decreases values.len(),
{
    if values.len() > 0 {
        lemma_allocated_appends(start, values.drop_last());
        assert(start + values =~= (start + values.drop_last()).push(values.last()));
    }
}

/// Into an empty arena, the allocation at position `k` of a run finds `k`
/// values before it, so its handle is `k`; once the run is over that handle
/// still reads the value passed to it, and the length is the number of
/// allocations.
pub proof fn lemma_allocations_from_empty<T>(values: Seq<T>, k: int)
    requires
        0 <= k < values.len(),
    ensures
        allocated(Seq::<T>::empty(), values.take(k)).len() == k,
        allocated(Seq::<T>::empty(), values)[k] == values[k],
        allocated(Seq::<T>::empty(), values).len() == values.len(),
{
    lemma_allocated_appends(Seq::<T>::empty(), values.take(k));
    lemma_allocated_appends(Seq::<T>::empty(), values);
    assert(Seq::<T>::empty() + values =~= values);
}

/// A handle keeps reading the same value however many allocations follow.
pub proof fn lemma_allocation_keeps_values<T>(start: Seq<T>, values: Seq<T>, k: int)
    requires
        0 <= k < start.len(),
    ensures
        allocated(start, values)[k] == start[k],
{
    lemma_allocated_appends(start, values);
}

/// A growth-only store of values, addressed by the handles that allocation
/// gives out: 0, 1, 2, ... in the order of the calls.
#[derive(Clone, PartialEq, Eq, Hash, Debug)]
pub struct Arena<T> {
    data: Vec<T>,
}

impl<T> View for Arena<T> {
    type V = Seq<T>;

    closed spec fn view(&self) -> Seq<T> {
        self.data@
    }
}

impl<T> Arena<T> {
    /// The raw value of the handle that the next allocation returns.
    pub open spec fn next_index(&self) -> nat {
        self@.len()
    }

    pub fn new() -> (r: Self)
        ensures
            r@ == Seq::<T>::empty(),
    {
        Arena { data: Vec::new() }
    }

    pub fn len(&self) -> (r: usize)
        ensures
            r == self@.len(),
    {
        self.data.len()
    }

    pub fn is_empty(&self) -> (r: bool)
        ensures
            r == (self@.len() == 0),
    {
        self.data.is_empty()
    }

    /// The handle that the next allocation will return.
    pub fn next_idx(&self) -> (r: Idx<T>)
        requires
            self@.len() <= u32::MAX,
        ensures
            r@ == self.next_index(),
    {
        Idx::from_raw(RawIdx(self.data.len() as u32))
    }

    /// Appends `value`; its handle is the length before the call. The
    /// 32-bit index space must not be full.
    pub fn allocate(&mut self, value: T) -> (r: Idx<T>)
        requires
            old(self)@.len() <= u32::MAX,
        ensures
            r@ == old(self).next_index(),
            final(self)@ == old(self)@.push(value),
    {
        let id = self.next_idx();
        self.data.push(value);
        id
    }

    /// The pairs (handle, value) of every slot, in ascending handle order.
    pub fn iter(&self) -> (r: Vec<(Idx<T>, &T)>)
        requires
            self@.len() <= u32::MAX as int + 1,
        ensures
            r@.len() == self@.len(),
            forall|i: int| 0 <= i < r@.len() ==> (#[trigger] r@[i]).0@ == i && *r@[i].1 == self@[i],
            forall|i: int, j: int| 0 <= i < j < r@.len() ==> (#[trigger] r@[i]).0@ < (#[trigger] r@[j]).0@,
    {
        let mut out: Vec<(Idx<T>, &T)> = Vec::new();
        let n = self.data.len();
        let mut i: usize = 0;
        while i < n
            invariant
                n == self@.len(),
                n <= u32::MAX as int + 1,
                i <= n,
                out@.len() == i,
                forall|j: int| 0 <= j < i ==> (#[trigger] out@[j]).0@ == j && *out@[j].1 == self@[j],
            decreases n - i,
        {
            out.push((Idx::from_raw(RawIdx(i as u32)), &self.data[i]));
            i += 1;
        }
        out
    }

    /// The pairs (handle, mutable reference to value) of every slot, in
    /// ascending handle order; the arena ends up holding what is written
    /// through them.
    pub fn iter_mut(&mut self) -> (r: Vec<(Idx<T>, &mut T)>)
        requires
            old(self)@.len() <= u32::MAX as int + 1,
        ensures
            r@.len() == old(self)@.len(),
            forall|i: int|
                0 <= i < r@.len() ==> (#[trigger] r@[i]).0@ == i && *r@[i].1 == old(self)@[i],
            final(self)@.len() == old(self)@.len(),
            forall|i: int| 0 <= i < r@.len() ==> final(self)@[i] == *final((#[trigger] r@[i]).1),
    {
        let ghost fin = final(self)@;
        let n = self.data.len();
        let mut rest: &mut [T] = self.data.as_mut_slice();
        let mut out: Vec<(Idx<T>, &mut T)> = Vec::new();
        let mut i: usize = 0;
        while i < n
            invariant
                n == old(self)@.len(),
                n <= u32::MAX as int + 1,
                i <= n,
                rest@ == old(self)@.subrange(i as int, n as int),
                out@.len() == i,
                forall|j: int|
                    0 <= j < i ==> (#[trigger] out@[j]).0@ == j && *out@[j].1 == old(self)@[j],
                fin == Seq::new(i as nat, |j: int| *final(out@[j].1)) + final(rest)@,
            decreases n - i,
        {
            let (head, tail) = rest.split_at_mut(1);
            let e = head.first_mut().unwrap();
            out.push((Idx::from_raw(RawIdx(i as u32)), e));
            rest = tail;
            i += 1;
        }
        out
    }

    /// The value stored under `idx`, which must be a handle of this arena.
    pub fn get(&self, idx: Idx<T>) -> (r: &T)
        requires
            idx@ < self@.len(),
        ensures
            *r == self@[idx@ as int],
    {
        &self.data[idx.into_raw().0 as usize]
    }

    /// A mutable reference to the value stored under `idx`, which must be a
    /// handle of this arena; only that slot can change.
    pub fn get_mut(&mut self, idx: Idx<T>) -> (r: &mut T)
        requires
            idx@ < old(self)@.len(),
        ensures
            *r == old(self)@[idx@ as int],
            final(self)@ == old(self)@.update(idx@ as int, *final(r)),
    {
        &mut self.data[idx.into_raw().0 as usize]
    }

    /// An arena holding `values` in order, as if each had been allocated in
    /// turn: the value at position `k` gets handle `k`.
    pub fn from_vec(values: Vec<T>) -> (r: Self)
        requires
            values@.len() <= u32::MAX as int + 1,
        ensures
            r@ == values@,
            r@ == allocated(Seq::<T>::empty(), values@),
    {
        proof {
            lemma_allocated_appends(Seq::<T>::empty(), values@);
            assert(Seq::<T>::empty() + values@ =~= values@);
        }
        Arena { data: values }
    }
}

impl<T> Default for Arena<T> {
    fn default() -> (r: Self)
        ensures
            r@ == Seq::<T>::empty(),
    {
        Arena::new()
    }
}

impl<T> std::ops::Index<Idx<T>> for Arena<T> {
    type Output = T;

    fn index(&self, index: Idx<T>) -> (r: &T)
        ensures
            *r == self@[index@ as int],
    {
        self.get(index)
    }
}

impl<T> vstd::std_specs::core::IndexSpecImpl<Idx<T>> for Arena<T> {
    open spec fn index_req(&self, index: &Idx<T>) -> bool {
        index@ < self@.len()
    }
}

} // verus!
