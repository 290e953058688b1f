use crate::{Idx, RawIdx};
use std::marker::PhantomData;
use vstd::prelude::*;

verus! {

/// The value in slot `k` of `slots`, or `None` where `k` lies past the end.
pub open spec fn slot<V>(slots: Seq<Option<V>>, k: int) -> Option<V> {
    if 0 <= k < slots.len() {
        slots[k]
    } else {
        None
    }
}

/// The slots after setting slot `k` to `v`: the sequence grows to `k + 1`
/// slots where it is shorter, with the new slots unset.
pub open spec fn inserted<V>(slots: Seq<Option<V>>, k: nat, v: V) -> Seq<Option<V>> {
    Seq::new(
        if k < slots.len() {
            slots.len()
        } else {
            k + 1
        },
        |j: int|
            if j == k {
                Some(v)
            } else {
                slot(slots, j)
            },
    )
}

/// The slots after inserting each of `pairs` in turn.
pub open spec fn inserted_all<T, V>(slots: Seq<Option<V>>, pairs: Seq<(Idx<T>, V)>) -> Seq<
    Option<V>,
>
    decreases pairs.len(),
{
    if pairs.len() == 0 {
        slots
    } else {
        let last = pairs.last();
        inserted(inserted_all(slots, pairs.drop_last()), last.0@ as nat, last.1)
    }
}

/// The set slots of `slots` as (index, value) pairs, in ascending index order.
pub open spec fn entries<V>(slots: Seq<Option<V>>) -> Seq<(nat, V)>
    decreases slots.len(),
{
    if slots.len() == 0 {
        Seq::empty()
    } else {
        let before = entries(slots.drop_last());
        match slots.last() {
            Some(v) => before.push(((slots.len() - 1) as nat, v)),
            None => before,
        }
    }
}

/// The indices of the set slots of `slots`.
pub open spec fn keys<V>(slots: Seq<Option<V>>) -> Set<nat> {
    Set::new(|k: nat| k < slots.len() && slots[k as int] is Some)
}

/// The entries of a slot sequence name only set slots, each with its value;
/// their indices rise strictly; every set slot is among them.
pub proof fn lemma_entries_are_set_slots<V>(slots: Seq<Option<V>>)
    ensures
        forall|j: int|
            #![trigger entries(slots)[j]]
            0 <= j < entries(slots).len() ==> entries(slots)[j].0 < slots.len() && slots[entries(
                slots,
            )[j].0 as int] == Some(entries(slots)[j].1),
        forall|i: int, j: int|
            #![trigger entries(slots)[i], entries(slots)[j]]
            0 <= i < j < entries(slots).len() ==> entries(slots)[i].0 < entries(slots)[j].0,
        forall|k: int|
            0 <= k < slots.len() && (#[trigger] slots[k]) is Some ==> exists|j: int|
                0 <= j < entries(slots).len() && (#[trigger] entries(slots)[j]).0 == k,
    decreases slots.len(),
{
    if slots.len() > 0 {
        let before = slots.drop_last();
        lemma_entries_are_set_slots(before);
        assert forall|k: int|
            0 <= k < slots.len() && (#[trigger] slots[k]) is Some implies exists|j: int|
                0 <= j < entries(slots).len() && (#[trigger] entries(slots)[j]).0 == k by {
            if k < slots.len() - 1 {
                assert(before[k] == slots[k]);
                let j = choose|j: int| 0 <= j < entries(before).len() && (#[trigger] entries(before)[j]).0 == k;
                assert(entries(slots)[j] == entries(before)[j]);
            } else {
                assert(entries(slots)[entries(before).len() as int].0 == k);
            }
        }
    }
}

/// The number of entries is the number of set slots.
pub proof fn lemma_entries_count<V>(slots: Seq<Option<V>>)
    ensures
        keys(slots).finite(),
        keys(slots).len() == entries(slots).len(),
    decreases slots.len(),
{
    if slots.len() == 0 {
        assert(keys(slots) =~= Set::<nat>::empty());
    } else {
        let before = slots.drop_last();
        let last = (slots.len() - 1) as nat;
        lemma_entries_count(before);
        if slots.last() is Some {
            assert(keys(slots) =~= keys(before).insert(last));
            assert(!keys(before).contains(last));
        } else {
            assert(keys(slots) =~= keys(before));
        }
    }
}

/// Of two insertions at one handle, the later one wins: the slots are as if
/// only it had been made.
pub proof fn lemma_last_write_wins<V>(slots: Seq<Option<V>>, k: nat, first: V, second: V)
    ensures
        inserted(inserted(slots, k, first), k, second) == inserted(slots, k, second),
        slot(inserted(inserted(slots, k, first), k, second), k as int) == Some(second),
{
    assert(inserted(inserted(slots, k, first), k, second) =~= inserted(slots, k, second));
}

/// Inserting at `k` sets slot `k` and leaves which other slots are set alone.
pub proof fn lemma_inserted_keys<V>(slots: Seq<Option<V>>, k: nat, v: V)
    ensures
        keys(inserted(slots, k, v)) == keys(slots).insert(k),
{
    assert(keys(inserted(slots, k, v)) =~= keys(slots).insert(k));
}

/// The raw values of the handles among `pairs`.
pub open spec fn handles<T, V>(pairs: Seq<(Idx<T>, V)>) -> Set<nat> {
    Set::new(|k: nat| exists|j: int| 0 <= j < pairs.len() && (#[trigger] pairs[j]).0@ == k)
}

/// After a run of insertions into an empty map, the set slots are those of
/// the handles inserted, and there are as many entries as distinct handles.
pub proof fn lemma_inserted_all_keys<T, V>(pairs: Seq<(Idx<T>, V)>)
    ensures
        keys(inserted_all(Seq::<Option<V>>::empty(), pairs)) == handles(pairs),
        entries(inserted_all(Seq::<Option<V>>::empty(), pairs)).len() == handles(pairs).len(),
    decreases pairs.len(),
{
    let empty = Seq::<Option<V>>::empty();
    if pairs.len() == 0 {
        assert(keys(empty) =~= handles(pairs));
    } else {
        let before = pairs.drop_last();
        let last = pairs.last();
        lemma_inserted_all_keys(before);
        lemma_inserted_keys(inserted_all(empty, before), last.0@ as nat, last.1);
        assert forall|k: nat| handles(pairs).contains(k) <==> #[trigger] handles(before).insert(
            last.0@ as nat,
        ).contains(k) by {
            if handles(pairs).contains(k) {
                let j = choose|j: int| 0 <= j < pairs.len() && (#[trigger] pairs[j]).0@ == k;
                if j < pairs.len() - 1 {
                    assert(before[j] == pairs[j]);
                }
            }
            if handles(before).contains(k) {
                let j = choose|j: int| 0 <= j < before.len() && (#[trigger] before[j]).0@ == k;
                assert(pairs[j] == before[j]);
            }
            if k == last.0@ as nat {
                assert(pairs[pairs.len() - 1] == last);
            }
        }
        assert(handles(pairs) =~= handles(before).insert(last.0@ as nat));
    }
    lemma_entries_count(inserted_all(empty, pairs));
}

/// A map from the handles of one index space to values, where not every
/// handle need have a value. It is backed by one slot per raw index up to the
/// largest handle inserted so far.
#[derive(Debug, PartialEq, Eq, PartialOrd, Ord, Hash)]
pub struct ArenaMap<IDX, V> {
    v: Vec<Option<V>>,
    _marker: PhantomData<IDX>,
}

impl<IDX, V> View for ArenaMap<IDX, V> {
    type V = Seq<Option<V>>;

    closed spec fn view(&self) -> Seq<Option<V>> {
        self.v@
    }
}

impl<IDX, V: Clone> Clone for ArenaMap<IDX, V> {
    fn clone(&self) -> (r: Self) {
        ArenaMap { v: self.v.clone(), _marker: PhantomData }
    }
}

impl<IDX, V> Default for ArenaMap<IDX, V> {
    fn default() -> (r: Self)
        ensures
            r@ == Seq::<Option<V>>::empty(),
    {
        ArenaMap { v: Vec::new(), _marker: PhantomData }
    }
}

impl<T, V> ArenaMap<Idx<T>, V> {
    pub fn new() -> (r: Self)
        ensures
            r@ == Seq::<Option<V>>::empty(),
    {
        ArenaMap { v: Vec::new(), _marker: PhantomData }
    }

    /// Sets the slot of `idx` to `t`, growing the backing slots with unset
    /// ones up to `idx` where needed; a value already there is replaced.
    pub fn insert(&mut self, idx: Idx<T>, t: V)
        ensures
            final(self)@ == inserted(old(self)@, idx@ as nat, t),
    {
        let i = Self::to_idx(idx);
        while self.v.len() <= i
            invariant
                i == idx@,
                self.v@.len() == old(self)@.len() || self.v@.len() <= i + 1,
                self.v@.len() >= old(self)@.len(),
                forall|k: int| 0 <= k < old(self)@.len() ==> self.v@[k] == old(self)@[k],
                forall|k: int| old(self)@.len() <= k < self.v@.len() ==> self.v@[k] is None,
            decreases i + 1 - self.v@.len(),
        {
            self.v.push(None);
        }
        self.v.set(i, Some(t));
        assert(self.v@ =~= inserted(old(self)@, idx@ as nat, t));
    }

    /// A map built by inserting each of `pairs` in order into an empty map: of
    /// two pairs with one handle, the later one wins.
    pub fn from_pairs(pairs: Vec<(Idx<T>, V)>) -> (r: Self)
        ensures
            r@ == inserted_all(Seq::<Option<V>>::empty(), pairs@),
    {
        let ghost orig = pairs@;
        let n = pairs.len();
        let mut pairs = pairs;
        let mut rev: Vec<(Idx<T>, V)> = Vec::new();
        while pairs.len() > 0
            invariant
                n == orig.len(),
                pairs@ == orig.subrange(0, pairs@.len() as int),
                rev@.len() + pairs@.len() == n,
                forall|j: int| 0 <= j < rev@.len() ==> #[trigger] rev@[j] == orig[n - 1 - j],
            decreases pairs@.len(),
        {
            let p = pairs.pop().unwrap();
            rev.push(p);
        }
        let mut map = Self::new();
        while rev.len() > 0
            invariant
                n == orig.len(),
                rev@.len() <= n,
                forall|j: int| 0 <= j < rev@.len() ==> #[trigger] rev@[j] == orig[n - 1 - j],
                map@ == inserted_all(Seq::<Option<V>>::empty(), orig.subrange(0, n - rev@.len())),
            decreases rev@.len(),
        {
            let ghost m = n - rev@.len();
            let (idx, value) = rev.pop().unwrap();
            assert(orig.subrange(0, m + 1).drop_last() =~= orig.subrange(0, m));
            map.insert(idx, value);
        }
        assert(orig.subrange(0, n as int) =~= orig);
        map
    }

    /// The value of `idx`, or `None` where its slot is unset or past the end.
    pub fn get(&self, idx: Idx<T>) -> (r: Option<&V>)
        ensures
            r is Some <==> slot(self@, idx@ as int) is Some,
            r is Some ==> r->0 == slot(self@, idx@ as int)->0,
    {
        let i = Self::to_idx(idx);
        if i < self.v.len() {
            self.v[i].as_ref()
        } else {
            None
        }
    }

    /// A mutable reference to the value of `idx`, or `None` where its slot is
    /// unset or past the end; only that slot can change.
    pub fn get_mut(&mut self, idx: Idx<T>) -> (r: Option<&mut V>)
        ensures
            r is Some <==> slot(old(self)@, idx@ as int) is Some,
            r is Some ==> *r->0 == slot(old(self)@, idx@ as int)->0 && final(self)@ == old(
                self,
            )@.update(idx@ as int, Some(*final(r->0))),
            r is None ==> final(self)@ == old(self)@,
    {
        let i = Self::to_idx(idx);
        if i < self.v.len() {
            self.v[i].as_mut()
        } else {
            None
        }
    }

    /// The pairs (handle, value) of the set slots, in ascending handle order.
    pub fn iter(&self) -> (r: Vec<(Idx<T>, &V)>)
        requires
            self@.len() <= u32::MAX as int + 1,
        ensures
            r@.len() == entries(self@).len(),
            forall|j: int|
                0 <= j < r@.len() ==> (#[trigger] r@[j]).0@ == entries(self@)[j].0 && *r@[j].1
                    == entries(self@)[j].1,
            forall|i: int, j: int| 0 <= i < j < r@.len() ==> (#[trigger] r@[i]).0@ < (#[trigger] r@[j]).0@,
    {
        let mut out: Vec<(Idx<T>, &V)> = Vec::new();
        let n = self.v.len();
        let mut i: usize = 0;
        while i < n
            invariant
                n == self@.len(),
                n <= u32::MAX as int + 1,
                i <= n,
                out@.len() == entries(self@.subrange(0, i as int)).len(),
                forall|j: int|
                    0 <= j < out@.len() ==> (#[trigger] out@[j]).0@ == entries(
                        self@.subrange(0, i as int),
                    )[j].0 && *out@[j].1 == entries(self@.subrange(0, i as int))[j].1,
            decreases n - i,
        {
            assert(self@.subrange(0, i + 1).drop_last() =~= self@.subrange(0, i as int));
            match self.v[i].as_ref() {
                Some(value) => {
                    out.push((Self::from_idx(i), value));
                },
                None => {},
            }
            i += 1;
        }
        assert(self@.subrange(0, n as int) =~= self@);
        proof {
            lemma_entries_are_set_slots(self@);
        }
        out
    }

    /// The values of the set slots, in ascending handle order.
    pub fn values(&self) -> (r: Vec<&V>)
        ensures
            r@.len() == entries(self@).len(),
            forall|j: int| 0 <= j < r@.len() ==> *(#[trigger] r@[j]) == entries(self@)[j].1,
    {
        let mut out: Vec<&V> = Vec::new();
        let n = self.v.len();
        let mut i: usize = 0;
        while i < n
            invariant
                n == self@.len(),
                i <= n,
                out@.len() == entries(self@.subrange(0, i as int)).len(),
                forall|j: int|
                    0 <= j < out@.len() ==> *(#[trigger] out@[j]) == entries(
                        self@.subrange(0, i as int),
                    )[j].1,
            decreases n - i,
        {
            assert(self@.subrange(0, i + 1).drop_last() =~= self@.subrange(0, i as int));
            match self.v[i].as_ref() {
                Some(value) => {
                    out.push(value);
                },
                None => {},
            }
            i += 1;
        }
        assert(self@.subrange(0, n as int) =~= self@);
        out
    }

    /// The pairs (handle, mutable reference to value) of the set slots, in
    /// ascending handle order; the set slots end up holding what is written
    /// through them, and the unset ones stay unset.
    pub fn iter_mut(&mut self) -> (r: Vec<(Idx<T>, &mut V)>)
        requires
            old(self)@.len() <= u32::MAX as int + 1,
        ensures
            r@.len() == entries(old(self)@).len(),
            forall|m: int|
                0 <= m < r@.len() ==> (#[trigger] r@[m]).0@ == entries(old(self)@)[m].0 && *r@[m].1
                    == entries(old(self)@)[m].1,
            final(self)@.len() == old(self)@.len(),
            forall|k: int|
                0 <= k < old(self)@.len() && (#[trigger] old(self)@[k]) is None ==> final(self)@[k] is None,
            forall|m: int|
                0 <= m < r@.len() ==> final(self)@[entries(old(self)@)[m].0 as int] == Some(
                    *final((#[trigger] r@[m]).1),
                ),
    {
        let ghost fin = final(self)@;
        let ghost orig = old(self)@;
        let n = self.v.len();
        let mut rest: &mut [Option<V>] = self.v.as_mut_slice();
        let mut out: Vec<(Idx<T>, &mut V)> = Vec::new();
        let mut i: usize = 0;
        while i < n
            invariant
                n == orig.len(),
                n <= u32::MAX as int + 1,
                i <= n,
                rest@ == orig.subrange(i as int, n as int),
                i <= fin.len(),
                fin == fin.take(i as int) + final(rest)@,
                out@.len() == entries(orig.subrange(0, i as int)).len(),
                forall|m: int|
                    0 <= m < out@.len() ==> (#[trigger] out@[m]).0@ == entries(
                        orig.subrange(0, i as int),
                    )[m].0 && *out@[m].1 == entries(orig.subrange(0, i as int))[m].1,
                forall|k: int| 0 <= k < i && (#[trigger] orig[k]) is None ==> fin[k] is None,
                forall|m: int|
                    0 <= m < out@.len() ==> fin[entries(orig.subrange(0, i as int))[m].0 as int]
                        == Some(*final((#[trigger] out@[m]).1)),
            decreases n - i,
        {
            assert(orig.subrange(0, i + 1).drop_last() =~= orig.subrange(0, i as int));
            proof {
                lemma_entries_are_set_slots(orig.subrange(0, i as int));
            }
            let (head, tail) = rest.split_at_mut(1);
            let ghost fin_head = final(head)@;
            let e = head.first_mut().unwrap();
            assert(fin_head =~= seq![*final(e)]);
            assert(fin[i as int] == *final(e));
            assert(fin == fin.take(i + 1) + final(tail)@) by {
                assert(fin.take(i + 1) =~= fin.take(i as int).push(*final(e)));
                assert(fin =~= fin.take(i + 1) + final(tail)@);
            }
            match e.as_mut() {
                Some(value) => {
                    out.push((Self::from_idx(i), value));
                },
                None => {},
            }
            rest = tail;
            i += 1;
        }
        assert(orig.subrange(0, n as int) =~= orig);
        out
    }

    /// Mutable references to the values of the set slots, in ascending
    /// handle order; the set slots end up holding what is written through
    /// them, and the unset ones stay unset.
    pub fn values_mut(&mut self) -> (r: Vec<&mut V>)
        ensures
            r@.len() == entries(old(self)@).len(),
            forall|m: int| 0 <= m < r@.len() ==> *(#[trigger] r@[m]) == entries(old(self)@)[m].1,
            final(self)@.len() == old(self)@.len(),
            forall|k: int|
                0 <= k < old(self)@.len() && (#[trigger] old(self)@[k]) is None ==> final(self)@[k] is None,
            forall|m: int|
                0 <= m < r@.len() ==> final(self)@[entries(old(self)@)[m].0 as int] == Some(
                    *final(#[trigger] r@[m]),
                ),
    {
        let ghost fin = final(self)@;
        let ghost orig = old(self)@;
        let n = self.v.len();
        let mut rest: &mut [Option<V>] = self.v.as_mut_slice();
        let mut out: Vec<&mut V> = Vec::new();
        let mut i: usize = 0;
        while i < n
            invariant
                n == orig.len(),
                i <= n,
                rest@ == orig.subrange(i as int, n as int),
                i <= fin.len(),
                fin == fin.take(i as int) + final(rest)@,
                out@.len() == entries(orig.subrange(0, i as int)).len(),
                forall|m: int|
                    0 <= m < out@.len() ==> *(#[trigger] out@[m]) == entries(
                        orig.subrange(0, i as int),
                    )[m].1,
                forall|k: int| 0 <= k < i && (#[trigger] orig[k]) is None ==> fin[k] is None,
                forall|m: int|
                    0 <= m < out@.len() ==> fin[entries(orig.subrange(0, i as int))[m].0 as int]
                        == Some(*final(#[trigger] out@[m])),
            decreases n - i,
        {
            assert(orig.subrange(0, i + 1).drop_last() =~= orig.subrange(0, i as int));
            proof {
                lemma_entries_are_set_slots(orig.subrange(0, i as int));
            }
            let (head, tail) = rest.split_at_mut(1);
            let ghost fin_head = final(head)@;
            let e = head.first_mut().unwrap();
            assert(fin_head =~= seq![*final(e)]);
            assert(fin[i as int] == *final(e));
            assert(fin == fin.take(i + 1) + final(tail)@) by {
                assert(fin.take(i + 1) =~= fin.take(i as int).push(*final(e)));
                assert(fin =~= fin.take(i + 1) + final(tail)@);
            }
            match e.as_mut() {
                Some(value) => {
                    out.push(value);
                },
                None => {},
            }
            rest = tail;
            i += 1;
        }
        assert(orig.subrange(0, n as int) =~= orig);
        out
    }

    /// Consumes the map into its set slots as (handle, value) pairs, in
    /// ascending handle order.
    pub fn into_iter(self) -> (r: IntoIter<Idx<T>, V>)
        requires
            self@.len() <= u32::MAX as int + 1,
        ensures
            r.remaining() == entries(self@),
    {
        let ghost orig = self@;
        let mut slots = self.v;
        let mut rest: Vec<(Idx<T>, V)> = Vec::new();
        while slots.len() > 0
            invariant
                orig.len() <= u32::MAX as int + 1,
                slots@.len() <= orig.len(),
                slots@ == orig.subrange(0, slots@.len() as int),
                entries(slots@) + (IntoIter { rest }).remaining() == entries(orig),
            decreases slots@.len(),
        {
            let ghost before = rest;
            let k = slots.len() - 1;
            assert(slots@.drop_last() =~= orig.subrange(0, k as int));
            match slots.pop().unwrap() {
                Some(value) => {
                    rest.push((Self::from_idx(k), value));
                    assert((IntoIter { rest }).remaining() =~= seq![(k as nat, value)] + (IntoIter { rest: before }).remaining());
                },
                None => {},
            }
        }
        IntoIter { rest }
    }

    fn to_idx(idx: Idx<T>) -> (r: usize)
        ensures
            r == idx@,
    {
        u32::from(idx.into_raw()) as usize
    }

    fn from_idx(idx: usize) -> (r: Idx<T>)
        requires
            idx <= u32::MAX,
        ensures
            r@ == idx,
    {
        Idx::from_raw(RawIdx::from(idx as u32))
    }
}

impl<T, V> std::ops::Index<Idx<T>> for ArenaMap<Idx<T>, V> {
    type Output = V;

    fn index(&self, idx: Idx<T>) -> (r: &V)
        ensures
            Some(*r) == slot(self@, idx@ as int),
    {
        let i = Self::to_idx(idx);
        self.v[i].as_ref().unwrap()
    }
}

impl<T, V> vstd::std_specs::core::IndexSpecImpl<Idx<T>> for ArenaMap<Idx<T>, V> {
    open spec fn index_req(&self, idx: &Idx<T>) -> bool {
        slot(self@, idx@ as int) is Some
    }
}

/// The set slots of a consumed `ArenaMap`, handed out one by one in
/// ascending handle order.
pub struct IntoIter<IDX, V> {
    /// Pairs still to come, the next one last.
    rest: Vec<(IDX, V)>,
}

impl<T, V> IntoIter<Idx<T>, V> {
    /// The (index, value) pairs still to come, in the order they come.
    pub closed spec fn remaining(&self) -> Seq<(nat, V)> {
        Seq::new(
            self.rest@.len(),
            |j: int|
                {
                    let p = self.rest@[self.rest@.len() - 1 - j];
                    (p.0@ as nat, p.1)
                },
        )
    }

    /// The next pair, or `None` once all have come.
    pub fn next(&mut self) -> (r: Option<(Idx<T>, V)>)
        ensures
            old(self).remaining().len() == 0 ==> r is None && final(self).remaining() == old(
                self,
            ).remaining(),
            old(self).remaining().len() > 0 ==> r is Some && (r->0).0@ == old(self).remaining()[0].0
                && (r->0).1 == old(self).remaining()[0].1 && final(self).remaining() == old(
                self,
            ).remaining().drop_first(),
    {
        let r = self.rest.pop();
        proof {
            if old(self).rest@.len() > 0 {
                assert(self.remaining() =~= old(self).remaining().drop_first());
            } else {
                assert(self.remaining() =~= old(self).remaining());
            }
        }
        r
    }
}

} // verus!
