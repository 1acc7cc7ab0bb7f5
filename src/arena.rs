//! An append-mostly store addressed by generation-checked indices, kept in a
//! `generational_arena::Arena` and modelled as a map from index to value.
use vstd::prelude::*;

verus! {

#[verifier::external_type_specification]
#[verifier::external_body]
#[verifier::reject_recursive_types(T)]
pub struct ExGenArena<T>(generational_arena::Arena<T>);

#[verifier::external_type_specification]
#[verifier::external_body]
pub struct ExGenIndex(generational_arena::Index);

/// Relies on generational_arena::Arena::new: makes an empty arena.
pub assume_specification<T>[ generational_arena::Arena::<T>::new ]() -> generational_arena::Arena<T>;

/// Relies on generational_arena::Index::into_raw_parts: the slot and generation
/// of an index, with nothing stated of the pair.
pub assume_specification[ generational_arena::Index::into_raw_parts ](
    idx: generational_arena::Index,
) -> (usize, u64);

/// Relies on generational_arena::Index::from_raw_parts: builds an index from a
/// slot and a generation, with nothing stated of it.
pub assume_specification[ generational_arena::Index::from_raw_parts ](
    a: usize,
    b: u64,
) -> generational_arena::Index;

/// The address of an arena entry: the slot it lives in and the generation it was
/// stored at. Two entries stored in one slot at different times differ in
/// generation.
#[derive(Clone, Copy, Debug, PartialEq, Eq, Structural, Hash)]
pub struct Idx {
    pub slot: usize,
    pub generation: u64,
}

fn idx_of(i: generational_arena::Index) -> Idx {
    let (slot, generation) = i.into_raw_parts();
    Idx { slot, generation }
}

fn index_of(i: Idx) -> generational_arena::Index {
    generational_arena::Index::from_raw_parts(i.slot, i.generation)
}

/// A store of values of type `T`. Its model is a map from index to value, the
/// order in which a walk visits the indices, the set of indices whose entries
/// were removed, and the number of removals so far. The ghost fields describe
/// `inner`: it starts empty, and it changes only through the wrappers below,
/// whose contracts say how each call of `generational_arena` changes it.
#[verifier::reject_recursive_types(T)]
pub struct IndexedArena<T> {
    inner: generational_arena::Arena<T>,
    contents: Ghost<Map<Idx, T>>,
    walk: Ghost<Seq<Idx>>,
    retired: Ghost<Set<Idx>>,
    removals: Ghost<nat>,
}

impl<T> View for IndexedArena<T> {
    type V = Map<Idx, T>;

    closed spec fn view(&self) -> Map<Idx, T> {
        self.contents@
    }
}

impl<T> IndexedArena<T> {
    /// The indices of the live entries, in the order a walk visits them.
    pub closed spec fn order(&self) -> Seq<Idx> {
        self.walk@
    }

    /// The indices whose entries have been removed.
    pub closed spec fn retired(&self) -> Set<Idx> {
        self.retired@
    }

    /// How many entries have been removed so far.
    pub closed spec fn removal_count(&self) -> nat {
        self.removals@
    }

    /// The model is consistent: finitely many entries, each visited once by a
    /// walk, and no removed index live again.
    pub closed spec fn wf(&self) -> bool {
        &&& self.contents@.dom().finite()
        &&& self.walk@.no_duplicates()
        &&& forall|i: Idx| #[trigger] self.walk@.contains(i) <==> self.contents@.contains_key(i)
        &&& forall|i: Idx| #[trigger] self.retired@.contains(i) ==> !self.contents@.contains_key(i)
    }

    /// Relies on generational_arena::Arena::insert: the value is stored under a
    /// fresh index, in a free slot, at the arena's current generation. That
    /// generation counts the removals, so no removed index comes back.
    #[verifier::external_body]
    fn insert_entry(&mut self, value: T) -> (r: Idx)
        requires
            old(self).wf(),
        ensures
            !old(self)@.contains_key(r),
            !old(self).retired().contains(r),
            final(self)@ == old(self)@.insert(r, value),
            exists|k: int| 0 <= k <= old(self).order().len() && final(self).order() == old(self).order().insert(k, r),
            old(self).removal_count() == 0 ==> final(self).order() == old(self).order().push(r),
            final(self).retired() == old(self).retired(),
            final(self).removal_count() == old(self).removal_count(),
    {
        idx_of(self.inner.insert(value))
    }

    /// Relies on generational_arena::Arena::get: the value stored under the
    /// index, or nothing where the slot is free or holds another generation.
    #[verifier::external_body]
    fn get_entry(&self, i: Idx) -> (r: Option<&T>)
        ensures
            match r {
                Some(v) => self@.contains_key(i) && *v == self@[i],
                None => !self@.contains_key(i),
            },
    {
        self.inner.get(index_of(i))
    }

    /// Relies on generational_arena::Arena::get_mut: a mutable reference to the
    /// value stored under a live index; what is written through it is what the
    /// entry then holds.
    #[verifier::external_body]
    fn get_entry_mut(&mut self, i: Idx) -> (r: &mut T)
        requires
            old(self)@.contains_key(i),
        ensures
            *r == old(self)@[i],
            final(self)@ == old(self)@.insert(i, *final(r)),
            final(self).order() == old(self).order(),
            final(self).retired() == old(self).retired(),
            final(self).removal_count() == old(self).removal_count(),
    {
        self.inner.get_mut(index_of(i)).unwrap()
    }

    /// Relies on generational_arena::Arena::remove: a live entry is taken out and
    /// the generation advances; any other index leaves the arena as it was.
    #[verifier::external_body]
    fn remove_entry(&mut self, i: Idx) -> (r: Option<T>)
        requires
            old(self).removal_count() < u64::MAX,
        ensures
            old(self)@.contains_key(i) ==> {
                &&& r == Some(old(self)@[i])
                &&& final(self)@ == old(self)@.remove(i)
                &&& exists|k: int| 0 <= k < old(self).order().len() && old(self).order()[k] == i
                    && final(self).order() == old(self).order().remove(k)
                &&& final(self).retired() == old(self).retired().insert(i)
                &&& final(self).removal_count() == old(self).removal_count() + 1
            },
            !old(self)@.contains_key(i) ==> r.is_none() && *final(self) == *old(self),
    {
        self.inner.remove(index_of(i))
    }

    /// Relies on generational_arena::Arena::len: the number of live entries.
    #[verifier::external_body]
    fn count_entries(&self) -> (r: usize)
        requires
            self.wf(),
        ensures
            r == self@.len(),
    {
        self.inner.len()
    }

    /// Relies on generational_arena::Arena::iter: the live entries in the order
    /// of their slots; only their indices are kept.
    #[verifier::external_body]
    fn walk_indices(&self) -> (r: Vec<Idx>)
        ensures
            r@ == self.order(),
    {
        self.inner.iter().map(|(i, _)| idx_of(i)).collect()
    }

    /// An empty arena.
    pub fn new() -> (r: Self)
        ensures
            r.wf(),
            r@ == Map::<Idx, T>::empty(),
            r.order() == Seq::<Idx>::empty(),
            r.retired() == Set::<Idx>::empty(),
            r.removal_count() == 0,
    {
        IndexedArena {
            inner: generational_arena::Arena::new(),
            contents: Ghost(Map::empty()),
            walk: Ghost(Seq::empty()),
            retired: Ghost(Set::empty()),
            removals: Ghost(0),
        }
    }

    /// Stores `value` and returns its index, one that was neither live nor
    /// removed before.
    pub fn insert(&mut self, value: T) -> (r: Idx)
        requires
            old(self).wf(),
        ensures
            final(self).wf(),
            !old(self)@.contains_key(r),
            !old(self).retired().contains(r),
            final(self)@ == old(self)@.insert(r, value),
            final(self).order().contains(r),
            old(self).removal_count() == 0 ==> final(self).order() == old(self).order().push(r),
            final(self).retired() == old(self).retired(),
            final(self).removal_count() == old(self).removal_count(),
    {
        let ghost before = self.order();
        let r = self.insert_entry(value);
        proof {
            let k = choose|k: int| 0 <= k <= before.len() && self.order() == before.insert(k, r);
            assert(self.order()[k] == r);
            assert(self.order().contains(r));
            assert forall|i: Idx| #[trigger] self.order().contains(i) <==> self@.contains_key(i) by {
                if self.order().contains(i) {
                    let j = choose|j: int| 0 <= j < self.order().len() && self.order()[j] == i;
                    if j < k {
                        assert(before[j] == i);
                        assert(before.contains(i));
                    } else if j > k {
                        assert(before[j - 1] == i);
                        assert(before.contains(i));
                    }
                }
                if self@.contains_key(i) && i != r {
                    assert(old(self)@.contains_key(i));
                    assert(before.contains(i));
                    let j = choose|j: int| 0 <= j < before.len() && before[j] == i;
                    if j < k {
                        assert(before.insert(k, r)[j] == before[j]);
                        assert(self.order()[j] == i);
                    } else {
                        assert(before.insert(k, r)[j + 1] == before[j]);
                        assert(self.order()[j + 1] == i);
                    }
                }
            }
            assert(self.order().no_duplicates()) by {
                assert forall|a: int, b: int|
                    0 <= a < self.order().len() && 0 <= b < self.order().len() && a != b implies
                    self.order()[a] != self.order()[b] by {
                    if a != k && b != k {
                        let a0 = if a < k { a } else { a - 1 };
                        let b0 = if b < k { b } else { b - 1 };
                        assert(before[a0] == self.order()[a]);
                        assert(before[b0] == self.order()[b]);
                    } else if a == k {
                        let b0 = if b < k { b } else { b - 1 };
                        assert(before[b0] == self.order()[b]);
                        assert(before.contains(before[b0]));
                    } else {
                        let a0 = if a < k { a } else { a - 1 };
                        assert(before[a0] == self.order()[a]);
                        assert(before.contains(before[a0]));
                    }
                }
            }
        }
        r
    }

    /// The value stored under `i`, or `None` where `i` is not live: never
    /// created by this arena, or removed since.
    pub fn get(&self, i: Idx) -> (r: Option<&T>)
        ensures
            match r {
                Some(v) => self@.contains_key(i) && *v == self@[i],
                None => !self@.contains_key(i),
            },
    {
        self.get_entry(i)
    }

    /// A mutable reference to the value stored under the live index `i`.
    pub fn get_mut(&mut self, i: Idx) -> (r: &mut T)
        requires
            old(self).wf(),
            old(self)@.contains_key(i),
        ensures
            *r == old(self)@[i],
            final(self).wf(),
            final(self)@ == old(self)@.insert(i, *final(r)),
            final(self).order() == old(self).order(),
            final(self).retired() == old(self).retired(),
            final(self).removal_count() == old(self).removal_count(),
    {
        self.get_entry_mut(i)
    }

    /// Takes the entry under `i` out, if it is live; its index is then retired
    /// and never found again.
    pub fn remove(&mut self, i: Idx) -> (r: Option<T>)
        requires
            old(self).wf(),
            old(self).removal_count() < u64::MAX,
        ensures
            final(self).wf(),
            old(self)@.contains_key(i) ==> r == Some(old(self)@[i]),
            !old(self)@.contains_key(i) ==> r.is_none(),
            final(self)@ == old(self)@.remove(i),
            old(self)@.contains_key(i) ==> final(self).retired() == old(self).retired().insert(i),
            final(self).retired().contains(i) || !old(self)@.contains_key(i),
    {
        let ghost before = self.order();
        let r = self.remove_entry(i);
        proof {
            if old(self)@.contains_key(i) {
                let k = choose|k: int| 0 <= k < before.len() && before[k] == i
                    && self.order() == before.remove(k);
                assert forall|j: Idx| #[trigger] self.order().contains(j) <==> self@.contains_key(j) by {
                    if self.order().contains(j) {
                        let n = choose|n: int| 0 <= n < self.order().len() && self.order()[n] == j;
                        let m = if n < k { n } else { n + 1 };
                        assert(before[m] == j);
                        assert(before.contains(j));
                    }
                    if self@.contains_key(j) {
                        assert(before.contains(j));
                        let m = choose|m: int| 0 <= m < before.len() && before[m] == j;
                        assert(m != k);
                        let n = if m < k { m } else { m - 1 };
                        assert(self.order()[n] == j);
                    }
                }
            }
        }
        r
    }

    /// The number of live entries.
    pub fn len(&self) -> (r: usize)
        requires
            self.wf(),
        ensures
            r == self@.len(),
    {
        self.count_entries()
    }

    /// The live indices, in the order a walk of the arena visits them: each once.
    pub fn indices(&self) -> (r: Vec<Idx>)
        requires
            self.wf(),
        ensures
            r@ == self.order(),
            r@.no_duplicates(),
            forall|i: Idx| #[trigger] r@.contains(i) <==> self@.contains_key(i),
    {
        self.walk_indices()
    }
}

/// Reading back each index that a run of insertions returned gives the value that
/// was inserted under it: `states[k + 1]` is the model after the `k`-th insertion,
/// which stored `values[k]` under the fresh index `idxs[k]`.
pub proof fn lemma_round_trip<T>(states: Seq<Map<Idx, T>>, values: Seq<T>, idxs: Seq<Idx>)
    requires
        states.len() == values.len() + 1,
        idxs.len() == values.len(),
        forall|k: int| 0 <= k < values.len() ==> !(#[trigger] states[k]).contains_key(idxs[k]),
        forall|k: int| 0 <= k < values.len() ==> #[trigger] states[k + 1] == states[k].insert(idxs[k], values[k]),
    ensures
        forall|k: int| 0 <= k < values.len() ==>
            states.last().contains_key(#[trigger] idxs[k]) && states.last()[idxs[k]] == values[k],
    decreases values.len(),
{
    let n = values.len() as int;
    if n > 0 {
        let s = states.take(n);
        let v = values.take(n - 1);
        let x = idxs.take(n - 1);
        assert forall|k: int| 0 <= k < v.len() implies #[trigger] s[k + 1] == s[k].insert(x[k], v[k]) by {
            assert(states[k + 1] == states[k].insert(idxs[k], values[k]));
        }
        assert forall|k: int| 0 <= k < v.len() implies !(#[trigger] s[k]).contains_key(x[k]) by {
            assert(!states[k].contains_key(idxs[k]));
        }
        lemma_round_trip(s, v, x);
        assert(s.last() == states[n - 1]);
        assert(states.last() == states[n - 1].insert(idxs[n - 1], values[n - 1]));
        assert forall|k: int| 0 <= k < n implies
            states.last().contains_key(#[trigger] idxs[k]) && states.last()[idxs[k]] == values[k] by {
            if k < n - 1 {
                assert(x[k] == idxs[k]);
                assert(s.last().contains_key(x[k]) && s.last()[x[k]] == v[k]);
            }
        }
    }
}

/// In a consistent arena a walk visits exactly the live indices, each once.
pub proof fn lemma_walk_is_live<T>(a: IndexedArena<T>)
    requires
        a.wf(),
    ensures
        a@.dom().finite(),
        a.order().no_duplicates(),
        forall|i: Idx| #[trigger] a.order().contains(i) <==> a@.contains_key(i),
{
}

/// An index whose entry was removed is never live again: a lookup through it
/// fails, whatever has been stored in its slot since.
pub proof fn lemma_retired_not_live<T>(a: IndexedArena<T>, i: Idx)
    requires
        a.wf(),
        a.retired().contains(i),
    ensures
        !a@.contains_key(i),
{
}

} // verus!
