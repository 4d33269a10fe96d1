//! Typed dense identifiers and append-only id maps.
//!
//! An `Id<T>` names one entity of category `T` inside one `IdMap<T>`. Ids are
//! minted by an `IdMapBuilder<T>`: `add` hands out the index the value will
//! occupy once the builder is frozen by `build`, so ids observed during
//! assembly stay valid in the finished map.

use vstd::prelude::*;

verus! {

/// A dense integer identifier tagged with the entity category it names.
pub struct Id<T> {
    pub index: usize,
    pub tag: core::marker::PhantomData<T>,
}

impl<T> Id<T> {
    pub fn new(index: usize) -> (r: Id<T>)
        ensures
            r.index == index,
    {
        Id { index, tag: core::marker::PhantomData }
    }
}

impl<T> Clone for Id<T> {
    fn clone(&self) -> (r: Self)
        ensures
            r == *self,
    {
        Id { index: self.index, tag: core::marker::PhantomData }
    }
}

impl<T> Copy for Id<T> {

}

/// An immutable map from dense ids to values; ids are exactly `0 .. len`.
pub struct IdMap<T> {
    pub values: Vec<T>,
}

impl<T> View for IdMap<T> {
    type V = Seq<T>;

    open spec fn view(&self) -> Seq<T> {
        self.values@
    }
}

impl<T> IdMap<T> {
    /// An id resolves exactly when its index lies below the map's length.
    pub open spec fn contains_id(self, id: Id<T>) -> bool {
        id.index < self@.len()
    }

    /// The value an id resolves to, if any.
    pub open spec fn spec_get(self, id: Id<T>) -> Option<T> {
        if id.index < self@.len() {
            Some(self@[id.index as int])
        } else {
            None
        }
    }

    pub fn get(&self, id: Id<T>) -> (r: Option<&T>)
        ensures
            match r {
                Some(v) => self.spec_get(id) == Some(*v),
                None => self.spec_get(id) is None,
            },
    {
        if id.index < self.values.len() {
            Some(&self.values[id.index])
        } else {
            None
        }
    }

    pub fn len(&self) -> (n: usize)
        ensures
            n == self@.len(),
    {
        self.values.len()
    }

    /// Every id of the map, in ascending order.
    pub fn ids(&self) -> (r: Vec<Id<T>>)
        ensures
            r@.len() == self@.len(),
            forall|i: int| 0 <= i < r@.len() ==> (#[trigger] r@[i]).index == i,
    {
        let mut r: Vec<Id<T>> = Vec::new();
        let mut k: usize = 0;
        while k < self.values.len()
            invariant
                k <= self@.len(),
                r@.len() == k,
                forall|i: int| 0 <= i < k ==> (#[trigger] r@[i]).index == i,
            decreases self@.len() - k,
        {
            r.push(Id { index: k, tag: core::marker::PhantomData });
            k = k + 1;
        }
        r
    }
}

/// Append-only builder for an `IdMap`.
pub struct IdMapBuilder<T> {
    pub values: Vec<T>,
}

impl<T> View for IdMapBuilder<T> {
    type V = Seq<T>;

    open spec fn view(&self) -> Seq<T> {
        self.values@
    }
}

impl<T> IdMapBuilder<T> {
    pub fn new() -> (r: IdMapBuilder<T>)
        ensures
            r@ == Seq::<T>::empty(),
    {
        IdMapBuilder { values: Vec::new() }
    }

    /// Records `v` and returns the id it will carry in the finished map.
    pub fn add(&mut self, v: T) -> (id: Id<T>)
        ensures
            final(self)@ == old(self)@.push(v),
            id.index == old(self)@.len(),
    {
        let index = self.values.len();
        self.values.push(v);
        Id { index, tag: core::marker::PhantomData }
    }

    pub fn len(&self) -> (n: usize)
        ensures
            n == self@.len(),
    {
        self.values.len()
    }

    /// Freezes the builder; values keep the indices `add` handed out.
    pub fn build(self) -> (m: IdMap<T>)
        ensures
            m@ == self@,
    {
        IdMap { values: self.values }
    }
}

/// Copies a vector of ids.
pub fn copy_ids<T>(v: &Vec<Id<T>>) -> (r: Vec<Id<T>>)
    ensures
        r@ == v@,
{
    let mut r: Vec<Id<T>> = Vec::new();
    let mut i: usize = 0;
    while i < v.len()
        invariant
            i <= v@.len(),
            r@ == v@.subrange(0, i as int),
        decreases v@.len() - i,
    {
        r.push(v[i]);
        proof {
            assert(r@ =~= v@.subrange(0, i + 1));
        }
        i = i + 1;
    }
    proof {
        assert(r@ =~= v@);
    }
    r
}

/// A finished map answers `get` with exactly the values the builder observed:
/// the value added at position `k` resolves under id `k`, and the ids that
/// resolve are exactly `0 .. len`.
pub proof fn lemma_built_map_reflects_builder<T>(observed: Seq<T>, m: IdMap<T>)
    requires
        m@ == observed,
    ensures
        forall|k: usize| k < observed.len() ==> m.spec_get(Id { index: k, tag: core::marker::PhantomData })
            == Some(observed[k as int]),
        forall|id: Id<T>| m.contains_id(id) <==> id.index < observed.len(),
{
}

} // verus!
