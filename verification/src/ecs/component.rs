//! Abstract `Component` trait and some common storage strategies.
use vstd::prelude::*;
use std::collections::HashMap;
use super::bitset::DynamicBitSet;
use crate::handle::HandleIndex;

verus! {

broadcast use vstd::std_specs::hash::group_hash_axioms;

/// Abstract component trait with associated storage type.
pub trait Component: Sized {
    type Arena: Arena<Self>;
}

/// Traits used to implement a standard/basic storage for components. Choose
/// your components storage layout and strategy by declaring different `Arena`
/// with corresponding component.
pub trait Arena<T> {
    /// The components held, by the index of their entity.
    spec fn values(&self) -> Map<HandleIndex, T>;

    /// The storage's own bookkeeping is consistent.
    spec fn arena_wf(&self) -> bool;

    /// A component for entity `id` can be stored (some storages are bounded by
    /// what the machine can address).
    spec fn fits(id: HandleIndex) -> bool;

    /// Gets a reference to the value corresponding to the `HandleIndex`.
    fn get(&self, id: HandleIndex) -> (r: Option<&T>)
        requires
            self.arena_wf(),
        ensures
            r == (if self.values().contains_key(id) {
                Some(&self.values()[id])
            } else {
                None
            }),
    ;

    /// Gets a reference to the value at the `HandleIndex`, which must be held.
    fn get_unchecked(&self, id: HandleIndex) -> (r: &T)
        requires
            self.arena_wf(),
            self.values().contains_key(id),
        ensures
            *r == self.values()[id],
    ;

    /// Gets a mutable reference to the value corresponding to the `HandleIndex`.
    fn get_mut(&mut self, id: HandleIndex) -> (r: Option<&mut T>)
        requires
            old(self).arena_wf(),
        ensures
            final(self).arena_wf(),
            !old(self).values().contains_key(id) ==> r is None && final(self).values() == old(
                self,
            ).values(),
            old(self).values().contains_key(id) ==> r is Some && *r.unwrap() == old(self).values()[id]
                && final(self).values() == old(self).values().insert(id, *final(r.unwrap())),
    ;

    /// Gets a mutable reference to the value at the `HandleIndex`, which must be held.
    fn get_unchecked_mut(&mut self, id: HandleIndex) -> (r: &mut T)
        requires
            old(self).arena_wf(),
            old(self).values().contains_key(id),
        ensures
            final(self).arena_wf(),
            *r == old(self).values()[id],
            final(self).values() == old(self).values().insert(id, *final(r)),
    ;

    /// Inserts new data for a given `HandleIndex`, returning the data it held before.
    fn insert(&mut self, id: HandleIndex, v: T) -> (r: Option<T>)
        requires
            old(self).arena_wf(),
            Self::fits(id),
        ensures
            final(self).arena_wf(),
            final(self).values() == old(self).values().insert(id, v),
            r == (if old(self).values().contains_key(id) {
                Some(old(self).values()[id])
            } else {
                None
            }),
    ;

    /// Removes and returns the data associated with an `HandleIndex`.
    fn remove(&mut self, id: HandleIndex) -> (r: Option<T>)
        requires
            old(self).arena_wf(),
        ensures
            final(self).arena_wf(),
            final(self).values() == old(self).values().remove(id),
            r == (if old(self).values().contains_key(id) {
                Some(old(self).values()[id])
            } else {
                None
            }),
    ;
}

/// `HashMap::get_mut`: a mutable reference to the value of `k`, if there is
/// one; what is written through it becomes the value of `k`, and the other
/// entries stay as they are.
#[verifier::external_body]
fn map_get_mut<'a, T>(m: &'a mut HashMap<HandleIndex, T>, k: HandleIndex) -> (r: Option<&'a mut T>)
    ensures
        !old(m)@.contains_key(k) ==> r is None && final(m)@ == old(m)@,
        old(m)@.contains_key(k) ==> r is Some && *r.unwrap() == old(m)@[k] && final(m)@ == old(
            m,
        )@.insert(k, *final(r.unwrap())),
{
    m.get_mut(&k)
}

/// `HashMap` based storage which are best suited for rare components.
pub struct HashMapArena<T> {
    values: HashMap<HandleIndex, T>,
}

impl<T> HashMapArena<T> {
    pub fn new() -> (r: Self)
        ensures
            r.values() == Map::<HandleIndex, T>::empty(),
    {
        HashMapArena { values: HashMap::new() }
    }
}

impl<T> Default for HashMapArena<T> {
    fn default() -> (r: Self)
        ensures
            r.values() == Map::<HandleIndex, T>::empty(),
    {
        Self::new()
    }
}

impl<T> Arena<T> for HashMapArena<T> {
    closed spec fn values(&self) -> Map<HandleIndex, T> {
        self.values@
    }

    closed spec fn arena_wf(&self) -> bool {
        true
    }

    open spec fn fits(id: HandleIndex) -> bool {
        true
    }

    fn get(&self, id: HandleIndex) -> (r: Option<&T>) {
        self.values.get(&id)
    }

    fn get_unchecked(&self, id: HandleIndex) -> (r: &T) {
        self.values.get(&id).unwrap()
    }

    fn get_mut(&mut self, id: HandleIndex) -> (r: Option<&mut T>) {
        map_get_mut(&mut self.values, id)
    }

    fn get_unchecked_mut(&mut self, id: HandleIndex) -> (r: &mut T) {
        map_get_mut(&mut self.values, id).unwrap()
    }

    fn insert(&mut self, id: HandleIndex, v: T) -> (r: Option<T>) {
        self.values.insert(id, v)
    }

    fn remove(&mut self, id: HandleIndex) -> (r: Option<T>) {
        self.values.remove(&id)
    }
}

/// Vec based storage, supposed to have maximum performance for the components
/// mostly present in entities. The mask marks the occupied places.
pub struct VecArena<T> {
    mask: DynamicBitSet,
    values: Vec<Option<T>>,
}

impl<T> VecArena<T> {
    pub fn new() -> (r: Self)
        ensures
            r.arena_wf(),
            r.values() == Map::<HandleIndex, T>::empty(),
    {
        let r = VecArena { mask: DynamicBitSet::new(), values: Vec::new() };
        assert(r.values() =~= Map::<HandleIndex, T>::empty());
        r
    }

    /// The mask marks exactly the occupied places.
    pub closed spec fn mask_matches(&self) -> bool {
        forall|i: int| #[trigger]
            self.mask@.contains(i) <==> (0 <= i < self.values@.len() && self.values@[i] is Some)
    }
}

impl<T> Default for VecArena<T> {
    fn default() -> (r: Self)
        ensures
            r.arena_wf(),
            r.values() == Map::<HandleIndex, T>::empty(),
    {
        Self::new()
    }
}

impl<T> Arena<T> for VecArena<T> {
    closed spec fn values(&self) -> Map<HandleIndex, T> {
        Map::new(
            |i: HandleIndex| (i as int) < self.values@.len() && self.values@[i as int] is Some,
            |i: HandleIndex| self.values@[i as int].unwrap(),
        )
    }

    closed spec fn arena_wf(&self) -> bool {
        &&& self.mask.wf()
        &&& self.mask_matches()
    }

    open spec fn fits(id: HandleIndex) -> bool {
        id as int <= usize::MAX - 64
    }

    fn get(&self, id: HandleIndex) -> (r: Option<&T>) {
        let i = id as usize;
        if self.mask.contains(i) {
            self.values[i].as_ref()
        } else {
            None
        }
    }

    fn get_unchecked(&self, id: HandleIndex) -> (r: &T) {
        let i = id as usize;
        assert(self.mask@.contains(i as int));
        self.values[i].as_ref().unwrap()
    }

    fn get_mut(&mut self, id: HandleIndex) -> (r: Option<&mut T>) {
        let i = id as usize;
        if self.mask.contains(i) {
            let r = match &mut self.values[i] {
                Some(x) => Some(x),
                None => None,
            };
            r
        } else {
            None
        }
    }

    fn get_unchecked_mut(&mut self, id: HandleIndex) -> (r: &mut T) {
        self.get_mut(id).unwrap()
    }

    fn insert(&mut self, id: HandleIndex, v: T) -> (r: Option<T>) {
        let i = id as usize;
        while self.values.len() <= i
            invariant
                self.mask.wf(),
                self.mask_matches(),
                self.values() == old(self).values(),
                self.mask@ == old(self).mask@,
            decreases i + 1 - self.values.len(),
        {
            let ghost before = self.values();
            self.values.push(None);
            assert(self.values() =~= before);
        }
        let mut slot = Some(v);
        std::mem::swap(&mut self.values[i], &mut slot);
        if !self.mask.contains(i) {
            self.mask.insert(i);
        }
        assert(self.values() =~= old(self).values().insert(id, v));
        slot
    }

    fn remove(&mut self, id: HandleIndex) -> (r: Option<T>) {
        let i = id as usize;
        if self.mask.contains(i) {
            self.mask.remove(i);
            let mut slot = None;
            std::mem::swap(&mut self.values[i], &mut slot);
            assert(self.values() =~= old(self).values().remove(id));
            slot
        } else {
            assert(self.values() =~= old(self).values().remove(id));
            None
        }
    }
}

/// What is inserted is read back: after `insert(id, v)` the storage holds `v`
/// for `id`, and a following `remove(id)` gives the storage back as it was
/// before the insert when `id` was not held then.
pub proof fn law_insert_read_back<T, A: Arena<T>>(before: &A, inserted: &A, removed: &A, id: HandleIndex, v: T)
    requires
        inserted.values() == before.values().insert(id, v),
        removed.values() == inserted.values().remove(id),
    ensures
        inserted.values().contains_key(id),
        inserted.values()[id] == v,
        !removed.values().contains_key(id),
        !before.values().contains_key(id) ==> removed.values() == before.values(),
        forall|k: HandleIndex| k != id ==> (#[trigger] removed.values().contains_key(k) == before.values().contains_key(k)),
{
    if !before.values().contains_key(id) {
        assert(removed.values() =~= before.values());
    }
}

} // verus!
