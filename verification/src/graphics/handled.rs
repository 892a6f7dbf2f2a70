//! Objects stored by the index of their handle.
use vstd::prelude::*;
use crate::handle::Handle;

verus! {

/// Objects stored in the slot named by the index of their handle. The version
/// of a handle is not checked.
pub struct HandledObjects<T>(Vec<Option<T>>);

impl<T> HandledObjects<T> {
    /// The stored objects, by slot index.
    pub closed spec fn objects(&self) -> Map<int, T> {
        Map::new(|i: int| 0 <= i < self.0@.len() && self.0@[i] is Some, |i: int| self.0@[i]->0)
    }

    pub fn new() -> (r: Self)
        ensures
            r.objects() == Map::<int, T>::empty(),
    {
        let r = HandledObjects(Vec::new());
        assert(r.objects() =~= Map::<int, T>::empty());
        r
    }

    /// Stores `value` in the slot of `handle`, replacing what it held.
    pub fn insert(&mut self, handle: Handle, value: T)
        ensures
            final(self).objects() == old(self).objects().insert(handle.index as int, value),
    {
        let index = handle.index() as usize;
        while self.0.len() <= index
            invariant
                self.objects() == old(self).objects(),
            decreases index + 1 - self.0.len(),
        {
            let ghost before = self.objects();
            self.0.push(None);
            assert(self.objects() =~= before);
        }
        let ghost before = self.objects();
        self.0.set(index, Some(value));
        assert(self.objects() =~= before.insert(index as int, value));
    }

    /// Empties the slot of `handle`.
    pub fn remove(&mut self, handle: Handle)
        ensures
            final(self).objects() == old(self).objects().remove(handle.index as int),
    {
        let index = handle.index() as usize;
        if self.0.len() > index {
            self.0.set(index, None);
        }
        assert(self.objects() =~= old(self).objects().remove(index as int));
    }

    /// The object in the slot of `handle`, if any.
    pub fn get(&self, handle: Handle) -> (r: Option<&T>)
        ensures
            match r {
                Some(v) => self.objects().contains_key(handle.index as int) && *v == self.objects()[handle.index as int],
                None => !self.objects().contains_key(handle.index as int),
            },
    {
        let index = handle.index() as usize;
        if index < self.0.len() {
            match &self.0[index] {
                Some(v) => Some(v),
                None => None,
            }
        } else {
            None
        }
    }
}

} // verus!
