//! Versioned handles: an index into some storage plus the generation of the
//! object that occupied it.
use vstd::prelude::*;

verus! {

/// The index part of a `Handle`.
pub type HandleIndex = u32;

/// A versioned index that names an object in a pool.
#[derive(Debug, Clone, Copy, PartialEq, Eq, Hash, Structural)]
pub struct Handle {
    pub index: HandleIndex,
    pub version: HandleIndex,
}

impl Handle {
    /// Builds the handle of slot `index` at generation `version`.
    pub fn new(index: HandleIndex, version: HandleIndex) -> (r: Self)
        ensures
            r.index == index,
            r.version == version,
    {
        Handle { index, version }
    }

    /// The slot this handle names.
    pub fn index(&self) -> (r: HandleIndex)
        ensures
            r == self.index,
    {
        self.index
    }

    /// The generation of the slot this handle names.
    pub fn version(&self) -> (r: HandleIndex)
        ensures
            r == self.version,
    {
        self.version
    }
}

} // verus!
