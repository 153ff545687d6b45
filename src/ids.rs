//! Opaque entity handles. Window ids and client ids are distinct types, so
//! one can never stand where the other is expected.

use vstd::prelude::*;

verus! {

/// Handle of a window (a surface or subsurface) in the property store.
#[derive(Clone, Copy, Debug, PartialEq, Eq, Structural, Hash)]
pub struct WindowId {
    pub id: usize,
}

/// Handle of a client (a connected application) in the property store.
#[derive(Clone, Copy, Debug, PartialEq, Eq, Structural, Hash)]
pub struct ClientId {
    pub id: usize,
}

impl WindowId {
    /// The slot index this id occupies in the store.
    pub open spec fn index(self) -> nat {
        self.id as nat
    }

    /// The raw slot index, for logging and for building protocol object ids.
    pub fn get_raw_id(&self) -> (r: usize)
        ensures
            r == self.id,
    {
        self.id
    }
}

impl ClientId {
    /// The slot index this id occupies in the store.
    pub open spec fn index(self) -> nat {
        self.id as nat
    }

    /// The raw slot index, for logging and for building protocol object ids.
    pub fn get_raw_id(&self) -> (r: usize)
        ensures
            r == self.id,
    {
        self.id
    }
}

} // verus!
