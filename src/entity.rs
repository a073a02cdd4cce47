//! Entity handles: a slot id and a generation.
use vstd::prelude::*;

use crate::sparse_set::{InvalidKeyError, InvalidKeyErrorKind, Key};

verus! {

/// A handle to a bundle of components. `id` addresses the entity's slot in
/// every pool; `version` is the generation of that slot.
#[derive(Debug, Clone, Copy, PartialEq, Eq, Structural)]
pub struct Entity {
    id: u64,
    version: u64,
}

impl Entity {
    pub closed spec fn spec_id(&self) -> u64 {
        self.id
    }

    pub closed spec fn spec_version(&self) -> u64 {
        self.version
    }

    pub fn new(id: u64, version: u64) -> (r: Self)
        ensures
            r.spec_id() == id,
            r.spec_version() == version,
    {
        Self { id, version }
    }

    pub fn id(&self) -> (r: u64)
        ensures
            r == self.spec_id(),
    {
        self.id
    }

    pub fn version(&self) -> (r: u64)
        ensures
            r == self.spec_version(),
    {
        self.version
    }
}

/// An entity addresses its slot by id alone; the version plays no part.
impl Key for Entity {
    open spec fn key_index(self) -> nat {
        self.spec_id() as nat
    }

    fn into_usize(self) -> (r: Result<usize, InvalidKeyError<Self>>) {
        let id = self.id();
        if id as u128 <= usize::MAX as u128 {
            Ok(id as usize)
        } else {
            Err(InvalidKeyError { kind: InvalidKeyErrorKind::KeyCantBeCastToUsize })
        }
    }
}

} // verus!
