//! The component capability.
use vstd::prelude::*;

verus! {

/// The identity of a component type: the key of its pool in a world.
pub type ComponentType = u64;

/// A value that can be attached to an entity. The set of component types is
/// closed: a world stores values of one type `V`, and each value reports
/// which component type it belongs to, so that it lands in that type's pool.
pub trait Component {
    /// The component type of this value.
    fn component_type(&self) -> ComponentType;
}

} // verus!
