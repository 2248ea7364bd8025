use vstd::prelude::*;

verus! {

/// The errors that the entity-component store reports. All of them are
/// recoverable: no operation of this library panics.
#[derive(Clone, Copy, Debug, PartialEq, Eq, Structural)]
pub enum EcsError {
    /// A component type was named that was never registered.
    TypeNotRegistered,
    /// A component was attached before any entity existed.
    NoEntityCreated,
    /// The membership bitmask has no bit left for another component type.
    TooManyComponentTypes,
}

} // verus!
