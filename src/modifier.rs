//! Plain modifier records: a resource, how a value combines with it, and the value.
use vstd::prelude::*;

verus! {

/// A resource that a modifier acts on.
#[derive(Clone, Copy, Debug, Default, PartialEq, Eq, Structural)]
pub enum Resource {
    #[default]
    Money,
    Popularity,
}

/// How a modifier's value combines with the resource.
#[derive(Clone, Copy, Debug, Default, PartialEq, Eq, Structural)]
pub enum ModType {
    /// v = n
    Setter,
    /// v += n
    #[default]
    Constant,
    /// v *= n
    Multiplier,
}

/// A modifier with its value in fixed point (see `fixed::ONE`).
#[derive(Clone, Copy, Debug, Default, PartialEq, Eq, Structural)]
pub struct Modifier {
    pub mod_type: ModType,
    pub resource: Resource,
    pub value: i64,
}

} // verus!
