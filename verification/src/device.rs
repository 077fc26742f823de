//! Device and element-kind tags.

use vstd::prelude::*;

verus! {

/// The device a tensor's storage lives on.
#[derive(Clone, Copy, Debug, PartialEq, Eq, Structural)]
pub enum Device {
    Cpu,
    Cuda(u64),
}

/// The element kind of a tensor.  Elements are modelled as `i64` values
/// whatever the kind; the kind records what an engine would store and decides
/// which tensors are accepted as index tensors.
#[derive(Clone, Copy, Debug, PartialEq, Eq, Structural)]
pub enum Kind {
    Bool,
    Int8,
    Int16,
    Int,
    Int64,
    Float,
    Double,
}

impl Kind {
    /// The signed-integer kinds accepted for gather-style index tensors.
    pub open spec fn spec_is_index_kind(self) -> bool {
        self == Kind::Int64 || self == Kind::Int16 || self == Kind::Int8 || self == Kind::Int
    }

    pub fn is_index_kind(self) -> (r: bool)
        ensures
            r == self.spec_is_index_kind(),
    {
        match self {
            Kind::Int64 => true,
            Kind::Int16 => true,
            Kind::Int8 => true,
            Kind::Int => true,
            _ => false,
        }
    }
}

} // verus!
