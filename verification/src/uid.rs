//! The opaque 128-bit identifier that names customers, files and sharing
//! links. Only equality of the underlying value matters to the logic.
use vstd::prelude::*;

verus! {

#[derive(Clone, Copy, Debug, Hash, PartialEq, Eq, Structural)]
pub struct Uuid {
    pub value: u128,
}

impl Uuid {
    pub fn from_u128(value: u128) -> (r: Uuid)
        ensures
            r.value == value,
    {
        Uuid { value }
    }

    pub fn as_u128(&self) -> (r: u128)
        ensures
            r == self.value,
    {
        self.value
    }
}

impl Default for Uuid {
    /// The nil identifier.
    fn default() -> (r: Uuid)
        ensures
            r.value == 0,
    {
        Uuid { value: 0 }
    }
}

} // verus!
