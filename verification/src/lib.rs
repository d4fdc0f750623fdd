pub mod coordinator;
pub mod corpus;
pub mod json;
pub mod mutator;
pub mod replay;
pub mod rng;
pub mod stats;
pub mod vm;
pub mod worker;

use vstd::prelude::*;

verus! {

/// One argument value for the virtual machine: an element of the VM's
/// finite field, carried as four 64-bit limbs in big-endian limb order.
#[derive(Clone, Copy, PartialEq, Eq, Hash, Structural, Debug)]
pub struct Felt {
    pub d3: u64,
    pub d2: u64,
    pub d1: u64,
    pub d0: u64,
}

impl Felt {
    /// The field element with the given 64-bit value.
    pub fn from_u64(v: u64) -> (r: Felt)
        ensures
            r == (Felt { d3: 0, d2: 0, d1: 0, d0: v }),
    {
        Felt { d3: 0, d2: 0, d1: 0, d0: v }
    }

    /// The field element with the value of one byte.
    pub fn from_byte(b: u8) -> (r: Felt)
        ensures
            r == (Felt { d3: 0, d2: 0, d1: 0, d0: b as u64 }),
    {
        Felt { d3: 0, d2: 0, d1: 0, d0: b as u64 }
    }

    /// The zero element.
    pub fn zero() -> (r: Felt)
        ensures
            r == (Felt { d3: 0, d2: 0, d1: 0, d0: 0 }),
    {
        Felt { d3: 0, d2: 0, d1: 0, d0: 0 }
    }
}

} // verus!
