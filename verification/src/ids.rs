use vstd::prelude::*;

verus! {

/// A fixed-width (256-bit) content identifier, held as four 64-bit words.
///
/// Identifiers are computed deterministically from a block's fields; the
/// all-zero value is reserved as the sentinel parent of the genesis block.
#[derive(Clone, Copy, Debug, PartialEq, Eq, Hash, Structural)]
pub struct Id {
    pub w0: u64,
    pub w1: u64,
    pub w2: u64,
    pub w3: u64,
}

impl Id {
    /// The all-zero sentinel identifier.
    pub open spec fn spec_zero() -> Id {
        Id { w0: 0, w1: 0, w2: 0, w3: 0 }
    }

    /// The sentinel identifier used as the genesis block's parent.
    pub fn zero() -> (r: Id)
        ensures
            r == Id::spec_zero(),
    {
        Id { w0: 0, w1: 0, w2: 0, w3: 0 }
    }
}

} // verus!
