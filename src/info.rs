//! The storage footprint of an item, as the module describes it to metadata.

use vstd::prelude::*;

verus! {

/// Where an item lives and how large it can grow.
#[derive(Clone, Debug, PartialEq, Eq)]
pub struct StorageInfo {
    pub pallet_name: Vec<u8>,
    pub storage_name: Vec<u8>,
    /// The item prefix.
    pub prefix: Vec<u8>,
    /// The most entries it can have; `None` when unbounded.
    pub max_values: Option<u32>,
    /// The most bytes one entry (key and value) can take; `None` when unbounded.
    pub max_size: Option<u32>,
}

/// `n`, or `u32::MAX` when it does not fit.
pub open spec fn saturate(n: nat) -> nat {
    if n > u32::MAX {
        u32::MAX as nat
    } else {
        n
    }
}

} // verus!
