//! Sizes in bytes.

use vstd::prelude::*;

verus! {

/// A binary kilobyte.
pub const BYTES_PER_KIB: usize = 1024;

/// A decimal gigabyte.
pub const BYTES_PER_GB: u64 = 1_000_000_000;

} // verus!
