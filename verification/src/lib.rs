//! A region-based bump allocator: a fixed byte region from which aligned
//! byte ranges are carved out front to back and released only all at once.
//!
//! `region` holds the backing bytes, `align` the arithmetic on addresses,
//! `arena` the allocator and its model, and `laws` what follows for every
//! arena. `elf` checks the fixed fields of an ELF header, for programs that
//! load such a header into memory of their own.

use vstd::prelude::*;

pub mod align;
pub mod arena;
pub mod elf;
pub mod laws;
pub mod region;

pub use arena::{AllocError, Allocation, Arena};
pub use region::{OutOfMemory, RegionStorage};

verus! {

/// Bytes in a kibibyte.
pub const KB: usize = 1024;

/// Bytes in a mebibyte.
pub const MB: usize = 1024 * KB;

} // verus!
