use vstd::prelude::*;

pub mod bulk;
pub mod payload;
pub mod wire;
pub mod manifest;
pub mod extents;
pub mod writer;
pub mod cmd;
pub mod coord;
pub mod laws;
pub mod compress;
pub mod errors;
pub mod hashing;

verus! {

/// Smallest block-size the manifest may declare.
pub const MIN_BLOCK_SIZE: u32 = 512;

/// Largest block-size the manifest may declare (16 MiB).
pub const MAX_BLOCK_SIZE: u32 = 16777216;

/// A `block_size` is legal when it lies in the documented range and is a power of two.
pub open spec fn valid_block_size(bs: u32) -> bool {
    MIN_BLOCK_SIZE <= bs <= MAX_BLOCK_SIZE && ((bs as u64) & (((bs as u64) - 1) as u64)) == 0
}

/// Checks the manifest's block-size: in [512, 16 MiB] and a power of two.
pub fn check_block_size(bs: u32) -> (r: bool)
    ensures
        r == valid_block_size(bs),
{
    if bs < MIN_BLOCK_SIZE || bs > MAX_BLOCK_SIZE {
        return false;
    }
    let b = bs as u64;
    let masked = b & (b - 1);
    masked == 0
}

} // verus!
