use vstd::prelude::*;
use crate::sampler::word;

verus! {

/// The hash that picks a parquet plank's tone from its column and its index
/// along the column: both are read as 64-bit words, multiplied by
/// 374761393 and 668265263, combined by xor, then mixed by `h ^ (h >> 13)`
/// and a multiplication by 1274126177, all modulo 2^64.
pub open spec fn plank_hash(col: i64, pidx: i64) -> u64 {
    let a = ((col as u64) * 374761393int % word()) as u64;
    let b = ((pidx as u64) * 668265263int % word()) as u64;
    let h = a ^ b;
    (((h ^ (h >> 13u64)) * 1274126177int) % word()) as u64
}

/// The tone of the plank at (`col`, `pidx`), one of 1000 steps: the plank
/// hash modulo 1000.
pub fn plank_shade(col: i64, pidx: i64) -> (shade: u64)
    ensures
        shade == plank_hash(col, pidx) % 1000,
        shade < 1000,
{
    let mut h = (col as u64).wrapping_mul(374761393) ^ (pidx as u64).wrapping_mul(668265263);
    h = (h ^ (h >> 13)).wrapping_mul(1274126177);
    h % 1000
}

} // verus!
