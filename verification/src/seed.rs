use crate::coords::Point;
use vstd::prelude::*;

verus! {

/// The seed of the chunk at `cg` for the world seed `seed`: the chunk's coordinates, shifted by `i32::MAX` to be
/// non-negative, go to the upper and lower half of the seed, and the world seed is added to the lower half.
pub open spec fn spec_calculate_seed(cg: Point, seed: u32) -> u64 {
    let adjusted_x = (cg.x + 0x7fff_ffff) as u64;
    let adjusted_y = (cg.y + 0x7fff_ffff) as u64;
    (adjusted_x << 32u64) ^ ((adjusted_y + seed) as u64)
}

/// Returns the seed of the chunk at `cg` for the world seed `seed` (see [`spec_calculate_seed`]).
pub fn calculate_seed(cg: Point, seed: u32) -> (chunk_seed: u64)
    requires
        !(cg.y == i32::MIN && seed > 0),
    ensures
        chunk_seed == spec_calculate_seed(cg, seed),
{
    let adjusted_x = cg.x as i64 + 0x7fff_ffff;
    let adjusted_y = cg.y as i64 + 0x7fff_ffff;
    let high = adjusted_x as u64;
    let low = adjusted_y as u64;
    proof {
        assert(cg.y != i32::MIN ==> low < 0x1_0000_0000);
    }
    (high << 32u64) ^ (low + seed as u64)
}

} // verus!
