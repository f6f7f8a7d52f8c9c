//! Integer hashing behind the value noise: the bit mixing that turns a
//! lattice point and seed into 32 pseudo-random bits.

use vstd::prelude::*;

verus! {

/// The hash bits of lattice point `(x, y)` under `seed`.
pub open spec fn spec_hash2_bits(x: i32, y: i32, seed: i32) -> u32 {
    let h = seed ^ x.wrapping_mul(374_761_393) ^ y.wrapping_mul(668_265_263);
    let m = ((h as u32) ^ ((h as u32) >> 13u32)).wrapping_mul(1_274_126_177);
    m ^ (m >> 16u32)
}

/// The hash bits of lattice point `(x, y, z)` under `seed`.
pub open spec fn spec_hash3_bits(x: i32, y: i32, z: i32, seed: i32) -> u32 {
    let h = seed ^ x.wrapping_mul(374_761_393) ^ y.wrapping_mul(668_265_263) ^ z.wrapping_mul(-2_048_144_777i32);
    let m = ((h as u32) ^ ((h as u32) >> 13u32)).wrapping_mul(1_274_126_177);
    m ^ (m >> 16u32)
}

/// Hashes `(x, y)` under `seed` into 32 pseudo-random bits; the unit-range
/// hash is these bits divided by `u32::MAX`.
pub fn hash2_bits(x: i32, y: i32, seed: i32) -> (r: u32)
    ensures
        r == spec_hash2_bits(x, y, seed),
{
    let h = seed ^ x.wrapping_mul(374_761_393) ^ y.wrapping_mul(668_265_263);
    let m = ((h as u32) ^ ((h as u32) >> 13u32)).wrapping_mul(1_274_126_177);
    m ^ (m >> 16u32)
}

/// Hashes `(x, y, z)` under `seed` into 32 pseudo-random bits; the
/// unit-range hash is these bits divided by `u32::MAX`.
pub fn hash3_bits(x: i32, y: i32, z: i32, seed: i32) -> (r: u32)
    ensures
        r == spec_hash3_bits(x, y, z, seed),
{
    let h = seed ^ x.wrapping_mul(374_761_393) ^ y.wrapping_mul(668_265_263) ^ z.wrapping_mul(-2_048_144_777i32);
    let m = ((h as u32) ^ ((h as u32) >> 13u32)).wrapping_mul(1_274_126_177);
    m ^ (m >> 16u32)
}

} // verus!
