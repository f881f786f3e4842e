//! The pseudo-random source used for initial placement and animation
//! offsets.  Nothing is assumed of the values drawn: every caller is
//! verified for every outcome, and range reduction happens in verified code.

use vstd::prelude::*;

verus! {

/// Relies on quad_rand::rand (the generator macroquad re-exports as its
/// `rand` module): one draw from the global generator.  No claim is made
/// about the value; any `u32` may come back, and two calls may differ.
pub assume_specification[ quad_rand::rand ]() -> u32;

/// One uniform-ish draw reduced into `[low, high)`.
pub fn gen_range_u32(low: u32, high: u32) -> (r: u32)
    requires
        low < high,
    ensures
        low <= r < high,
{
    let span: u32 = high - low;
    low + quad_rand::rand() % span
}

} // verus!
