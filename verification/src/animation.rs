//! Timing for the cosmetic-animation collaborators: where an animation
//! starts within its cycle, and the repeating cycle position derived from
//! the elapsed time.  The animations themselves (colors, sizes, trails)
//! live outside the simulation core; they consume these values.

use vstd::prelude::*;
use crate::rng::gen_range_u32;

verus! {

/// The position within the animation cycle, next to the raw elapsed time.
pub struct AnimationTime {
    pub cycle_ms: u32,
    pub total_ms: u128,
}

/// Where an animation's offset into its cycle starts from.
pub enum StartAnimationAt {
    Zero,
    Random,
    RangeMs(u32, u32),
}

/// The starting offset an animation gets within a cycle of
/// `duration_ms`: zero, anywhere in the cycle, or within the given range.
pub fn start_offset_ms(start_at: &StartAnimationAt, duration_ms: u32) -> (offset: u32)
    requires
        0 < duration_ms,
        (match *start_at {
            StartAnimationAt::RangeMs(start, end) => start < end,
            _ => true,
        }),
    ensures
        (match *start_at {
            StartAnimationAt::Zero => offset == 0,
            StartAnimationAt::Random => offset < duration_ms,
            StartAnimationAt::RangeMs(start, end) => start <= offset < end,
        }),
{
    match start_at {
        StartAnimationAt::Zero => 0,
        StartAnimationAt::Random => gen_range_u32(0, duration_ms),
        StartAnimationAt::RangeMs(start, end) => gen_range_u32(*start, *end),
    }
}

/// The cycle position at `elapsed_ms` for an animation that starts
/// `offset_ms` into its cycle of `duration_ms`: the offset elapsed time
/// wrapped modulo the cycle length.
pub fn animation_time(elapsed_ms: u128, offset_ms: u32, duration_ms: u32) -> (t: AnimationTime)
    requires
        0 < duration_ms,
        elapsed_ms + offset_ms <= u128::MAX,
    ensures
        t.total_ms == elapsed_ms,
        t.cycle_ms as int == (elapsed_ms + offset_ms) % (duration_ms as int),
        t.cycle_ms < duration_ms,
{
    let shifted: u128 = elapsed_ms + offset_ms as u128;
    let cycle: u128 = shifted % (duration_ms as u128);
    proof {
        vstd::arithmetic::div_mod::lemma_mod_division_less_than_divisor(
            shifted as int, duration_ms as int);
    }
    AnimationTime { cycle_ms: cycle as u32, total_ms: elapsed_ms }
}

} // verus!
