//! The time-scheduled force pipeline: an ordered list of frame-windowed
//! velocity modifiers.  Each entry owns the half-open frame window that ends
//! at its `until_frame` and starts where the previous entry ended; the first
//! entry whose window contains the current frame is the one applied.
//!
//! The behaviours form a closed tagged variant: a static velocity delta, a
//! Newtonian force divided by the particle's mass, a velocity-capped
//! acceleration, and an inverse-square pull toward a (possibly moving)
//! point with a dead zone around the singularity.

use vstd::prelude::*;
use crate::math::{abs, div_tz, abs_i64, clamp_i64, div_toward_zero,
    lemma_abs_mul_bound, lemma_div_tz_bound, lemma_div_tz_decompose};
use crate::particle::{Particle, DIM_LIMIT, MASS_LIMIT, VEL_LIMIT,
    unchanged_but_velocity, vel_clamped};

verus! {

/// A point of the arena, as x and y coordinates.
#[derive(Clone, Copy, Debug, PartialEq, Eq, Structural)]
pub struct Point(pub i64, pub i64);

/// Largest magnitude a Newtonian force component may have.
pub const NEWTON_LIMIT: i64 = 0x10_0000 * 0x10_0000;

/// What a scheduled force does while its window is active.
#[derive(Clone, Copy, Debug, PartialEq, Eq, Structural)]
pub enum ForceType {
    /// A window in which nothing is applied.
    Idle,
    /// Unconditional velocity delta.
    Static { vx: i64, vy: i64 },
    /// Force divided by the particle's mass, added to the velocity.
    Newton { nx: i64, ny: i64 },
    /// Velocity delta added only while the velocity on that axis has not
    /// yet passed the signed cap.
    Accelerate { vx: i64, vy: i64, vx_max: i64, vy_max: i64 },
    /// Inverse-square attraction toward a point that slides from `start`
    /// to `end` over the window; suppressed inside the dead zone.
    Gravity { gravitation_force: i64, dead_zone: i64, mass: i64, start: Point, end: Point },
}

/// One schedule entry: its behaviour and the frame its window ends before.
#[derive(Clone, Copy, Debug, PartialEq, Eq, Structural)]
pub struct Force {
    pub until_frame: u32,
    pub force_type: ForceType,
}

/// Parameter ranges under which every application stays inside `i64`.
pub open spec fn valid_force_type(t: ForceType) -> bool {
    match t {
        ForceType::Idle => true,
        ForceType::Static { vx, vy } => abs(vx as int) <= VEL_LIMIT && abs(vy as int) <= VEL_LIMIT,
        ForceType::Newton { nx, ny } => abs(nx as int) <= NEWTON_LIMIT && abs(ny as int) <= NEWTON_LIMIT,
        ForceType::Accelerate { vx, vy, vx_max, vy_max } => {
            &&& abs(vx as int) <= VEL_LIMIT
            &&& abs(vy as int) <= VEL_LIMIT
            &&& abs(vx_max as int) <= VEL_LIMIT
            &&& abs(vy_max as int) <= VEL_LIMIT
        },
        ForceType::Gravity { gravitation_force, dead_zone, mass, start, end } => {
            &&& abs(gravitation_force as int) <= MASS_LIMIT
            &&& 1 <= dead_zone <= DIM_LIMIT
            &&& 1 <= mass <= MASS_LIMIT
            &&& abs(start.0 as int) <= DIM_LIMIT && abs(start.1 as int) <= DIM_LIMIT
            &&& abs(end.0 as int) <= DIM_LIMIT && abs(end.1 as int) <= DIM_LIMIT
        },
    }
}

/// A velocity after a capped acceleration step: the delta is added only
/// while the velocity moves in the delta's direction and has not passed the
/// cap; a delta against the current direction always applies, saturated.
pub open spec fn accelerated(v: int, dv: int, vmax: int) -> int {
    let new = v + dv;
    if 0 < dv && 0 <= v {
        if new <= vmax {
            new
        } else {
            v
        }
    } else if dv < 0 && v <= 0 {
        if vmax <= new {
            new
        } else {
            v
        }
    } else {
        vel_clamped(new)
    }
}

/// Where the gravity well sits at `frame` of the window `[from, until)`:
/// linear interpolation from `start` to `end`.
pub open spec fn gravity_point(start: Point, end: Point, frame: int, from: int, until: int) -> (int, int) {
    let dc = frame - from;
    let de = until - from;
    (
        start.0 + div_tz(dc * (end.0 - start.0), de),
        start.1 + div_tz(dc * (end.1 - start.1), de),
    )
}

/// The particle after an inverse-square pull toward `(px, py)`.  The force
/// magnitude is `g * well_mass * mass / d^2`, split over the axes by the
/// squared component shares; inside the dead zone nothing happens.
pub open spec fn gravity_applied(g: int, dead: int, well_mass: int, px: int, py: int, p: Particle) -> Particle {
    let cx = p.x + p.radius;
    let cy = p.y + p.radius;
    let xd = px - cx;
    let yd = py - cy;
    if abs(xd) < dead && abs(yd) < dead {
        p
    } else {
        let x2 = xd * xd;
        let y2 = yd * yd;
        let d2 = x2 + y2;
        let top = g * well_mass * p.mass;
        let force = div_tz(top, d2);
        let vx_add = div_tz(div_tz(force * x2, d2), p.mass as int);
        let vy_add = div_tz(div_tz(force * y2, d2), p.mass as int);
        let nvx = if 0 < xd {
            p.vx + vx_add
        } else if xd < 0 {
            p.vx - vx_add
        } else {
            p.vx as int
        };
        let nvy = if 0 < yd {
            p.vy + vy_add
        } else if yd < 0 {
            p.vy - vy_add
        } else {
            p.vy as int
        };
        Particle { vx: vel_clamped(nvx) as i64, vy: vel_clamped(nvy) as i64, ..p }
    }
}

/// The particle after one force application at `frame`, whose window is
/// `[from, until)`.  Only the velocity changes, saturated at `VEL_LIMIT`.
pub open spec fn applied_force(t: ForceType, p: Particle, frame: int, from: int, until: int) -> Particle {
    match t {
        ForceType::Idle => p,
        ForceType::Static { vx, vy } => (Particle {
            vx: vel_clamped(p.vx + vx) as i64,
            vy: vel_clamped(p.vy + vy) as i64,
            ..p
        }),
        ForceType::Newton { nx, ny } => (Particle {
            vx: vel_clamped(p.vx + div_tz(nx as int, p.mass as int)) as i64,
            vy: vel_clamped(p.vy + div_tz(ny as int, p.mass as int)) as i64,
            ..p
        }),
        ForceType::Accelerate { vx, vy, vx_max, vy_max } => (Particle {
            vx: accelerated(p.vx as int, vx as int, vx_max as int) as i64,
            vy: accelerated(p.vy as int, vy as int, vy_max as int) as i64,
            ..p
        }),
        ForceType::Gravity { gravitation_force, dead_zone, mass, start, end } => {
            let (px, py) = gravity_point(start, end, frame, from, until);
            gravity_applied(gravitation_force as int, dead_zone as int, mass as int, px, py, p)
        },
    }
}

impl Force {
    /// Apply this force to the particle for the current `frame`, given that
    /// its window `[from_frame, until_frame)` is active.
    pub fn apply(&self, particle: &mut Particle, frame: u32, from_frame: u32)
        requires
            valid_force_type(self.force_type),
            old(particle).wf(),
            0 <= old(particle).x <= DIM_LIMIT,
            0 <= old(particle).y <= DIM_LIMIT,
            from_frame <= frame < self.until_frame,
        ensures
            final(particle).wf(),
            *final(particle) == applied_force(
                self.force_type,
                *old(particle),
                frame as int,
                from_frame as int,
                self.until_frame as int,
            ),
            unchanged_but_velocity(*old(particle), *final(particle)),
    {
        match self.force_type {
            ForceType::Idle => {},
            ForceType::Static { vx, vy } => {
                particle.vx = clamp_i64(particle.vx + vx, -VEL_LIMIT, VEL_LIMIT);
                particle.vy = clamp_i64(particle.vy + vy, -VEL_LIMIT, VEL_LIMIT);
            },
            ForceType::Newton { nx, ny } => {
                proof {
                    lemma_div_tz_bound(nx as int, particle.mass as int);
                    lemma_div_tz_bound(ny as int, particle.mass as int);
                }
                let dvx: i64 = div_toward_zero(nx, particle.mass);
                let dvy: i64 = div_toward_zero(ny, particle.mass);
                particle.vx = clamp_i64(particle.vx + dvx, -VEL_LIMIT, VEL_LIMIT);
                particle.vy = clamp_i64(particle.vy + dvy, -VEL_LIMIT, VEL_LIMIT);
            },
            ForceType::Accelerate { vx, vy, vx_max, vy_max } => {
                let new_vx: i64 = particle.vx + vx;
                if 0 < vx && 0 <= particle.vx {
                    if new_vx <= vx_max {
                        particle.vx = new_vx;
                    }
                } else if vx < 0 && particle.vx <= 0 {
                    if vx_max <= new_vx {
                        particle.vx = new_vx;
                    }
                } else {
                    particle.vx = clamp_i64(new_vx, -VEL_LIMIT, VEL_LIMIT);
                }
                let new_vy: i64 = particle.vy + vy;
                if 0 < vy && 0 <= particle.vy {
                    if new_vy <= vy_max {
                        particle.vy = new_vy;
                    }
                } else if vy < 0 && particle.vy <= 0 {
                    if vy_max <= new_vy {
                        particle.vy = new_vy;
                    }
                } else {
                    particle.vy = clamp_i64(new_vy, -VEL_LIMIT, VEL_LIMIT);
                }
            },
            ForceType::Gravity { gravitation_force, dead_zone, mass, start, end } => {
                self.apply_gravity(particle, frame, from_frame, gravitation_force, dead_zone, mass, start, end);
            },
        }
    }

    /// The gravity branch of `apply`; see `gravity_point` and
    /// `gravity_applied` for the exact effect.
    fn apply_gravity(
        &self,
        particle: &mut Particle,
        frame: u32,
        from_frame: u32,
        gravitation_force: i64,
        dead_zone: i64,
        mass: i64,
        start: Point,
        end: Point,
    )
        requires
            self.force_type == (ForceType::Gravity { gravitation_force, dead_zone, mass, start, end }),
            valid_force_type(self.force_type),
            old(particle).wf(),
            0 <= old(particle).x <= DIM_LIMIT,
            0 <= old(particle).y <= DIM_LIMIT,
            from_frame <= frame < self.until_frame,
        ensures
            final(particle).wf(),
            *final(particle) == ({
                let (px, py) = gravity_point(start, end, frame as int, from_frame as int, self.until_frame as int);
                gravity_applied(gravitation_force as int, dead_zone as int, mass as int, px, py, *old(particle))
            }),
            unchanged_but_velocity(*old(particle), *final(particle)),
    {
        let delta_current: i64 = (frame - from_frame) as i64;
        let delta_end: i64 = (self.until_frame - from_frame) as i64;
        let fx: i64 = end.0 - start.0;
        let fy: i64 = end.1 - start.1;
        proof {
            lemma_abs_mul_bound(delta_current as int, fx as int, delta_end as int, 2 * DIM_LIMIT as int);
            lemma_abs_mul_bound(delta_current as int, fy as int, delta_end as int, 2 * DIM_LIMIT as int);
            lemma_div_tz_bound(delta_current as int * fx as int, delta_end as int);
            lemma_div_tz_bound(delta_current as int * fy as int, delta_end as int);
            lemma_cancel_le(
                abs(div_tz(delta_current as int * fx as int, delta_end as int)),
                2 * DIM_LIMIT as int,
                delta_end as int,
            );
            lemma_cancel_le(
                abs(div_tz(delta_current as int * fy as int, delta_end as int)),
                2 * DIM_LIMIT as int,
                delta_end as int,
            );
        }
        let px: i64 = start.0 + div_toward_zero(delta_current * fx, delta_end);
        let py: i64 = start.1 + div_toward_zero(delta_current * fy, delta_end);

        let center_x: i64 = particle.x + particle.radius;
        let center_y: i64 = particle.y + particle.radius;
        let x_distance: i64 = px - center_x;
        let y_distance: i64 = py - center_y;

        if abs_i64(x_distance) < dead_zone && abs_i64(y_distance) < dead_zone {
            return ;
        }

        proof {
            lemma_abs_mul_bound(x_distance as int, x_distance as int, 8 * DIM_LIMIT as int, 8 * DIM_LIMIT as int);
            lemma_abs_mul_bound(y_distance as int, y_distance as int, 8 * DIM_LIMIT as int, 8 * DIM_LIMIT as int);
            assert(x_distance as int * x_distance as int >= 0) by (nonlinear_arith);
            assert(y_distance as int * y_distance as int >= 0) by (nonlinear_arith);
            assert(x_distance as int * x_distance as int + y_distance as int * y_distance as int >= 1) by (nonlinear_arith)
                requires
                    abs(x_distance as int) >= dead_zone || abs(y_distance as int) >= dead_zone,
                    dead_zone >= 1,
            ;
        }
        let x_distance_pow: i64 = x_distance * x_distance;
        let y_distance_pow: i64 = y_distance * y_distance;
        let distance_pow: i64 = x_distance_pow + y_distance_pow;

        proof {
            lemma_abs_mul_bound(gravitation_force as int, mass as int, MASS_LIMIT as int, MASS_LIMIT as int);
            lemma_abs_mul_bound(
                gravitation_force as int * mass as int,
                particle.mass as int,
                MASS_LIMIT as int * MASS_LIMIT as int,
                MASS_LIMIT as int,
            );
        }
        let top_formula: i64 = gravitation_force * mass * particle.mass;
        proof {
            lemma_div_tz_bound(top_formula as int, distance_pow as int);
            lemma_mul_le_side(
                abs(div_tz(top_formula as int, distance_pow as int)),
                x_distance_pow as int,
                distance_pow as int,
            );
            lemma_mul_le_side(
                abs(div_tz(top_formula as int, distance_pow as int)),
                y_distance_pow as int,
                distance_pow as int,
            );
        }
        let force: i64 = div_toward_zero(top_formula, distance_pow);

        proof {
            let f = force as int;
            let x2 = x_distance_pow as int;
            let y2 = y_distance_pow as int;
            let d2 = distance_pow as int;
            assert(abs(f * x2) == abs(f) * x2) by (nonlinear_arith)
                requires
                    x2 >= 0,
            ;
            assert(abs(f * y2) == abs(f) * y2) by (nonlinear_arith)
                requires
                    y2 >= 0,
            ;
            lemma_div_tz_bound(f * x2, d2);
            lemma_div_tz_bound(f * y2, d2);
            lemma_div_tz_bound(div_tz(f * x2, d2), particle.mass as int);
            lemma_div_tz_bound(div_tz(f * y2, d2), particle.mass as int);
        }
        let vx_add: i64 = div_toward_zero(div_toward_zero(force * x_distance_pow, distance_pow), particle.mass);
        let vy_add: i64 = div_toward_zero(div_toward_zero(force * y_distance_pow, distance_pow), particle.mass);

        if 0 < x_distance {
            particle.vx = clamp_i64(particle.vx + vx_add, -VEL_LIMIT, VEL_LIMIT);
        } else if x_distance < 0 {
            particle.vx = clamp_i64(particle.vx - vx_add, -VEL_LIMIT, VEL_LIMIT);
        } else {
            particle.vx = clamp_i64(particle.vx, -VEL_LIMIT, VEL_LIMIT);
        }
        if 0 < y_distance {
            particle.vy = clamp_i64(particle.vy + vy_add, -VEL_LIMIT, VEL_LIMIT);
        } else if y_distance < 0 {
            particle.vy = clamp_i64(particle.vy - vy_add, -VEL_LIMIT, VEL_LIMIT);
        } else {
            particle.vy = clamp_i64(particle.vy, -VEL_LIMIT, VEL_LIMIT);
        }
    }
}

/// A well-formed schedule: every behaviour is in range and the windows
/// ascend, each entry ending no earlier than the one before it.
pub open spec fn valid_schedule(s: Seq<Force>) -> bool {
    &&& forall|i: int| 0 <= i < s.len() ==> valid_force_type(#[trigger] s[i].force_type)
    &&& forall|i: int| 0 <= i < s.len() - 1 ==> #[trigger] s[i].until_frame <= s[i + 1].until_frame
}

/// Where the schedule's last window ends; an appended entry starts here.
pub open spec fn schedule_end(s: Seq<Force>) -> int {
    if s.len() == 0 {
        0
    } else {
        s[s.len() - 1].until_frame as int
    }
}

/// The first index at or after `i` whose window still contains `frame`
/// (its `until_frame` lies beyond it), or -1 if none does.
pub open spec fn first_active_from(s: Seq<Force>, frame: int, i: int) -> int
    decreases s.len() - i,
{
    if i < 0 || i >= s.len() {
        -1
    } else if frame < s[i].until_frame {
        i
    } else {
        first_active_from(s, frame, i + 1)
    }
}

/// The index of the entry whose window contains `frame`: the first one not
/// yet ended, matching the ascending-window construction.
pub open spec fn first_active(s: Seq<Force>, frame: int) -> int {
    first_active_from(s, frame, 0)
}

/// The frame an entry's window opens at: where the previous entry ended.
pub open spec fn window_start(s: Seq<Force>, i: int) -> int {
    if i <= 0 {
        0
    } else {
        s[i - 1].until_frame as int
    }
}

/// A whole schedule applied to a particle at `frame`: the first active
/// entry acts, or nothing does when every window has ended.
pub open spec fn scheduled_force_applied(s: Seq<Force>, p: Particle, frame: int) -> Particle {
    let i = first_active(s, frame);
    if i == -1 {
        p
    } else {
        applied_force(s[i].force_type, p, frame, window_start(s, i), s[i].until_frame as int)
    }
}

/// Builds a schedule by appending behaviours with cumulative `until`
/// offsets, which makes the windows ascending by construction.
pub struct ForceBuilder {
    forces: Vec<Force>,
}

impl ForceBuilder {
    /// The schedule built so far.
    pub closed spec fn schedule(&self) -> Seq<Force> {
        self.forces@
    }

    pub fn new() -> (b: ForceBuilder)
        ensures
            b.schedule() == Seq::<Force>::empty(),
            valid_schedule(b.schedule()),
    {
        ForceBuilder { forces: Vec::new() }
    }

    /// Append a behaviour lasting `frames` frames: its window starts where
    /// the previous entry's window ended and runs `frames` further.
    pub fn add(&mut self, force_type: ForceType, frames: u32)
        requires
            valid_force_type(force_type),
            valid_schedule(old(self).schedule()),
            schedule_end(old(self).schedule()) + frames <= u32::MAX,
        ensures
            valid_schedule(final(self).schedule()),
            final(self).schedule() == old(self).schedule().push(Force {
                until_frame: (schedule_end(old(self).schedule()) + frames) as u32,
                force_type,
            }),
            schedule_end(final(self).schedule()) == schedule_end(old(self).schedule()) + frames,
    {
        let previous_last_frame: u32 = if self.forces.len() > 0 {
            self.forces[self.forces.len() - 1].until_frame
        } else {
            0
        };
        self.forces.push(Force { until_frame: previous_last_frame + frames, force_type });
    }

    /// Hand the finished schedule out.
    pub fn build(self) -> (forces: Vec<Force>)
        ensures
            forces@ == self.schedule(),
    {
        self.forces
    }
}

/// `a <= c` scaled: from `a * b <= c * b` with positive `b`.
proof fn lemma_cancel_le(a: int, c: int, b: int)
    requires
        b >= 1,
        a * b <= c * b,
    ensures
        a <= c,
{
    assert(a <= c) by (nonlinear_arith)
        requires
            b >= 1,
            a * b <= c * b,
    ;
}

/// With `0 <= part <= whole`, a quotient magnitude times the part stays
/// under the original dividend's magnitude.
proof fn lemma_mul_le_side(q_abs: int, part: int, whole: int)
    requires
        0 <= q_abs,
        0 <= part <= whole,
    ensures
        q_abs * part <= q_abs * whole,
{
    assert(q_abs * part <= q_abs * whole) by (nonlinear_arith)
        requires
            0 <= q_abs,
            0 <= part <= whole,
    ;
}

} // verus!
