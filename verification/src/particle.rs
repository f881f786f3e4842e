//! A single movable entity: position, velocity, mass, size, bounciness.
//!
//! Every quantity is an integer.  Lengths and velocities are arena units,
//! `mass` is a positive integer, and `elasticity_fraction` / `friction` are
//! per-mille fractions in `0..=1000`.  The collision mathematics (pairwise
//! elastic resolution and penetration correction) lives here too.

use vstd::prelude::*;
use crate::math::{abs, clamped, div_tz, rem_tz, clamp_i64, div_toward_zero, abs_i64,
    lemma_div_tz_bound, lemma_div_tz_decompose, lemma_div_tz_exact};

verus! {

/// Denominator of the per-mille fractions (elasticity, friction).
pub const FRACTION_SCALE: i64 = 1000;

/// Largest arena dimension the grid accepts.
pub const DIM_LIMIT: i64 = 0x10_0000;

/// Velocities are kept in `[-VEL_LIMIT, VEL_LIMIT]`; collision resolution
/// and forces saturate at this bound so every tick's arithmetic stays far
/// from `i64` overflow.
pub const VEL_LIMIT: i64 = 0x10_0000;

/// Largest mass a particle may carry.
pub const MASS_LIMIT: i64 = 0x10_0000;

/// The value the `queue_frame` sentinel starts from.
#[derive(Clone, Copy, Debug, PartialEq, Eq, Structural)]
pub enum InitFrame {
    Zero,
    Max,
}

/// Construction-time description of a particle; positions come separately.
#[derive(Clone, Copy, Debug, PartialEq, Eq, Structural)]
pub struct ParticleAttributes {
    pub color: u32,
    /// Per-mille velocity loss applied by `apply_friction`.
    pub friction: i64,
    pub diameter: i64,
    /// Per-mille bounciness in `0..=1000`.
    pub elasticity_fraction: i64,
    /// Positive integer mass.
    pub mass: i64,
    pub init_frame: InitFrame,
}

/// The moving body.  `color` is opaque to the simulation; `queue_frame`
/// records the tick on which the particle last changed cells.
#[derive(Clone, Copy, Debug, PartialEq, Eq, Structural)]
pub struct Particle {
    pub queue_frame: u32,
    pub x: i64,
    pub y: i64,
    pub vx: i64,
    pub vy: i64,
    pub radius: i64,
    pub diameter: i64,
    pub color: u32,
    pub mass: i64,
    pub elasticity_fraction: i64,
    pub friction: i64,
}

/// What a well-formed attribute set looks like; rejected at construction
/// time, never guarded per tick.
pub open spec fn valid_attributes(a: ParticleAttributes) -> bool {
    &&& 1 <= a.mass <= MASS_LIMIT
    &&& 0 <= a.elasticity_fraction <= FRACTION_SCALE
    &&& 0 <= a.friction <= FRACTION_SCALE
    &&& 1 <= a.diameter <= DIM_LIMIT
}

/// The particle `Particle::new` constructs: at rest at `(x, y)`, carrying
/// the attributes.
pub open spec fn spec_new_particle(x: i64, y: i64, a: ParticleAttributes) -> Particle {
    Particle {
        queue_frame: match a.init_frame {
            InitFrame::Zero => 0u32,
            InitFrame::Max => u32::MAX,
        },
        x,
        y,
        vx: 0,
        vy: 0,
        radius: (a.diameter as int / 2) as i64,
        diameter: a.diameter,
        color: a.color,
        mass: a.mass,
        elasticity_fraction: a.elasticity_fraction,
        friction: a.friction,
    }
}

impl Particle {
    /// The particle's own well-formedness: attribute ranges, the
    /// radius/diameter tie, and the velocity bound.
    pub open spec fn wf(self) -> bool {
        &&& 1 <= self.mass <= MASS_LIMIT
        &&& 0 <= self.elasticity_fraction <= FRACTION_SCALE
        &&& 0 <= self.friction <= FRACTION_SCALE
        &&& 1 <= self.diameter <= DIM_LIMIT
        &&& self.radius == self.diameter / 2
        &&& -VEL_LIMIT <= self.vx <= VEL_LIMIT
        &&& -VEL_LIMIT <= self.vy <= VEL_LIMIT
    }

    /// The particle sits inside the arena: its whole bounding box is in
    /// `[0, width) x [0, height)`.
    pub open spec fn in_bounds(self, width: int, height: int) -> bool {
        &&& 0 <= self.x && self.x + self.diameter < width
        &&& 0 <= self.y && self.y + self.diameter < height
    }

    pub fn new(x: i64, y: i64, attributes: &ParticleAttributes) -> (p: Particle)
        requires
            valid_attributes(*attributes),
        ensures
            p.wf(),
            p == spec_new_particle(x, y, *attributes),
    {
        let queue_frame: u32 = match attributes.init_frame {
            InitFrame::Zero => 0,
            InitFrame::Max => u32::MAX,
        };
        Particle {
            queue_frame,
            x,
            y,
            vx: 0,
            vy: 0,
            radius: attributes.diameter / 2,
            diameter: attributes.diameter,
            color: attributes.color,
            mass: attributes.mass,
            elasticity_fraction: attributes.elasticity_fraction,
            friction: attributes.friction,
        }
    }

    /// Drain velocity by the per-mille friction fraction: the mass scales
    /// the loss up and back down, so it cancels out of the result.
    pub fn apply_friction(&mut self)
        requires
            old(self).wf(),
        ensures
            final(self).wf(),
            final(self).vx == old(self).vx - div_tz(old(self).vx * old(self).friction, FRACTION_SCALE as int),
            final(self).vy == old(self).vy - div_tz(old(self).vy * old(self).friction, FRACTION_SCALE as int),
            unchanged_but_velocity(*old(self), *final(self)),
    {
        proof {
            lemma_scaled_within(self.vx as int, self.friction as int);
            lemma_scaled_within(self.vy as int, self.friction as int);
            lemma_div_tz_decompose(self.vx as int * self.friction as int, FRACTION_SCALE as int);
            lemma_div_tz_decompose(self.vy as int * self.friction as int, FRACTION_SCALE as int);
        }
        let x_loss: i64 = div_toward_zero(self.vx * self.friction, FRACTION_SCALE);
        let y_loss: i64 = div_toward_zero(self.vy * self.friction, FRACTION_SCALE);
        self.vx = self.vx - x_loss;
        self.vy = self.vy - y_loss;
    }

    /// Commit the tick's movement: add the velocity, then clamp the
    /// bounding box back into the arena, leaving at least one unit of
    /// clearance at the far edges.
    pub fn transform(&mut self, max_width: i64, max_height: i64)
        requires
            old(self).wf(),
            old(self).diameter + 1 <= max_width <= DIM_LIMIT,
            old(self).diameter + 1 <= max_height <= DIM_LIMIT,
            -4 * DIM_LIMIT <= old(self).x <= 4 * DIM_LIMIT,
            -4 * DIM_LIMIT <= old(self).y <= 4 * DIM_LIMIT,
        ensures
            final(self).wf(),
            *final(self) == transformed(*old(self), max_width as int, max_height as int),
            final(self).x == clamped(old(self).x + old(self).vx, 0, max_width - old(self).diameter - 1),
            final(self).y == clamped(old(self).y + old(self).vy, 0, max_height - old(self).diameter - 1),
            final(self).in_bounds(max_width as int, max_height as int),
            unchanged_but_position(*old(self), *final(self)),
    {
        let nx: i64 = self.x + self.vx;
        let ny: i64 = self.y + self.vy;
        self.x = clamp_i64(nx, 0, max_width - self.diameter - 1);
        self.y = clamp_i64(ny, 0, max_height - self.diameter - 1);
    }
}

/// The particle after committing its move: velocity added to the position,
/// which is then clamped so the bounding box stays inside the arena with a
/// unit of clearance at the far edges.
pub open spec fn transformed(p: Particle, width: int, height: int) -> Particle {
    Particle {
        x: clamped(p.x + p.vx, 0, width - p.diameter - 1) as i64,
        y: clamped(p.y + p.vy, 0, height - p.diameter - 1) as i64,
        ..p
    }
}

/// Pack four channel bytes into the opaque color word the simulation
/// carries: red in the highest byte, alpha in the lowest.
pub fn color_from_rgba(r: u8, g: u8, b: u8, a: u8) -> (c: u32)
    ensures
        c == r as int * 0x100_0000 + g as int * 0x1_0000 + b as int * 0x100 + a as int,
{
    r as u32 * 0x100_0000 + g as u32 * 0x1_0000 + b as u32 * 0x100 + a as u32
}

/// The alpha channel of a packed color word.
pub fn color_alpha(c: u32) -> (a: u8)
    ensures
        a as int == c as int % 0x100,
{
    (c % 0x100) as u8
}

/// The bodies agree: everything except position and velocity is the same
/// in `a` and `b`.
pub open spec fn same_body(a: Particle, b: Particle) -> bool {
    &&& b.radius == a.radius && b.diameter == a.diameter
    &&& b.color == a.color && b.mass == a.mass
    &&& b.elasticity_fraction == a.elasticity_fraction && b.friction == a.friction
    &&& b.queue_frame == a.queue_frame
}

/// Everything except the velocity components is the same in `a` and `b`.
pub open spec fn unchanged_but_velocity(a: Particle, b: Particle) -> bool {
    &&& b.x == a.x && b.y == a.y
    &&& b.radius == a.radius && b.diameter == a.diameter
    &&& b.color == a.color && b.mass == a.mass
    &&& b.elasticity_fraction == a.elasticity_fraction && b.friction == a.friction
    &&& b.queue_frame == a.queue_frame
}

/// Everything except the position is the same in `a` and `b`.
pub open spec fn unchanged_but_position(a: Particle, b: Particle) -> bool {
    &&& b.vx == a.vx && b.vy == a.vy
    &&& b.radius == a.radius && b.diameter == a.diameter
    &&& b.color == a.color && b.mass == a.mass
    &&& b.elasticity_fraction == a.elasticity_fraction && b.friction == a.friction
    &&& b.queue_frame == a.queue_frame
}

/// A velocity scaled by a per-mille fraction, rounding toward zero.
pub open spec fn scaled_by_fraction(v: int, e: int) -> int {
    div_tz(v * e, FRACTION_SCALE as int)
}

/// Scaling by a fraction in `0..=1000` never grows the magnitude.
pub proof fn lemma_scaled_within(v: int, e: int)
    requires
        0 <= e <= FRACTION_SCALE,
    ensures
        abs(scaled_by_fraction(v, e)) <= abs(v),
        v >= 0 ==> 0 <= scaled_by_fraction(v, e) <= v,
        v < 0 ==> v <= scaled_by_fraction(v, e) <= 0,
{
    lemma_div_tz_bound(v * e, FRACTION_SCALE as int);
    lemma_div_tz_decompose(v * e, FRACTION_SCALE as int);
    assert(abs(v * e) <= abs(v) * FRACTION_SCALE) by (nonlinear_arith)
        requires
            0 <= e <= FRACTION_SCALE,
    ;
    assert(abs(div_tz(v * e, FRACTION_SCALE as int)) * FRACTION_SCALE <= abs(v) * FRACTION_SCALE);
    assert(abs(div_tz(v * e, FRACTION_SCALE as int)) <= abs(v)) by (nonlinear_arith)
        requires
            abs(div_tz(v * e, FRACTION_SCALE as int)) * FRACTION_SCALE <= abs(v) * FRACTION_SCALE,
    ;
    assert(v >= 0 ==> v * e >= 0) by (nonlinear_arith)
        requires
            0 <= e,
    ;
    assert(v < 0 ==> v * e <= 0) by (nonlinear_arith)
        requires
            0 <= e,
    ;
}

/// Scaling by the full fraction (elasticity one) is exact.
pub proof fn lemma_full_fraction_identity(v: int)
    ensures
        scaled_by_fraction(v, FRACTION_SCALE as int) == v,
{
    lemma_div_tz_exact(v, FRACTION_SCALE as int);
}

/// The particle after the boundary check on its tentative move: any
/// velocity component that would carry the bounding box outside
/// `[0, width) x [0, height)` is negated and scaled by the particle's own
/// elasticity.
pub open spec fn bounced(p: Particle, width: int, height: int) -> Particle {
    let new_x = p.x + p.vx;
    let new_y = p.y + p.vy;
    let end_new_x = new_x + p.diameter;
    let end_new_y = new_y + p.diameter;
    let x_out = new_x < 0 || width <= end_new_x;
    let y_out = new_y < 0 || height <= end_new_y;
    Particle {
        vx: if x_out {
            (-scaled_by_fraction(p.vx as int, p.elasticity_fraction as int)) as i64
        } else {
            p.vx
        },
        vy: if y_out {
            (-scaled_by_fraction(p.vy as int, p.elasticity_fraction as int)) as i64
        } else {
            p.vy
        },
        ..p
    }
}

impl Particle {
    /// Reflect the velocity off the arena walls the tentative move would
    /// cross: the offending component becomes `-elasticity` times itself.
    pub fn bounce(&mut self, max_width: i64, max_height: i64)
        requires
            old(self).wf(),
            0 <= max_width <= DIM_LIMIT,
            0 <= max_height <= DIM_LIMIT,
            -4 * DIM_LIMIT <= old(self).x <= 4 * DIM_LIMIT,
            -4 * DIM_LIMIT <= old(self).y <= 4 * DIM_LIMIT,
        ensures
            final(self).wf(),
            *final(self) == bounced(*old(self), max_width as int, max_height as int),
    {
        proof {
            lemma_scaled_within(self.vx as int, self.elasticity_fraction as int);
            lemma_scaled_within(self.vy as int, self.elasticity_fraction as int);
        }
        let new_x: i64 = self.x + self.vx;
        let new_y: i64 = self.y + self.vy;
        let end_new_x: i64 = new_x + self.diameter;
        let end_new_y: i64 = new_y + self.diameter;

        if new_x < 0 || max_width <= end_new_x {
            self.vx = -div_toward_zero(self.vx * self.elasticity_fraction, FRACTION_SCALE);
        }
        if new_y < 0 || max_height <= end_new_y {
            self.vy = -div_toward_zero(self.vy * self.elasticity_fraction, FRACTION_SCALE);
        }
    }
}

/// The tentative bounding box of the particle a tick is about to move:
/// origin at position plus velocity, extent one diameter.
#[derive(Clone, Copy, Debug, PartialEq, Eq, Structural)]
pub struct CollisionData {
    pub new_x: i64,
    pub new_y: i64,
    pub end_new_x: i64,
    pub end_new_y: i64,
}

/// The tentative bounding box `data` overlaps `other`'s tentative bounding
/// box, on the x and the y axis both: per axis the two closed intervals
/// share at least one point, whichever box is wider.
pub open spec fn boxes_collide(data: CollisionData, other: Particle) -> bool {
    let onx = other.x + other.vx;
    let ony = other.y + other.vy;
    let end_onx = onx + other.diameter;
    let end_ony = ony + other.diameter;
    let overlap_x = onx <= data.end_new_x && data.new_x <= end_onx;
    let overlap_y = ony <= data.end_new_y && data.new_y <= end_ony;
    overlap_x && overlap_y
}

/// Velocity of the first body after a one-dimensional elastic collision,
/// before elasticity scaling: `((ma-mb)*va + 2*mb*vb) / (ma+mb)`.
pub open spec fn resolved_vel_a(ma: int, mb: int, va: int, vb: int) -> int {
    div_tz((ma - mb) * va + 2 * mb * vb, ma + mb)
}

/// Velocity of the second body after a one-dimensional elastic collision,
/// before elasticity scaling: `(2*ma*va + (mb-ma)*vb) / (ma+mb)`.
pub open spec fn resolved_vel_b(ma: int, mb: int, va: int, vb: int) -> int {
    div_tz(2 * ma * va + (mb - ma) * vb, ma + mb)
}

/// Saturate a velocity into the bound the simulation keeps.
pub open spec fn vel_clamped(v: int) -> int {
    clamped(v, -VEL_LIMIT as int, VEL_LIMIT as int)
}

/// Both particles' velocities after resolving a collision between them.
/// Equal masses exchange velocities; unequal masses follow the standard
/// one-dimensional elastic formulas per axis.  Each side is then scaled by
/// the receiving particle's own elasticity, and saturated at `VEL_LIMIT`.
pub open spec fn resolved_velocities(a: Particle, b: Particle) -> (Particle, Particle) {
    if a.mass == b.mass {
        (
            (Particle {
                vx: scaled_by_fraction(b.vx as int, a.elasticity_fraction as int) as i64,
                vy: scaled_by_fraction(b.vy as int, a.elasticity_fraction as int) as i64,
                ..a
            }),
            (Particle {
                vx: scaled_by_fraction(a.vx as int, b.elasticity_fraction as int) as i64,
                vy: scaled_by_fraction(a.vy as int, b.elasticity_fraction as int) as i64,
                ..b
            }),
        )
    } else {
        let ma = a.mass as int;
        let mb = b.mass as int;
        (
            (Particle {
                vx: vel_clamped(scaled_by_fraction(resolved_vel_a(ma, mb, a.vx as int, b.vx as int), a.elasticity_fraction as int)) as i64,
                vy: vel_clamped(scaled_by_fraction(resolved_vel_a(ma, mb, a.vy as int, b.vy as int), a.elasticity_fraction as int)) as i64,
                ..a
            }),
            (Particle {
                vx: vel_clamped(scaled_by_fraction(resolved_vel_b(ma, mb, a.vx as int, b.vx as int), b.elasticity_fraction as int)) as i64,
                vy: vel_clamped(scaled_by_fraction(resolved_vel_b(ma, mb, a.vy as int, b.vy as int), b.elasticity_fraction as int)) as i64,
                ..b
            }),
        )
    }
}

/// Where particle `a` is put when its post-resolution bounding box still
/// overlaps `b`'s: only the axis whose centre difference is larger (the
/// smaller overlap) is corrected, and `a` is placed so that committing its
/// own velocity lands its box just outside `b`'s tentative box, one unit
/// beyond the edge it was approaching from.  Velocities in `a` and `b` are
/// the post-resolution ones.
pub open spec fn corrected_position(a: Particle, b: Particle) -> (int, int) {
    let new_x = a.x + a.vx;
    let new_y = a.y + a.vy;
    let onx = b.x + b.vx;
    let ony = b.y + b.vy;
    let end_onx = onx + b.diameter;
    let end_ony = ony + b.diameter;
    let xd = new_x - onx;
    let yd = new_y - ony;
    let placed_right = 0 < xd && xd < b.diameter;
    let placed_left = -a.diameter < xd && xd < 0;
    let placed_bottom = 0 < yd && yd < b.diameter;
    let placed_top = -a.diameter < yd && yd < 0;
    let x_collision = placed_left || placed_right;
    let y_collision = placed_top || placed_bottom;
    if !x_collision || !y_collision {
        (a.x as int, a.y as int)
    } else if abs(yd) < abs(xd) {
        let nx = if placed_right {
            end_onx - a.vx + 1
        } else {
            onx - a.diameter - a.vx - 1
        };
        (nx, a.y as int)
    } else {
        let ny = if placed_bottom {
            end_ony - a.vy + 1
        } else {
            ony - a.diameter - a.vy - 1
        };
        (a.x as int, ny)
    }
}

/// Law: when the penetration correction acts, the corrected coordinate is
/// placed so that committing the particle's own velocity lands its bounding
/// box exactly one unit outside the partner's tentative box, beyond the
/// edge it was approaching from — so the two tentative boxes no longer
/// overlap on the corrected axis; the other axis, and the partner, are
/// never moved.
pub proof fn lemma_correction_separates(a: Particle, b: Particle)
    ensures
        ({
            let (cx, cy) = corrected_position(a, b);
            let onx = b.x + b.vx;
            let ony = b.y + b.vy;
            let end_onx = onx + b.diameter;
            let end_ony = ony + b.diameter;
            ||| (cx == a.x && cy == a.y)
            ||| (cy == a.y && (cx + a.vx == end_onx + 1 || cx + a.vx + a.diameter == onx - 1))
            ||| (cx == a.x && (cy + a.vy == end_ony + 1 || cy + a.vy + a.diameter == ony - 1))
        }),
{
}

/// The whole effect of a resolved collision on the pair: velocities first,
/// then the position correction of the moving particle.
pub open spec fn resolved_pair(a: Particle, b: Particle) -> (Particle, Particle) {
    let (a1, b1) = resolved_velocities(a, b);
    let (cx, cy) = corrected_position(a1, b1);
    ((Particle { x: cx as i64, y: cy as i64, ..a1 }), b1)
}

impl Particle {
    /// Snap this particle just outside `other`'s tentative box when their
    /// post-resolution boxes still overlap; see `corrected_position`.
    fn move_if_overlaps(&mut self, other: &Particle)
        requires
            old(self).wf(),
            other.wf(),
            0 <= old(self).x <= DIM_LIMIT,
            0 <= old(self).y <= DIM_LIMIT,
            0 <= other.x <= DIM_LIMIT,
            0 <= other.y <= DIM_LIMIT,
        ensures
            final(self).wf(),
            (final(self).x as int, final(self).y as int) == corrected_position(*old(self), *other),
            -4 * DIM_LIMIT <= final(self).x <= 4 * DIM_LIMIT,
            -4 * DIM_LIMIT <= final(self).y <= 4 * DIM_LIMIT,
            unchanged_but_position(*old(self), *final(self)),
            final(self).vx == old(self).vx && final(self).vy == old(self).vy,
    {
        let new_x: i64 = self.x + self.vx;
        let new_y: i64 = self.y + self.vy;
        let other_new_x: i64 = other.x + other.vx;
        let other_new_y: i64 = other.y + other.vy;
        let end_other_new_x: i64 = other_new_x + other.diameter;
        let end_other_new_y: i64 = other_new_y + other.diameter;

        let x_difference: i64 = new_x - other_new_x;
        let y_difference: i64 = new_y - other_new_y;

        let collision_self_placed_right = 0 < x_difference && x_difference < other.diameter;
        let collision_self_placed_left = -self.diameter < x_difference && x_difference < 0;
        let collision_self_placed_bottom = 0 < y_difference && y_difference < other.diameter;
        let collision_self_placed_top = -self.diameter < y_difference && y_difference < 0;

        let x_collision = collision_self_placed_left || collision_self_placed_right;
        let y_collision = collision_self_placed_top || collision_self_placed_bottom;

        if !x_collision || !y_collision {
            return ;
        }

        let move_back_horizontally = abs_i64(y_difference) < abs_i64(x_difference);

        if move_back_horizontally {
            if collision_self_placed_right {
                self.x = end_other_new_x - self.vx + 1;
            } else {
                self.x = other_new_x - self.diameter - self.vx - 1;
            }
        } else {
            if collision_self_placed_bottom {
                self.y = end_other_new_y - self.vy + 1;
            } else {
                self.y = other_new_y - self.diameter - self.vy - 1;
            }
        }
    }

    /// Detect and, when found, resolve a collision between this particle's
    /// tentative move (`data`) and `other`.  Returns whether a collision
    /// occurred; on `true`, both velocities and this particle's position
    /// are exactly `resolved_pair` of the incoming pair.
    pub fn handle_possible_collision(&mut self, other: &mut Particle, data: &CollisionData) -> (collided: bool)
        requires
            old(self).wf(),
            old(other).wf(),
            0 <= old(self).x <= DIM_LIMIT,
            0 <= old(self).y <= DIM_LIMIT,
            0 <= old(other).x <= DIM_LIMIT,
            0 <= old(other).y <= DIM_LIMIT,
        ensures
            collided == boxes_collide(*data, *old(other)),
            !collided ==> *final(self) == *old(self) && *final(other) == *old(other),
            collided ==> ({
                let (a2, b2) = resolved_pair(*old(self), *old(other));
                &&& *final(self) == a2
                &&& *final(other) == b2
            }),
            final(self).wf(),
            final(other).wf(),
            -4 * DIM_LIMIT <= final(self).x <= 4 * DIM_LIMIT,
            -4 * DIM_LIMIT <= final(self).y <= 4 * DIM_LIMIT,
            final(other).x == old(other).x && final(other).y == old(other).y,
    {
        let other_new_x: i64 = other.x + other.vx;
        let other_new_y: i64 = other.y + other.vy;
        let end_other_new_x: i64 = other_new_x + other.diameter;
        let end_other_new_y: i64 = other_new_y + other.diameter;

        let overlap_x = other_new_x <= data.end_new_x && data.new_x <= end_other_new_x;
        let overlap_y = other_new_y <= data.end_new_y && data.new_y <= end_other_new_y;

        if !overlap_x || !overlap_y {
            return false;
        }

        if self.mass == other.mass {
            proof {
                lemma_scaled_within(other.vx as int, self.elasticity_fraction as int);
                lemma_scaled_within(other.vy as int, self.elasticity_fraction as int);
                lemma_scaled_within(self.vx as int, other.elasticity_fraction as int);
                lemma_scaled_within(self.vy as int, other.elasticity_fraction as int);
            }
            let tmp_x: i64 = self.vx;
            self.vx = div_toward_zero(other.vx * self.elasticity_fraction, FRACTION_SCALE);
            other.vx = div_toward_zero(tmp_x * other.elasticity_fraction, FRACTION_SCALE);

            let tmp_y: i64 = self.vy;
            self.vy = div_toward_zero(other.vy * self.elasticity_fraction, FRACTION_SCALE);
            other.vy = div_toward_zero(tmp_y * other.elasticity_fraction, FRACTION_SCALE);

            self.move_if_overlaps(other);
            return true;
        }

        let total_weight: i64 = self.mass + other.mass;

        proof {
            let ma = self.mass as int;
            let mb = other.mass as int;
            crate::math::lemma_abs_mul_bound(ma - mb, self.vx as int, 2 * MASS_LIMIT as int, VEL_LIMIT as int);
            crate::math::lemma_abs_mul_bound(ma - mb, self.vy as int, 2 * MASS_LIMIT as int, VEL_LIMIT as int);
            crate::math::lemma_abs_mul_bound(mb - ma, other.vx as int, 2 * MASS_LIMIT as int, VEL_LIMIT as int);
            crate::math::lemma_abs_mul_bound(mb - ma, other.vy as int, 2 * MASS_LIMIT as int, VEL_LIMIT as int);
            crate::math::lemma_abs_mul_bound(2 * mb, other.vx as int, 2 * MASS_LIMIT as int, VEL_LIMIT as int);
            crate::math::lemma_abs_mul_bound(2 * mb, other.vy as int, 2 * MASS_LIMIT as int, VEL_LIMIT as int);
            crate::math::lemma_abs_mul_bound(2 * ma, self.vx as int, 2 * MASS_LIMIT as int, VEL_LIMIT as int);
            crate::math::lemma_abs_mul_bound(2 * ma, self.vy as int, 2 * MASS_LIMIT as int, VEL_LIMIT as int);
            lemma_div_tz_bound((self.mass - other.mass) as int * self.vx as int + 2 * other.mass as int * other.vx as int, total_weight as int);
            lemma_div_tz_bound((self.mass - other.mass) as int * self.vy as int + 2 * other.mass as int * other.vy as int, total_weight as int);
            lemma_div_tz_bound(2 * self.mass as int * self.vx as int + (other.mass - self.mass) as int * other.vx as int, total_weight as int);
            lemma_div_tz_bound(2 * self.mass as int * self.vy as int + (other.mass - self.mass) as int * other.vy as int, total_weight as int);
        }
        let transform_vx: i64 = div_toward_zero(
            (self.mass - other.mass) * self.vx + 2 * other.mass * other.vx,
            total_weight,
        );
        let other_vx: i64 = div_toward_zero(
            2 * self.mass * self.vx + (other.mass - self.mass) * other.vx,
            total_weight,
        );
        let transform_vy: i64 = div_toward_zero(
            (self.mass - other.mass) * self.vy + 2 * other.mass * other.vy,
            total_weight,
        );
        let other_vy: i64 = div_toward_zero(
            2 * self.mass * self.vy + (other.mass - self.mass) * other.vy,
            total_weight,
        );

        proof {
            let big = 4 * MASS_LIMIT as int * VEL_LIMIT as int;
            crate::math::lemma_abs_mul_bound(transform_vx as int, self.elasticity_fraction as int, big, FRACTION_SCALE as int);
            crate::math::lemma_abs_mul_bound(transform_vy as int, self.elasticity_fraction as int, big, FRACTION_SCALE as int);
            crate::math::lemma_abs_mul_bound(other_vx as int, other.elasticity_fraction as int, big, FRACTION_SCALE as int);
            crate::math::lemma_abs_mul_bound(other_vy as int, other.elasticity_fraction as int, big, FRACTION_SCALE as int);
            lemma_div_tz_bound(transform_vx as int * self.elasticity_fraction as int, FRACTION_SCALE as int);
            lemma_div_tz_bound(transform_vy as int * self.elasticity_fraction as int, FRACTION_SCALE as int);
            lemma_div_tz_bound(other_vx as int * other.elasticity_fraction as int, FRACTION_SCALE as int);
            lemma_div_tz_bound(other_vy as int * other.elasticity_fraction as int, FRACTION_SCALE as int);
        }
        self.vx = clamp_i64(
            div_toward_zero(transform_vx * self.elasticity_fraction, FRACTION_SCALE),
            -VEL_LIMIT,
            VEL_LIMIT,
        );
        self.vy = clamp_i64(
            div_toward_zero(transform_vy * self.elasticity_fraction, FRACTION_SCALE),
            -VEL_LIMIT,
            VEL_LIMIT,
        );
        other.vx = clamp_i64(
            div_toward_zero(other_vx * other.elasticity_fraction, FRACTION_SCALE),
            -VEL_LIMIT,
            VEL_LIMIT,
        );
        other.vy = clamp_i64(
            div_toward_zero(other_vy * other.elasticity_fraction, FRACTION_SCALE),
            -VEL_LIMIT,
            VEL_LIMIT,
        );

        self.move_if_overlaps(other);
        true
    }
}

/// Law: an equal-mass collision at full elasticity exchanges the two
/// velocities exactly, so momentum and kinetic energy are conserved.
pub proof fn lemma_equal_mass_full_elasticity_swap(a: Particle, b: Particle)
    requires
        a.mass == b.mass,
        a.elasticity_fraction == FRACTION_SCALE,
        b.elasticity_fraction == FRACTION_SCALE,
    ensures
        ({
            let (a1, b1) = resolved_velocities(a, b);
            &&& a1.vx == b.vx
            &&& a1.vy == b.vy
            &&& b1.vx == a.vx
            &&& b1.vy == a.vy
        }),
{
    lemma_full_fraction_identity(a.vx as int);
    lemma_full_fraction_identity(a.vy as int);
    lemma_full_fraction_identity(b.vx as int);
    lemma_full_fraction_identity(b.vy as int);
}

/// Law: one axis of an unequal-mass collision at full elasticity conserves
/// momentum up to the rounding of the two truncating divisions, which stays
/// below one unit of combined mass.
#[verifier::rlimit(50)]
pub proof fn lemma_momentum_conserved(ma: int, mb: int, va: int, vb: int)
    requires
        1 <= ma,
        1 <= mb,
    ensures
        abs(ma * resolved_vel_a(ma, mb, va, vb) + mb * resolved_vel_b(ma, mb, va, vb)
            - (ma * va + mb * vb)) < ma + mb,
{
    let s = ma + mb;
    let na = (ma - mb) * va + 2 * mb * vb;
    let nb = 2 * ma * va + (mb - ma) * vb;
    let qa = div_tz(na, s);
    let qb = div_tz(nb, s);
    let ra = rem_tz(na, s);
    let rb = rem_tz(nb, s);
    lemma_div_tz_decompose(na, s);
    lemma_div_tz_decompose(nb, s);
    assert(ma * ((ma - mb) * va + 2 * mb * vb) + mb * (2 * ma * va + (mb - ma) * vb)
        == (ma + mb) * (ma * va + mb * vb)) by (nonlinear_arith);
    assert(ma * na + mb * nb == s * (ma * va + mb * vb));
    assert((ma * qa + mb * qb - (ma * va + mb * vb)) * s == -(ma * ra + mb * rb)) by (nonlinear_arith)
        requires
            na == qa * s + ra,
            nb == qb * s + rb,
            ma * na + mb * nb == s * (ma * va + mb * vb),
            s >= 1,
    ;
    assert(abs(ma * ra + mb * rb) <= s * (s - 1)) by (nonlinear_arith)
        requires
            1 <= ma,
            1 <= mb,
            s == ma + mb,
            abs(ra) < s,
            abs(rb) < s,
    ;
    assert(abs(ma * qa + mb * qb - (ma * va + mb * vb)) < s) by (nonlinear_arith)
        requires
            s >= 1,
            (ma * qa + mb * qb - (ma * va + mb * vb)) * s == -(ma * ra + mb * rb),
            abs(ma * ra + mb * rb) <= s * (s - 1),
    ;
}

/// Law: an unequal-mass collision at full elasticity, when neither resolved
/// velocity reaches the saturation bound, conserves momentum on each axis
/// up to one unit of combined mass.
pub proof fn lemma_collision_momentum(a: Particle, b: Particle)
    requires
        a.wf(),
        b.wf(),
        a.mass != b.mass,
        a.elasticity_fraction == FRACTION_SCALE,
        b.elasticity_fraction == FRACTION_SCALE,
        abs(resolved_vel_a(a.mass as int, b.mass as int, a.vx as int, b.vx as int)) <= VEL_LIMIT,
        abs(resolved_vel_a(a.mass as int, b.mass as int, a.vy as int, b.vy as int)) <= VEL_LIMIT,
        abs(resolved_vel_b(a.mass as int, b.mass as int, a.vx as int, b.vx as int)) <= VEL_LIMIT,
        abs(resolved_vel_b(a.mass as int, b.mass as int, a.vy as int, b.vy as int)) <= VEL_LIMIT,
    ensures
        ({
            let (a1, b1) = resolved_velocities(a, b);
            &&& abs(a.mass * a1.vx + b.mass * b1.vx - (a.mass * a.vx + b.mass * b.vx)) < a.mass + b.mass
            &&& abs(a.mass * a1.vy + b.mass * b1.vy - (a.mass * a.vy + b.mass * b.vy)) < a.mass + b.mass
        }),
{
    let ma = a.mass as int;
    let mb = b.mass as int;
    lemma_full_fraction_identity(resolved_vel_a(ma, mb, a.vx as int, b.vx as int));
    lemma_full_fraction_identity(resolved_vel_a(ma, mb, a.vy as int, b.vy as int));
    lemma_full_fraction_identity(resolved_vel_b(ma, mb, a.vx as int, b.vx as int));
    lemma_full_fraction_identity(resolved_vel_b(ma, mb, a.vy as int, b.vy as int));
    lemma_momentum_conserved(ma, mb, a.vx as int, b.vx as int);
    lemma_momentum_conserved(ma, mb, a.vy as int, b.vy as int);
}

} // verus!
