//! The spatial-partitioning grid: a uniform-cell partition of the arena
//! that owns every particle and drives the discrete per-tick advance.
//!
//! Coordinates map to a flattened "possibility spot" through a two-level
//! scheme: a coarse cell index (`cell_x_index`, `cell_y_index`) and a finer
//! possibility index within the cell; the flattened spot is
//! `possibility_y * possibility_x_count + possibility_x`.  Every particle
//! sits in exactly the spot of its committed position, positions stay
//! clamped inside `[0, width) x [0, height)`, and the stored particle count
//! always equals the sum of all cell lengths.

use vstd::prelude::*;
use crate::force::{Force, valid_force_type, valid_schedule, schedule_end, first_active,
    first_active_from, window_start, scheduled_force_applied};
use crate::particle::{Particle, ParticleAttributes, CollisionData,
    valid_attributes, spec_new_particle, boxes_collide, resolved_pair, bounced,
    unchanged_but_velocity, DIM_LIMIT};
use crate::position::Position;
use crate::math::clamped;
use crate::rng::gen_range_u32;

verus! {

/// How `fill` scatters its particles over the arena.
#[derive(Clone, Copy, Debug, PartialEq, Eq, Structural)]
pub enum FillStyle {
    WhiteNoise,
}

/// Construction parameters of a grid.
pub struct GridOptions {
    pub cell_x_count: usize,
    pub cell_y_count: usize,
    pub possibility_x_count: usize,
    pub possibility_y_count: usize,
    pub possibility_side_length: usize,
    pub position: Position,
    pub forces: Vec<Force>,
}

/// The grid itself; see the module doc for the invariants.
pub struct Grid {
    pub possibility_spots: Vec<Vec<Particle>>,
    pub cell_x_count: usize,
    pub cell_y_count: usize,
    pub possibility_x_count: usize,
    pub possibility_y_count: usize,
    pub possibility_side_length: usize,
    pub position: Position,
    /// Increments each tick and wraps to 0 at `until_frame`.
    pub frame: u32,
    pub until_frame: u32,
    /// Free-running tick counter for cosmetic collaborators.
    pub raw_frame_counter: u32,
    pub width: i64,
    pub height: i64,
    pub cell_width: usize,
    pub cell_height: usize,
    pub particle_count: u32,
    pub forces: Vec<Force>,
}

/// Total number of particles over a sequence of cells.
pub open spec fn total_particles(cells: Seq<Vec<Particle>>) -> int
    decreases cells.len(),
{
    if cells.len() == 0 {
        0
    } else {
        total_particles(cells.drop_last()) + cells.last()@.len()
    }
}

/// Replacing one cell shifts the total by the length difference.
pub proof fn lemma_total_update(cells: Seq<Vec<Particle>>, v: int, t: Vec<Particle>)
    requires
        0 <= v < cells.len(),
    ensures
        total_particles(cells.update(v, t))
            == total_particles(cells) - cells[v]@.len() + t@.len(),
    decreases cells.len(),
{
    let updated = cells.update(v, t);
    if v == cells.len() - 1 {
        assert(updated.drop_last() =~= cells.drop_last());
        assert(updated.last() == t);
    } else {
        lemma_total_update(cells.drop_last(), v, t);
        assert(updated.drop_last() =~= cells.drop_last().update(v, t));
        assert(updated.last() == cells.last());
    }
}

/// Appending a cell adds its length to the total.
pub proof fn lemma_total_push(cells: Seq<Vec<Particle>>, t: Vec<Particle>)
    ensures
        total_particles(cells.push(t)) == total_particles(cells) + t@.len(),
{
    assert(cells.push(t).drop_last() =~= cells);
    assert(cells.push(t).last() == t);
}

impl Grid {
    /// Coarse cell column of an x coordinate.
    pub open spec fn spec_cell_x_index(&self, x: int) -> int {
        x / (self.cell_width as int)
    }

    /// Coarse cell row of a y coordinate.
    pub open spec fn spec_cell_y_index(&self, y: int) -> int {
        y / (self.cell_height as int)
    }

    /// Possibility column within the coarse cell.
    pub open spec fn spec_possibility_x_index(&self, x: int) -> int {
        (x % (self.cell_width as int)) / (self.possibility_side_length as int)
    }

    /// Possibility row within the coarse cell.
    pub open spec fn spec_possibility_y_index(&self, y: int) -> int {
        (y % (self.cell_height as int)) / (self.possibility_side_length as int)
    }

    /// Flattening of a possibility column and row.
    pub open spec fn spec_possibility_index(&self, x_index: int, y_index: int) -> int {
        self.possibility_x_count * y_index + x_index
    }

    /// The flattened spot a coordinate pair belongs to.  The two levels
    /// agree by construction: this is always `spec_possibility_index` of
    /// the two possibility indices.
    pub open spec fn spec_spot_index(&self, x: int, y: int) -> int {
        self.spec_possibility_index(
            self.spec_possibility_x_index(x),
            self.spec_possibility_y_index(y),
        )
    }

    /// The flattened coarse cell a coordinate pair belongs to; `fill`
    /// keeps these unique within each possibility spot.
    pub open spec fn spec_coarse_index(&self, x: int, y: int) -> int {
        self.spec_cell_y_index(y) * self.cell_x_count + self.spec_cell_x_index(x)
    }

    /// Fixed-at-construction dimension facts.
    pub open spec fn dims_wf(&self) -> bool {
        &&& 1 <= self.cell_x_count
        &&& 1 <= self.cell_y_count
        &&& 1 <= self.possibility_x_count
        &&& 1 <= self.possibility_y_count
        &&& 1 <= self.possibility_side_length
        &&& self.cell_width == self.possibility_x_count * self.possibility_side_length
        &&& self.cell_height == self.possibility_y_count * self.possibility_side_length
        &&& self.width == self.cell_x_count * self.cell_width
        &&& self.height == self.cell_y_count * self.cell_height
        &&& 1 <= self.cell_width && self.cell_width as int <= self.width as int
        &&& 1 <= self.cell_height && self.cell_height as int <= self.height as int
        &&& self.possibility_side_length <= self.cell_width
        &&& self.possibility_side_length <= self.cell_height
        &&& self.width <= DIM_LIMIT
        &&& self.height <= DIM_LIMIT
        &&& self.cell_x_count * self.cell_y_count <= 0xFFFF_FFFF
        &&& self.possibility_spots@.len() == self.possibility_x_count * self.possibility_y_count
    }

    /// Particle `j` of spot `v` is well formed, inside the arena, smaller
    /// than one possibility cell, and stored in the spot of its position.
    pub open spec fn placed_ok(&self, v: int, j: int) -> bool {
        let p = self.possibility_spots@[v]@[j];
        &&& p.wf()
        &&& p.in_bounds(self.width as int, self.height as int)
        &&& p.diameter < self.possibility_side_length
        &&& self.spec_spot_index(p.x as int, p.y as int) == v
    }

    /// Every particle of spot `v` is placed correctly.
    pub open spec fn cell_ok(&self, v: int) -> bool {
        forall|j: int| 0 <= j < self.possibility_spots@[v]@.len() ==> #[trigger] self.placed_ok(v, j)
    }

    /// Everything of the invariant except the particle count tie, which
    /// is briefly broken while a tick moves particles between buffers.
    pub open spec fn core_wf(&self) -> bool {
        &&& self.dims_wf()
        &&& valid_schedule(self.forces@)
        &&& self.until_frame as int == if self.forces@.len() == 0 {
            u32::MAX as int
        } else {
            schedule_end(self.forces@)
        }
        &&& forall|v: int| 0 <= v < self.possibility_spots@.len() ==> #[trigger] self.cell_ok(v)
    }

    /// The grid's whole invariant.
    pub open spec fn wf(&self) -> bool {
        &&& self.core_wf()
        &&& self.particle_count as int == total_particles(self.possibility_spots@)
    }

    /// All index computations of an in-bounds coordinate stay in range.
    pub proof fn lemma_index_bounds(&self, x: int, y: int)
        requires
            self.dims_wf(),
            0 <= x < self.width,
            0 <= y < self.height,
        ensures
            0 <= self.spec_cell_x_index(x) < self.cell_x_count,
            0 <= self.spec_cell_y_index(y) < self.cell_y_count,
            0 <= self.spec_possibility_x_index(x) < self.possibility_x_count,
            0 <= self.spec_possibility_y_index(y) < self.possibility_y_count,
            0 <= self.spec_spot_index(x, y) < self.possibility_spots@.len(),
            0 <= self.spec_coarse_index(x, y) < self.cell_x_count * self.cell_y_count,
    {
        let cw = self.cell_width as int;
        let ch = self.cell_height as int;
        let s = self.possibility_side_length as int;
        vstd::arithmetic::div_mod::lemma_div_pos_is_pos(x, cw);
        vstd::arithmetic::div_mod::lemma_div_pos_is_pos(y, ch);
        let cxc = self.cell_x_count as int;
        let cyc = self.cell_y_count as int;
        let pxc = self.possibility_x_count as int;
        let pyc = self.possibility_y_count as int;
        assert(cw * cxc == cxc * cw && ch * cyc == cyc * ch && s * pxc == pxc * s
            && s * pyc == pyc * s) by (nonlinear_arith);
        vstd::arithmetic::div_mod::lemma_multiply_divide_lt(x, cw, self.cell_x_count as int);
        vstd::arithmetic::div_mod::lemma_multiply_divide_lt(y, ch, self.cell_y_count as int);
        vstd::arithmetic::div_mod::lemma_mod_division_less_than_divisor(x, cw);
        vstd::arithmetic::div_mod::lemma_mod_division_less_than_divisor(y, ch);
        vstd::arithmetic::div_mod::lemma_div_pos_is_pos(x % cw, s);
        vstd::arithmetic::div_mod::lemma_div_pos_is_pos(y % ch, s);
        vstd::arithmetic::div_mod::lemma_multiply_divide_lt(x % cw, s, self.possibility_x_count as int);
        vstd::arithmetic::div_mod::lemma_multiply_divide_lt(y % ch, s, self.possibility_y_count as int);
        let pxi = self.spec_possibility_x_index(x);
        let pyi = self.spec_possibility_y_index(y);
        assert(pxc * pyi + pxi < pxc * pyc) by (nonlinear_arith)
            requires
                0 <= pxi < pxc,
                0 <= pyi < pyc,
        ;
        let cxi = self.spec_cell_x_index(x);
        let cyi = self.spec_cell_y_index(y);
        assert(0 <= cyi * cxc + cxi < cxc * cyc) by (nonlinear_arith)
            requires
                0 <= cxi < cxc,
                0 <= cyi < cyc,
        ;
    }

    pub fn cell_x_index(&self, x_coord: i64) -> (r: usize)
        requires
            self.dims_wf(),
            0 <= x_coord < self.width,
        ensures
            r == self.spec_cell_x_index(x_coord as int),
            r < self.cell_x_count,
    {
        proof {
            self.lemma_index_bounds(x_coord as int, 0);
        }
        (x_coord as usize) / self.cell_width
    }

    pub fn cell_y_index(&self, y_coord: i64) -> (r: usize)
        requires
            self.dims_wf(),
            0 <= y_coord < self.height,
        ensures
            r == self.spec_cell_y_index(y_coord as int),
            r < self.cell_y_count,
    {
        proof {
            self.lemma_index_bounds(0, y_coord as int);
        }
        (y_coord as usize) / self.cell_height
    }

    pub fn possibility_x_index(&self, x_coord: i64) -> (r: usize)
        requires
            self.dims_wf(),
            0 <= x_coord < self.width,
        ensures
            r == self.spec_possibility_x_index(x_coord as int),
            r < self.possibility_x_count,
    {
        proof {
            self.lemma_index_bounds(x_coord as int, 0);
        }
        let x_residual: usize = (x_coord as usize) % self.cell_width;
        x_residual / self.possibility_side_length
    }

    pub fn possibility_y_index(&self, y_coord: i64) -> (r: usize)
        requires
            self.dims_wf(),
            0 <= y_coord < self.height,
        ensures
            r == self.spec_possibility_y_index(y_coord as int),
            r < self.possibility_y_count,
    {
        proof {
            self.lemma_index_bounds(0, y_coord as int);
        }
        let y_residual: usize = (y_coord as usize) % self.cell_height;
        y_residual / self.possibility_side_length
    }

    pub fn possibility_index(&self, x_index: usize, y_index: usize) -> (r: usize)
        requires
            self.dims_wf(),
            x_index < self.possibility_x_count,
            y_index < self.possibility_y_count,
        ensures
            r == self.spec_possibility_index(x_index as int, y_index as int),
            r < self.possibility_spots@.len(),
    {
        let spot_count: usize = self.possibility_spots.len();
        proof {
            let xi = x_index as int;
            let yi = y_index as int;
            let pxc = self.possibility_x_count as int;
            let pyc = self.possibility_y_count as int;
            assert(pxc * yi + xi < pxc * pyc) by (nonlinear_arith)
                requires
                    0 <= xi < pxc,
                    0 <= yi < pyc,
            ;
            assert(pxc * pyc == spot_count as int);
        }
        self.possibility_x_count * y_index + x_index
    }

    /// The spot a particle's committed position belongs to.
    pub fn vec_spot_particle(&self, particle: &Particle) -> (r: usize)
        requires
            self.dims_wf(),
            particle.wf(),
            particle.in_bounds(self.width as int, self.height as int),
        ensures
            r == self.spec_spot_index(particle.x as int, particle.y as int),
            r < self.possibility_spots@.len(),
    {
        let new_x_spot = self.possibility_x_index(particle.x);
        let new_y_spot = self.possibility_y_index(particle.y);
        self.possibility_index(new_x_spot, new_y_spot)
    }

    pub fn new(options: GridOptions) -> (grid: Grid)
        requires
            1 <= options.cell_x_count,
            1 <= options.cell_y_count,
            1 <= options.possibility_x_count,
            1 <= options.possibility_y_count,
            1 <= options.possibility_side_length,
            options.cell_x_count * options.possibility_x_count * options.possibility_side_length <= DIM_LIMIT,
            options.cell_y_count * options.possibility_y_count * options.possibility_side_length <= DIM_LIMIT,
            options.possibility_x_count * options.possibility_y_count <= 0xFFFF_FFFF,
            options.cell_x_count * options.cell_y_count <= 0xFFFF_FFFF,
            valid_schedule(options.forces@),
        ensures
            grid.wf(),
            grid.cell_x_count == options.cell_x_count,
            grid.cell_y_count == options.cell_y_count,
            grid.possibility_x_count == options.possibility_x_count,
            grid.possibility_y_count == options.possibility_y_count,
            grid.possibility_side_length == options.possibility_side_length,
            grid.position == options.position,
            grid.forces@ == options.forces@,
            grid.frame == 0,
            grid.raw_frame_counter == 0,
            grid.particle_count == 0,
            grid.cell_width == options.possibility_x_count * options.possibility_side_length,
            grid.cell_height == options.possibility_y_count * options.possibility_side_length,
            grid.width as int == options.cell_x_count * grid.cell_width,
            grid.height as int == options.cell_y_count * grid.cell_height,
            forall|v: int| 0 <= v < grid.possibility_spots@.len()
                ==> #[trigger] grid.possibility_spots@[v]@.len() == 0,
    {
        let GridOptions {
            cell_x_count,
            cell_y_count,
            possibility_x_count,
            possibility_y_count,
            possibility_side_length,
            position,
            forces,
        } = options;
        proof {
            assert(possibility_x_count * possibility_side_length
                <= cell_x_count * possibility_x_count * possibility_side_length
                && cell_x_count * (possibility_x_count * possibility_side_length)
                    == cell_x_count * possibility_x_count * possibility_side_length
                && possibility_side_length <= possibility_x_count * possibility_side_length
                && 1 <= possibility_x_count * possibility_side_length) by (nonlinear_arith)
                requires
                    1 <= cell_x_count as int,
                    1 <= possibility_x_count as int,
                    1 <= possibility_side_length as int,
            ;
            assert(possibility_y_count * possibility_side_length
                <= cell_y_count * possibility_y_count * possibility_side_length
                && cell_y_count * (possibility_y_count * possibility_side_length)
                    == cell_y_count * possibility_y_count * possibility_side_length
                && possibility_side_length <= possibility_y_count * possibility_side_length
                && 1 <= possibility_y_count * possibility_side_length) by (nonlinear_arith)
                requires
                    1 <= cell_y_count as int,
                    1 <= possibility_y_count as int,
                    1 <= possibility_side_length as int,
            ;
        }
        let cell_width: usize = possibility_x_count * possibility_side_length;
        let cell_height: usize = possibility_y_count * possibility_side_length;
        proof {
            assert(cell_width as int <= cell_x_count as int * cell_width as int
                && cell_height as int <= cell_y_count as int * cell_height as int) by (nonlinear_arith)
                requires
                    1 <= cell_x_count as int,
                    1 <= cell_y_count as int,
                    0 <= cell_width as int,
                    0 <= cell_height as int,
            ;
        }
        let width: i64 = (cell_x_count * cell_width) as i64;
        let height: i64 = (cell_y_count * cell_height) as i64;
        let possibility_spots = create_possibility_grid(possibility_x_count, possibility_y_count);

        let until_frame: u32 = if forces.len() > 0 {
            forces[forces.len() - 1].until_frame
        } else {
            u32::MAX
        };

        Grid {
            cell_x_count,
            cell_y_count,
            possibility_x_count,
            possibility_y_count,
            possibility_side_length,
            position,
            width,
            height,
            possibility_spots,
            cell_width,
            cell_height,
            frame: 0,
            raw_frame_counter: 0,
            particle_count: 0,
            until_frame,
            forces,
        }
    }
}

/// Everything fixed at construction agrees between the two grids; the
/// cells, the counters and the particle count may differ.
pub open spec fn same_layout(a: Grid, b: Grid) -> bool {
    &&& b.cell_x_count == a.cell_x_count
    &&& b.cell_y_count == a.cell_y_count
    &&& b.possibility_x_count == a.possibility_x_count
    &&& b.possibility_y_count == a.possibility_y_count
    &&& b.possibility_side_length == a.possibility_side_length
    &&& b.position == a.position
    &&& b.until_frame == a.until_frame
    &&& b.width == a.width
    &&& b.height == a.height
    &&& b.cell_width == a.cell_width
    &&& b.cell_height == a.cell_height
    &&& b.forces@ == a.forces@
}

/// `same_layout`, and the tick counters agree too: only the cells and the
/// particle count may differ.
pub open spec fn same_config(a: Grid, b: Grid) -> bool {
    &&& same_layout(a, b)
    &&& b.frame == a.frame
    &&& b.raw_frame_counter == a.raw_frame_counter
}

impl Grid {
    /// Flattened coarse cell of particle `j` in spot `v`.
    pub open spec fn particle_coarse(&self, v: int, j: int) -> int {
        let p = self.possibility_spots@[v]@[j];
        self.spec_coarse_index(p.x as int, p.y as int)
    }

    /// Some particle of spot `v` occupies the coarse cell `k`.
    pub open spec fn spot_coarse_taken(&self, v: int, k: int) -> bool {
        exists|j: int| 0 <= j < self.possibility_spots@[v]@.len()
            && #[trigger] self.particle_coarse(v, j) == k
    }

    /// The spot of `(x, y)` already holds a particle of the same coarse
    /// cell; `fill` rejects such a placement.
    pub open spec fn spec_possibility_taken(&self, x: int, y: int) -> bool {
        self.spot_coarse_taken(self.spec_spot_index(x, y), self.spec_coarse_index(x, y))
    }

    /// No spot holds two particles of the same coarse cell: the
    /// collision-free seeding `fill` establishes and preserves.
    pub open spec fn seeded_distinct(&self) -> bool {
        forall|v: int, j1: int, j2: int|
            0 <= v < self.possibility_spots@.len()
            && 0 <= j1 < self.possibility_spots@[v]@.len()
            && 0 <= j2 < self.possibility_spots@[v]@.len()
            && j1 != j2
            ==> #[trigger] self.particle_coarse(v, j1) != #[trigger] self.particle_coarse(v, j2)
    }

    /// Flattened coarse cell index of a coordinate pair.
    pub fn coarse_index(&self, x_coord: i64, y_coord: i64) -> (r: usize)
        requires
            self.dims_wf(),
            0 <= x_coord < self.width,
            0 <= y_coord < self.height,
        ensures
            r == self.spec_coarse_index(x_coord as int, y_coord as int),
            r < self.cell_x_count * self.cell_y_count,
    {
        proof {
            self.lemma_index_bounds(x_coord as int, y_coord as int);
        }
        let cx = self.cell_x_index(x_coord);
        let cy = self.cell_y_index(y_coord);
        proof {
            let cxc = self.cell_x_count as int;
            let cyc = self.cell_y_count as int;
            let cxi = cx as int;
            let cyi = cy as int;
            assert(cyi * cxc + cxi < cxc * cyc) by (nonlinear_arith)
                requires
                    0 <= cxi < cxc,
                    0 <= cyi < cyc,
            ;
        }
        cy * self.cell_x_count + cx
    }

    /// Whether spot `v` already holds a particle of coarse cell `k`.
    fn coarse_taken_in_spot(&self, v: usize, k: usize) -> (taken: bool)
        requires
            self.wf(),
            v < self.possibility_spots@.len(),
        ensures
            taken == self.spot_coarse_taken(v as int, k as int),
    {
        let cell_len: usize = self.possibility_spots[v].len();
        let mut j: usize = 0;
        while j < cell_len
            invariant
                self.wf(),
                v < self.possibility_spots@.len(),
                cell_len == self.possibility_spots@[v as int]@.len(),
                j <= cell_len,
                forall|j0: int| 0 <= j0 < j ==> #[trigger] self.particle_coarse(v as int, j0) != k,
            decreases cell_len - j,
        {
            proof {
                assert(self.cell_ok(v as int));
                assert(self.placed_ok(v as int, j as int));
            }
            let p = &self.possibility_spots[v][j];
            let p_coarse = self.coarse_index(p.x, p.y);
            if p_coarse == k {
                proof {
                    assert(self.particle_coarse(v as int, j as int) == k);
                }
                return true;
            }
            j = j + 1;
        }
        false
    }

    /// Whether the possibility spot of `(x, y)` already holds a particle
    /// occupying the same coarse cell.
    pub fn possibility_taken(&self, x_coord: i64, y_coord: i64) -> (taken: bool)
        requires
            self.wf(),
            0 <= x_coord < self.width,
            0 <= y_coord < self.height,
        ensures
            taken == self.spec_possibility_taken(x_coord as int, y_coord as int),
    {
        proof {
            self.lemma_index_bounds(x_coord as int, y_coord as int);
        }
        let poss_x_index = self.possibility_x_index(x_coord);
        let poss_y_index = self.possibility_y_index(y_coord);
        let v = self.possibility_index(poss_x_index, poss_y_index);
        let k = self.coarse_index(x_coord, y_coord);
        self.coarse_taken_in_spot(v, k)
    }

    /// Place a new particle of the given attributes at `(x, y)`, clamped
    /// into the arena first, in the spot of the clamped position.
    pub fn add_particle(&mut self, x_coord: i64, y_coord: i64, attributes: &ParticleAttributes)
        requires
            old(self).wf(),
            valid_attributes(*attributes),
            attributes.diameter < old(self).possibility_side_length,
            old(self).particle_count < u32::MAX,
        ensures
            final(self).wf(),
            same_config(*old(self), *final(self)),
            final(self).particle_count == old(self).particle_count + 1,
            final(self).possibility_spots@.len() == old(self).possibility_spots@.len(),
            ({
                let w = old(self).width as int;
                let h = old(self).height as int;
                let d = attributes.diameter as int;
                let cx = clamped(x_coord as int, 0, w - d - 1);
                let cy = clamped(y_coord as int, 0, h - d - 1);
                let p = spec_new_particle(cx as i64, cy as i64, *attributes);
                let idx = old(self).spec_spot_index(cx, cy);
                &&& final(self).possibility_spots@[idx]@
                    == old(self).possibility_spots@[idx]@.push(p)
                &&& forall|v: int| 0 <= v < old(self).possibility_spots@.len() && v != idx
                    ==> #[trigger] final(self).possibility_spots@[v] == old(self).possibility_spots@[v]
            }),
    {
        let x_clamped = crate::math::clamp_i64(x_coord, 0, self.width - attributes.diameter - 1);
        let y_clamped = crate::math::clamp_i64(y_coord, 0, self.height - attributes.diameter - 1);
        let particle = Particle::new(x_clamped, y_clamped, attributes);
        let poss_x_index = self.possibility_x_index(x_clamped);
        let poss_y_index = self.possibility_y_index(y_clamped);
        let poss_index = self.possibility_index(poss_x_index, poss_y_index);
        let ghost old_spots = self.possibility_spots@;
        let cell = &mut self.possibility_spots[poss_index];
        cell.push(particle);
        proof {
            assert(self.possibility_spots@ =~= old_spots.update(poss_index as int, self.possibility_spots@[poss_index as int]));
            lemma_total_update(old_spots, poss_index as int, self.possibility_spots[poss_index as int]);
        }
        self.particle_count = self.particle_count + 1;
        proof {
            let g1 = *old(self);
            let g2 = *self;
            let idx = poss_index as int;
            assert forall|v: int| 0 <= v < g2.possibility_spots@.len() implies #[trigger] g2.cell_ok(v) by {
                assert(g1.cell_ok(v));
                if v == idx {
                    assert forall|j: int| 0 <= j < g2.possibility_spots@[v]@.len()
                        implies #[trigger] g2.placed_ok(v, j) by {
                        if j < g1.possibility_spots@[v]@.len() {
                            assert(g1.placed_ok(v, j));
                        } else {
                            assert(g2.possibility_spots@[v]@[j] == particle);
                        }
                    }
                } else {
                    assert forall|j: int| 0 <= j < g2.possibility_spots@[v]@.len()
                        implies #[trigger] g2.placed_ok(v, j) by {
                        assert(g1.placed_ok(v, j));
                    }
                }
            }
        }
    }
}

impl Grid {
    /// Number of coarse cells.
    pub open spec fn coarse_total(&self) -> int {
        self.cell_x_count * self.cell_y_count
    }

    /// Number of (spot, coarse cell) combinations: the seeding capacity.
    pub open spec fn combo_total(&self) -> int {
        self.possibility_spots@.len() * self.coarse_total()
    }

    /// Combination `c` encodes spot `c / coarse_total` and coarse cell
    /// `c % coarse_total`; free when no particle of that spot occupies
    /// that coarse cell.
    pub open spec fn combo_free(&self, c: int) -> bool {
        !self.spot_coarse_taken(c / self.coarse_total(), c % self.coarse_total())
    }

    /// How many combinations at or after `c` are free.
    pub open spec fn free_count_from(&self, c: int) -> int
        decreases self.combo_total() - c when c <= self.combo_total()
    {
        if c < 0 || c >= self.combo_total() {
            0
        } else {
            (if self.combo_free(c) {
                1int
            } else {
                0int
            }) + self.free_count_from(c + 1)
        }
    }

    /// How many placements `fill` can still make.
    pub open spec fn free_spot_count(&self) -> int {
        self.free_count_from(0)
    }

    /// The free count never goes negative.
    pub proof fn lemma_free_count_nonneg(&self, c: int)
        requires
            c <= self.combo_total(),
        ensures
            self.free_count_from(c) >= 0,
        decreases self.combo_total() - c,
    {
        if 0 <= c < self.combo_total() {
            self.lemma_free_count_nonneg(c + 1);
        }
    }

    /// The combination index decomposes back into its spot and coarse
    /// cell, and stays inside the capacity.
    pub proof fn lemma_combo_encode(&self, v: int, k: int)
        requires
            0 <= v < self.possibility_spots@.len(),
            0 <= k < self.coarse_total(),
        ensures
            (v * self.coarse_total() + k) / self.coarse_total() == v,
            (v * self.coarse_total() + k) % self.coarse_total() == k,
            0 <= v * self.coarse_total() + k < self.combo_total(),
    {
        let ct = self.coarse_total();
        vstd::arithmetic::div_mod::lemma_fundamental_div_mod_converse(v * ct + k, ct, v, k);
        assert(0 <= v * ct + k && v * ct + k < self.possibility_spots@.len() * ct) by (nonlinear_arith)
            requires
                0 <= v < self.possibility_spots@.len(),
                0 <= k < ct,
        ;
    }

    /// Bounds of the decomposition of any in-range combination index.
    proof fn lemma_combo_decode(&self, c: int)
        requires
            self.dims_wf(),
            0 <= c < self.combo_total(),
        ensures
            0 <= c / self.coarse_total() < self.possibility_spots@.len(),
            0 <= c % self.coarse_total() < self.coarse_total(),
            c == (c / self.coarse_total()) * self.coarse_total() + c % self.coarse_total(),
    {
        let ct = self.coarse_total();
        let cxc = self.cell_x_count as int;
        let cyc = self.cell_y_count as int;
        assert(1 <= cxc * cyc) by (nonlinear_arith)
            requires
                1 <= cxc,
                1 <= cyc,
        ;
        assert(1 <= ct);
        vstd::arithmetic::div_mod::lemma_div_pos_is_pos(c, ct);
        assert(ct * (self.possibility_spots@.len() as int) == (self.possibility_spots@.len() as int) * ct) by (nonlinear_arith);
        vstd::arithmetic::div_mod::lemma_multiply_divide_lt(c, ct, self.possibility_spots@.len() as int);
        vstd::arithmetic::div_mod::lemma_mod_division_less_than_divisor(c, ct);
        vstd::arithmetic::div_mod::lemma_fundamental_div_mod(c, ct);
        assert(c == ct * (c / ct) + c % ct);
        assert(ct * (c / ct) == (c / ct) * ct) by (nonlinear_arith);
    }
}

/// Placing one particle into a free combination takes exactly that
/// combination: every free count over a suffix drops by one when the
/// placed combination lies in the suffix, and is unchanged otherwise.
pub proof fn lemma_free_count_place(g1: Grid, g2: Grid, v0: int, k0: int, p: Particle, c: int)
    requires
        g1.dims_wf(),
        same_config(g1, g2),
        g2.possibility_spots@.len() == g1.possibility_spots@.len(),
        0 <= v0 < g1.possibility_spots@.len(),
        0 <= k0 < g1.coarse_total(),
        g2.possibility_spots@[v0]@ == g1.possibility_spots@[v0]@.push(p),
        g1.spec_coarse_index(p.x as int, p.y as int) == k0,
        forall|v: int| 0 <= v < g1.possibility_spots@.len() && v != v0
            ==> #[trigger] g2.possibility_spots@[v] == g1.possibility_spots@[v],
        !g1.spot_coarse_taken(v0, k0),
        0 <= c <= g1.combo_total(),
    ensures
        g2.free_count_from(c) == g1.free_count_from(c)
            - if c <= v0 * g1.coarse_total() + k0 { 1int } else { 0int },
    decreases g1.combo_total() - c,
{
    let ct = g1.coarse_total();
    let c0 = v0 * ct + k0;
    g1.lemma_combo_encode(v0, k0);
    assert(g2.coarse_total() == ct);
    assert(g2.combo_total() == g1.combo_total());
    if c == g1.combo_total() {
        assert(c0 < c);
    } else {
        lemma_free_count_place(g1, g2, v0, k0, p, c + 1);
        g1.lemma_combo_decode(c);
        let v = c / ct;
        let k = c % ct;
        let len1 = g1.possibility_spots@[v0]@.len() as int;
        if c == c0 {
            assert(v == v0 && k == k0);
            assert(g1.combo_free(c));
            assert(g2.particle_coarse(v0, len1) == k0) by {
                assert(g2.possibility_spots@[v0]@[len1] == p);
                assert(g2.spec_coarse_index(p.x as int, p.y as int)
                    == g1.spec_coarse_index(p.x as int, p.y as int));
            }
            assert(g2.spot_coarse_taken(v0, k0));
            assert(!g2.combo_free(c));
        } else {
            if v == v0 {
                assert(k != k0);
                if g1.spot_coarse_taken(v, k) {
                    let j = choose|j: int| 0 <= j < g1.possibility_spots@[v]@.len()
                        && #[trigger] g1.particle_coarse(v, j) == k;
                    assert(g2.possibility_spots@[v]@[j] == g1.possibility_spots@[v]@[j]);
                    assert(g2.particle_coarse(v, j) == k);
                    assert(g2.spot_coarse_taken(v, k));
                }
                if g2.spot_coarse_taken(v, k) {
                    let j = choose|j: int| 0 <= j < g2.possibility_spots@[v]@.len()
                        && #[trigger] g2.particle_coarse(v, j) == k;
                    if j < len1 {
                        assert(g2.possibility_spots@[v]@[j] == g1.possibility_spots@[v]@[j]);
                        assert(g1.particle_coarse(v, j) == k);
                        assert(g1.spot_coarse_taken(v, k));
                    } else {
                        assert(g2.possibility_spots@[v]@[j] == p);
                        assert(g2.particle_coarse(v, j) == k0);
                        assert(false);
                    }
                }
            } else {
                assert(g2.possibility_spots@[v] == g1.possibility_spots@[v]);
                if g1.spot_coarse_taken(v, k) {
                    let j = choose|j: int| 0 <= j < g1.possibility_spots@[v]@.len()
                        && #[trigger] g1.particle_coarse(v, j) == k;
                    assert(g2.particle_coarse(v, j) == k);
                }
                if g2.spot_coarse_taken(v, k) {
                    let j = choose|j: int| 0 <= j < g2.possibility_spots@[v]@.len()
                        && #[trigger] g2.particle_coarse(v, j) == k;
                    assert(g1.particle_coarse(v, j) == k);
                }
            }
            assert(g2.combo_free(c) == g1.combo_free(c));
        }
    }
}

/// Placing a particle into a free combination keeps coarse cells unique
/// within every spot.
pub proof fn lemma_seeded_place(g1: Grid, g2: Grid, v0: int, k0: int, p: Particle)
    requires
        same_config(g1, g2),
        g2.possibility_spots@.len() == g1.possibility_spots@.len(),
        0 <= v0 < g1.possibility_spots@.len(),
        g2.possibility_spots@[v0]@ == g1.possibility_spots@[v0]@.push(p),
        g1.spec_coarse_index(p.x as int, p.y as int) == k0,
        forall|v: int| 0 <= v < g1.possibility_spots@.len() && v != v0
            ==> #[trigger] g2.possibility_spots@[v] == g1.possibility_spots@[v],
        !g1.spot_coarse_taken(v0, k0),
        g1.seeded_distinct(),
    ensures
        g2.seeded_distinct(),
{
    let len1 = g1.possibility_spots@[v0]@.len() as int;
    assert forall|v: int, j1: int, j2: int|
        0 <= v < g2.possibility_spots@.len()
        && 0 <= j1 < g2.possibility_spots@[v]@.len()
        && 0 <= j2 < g2.possibility_spots@[v]@.len()
        && j1 != j2
        implies #[trigger] g2.particle_coarse(v, j1) != #[trigger] g2.particle_coarse(v, j2) by {
        if v == v0 {
            if j1 < len1 && j2 < len1 {
                assert(g2.possibility_spots@[v]@[j1] == g1.possibility_spots@[v]@[j1]);
                assert(g2.possibility_spots@[v]@[j2] == g1.possibility_spots@[v]@[j2]);
                assert(g1.particle_coarse(v, j1) != g1.particle_coarse(v, j2));
            } else if j1 == len1 {
                assert(g2.possibility_spots@[v]@[j1] == p);
                assert(g2.possibility_spots@[v]@[j2] == g1.possibility_spots@[v]@[j2]);
                assert(g1.particle_coarse(v, j2) != k0);
            } else {
                assert(g2.possibility_spots@[v]@[j2] == p);
                assert(g2.possibility_spots@[v]@[j1] == g1.possibility_spots@[v]@[j1]);
                assert(g1.particle_coarse(v, j1) != k0);
            }
        } else {
            assert(g2.possibility_spots@[v] == g1.possibility_spots@[v]);
            assert(g1.particle_coarse(v, j1) != g1.particle_coarse(v, j2));
        }
    }
}

impl Grid {
    /// On a grid whose cells are all empty, every combination is free.
    pub proof fn lemma_empty_free_count(&self, c: int)
        requires
            self.dims_wf(),
            forall|v: int| 0 <= v < self.possibility_spots@.len()
                ==> #[trigger] self.possibility_spots@[v]@.len() == 0,
            0 <= c <= self.combo_total(),
        ensures
            self.free_count_from(c) == self.combo_total() - c,
        decreases self.combo_total() - c,
    {
        if c < self.combo_total() {
            self.lemma_empty_free_count(c + 1);
            self.lemma_combo_decode(c);
            assert(self.possibility_spots@[c / self.coarse_total()]@.len() == 0);
            assert(self.combo_free(c));
        }
    }

    /// A freshly built grid can seed its full capacity.
    pub proof fn lemma_empty_grid_capacity(&self)
        requires
            self.dims_wf(),
            forall|v: int| 0 <= v < self.possibility_spots@.len()
                ==> #[trigger] self.possibility_spots@[v]@.len() == 0,
        ensures
            self.free_spot_count() == self.combo_total(),
    {
        self.lemma_empty_free_count(0);
    }
}

impl Grid {
    /// Put one particle of the given attributes into the first free
    /// (spot, coarse cell) combination; the capacity precondition
    /// guarantees one exists, so exactly one particle is always placed.
    fn place_in_first_free(&mut self, attributes: &ParticleAttributes)
        requires
            old(self).wf(),
            valid_attributes(*attributes),
            attributes.diameter < old(self).possibility_side_length,
            old(self).particle_count < u32::MAX,
            1 <= old(self).free_spot_count(),
        ensures
            final(self).wf(),
            same_config(*old(self), *final(self)),
            final(self).possibility_spots@.len() == old(self).possibility_spots@.len(),
            final(self).particle_count == old(self).particle_count + 1,
            final(self).free_spot_count() == old(self).free_spot_count() - 1,
            old(self).seeded_distinct() ==> final(self).seeded_distinct(),
    {
        let spot_count: usize = self.possibility_spots.len();
        let ct: usize = self.cell_x_count * self.cell_y_count;
        let mut v: usize = 0;
        while v < spot_count
            invariant
                self.wf(),
                *self == *old(self),
                1 <= old(self).free_spot_count(),
                old(self).particle_count < u32::MAX,
                valid_attributes(*attributes),
                attributes.diameter < self.possibility_side_length,
                v <= spot_count,
                spot_count == self.possibility_spots@.len(),
                ct == self.coarse_total(),
                self.free_count_from(v as int * ct as int) == self.free_spot_count(),
            decreases spot_count - v,
        {
            let mut k: usize = 0;
            while k < ct
                invariant
                    self.wf(),
                    *self == *old(self),
                    1 <= old(self).free_spot_count(),
                    old(self).particle_count < u32::MAX,
                    valid_attributes(*attributes),
                    attributes.diameter < self.possibility_side_length,
                    v < spot_count,
                    spot_count == self.possibility_spots@.len(),
                    ct == self.coarse_total(),
                    k <= ct,
                    self.free_count_from(v as int * ct as int + k as int) == self.free_spot_count(),
                decreases ct - k,
            {
                if !self.coarse_taken_in_spot(v, k) {
                    self.place_at_combo(v, k, attributes);
                    return ;
                }
                proof {
                    self.lemma_combo_encode(v as int, k as int);
                }
                k = k + 1;
            }
            proof {
                let vi = v as int;
                let cti = ct as int;
                assert(vi * cti + cti == (vi + 1) * cti) by (nonlinear_arith);
            }
            v = v + 1;
        }
        proof {
            assert(spot_count as int * ct as int == self.combo_total());
            assert(self.free_spot_count() == 0);
            assert(false);
        }
    }

    /// Place a new particle of the given attributes into the free
    /// combination of spot `v` and coarse cell `k`, at that region's
    /// upper-left corner.
    fn place_at_combo(&mut self, v: usize, k: usize, attributes: &ParticleAttributes)
        requires
            old(self).wf(),
            valid_attributes(*attributes),
            attributes.diameter < old(self).possibility_side_length,
            old(self).particle_count < u32::MAX,
            v < old(self).possibility_spots@.len(),
            k < old(self).coarse_total(),
            !old(self).spot_coarse_taken(v as int, k as int),
        ensures
            final(self).wf(),
            same_config(*old(self), *final(self)),
            final(self).possibility_spots@.len() == old(self).possibility_spots@.len(),
            final(self).particle_count == old(self).particle_count + 1,
            final(self).free_spot_count() == old(self).free_spot_count() - 1,
            old(self).seeded_distinct() ==> final(self).seeded_distinct(),
    {
        let cell_x: usize = k % self.cell_x_count;
        let cell_y: usize = k / self.cell_x_count;
        let poss_x: usize = v % self.possibility_x_count;
        let poss_y: usize = v / self.possibility_x_count;
        proof {
            let cxc = self.cell_x_count as int;
            let cyc = self.cell_y_count as int;
            let pxc = self.possibility_x_count as int;
            let pyc = self.possibility_y_count as int;
            vstd::arithmetic::div_mod::lemma_mod_division_less_than_divisor(k as int, cxc);
            vstd::arithmetic::div_mod::lemma_div_pos_is_pos(k as int, cxc);
            assert(cxc * cyc == self.coarse_total());
            vstd::arithmetic::div_mod::lemma_multiply_divide_lt(k as int, cxc, cyc);
            vstd::arithmetic::div_mod::lemma_mod_division_less_than_divisor(v as int, pxc);
            vstd::arithmetic::div_mod::lemma_div_pos_is_pos(v as int, pxc);
            assert(pxc * pyc == self.possibility_spots@.len() as int);
            vstd::arithmetic::div_mod::lemma_multiply_divide_lt(v as int, pxc, pyc);
            let cw = self.cell_width as int;
            let ch = self.cell_height as int;
            let s = self.possibility_side_length as int;
            assert(cell_x as int * cw + poss_x as int * s <= self.width as int - s
                && 0 <= poss_x as int * s
                && poss_x as int * s < cw
                && cell_y as int * ch + poss_y as int * s <= self.height as int - s
                && 0 <= poss_y as int * s
                && poss_y as int * s < ch) by (nonlinear_arith)
                requires
                    0 <= cell_x as int <= cxc - 1,
                    0 <= cell_y as int <= cyc - 1,
                    0 <= poss_x as int <= pxc - 1,
                    0 <= poss_y as int <= pyc - 1,
                    cw == pxc * s,
                    ch == pyc * s,
                    self.width as int == cxc * cw,
                    self.height as int == cyc * ch,
                    1 <= s,
                ;
        }
        let x: i64 = (cell_x * self.cell_width + poss_x * self.possibility_side_length) as i64;
        let y: i64 = (cell_y * self.cell_height + poss_y * self.possibility_side_length) as i64;
        proof {
            let cw = self.cell_width as int;
            let ch = self.cell_height as int;
            let s = self.possibility_side_length as int;
            let rx = poss_x as int * s;
            let ry = poss_y as int * s;
            vstd::arithmetic::div_mod::lemma_fundamental_div_mod_converse(
                x as int, cw, cell_x as int, rx);
            vstd::arithmetic::div_mod::lemma_fundamental_div_mod_converse(
                y as int, ch, cell_y as int, ry);
            vstd::arithmetic::div_mod::lemma_div_by_multiple(poss_x as int, s);
            vstd::arithmetic::div_mod::lemma_div_by_multiple(poss_y as int, s);
            assert(self.spec_cell_x_index(x as int) == cell_x as int);
            assert(self.spec_possibility_x_index(x as int) == poss_x as int);
            assert(self.spec_cell_y_index(y as int) == cell_y as int);
            assert(self.spec_possibility_y_index(y as int) == poss_y as int);
            vstd::arithmetic::div_mod::lemma_fundamental_div_mod(v as int, self.possibility_x_count as int);
            vstd::arithmetic::div_mod::lemma_fundamental_div_mod(k as int, self.cell_x_count as int);
            let pxc = self.possibility_x_count as int;
            let cxc = self.cell_x_count as int;
            assert(pxc * (v as int / pxc) == (v as int / pxc) * pxc) by (nonlinear_arith);
            assert(cxc * (k as int / cxc) == (k as int / cxc) * cxc) by (nonlinear_arith);
            assert(self.spec_spot_index(x as int, y as int) == v as int);
            assert(self.spec_coarse_index(x as int, y as int) == k as int);
        }
        let ghost g1 = *self;
        self.add_particle(x, y, attributes);
        proof {
            let w = g1.width as int;
            let h = g1.height as int;
            let d = attributes.diameter as int;
            assert(clamped(x as int, 0, w - d - 1) == x as int);
            assert(clamped(y as int, 0, h - d - 1) == y as int);
            let p = spec_new_particle(x, y, *attributes);
            g1.lemma_combo_encode(v as int, k as int);
            lemma_free_count_place(g1, *self, v as int, k as int, p, 0);
            if g1.seeded_distinct() {
                lemma_seeded_place(g1, *self, v as int, k as int, p);
            }
        }
    }

    /// Place `count` particles by uniform random sampling: a draw whose
    /// (spot, coarse cell) combination is already taken falls back to the
    /// first free combination instead of redrawing, so exactly `count`
    /// particles are placed and seeding always terminates — the fallback
    /// placement is at that region's corner, not at a sampled coordinate.
    fn fill_white_noise(&mut self, attributes: &ParticleAttributes, count: u32)
        requires
            old(self).wf(),
            valid_attributes(*attributes),
            attributes.diameter < old(self).possibility_side_length,
            old(self).particle_count + count <= u32::MAX,
            count as int <= old(self).free_spot_count(),
        ensures
            final(self).wf(),
            same_config(*old(self), *final(self)),
            final(self).possibility_spots@.len() == old(self).possibility_spots@.len(),
            final(self).particle_count == old(self).particle_count + count,
            final(self).free_spot_count() == old(self).free_spot_count() - count,
            old(self).seeded_distinct() ==> final(self).seeded_distinct(),
    {
        let mut i: u32 = 0;
        while i < count
            invariant
                self.wf(),
                valid_attributes(*attributes),
                attributes.diameter < self.possibility_side_length,
                same_config(*old(self), *self),
                self.possibility_spots@.len() == old(self).possibility_spots@.len(),
                i <= count,
                old(self).particle_count + count <= u32::MAX,
                count as int <= old(self).free_spot_count(),
                self.particle_count == old(self).particle_count + i,
                self.free_spot_count() == old(self).free_spot_count() - i,
                old(self).seeded_distinct() ==> self.seeded_distinct(),
            decreases count - i,
        {
            let max_x: u32 = (self.width - attributes.diameter) as u32;
            let max_y: u32 = (self.height - attributes.diameter) as u32;
            let x_coord: i64 = gen_range_u32(0, max_x) as i64;
            let y_coord: i64 = gen_range_u32(0, max_y) as i64;
            if !self.possibility_taken(x_coord, y_coord) {
                let ghost g1 = *self;
                proof {
                    g1.lemma_index_bounds(x_coord as int, y_coord as int);
                }
                self.add_particle(x_coord, y_coord, attributes);
                proof {
                    let w = g1.width as int;
                    let h = g1.height as int;
                    let d = attributes.diameter as int;
                    assert(clamped(x_coord as int, 0, w - d - 1) == x_coord as int);
                    assert(clamped(y_coord as int, 0, h - d - 1) == y_coord as int);
                    let v0 = g1.spec_spot_index(x_coord as int, y_coord as int);
                    let k0 = g1.spec_coarse_index(x_coord as int, y_coord as int);
                    let p = spec_new_particle(x_coord, y_coord, *attributes);
                    g1.lemma_combo_encode(v0, k0);
                    lemma_free_count_place(g1, *self, v0, k0, p, 0);
                    if g1.seeded_distinct() {
                        lemma_seeded_place(g1, *self, v0, k0, p);
                    }
                }
            } else {
                self.place_in_first_free(attributes);
            }
            i = i + 1;
        }
    }

    /// Law: in every well-formed grid the stored particle count equals
    /// the sum of all cell lengths; `fill`'s contract then makes both
    /// exactly the requested count.
    pub proof fn lemma_count_is_cell_sum(g: Grid)
        requires
            g.wf(),
        ensures
            g.particle_count as int == total_particles(g.possibility_spots@),
    {
    }

    /// Seed `count` particles of the given attributes into the grid; the
    /// particle count grows by exactly `count`, and a grid whose spots had
    /// pairwise-distinct coarse cells keeps them so.
    pub fn fill(&mut self, attributes: &ParticleAttributes, count: u32, fill_style: FillStyle)
        requires
            old(self).wf(),
            valid_attributes(*attributes),
            attributes.diameter < old(self).possibility_side_length,
            old(self).particle_count + count <= u32::MAX,
            count as int <= old(self).free_spot_count(),
        ensures
            final(self).wf(),
            same_config(*old(self), *final(self)),
            final(self).possibility_spots@.len() == old(self).possibility_spots@.len(),
            final(self).particle_count == old(self).particle_count + count,
            final(self).free_spot_count() == old(self).free_spot_count() - count,
            old(self).seeded_distinct() ==> final(self).seeded_distinct(),
    {
        match fill_style {
            FillStyle::WhiteNoise => self.fill_white_noise(attributes, count),
        }
    }
}


/// The per-cell views of a buffer of cells.
pub open spec fn views_of(cells: Seq<Vec<Particle>>) -> Seq<Seq<Particle>> {
    cells.map_values(|c: Vec<Particle>| c@)
}

/// No particle of cell `v` overlaps the tentative box `data`.
pub open spec fn cell_no_collision(cells: Seq<Seq<Particle>>, data: CollisionData, v: int) -> bool {
    forall|j: int| 0 <= j < cells[v].len() ==> !boxes_collide(data, #[trigger] cells[v][j])
}

/// In cell `v`, particle `j` is the first whose tentative box overlaps
/// `data`, and the pair `(p1, that particle)` is resolved exactly: `p2` and
/// the updated cell hold the two halves of `resolved_pair`.
pub open spec fn first_hit_in_cell(
    cells1: Seq<Seq<Particle>>,
    p1: Particle,
    data: CollisionData,
    cells2: Seq<Seq<Particle>>,
    p2: Particle,
    v: int,
) -> bool {
    exists|j: int|
        #![trigger cells1[v][j]]
        {
            &&& 0 <= j < cells1[v].len()
            &&& boxes_collide(data, cells1[v][j])
            &&& (forall|j2: int| 0 <= j2 < j ==> !boxes_collide(data, #[trigger] cells1[v][j2]))
            &&& ({
                let (a2, b2) = resolved_pair(p1, cells1[v][j]);
                &&& p2 == a2
                &&& cells2 == cells1.update(v, cells1[v].update(j, b2))
            })
        }
}

/// The whole effect of one collision scan.  Without a collision nothing
/// changes and every candidate cell is overlap-free; with one, the first
/// colliding particle of the first candidate cell holding one is the
/// partner, and the pair is resolved exactly.
pub open spec fn collision_outcome(
    g: Grid,
    cells1: Seq<Seq<Particle>>,
    p1: Particle,
    data: CollisionData,
    cells2: Seq<Seq<Particle>>,
    p2: Particle,
    collided: bool,
) -> bool {
    let cands = g.candidate_spots(data);
    if !collided {
        &&& cells2 == cells1
        &&& p2 == p1
        &&& forall|ci: int| 0 <= ci < cands.len() ==> cell_no_collision(cells1, data, #[trigger] cands[ci])
    } else {
        exists|ci: int|
            #![trigger cands[ci]]
            {
                &&& 0 <= ci < cands.len()
                &&& (forall|ci2: int| 0 <= ci2 < ci ==> cell_no_collision(cells1, data, #[trigger] cands[ci2]))
                &&& first_hit_in_cell(cells1, p1, data, cells2, p2, cands[ci])
            }
    }
}

/// A first hit in candidate cell `ci`, with every earlier candidate cell
/// overlap-free, is a collision outcome.
pub proof fn lemma_outcome_of_hit(
    g: Grid,
    cells1: Seq<Seq<Particle>>,
    p1: Particle,
    data: CollisionData,
    cells2: Seq<Seq<Particle>>,
    p2: Particle,
    ci: int,
)
    requires
        0 <= ci < g.candidate_spots(data).len(),
        forall|ci2: int| 0 <= ci2 < ci
            ==> cell_no_collision(cells1, data, #[trigger] g.candidate_spots(data)[ci2]),
        first_hit_in_cell(cells1, p1, data, cells2, p2, g.candidate_spots(data)[ci]),
    ensures
        collision_outcome(g, cells1, p1, data, cells2, p2, true),
{
    let cands = g.candidate_spots(data);
    assert(0 <= ci < cands.len()
        && (forall|ci2: int| 0 <= ci2 < ci ==> cell_no_collision(cells1, data, #[trigger] cands[ci2]))
        && first_hit_in_cell(cells1, p1, data, cells2, p2, cands[ci]));
}

impl Grid {
    /// The candidate cells a tentative box is checked against: the spot of
    /// its clamped origin, plus those its far corner reaches when it
    /// straddles a cell edge (at most a 2 x 2 block).
    pub open spec fn candidate_spots(&self, data: CollisionData) -> Seq<int> {
        let w = self.width as int;
        let h = self.height as int;
        let nxs = self.spec_possibility_x_index(clamped(data.new_x as int, 0, w - 1));
        let nys = self.spec_possibility_y_index(clamped(data.new_y as int, 0, h - 1));
        let exs = self.spec_possibility_x_index(clamped(data.end_new_x as int, 0, w - 1));
        let eys = self.spec_possibility_y_index(clamped(data.end_new_y as int, 0, h - 1));
        let s0 = seq![self.spec_possibility_index(nxs, nys)];
        let s1 = if exs != nxs {
            s0.push(self.spec_possibility_index(exs, nys))
        } else {
            s0
        };
        let s2 = if eys != nys {
            s1.push(self.spec_possibility_index(nxs, eys))
        } else {
            s1
        };
        if exs != nxs && eys != nys {
            s2.push(self.spec_possibility_index(exs, eys))
        } else {
            s2
        }
    }

    /// Every candidate spot is a valid cell index.
    pub proof fn lemma_candidates_in_range(&self, data: CollisionData)
        requires
            self.dims_wf(),
        ensures
            forall|ci: int| 0 <= ci < self.candidate_spots(data).len()
                ==> 0 <= #[trigger] self.candidate_spots(data)[ci]
                    && self.candidate_spots(data)[ci] < self.possibility_spots@.len(),
    {
        let w = self.width as int;
        let h = self.height as int;
        let cnx = clamped(data.new_x as int, 0, w - 1);
        let cny = clamped(data.new_y as int, 0, h - 1);
        let cex = clamped(data.end_new_x as int, 0, w - 1);
        let cey = clamped(data.end_new_y as int, 0, h - 1);
        self.lemma_index_bounds(cnx, cny);
        self.lemma_index_bounds(cex, cey);
        let nxs = self.spec_possibility_x_index(cnx);
        let nys = self.spec_possibility_y_index(cny);
        let exs = self.spec_possibility_x_index(cex);
        let eys = self.spec_possibility_y_index(cey);
        let pxc = self.possibility_x_count as int;
        let pyc = self.possibility_y_count as int;
        assert forall|a: int, b: int| 0 <= a < pxc && 0 <= b < pyc
            implies 0 <= #[trigger] self.spec_possibility_index(a, b) < pxc * pyc by {
            assert(0 <= pxc * b + a < pxc * pyc) by (nonlinear_arith)
                requires
                    0 <= a < pxc,
                    0 <= b < pyc,
            ;
        }
        assert(0 <= self.spec_possibility_index(nxs, nys) < pxc * pyc);
        assert(0 <= self.spec_possibility_index(exs, nys) < pxc * pyc);
        assert(0 <= self.spec_possibility_index(nxs, eys) < pxc * pyc);
        assert(0 <= self.spec_possibility_index(exs, eys) < pxc * pyc);
    }

    /// Apply the first force of the schedule whose window contains the
    /// current frame to the particle; outside every window nothing acts.
    fn apply_force(&self, particle: &mut Particle)
        requires
            self.core_wf(),
            old(particle).wf(),
            old(particle).in_bounds(self.width as int, self.height as int),
        ensures
            final(particle).wf(),
            *final(particle) == scheduled_force_applied(self.forces@, *old(particle), self.frame as int),
            unchanged_but_velocity(*old(particle), *final(particle)),
    {
        let ghost s = self.forces@;
        let ghost frame = self.frame as int;
        let n: usize = self.forces.len();
        let mut idx: usize = 0;
        let mut from: u32 = 0;
        while idx < n
            invariant
                self.core_wf(),
                particle.wf(),
                particle.in_bounds(self.width as int, self.height as int),
                *particle == *old(particle),
                s == self.forces@,
                frame == self.frame as int,
                n == s.len(),
                idx <= n,
                first_active_from(s, frame, 0) == first_active_from(s, frame, idx as int),
                from as int == window_start(s, idx as int),
                from <= self.frame,
            decreases n - idx,
        {
            let until = self.forces[idx].until_frame;
            if self.frame < until {
                proof {
                    assert(first_active_from(s, frame, idx as int) == idx as int);
                    assert(first_active(s, frame) == idx as int);
                    assert(valid_force_type(s[idx as int].force_type));
                }
                let force = &self.forces[idx];
                force.apply(particle, self.frame, from);
                return ;
            }
            from = until;
            idx = idx + 1;
            proof {
                assert(first_active_from(s, frame, idx as int - 1) == first_active_from(s, frame, idx as int));
            }
        }
        proof {
            assert(first_active(s, frame) == -1);
        }
    }

    /// Scan cell `vec_index` for the first particle whose tentative box
    /// overlaps `data`, and resolve the collision against it in place.
    #[verifier::rlimit(100)]
    #[verifier::spinoff_prover]
    fn has_collision(&mut self, particle: &mut Particle, data: &CollisionData, vec_index: usize) -> (collided: bool)
        requires
            old(self).core_wf(),
            old(particle).wf(),
            0 <= old(particle).x <= DIM_LIMIT,
            0 <= old(particle).y <= DIM_LIMIT,
            vec_index < old(self).possibility_spots@.len(),
        ensures
            final(self).core_wf(),
            same_config(*old(self), *final(self)),
            final(self).particle_count == old(self).particle_count,
            final(self).possibility_spots@.len() == old(self).possibility_spots@.len(),
            forall|v2: int| 0 <= v2 < old(self).possibility_spots@.len()
                ==> #[trigger] final(self).possibility_spots@[v2]@.len()
                    == old(self).possibility_spots@[v2]@.len(),
            final(particle).wf(),
            -4 * DIM_LIMIT <= final(particle).x <= 4 * DIM_LIMIT,
            -4 * DIM_LIMIT <= final(particle).y <= 4 * DIM_LIMIT,
            crate::particle::same_body(*old(particle), *final(particle)),
            collided == !cell_no_collision(views_of(old(self).possibility_spots@), *data, vec_index as int),
            !collided ==> *final(self) == *old(self) && *final(particle) == *old(particle),
            collided ==> first_hit_in_cell(
                views_of(old(self).possibility_spots@),
                *old(particle),
                *data,
                views_of(final(self).possibility_spots@),
                *final(particle),
                vec_index as int,
            ),
    {
        let cell_len: usize = self.possibility_spots[vec_index].len();
        let mut j: usize = 0;
        while j < cell_len
            invariant
                self.core_wf(),
                particle.wf(),
                0 <= particle.x <= DIM_LIMIT,
                0 <= particle.y <= DIM_LIMIT,
                *self == *old(self),
                *particle == *old(particle),
                vec_index < self.possibility_spots@.len(),
                cell_len == self.possibility_spots@[vec_index as int]@.len(),
                j <= cell_len,
                forall|j2: int| 0 <= j2 < j
                    ==> !boxes_collide(*data, #[trigger] self.possibility_spots@[vec_index as int]@[j2]),
            decreases cell_len - j,
        {
            proof {
                assert(self.cell_ok(vec_index as int));
                assert(self.placed_ok(vec_index as int, j as int));
            }
            let mut other: Particle = self.possibility_spots[vec_index][j];
            let hit = particle.handle_possible_collision(&mut other, data);
            if hit {
                let ghost g1 = *self;
                let ghost b2 = other;
                let cell = &mut self.possibility_spots[vec_index];
                cell.set(j, other);
                proof {
                    assert(self.possibility_spots@ =~= g1.possibility_spots@.update(
                        vec_index as int, self.possibility_spots@[vec_index as int]));
                    lemma_total_update(g1.possibility_spots@, vec_index as int, self.possibility_spots[vec_index as int]);
                    assert forall|v2: int| 0 <= v2 < self.possibility_spots@.len()
                        implies #[trigger] self.cell_ok(v2) by {
                        assert(g1.cell_ok(v2));
                        if v2 == vec_index as int {
                            assert forall|j2: int| 0 <= j2 < self.possibility_spots@[v2]@.len()
                                implies #[trigger] self.placed_ok(v2, j2) by {
                                assert(g1.placed_ok(v2, j2));
                                if j2 == j as int {
                                    assert(self.possibility_spots@[v2]@[j2] == b2);
                                }
                            }
                        } else {
                            assert forall|j2: int| 0 <= j2 < self.possibility_spots@[v2]@.len()
                                implies #[trigger] self.placed_ok(v2, j2) by {
                                assert(g1.placed_ok(v2, j2));
                            }
                        }
                    }
                    let cells1 = views_of(old(self).possibility_spots@);
                    let vi = vec_index as int;
                    let jj = j as int;
                    assert(cells1.len() == old(self).possibility_spots@.len());
                    assert(cells1[vi] == old(self).possibility_spots@[vi]@);
                    assert(cells1[vi][jj] == old(self).possibility_spots@[vi]@[jj]);
                    assert(views_of(self.possibility_spots@) =~= cells1.update(
                        vi, cells1[vi].update(jj, b2)));
                    assert forall|j2: int| 0 <= j2 < jj
                        implies !boxes_collide(*data, #[trigger] cells1[vi][j2]) by {
                        assert(cells1[vi][j2] == old(self).possibility_spots@[vi]@[j2]);
                    }
                    assert(0 <= jj < cells1[vi].len()
                        && boxes_collide(*data, cells1[vi][jj])
                        && ({
                            let (a2x, b2x) = resolved_pair(*old(particle), cells1[vi][jj]);
                            *particle == a2x && views_of(self.possibility_spots@)
                                == cells1.update(vi, cells1[vi].update(jj, b2x))
                        }));
                }
                return true;
            }
            j = j + 1;
        }
        proof {
            let cells1 = views_of(old(self).possibility_spots@);
            assert forall|j2: int| 0 <= j2 < cells1[vec_index as int].len()
                implies !boxes_collide(*data, #[trigger] cells1[vec_index as int][j2]) by {
                assert(cells1[vec_index as int][j2]
                    == old(self).possibility_spots@[vec_index as int]@[j2]);
            }
        }
        false
    }
}

impl Grid {
    /// Determine every cell the tentative bounding box overlaps (its own
    /// cell plus up to three more when straddling an edge) and resolve the
    /// first collision found, scanning the cells in that order.
    #[verifier::rlimit(100)]
    #[verifier::spinoff_prover]
    fn handle_collision(&mut self, particle: &mut Particle, data: &CollisionData) -> (collided: bool)
        requires
            old(self).core_wf(),
            old(particle).wf(),
            0 <= old(particle).x <= DIM_LIMIT,
            0 <= old(particle).y <= DIM_LIMIT,
        ensures
            final(self).core_wf(),
            same_config(*old(self), *final(self)),
            final(self).particle_count == old(self).particle_count,
            final(self).possibility_spots@.len() == old(self).possibility_spots@.len(),
            forall|v2: int| 0 <= v2 < old(self).possibility_spots@.len()
                ==> #[trigger] final(self).possibility_spots@[v2]@.len()
                    == old(self).possibility_spots@[v2]@.len(),
            final(particle).wf(),
            -4 * DIM_LIMIT <= final(particle).x <= 4 * DIM_LIMIT,
            -4 * DIM_LIMIT <= final(particle).y <= 4 * DIM_LIMIT,
            crate::particle::same_body(*old(particle), *final(particle)),
            collision_outcome(
                *old(self),
                views_of(old(self).possibility_spots@),
                *old(particle),
                *data,
                views_of(final(self).possibility_spots@),
                *final(particle),
                collided,
            ),
    {
        proof {
            self.lemma_candidates_in_range(*data);
        }
        let ghost g0 = *old(self);
        let ghost cands = old(self).candidate_spots(*data);
        let ghost cells0 = views_of(old(self).possibility_spots@);
        let cnx: i64 = crate::math::clamp_i64(data.new_x, 0, self.width - 1);
        let cny: i64 = crate::math::clamp_i64(data.new_y, 0, self.height - 1);
        let cex: i64 = crate::math::clamp_i64(data.end_new_x, 0, self.width - 1);
        let cey: i64 = crate::math::clamp_i64(data.end_new_y, 0, self.height - 1);
        let new_x_spot = self.possibility_x_index(cnx);
        let new_y_spot = self.possibility_y_index(cny);
        let end_x_spot = self.possibility_x_index(cex);
        let end_y_spot = self.possibility_y_index(cey);
        let has_diff_end_x_spot = end_x_spot != new_x_spot;
        let has_diff_end_y_spot = end_y_spot != new_y_spot;
        let c0 = self.possibility_index(new_x_spot, new_y_spot);
        proof {
            assert(cands[0] == c0 as int);
        }
        if self.has_collision(particle, data, c0) {
            proof {
                lemma_outcome_of_hit(g0, cells0, *old(particle), *data,
                    views_of(self.possibility_spots@), *particle, 0);
            }
            return true;
        }

        if has_diff_end_x_spot {
            let c1 = self.possibility_index(end_x_spot, new_y_spot);
            proof {
                assert(cands[1] == c1 as int);
            }
            if self.has_collision(particle, data, c1) {
                proof {
                    lemma_outcome_of_hit(g0, cells0, *old(particle), *data,
                        views_of(self.possibility_spots@), *particle, 1);
                }
                return true;
            }
        }

        if has_diff_end_y_spot {
            let c2 = self.possibility_index(new_x_spot, end_y_spot);
            let ghost ci2: int = if has_diff_end_x_spot { 2 } else { 1 };
            proof {
                assert(cands[ci2] == c2 as int);
            }
            if self.has_collision(particle, data, c2) {
                proof {
                    lemma_outcome_of_hit(g0, cells0, *old(particle), *data,
                        views_of(self.possibility_spots@), *particle, ci2);
                }
                return true;
            }
        }

        if has_diff_end_x_spot && has_diff_end_y_spot {
            let c3 = self.possibility_index(end_x_spot, end_y_spot);
            proof {
                assert(cands[3] == c3 as int);
            }
            if self.has_collision(particle, data, c3) {
                proof {
                    lemma_outcome_of_hit(g0, cells0, *old(particle), *data,
                        views_of(self.possibility_spots@), *particle, 3);
                }
                return true;
            }
        }

        proof {
            assert forall|ci: int| 0 <= ci < cands.len()
                implies cell_no_collision(cells0, *data, #[trigger] cands[ci]) by {
                if ci == 0 {
                    assert(cands[ci] == c0 as int);
                } else if has_diff_end_x_spot && ci == 1 {
                } else if has_diff_end_y_spot && ci == (if has_diff_end_x_spot { 2int } else { 1int }) {
                } else {
                }
            }
        }
        false
    }
}

/// Cells of pointwise equal lengths hold equally many particles.
pub proof fn lemma_total_congruent(c1: Seq<Vec<Particle>>, c2: Seq<Vec<Particle>>)
    requires
        c1.len() == c2.len(),
        forall|i: int| 0 <= i < c1.len() ==> #[trigger] c2[i]@.len() == c1[i]@.len(),
    ensures
        total_particles(c2) == total_particles(c1),
    decreases c1.len(),
{
    if c1.len() > 0 {
        assert forall|i: int| 0 <= i < c1.drop_last().len()
            implies #[trigger] c2.drop_last()[i]@.len() == c1.drop_last()[i]@.len() by {
            assert(c1.drop_last()[i] == c1[i]);
            assert(c2.drop_last()[i] == c2[i]);
        }
        lemma_total_congruent(c1.drop_last(), c2.drop_last());
        assert(c2.last()@.len() == c1.last()@.len());
    }
}

/// All-empty cells hold no particles.
pub proof fn lemma_total_empty(cells: Seq<Vec<Particle>>)
    requires
        forall|i: int| 0 <= i < cells.len() ==> #[trigger] cells[i]@.len() == 0,
    ensures
        total_particles(cells) == 0,
    decreases cells.len(),
{
    if cells.len() > 0 {
        assert forall|i: int| 0 <= i < cells.drop_last().len()
            implies #[trigger] cells.drop_last()[i]@.len() == 0 by {
            assert(cells.drop_last()[i] == cells[i]);
        }
        lemma_total_empty(cells.drop_last());
    }
}

/// The tentative bounding box of a particle about to move: origin at
/// position plus velocity, extent one diameter.
pub open spec fn tick_data(p: Particle) -> CollisionData {
    CollisionData {
        new_x: (p.x + p.vx) as i64,
        new_y: (p.y + p.vy) as i64,
        end_new_x: (p.x + p.vx + p.diameter) as i64,
        end_new_y: (p.y + p.vy + p.diameter) as i64,
    }
}

/// The whole per-particle pipeline of one tick, from the cells `cells1`
/// the particle was taken out of to the cells `cells2` left behind: the
/// schedule's force, the wall bounce, the collision scan with its exact
/// resolution, and the committed, clamped move.
pub open spec fn processed_from(
    g1: Grid,
    cells1: Seq<Seq<Particle>>,
    p0: Particle,
    cells2: Seq<Seq<Particle>>,
    q: Particle,
) -> bool {
    let p1 = scheduled_force_applied(g1.forces@, p0, g1.frame as int);
    let data = tick_data(p1);
    let p2 = bounced(p1, g1.width as int, g1.height as int);
    exists|pmid: Particle, collided: bool|
        #![trigger collision_outcome(g1, cells1, p2, data, cells2, pmid, collided)]
        collision_outcome(g1, cells1, p2, data, cells2, pmid, collided)
            && q == crate::particle::transformed(pmid, g1.width as int, g1.height as int)
}

/// A collision outcome only reads the grid's fixed configuration, so it
/// transfers between grids of the same layout.
pub proof fn lemma_outcome_config(
    g1: Grid,
    g2: Grid,
    cells1: Seq<Seq<Particle>>,
    p1: Particle,
    data: CollisionData,
    cells2: Seq<Seq<Particle>>,
    p2: Particle,
    collided: bool,
)
    requires
        same_config(g1, g2),
        collision_outcome(g1, cells1, p1, data, cells2, p2, collided),
    ensures
        collision_outcome(g2, cells1, p1, data, cells2, p2, collided),
{
    assert(g1.candidate_spots(data) =~= g2.candidate_spots(data));
}

/// The per-particle pipeline likewise only reads the configuration.
pub proof fn lemma_processed_config(
    g1: Grid,
    g2: Grid,
    cells1: Seq<Seq<Particle>>,
    p0: Particle,
    cells2: Seq<Seq<Particle>>,
    q: Particle,
)
    requires
        same_config(g1, g2),
        processed_from(g1, cells1, p0, cells2, q),
    ensures
        processed_from(g2, cells1, p0, cells2, q),
{
    let p1 = scheduled_force_applied(g1.forces@, p0, g1.frame as int);
    let data = tick_data(p1);
    let p2 = bounced(p1, g1.width as int, g1.height as int);
    let (pmid, collided) = choose|pmid: Particle, collided: bool|
        #![trigger collision_outcome(g1, cells1, p2, data, cells2, pmid, collided)]
        collision_outcome(g1, cells1, p2, data, cells2, pmid, collided)
            && q == crate::particle::transformed(pmid, g1.width as int, g1.height as int);
    lemma_outcome_config(g1, g2, cells1, p2, data, cells2, pmid, collided);
    assert(collision_outcome(g2, cells1, p2, data, cells2, pmid, collided)
        && q == crate::particle::transformed(pmid, g2.width as int, g2.height as int));
}

impl Grid {
    /// Advance one particle through the whole pipeline: scheduled force,
    /// wall bounce, collision scan, committed move.  The grid only changes
    /// where a collision partner's velocities were rewritten.
    #[verifier::rlimit(100)]
    #[verifier::spinoff_prover]
    fn process_one(&mut self, particle: Particle) -> (q: Particle)
        requires
            old(self).core_wf(),
            particle.wf(),
            particle.in_bounds(old(self).width as int, old(self).height as int),
            particle.diameter < old(self).possibility_side_length,
        ensures
            final(self).core_wf(),
            same_config(*old(self), *final(self)),
            final(self).particle_count == old(self).particle_count,
            final(self).possibility_spots@.len() == old(self).possibility_spots@.len(),
            forall|v2: int| 0 <= v2 < old(self).possibility_spots@.len()
                ==> #[trigger] final(self).possibility_spots@[v2]@.len()
                    == old(self).possibility_spots@[v2]@.len(),
            q.wf(),
            q.in_bounds(old(self).width as int, old(self).height as int),
            crate::particle::same_body(particle, q),
            processed_from(
                *old(self),
                views_of(old(self).possibility_spots@),
                particle,
                views_of(final(self).possibility_spots@),
                q,
            ),
    {
        let mut p = particle;
        self.apply_force(&mut p);
        let ghost p1v = p;
        let new_x: i64 = p.x + p.vx;
        let new_y: i64 = p.y + p.vy;
        let end_new_x: i64 = new_x + p.diameter;
        let end_new_y: i64 = new_y + p.diameter;
        p.bounce(self.width, self.height);
        let ghost p2v = p;
        let data = CollisionData { new_x, new_y, end_new_x, end_new_y };
        proof {
            assert(data == tick_data(p1v));
        }
        let hit = self.handle_collision(&mut p, &data);
        let ghost pmidv = p;
        proof {
            assert(p.diameter + 1 <= self.width && p.diameter + 1 <= self.height);
        }
        p.transform(self.width, self.height);
        proof {
            let g1 = *old(self);
            let cells1 = views_of(g1.possibility_spots@);
            let cells2 = views_of(self.possibility_spots@);
            let p1 = scheduled_force_applied(g1.forces@, particle, g1.frame as int);
            assert(p1 == p1v);
            let dd = tick_data(p1);
            let p2 = bounced(p1, g1.width as int, g1.height as int);
            assert(p2 == p2v);
            assert(collision_outcome(g1, cells1, p2, dd, cells2, pmidv, hit));
            assert(p == crate::particle::transformed(pmidv, g1.width as int, g1.height as int));
        }
        p
    }

    /// Take the particle at `(vec_index, spot_index)` out of its cell, run
    /// it through the tick pipeline, and reinsert it into the cell of its
    /// final position, marking `queue_frame` when it changed cells.
    #[verifier::rlimit(100)]
    #[verifier::spinoff_prover]
    pub fn handle_particle(&mut self, vec_index: usize, spot_index: usize)
        requires
            old(self).wf(),
            vec_index < old(self).possibility_spots@.len(),
            spot_index < old(self).possibility_spots@[vec_index as int]@.len(),
        ensures
            final(self).wf(),
            same_config(*old(self), *final(self)),
            final(self).particle_count == old(self).particle_count,
            final(self).possibility_spots@.len() == old(self).possibility_spots@.len(),
            exists|q: Particle, cells_mid: Seq<Seq<Particle>>|
                #![trigger processed_from(*old(self), views_of(old(self).possibility_spots@).update(vec_index as int, views_of(old(self).possibility_spots@)[vec_index as int].update(spot_index as int, views_of(old(self).possibility_spots@)[vec_index as int].last()).drop_last()), old(self).possibility_spots@[vec_index as int]@[spot_index as int], cells_mid, q)]
                {
                    let cells0 = views_of(old(self).possibility_spots@);
                    let removed = cells0.update(
                        vec_index as int,
                        cells0[vec_index as int].update(
                            spot_index as int,
                            cells0[vec_index as int].last(),
                        ).drop_last(),
                    );
                    let p0 = old(self).possibility_spots@[vec_index as int]@[spot_index as int];
                    &&& processed_from(*old(self), removed, p0, cells_mid, q)
                    &&& q.wf()
                    &&& q.in_bounds(old(self).width as int, old(self).height as int)
                    &&& ({
                        let dest = old(self).spec_spot_index(q.x as int, q.y as int);
                        let q2 = if dest != vec_index as int {
                            (Particle { queue_frame: old(self).frame, ..q })
                        } else {
                            q
                        };
                        views_of(final(self).possibility_spots@)
                            == cells_mid.update(dest, cells_mid[dest].push(q2))
                    })
                },
    {
        let ghost g0 = *old(self);
        proof {
            assert(g0.cell_ok(vec_index as int));
            assert(g0.placed_ok(vec_index as int, spot_index as int));
        }
        let cell = &mut self.possibility_spots[vec_index];
        let particle = cell.swap_remove(spot_index);
        proof {
            assert(self.possibility_spots@ =~= g0.possibility_spots@.update(
                vec_index as int, self.possibility_spots@[vec_index as int]));
            lemma_total_update(g0.possibility_spots@, vec_index as int,
                self.possibility_spots[vec_index as int]);
            assert forall|v2: int| 0 <= v2 < self.possibility_spots@.len()
                implies #[trigger] self.cell_ok(v2) by {
                assert(g0.cell_ok(v2));
                if v2 == vec_index as int {
                    assert forall|j2: int| 0 <= j2 < self.possibility_spots@[v2]@.len()
                        implies #[trigger] self.placed_ok(v2, j2) by {
                        if j2 == spot_index as int {
                            assert(g0.placed_ok(v2, g0.possibility_spots@[v2]@.len() - 1));
                            assert(self.possibility_spots@[v2]@[j2]
                                == g0.possibility_spots@[v2]@[g0.possibility_spots@[v2]@.len() - 1]);
                        } else {
                            assert(g0.placed_ok(v2, j2));
                            assert(self.possibility_spots@[v2]@[j2] == g0.possibility_spots@[v2]@[j2]);
                        }
                    }
                } else {
                    assert forall|j2: int| 0 <= j2 < self.possibility_spots@[v2]@.len()
                        implies #[trigger] self.placed_ok(v2, j2) by {
                        assert(g0.placed_ok(v2, j2));
                    }
                }
            }
        }
        let ghost g_removed = *self;
        let q = self.process_one(particle);
        let ghost cells_mid = views_of(self.possibility_spots@);
        let dest = self.vec_spot_particle(&q);
        let q2 = if dest != vec_index {
            Particle { queue_frame: self.frame, ..q }
        } else {
            q
        };
        let ghost g_mid = *self;
        let dcell = &mut self.possibility_spots[dest];
        dcell.push(q2);
        proof {
            assert(self.possibility_spots@ =~= g_mid.possibility_spots@.update(
                dest as int, self.possibility_spots@[dest as int]));
            lemma_total_update(g_mid.possibility_spots@, dest as int,
                self.possibility_spots[dest as int]);
            assert forall|v2: int| 0 <= v2 < g_removed.possibility_spots@.len()
                implies #[trigger] g_mid.possibility_spots@[v2]@.len()
                    == g_removed.possibility_spots@[v2]@.len() by {}
            lemma_total_congruent(g_removed.possibility_spots@, g_mid.possibility_spots@);
            assert forall|v2: int| 0 <= v2 < self.possibility_spots@.len()
                implies #[trigger] self.cell_ok(v2) by {
                assert(g_mid.cell_ok(v2));
                if v2 == dest as int {
                    assert forall|j2: int| 0 <= j2 < self.possibility_spots@[v2]@.len()
                        implies #[trigger] self.placed_ok(v2, j2) by {
                        if j2 < g_mid.possibility_spots@[v2]@.len() {
                            assert(g_mid.placed_ok(v2, j2));
                            assert(self.possibility_spots@[v2]@[j2] == g_mid.possibility_spots@[v2]@[j2]);
                        } else {
                            assert(self.possibility_spots@[v2]@[j2] == q2);
                        }
                    }
                } else {
                    assert forall|j2: int| 0 <= j2 < self.possibility_spots@[v2]@.len()
                        implies #[trigger] self.placed_ok(v2, j2) by {
                        assert(g_mid.placed_ok(v2, j2));
                        assert(self.possibility_spots@[v2]@[j2] == g_mid.possibility_spots@[v2]@[j2]);
                    }
                }
            }
            let cells0 = views_of(g0.possibility_spots@);
            let removed = cells0.update(
                vec_index as int,
                cells0[vec_index as int].update(
                    spot_index as int,
                    cells0[vec_index as int].last(),
                ).drop_last(),
            );
            assert(views_of(g_removed.possibility_spots@) =~= removed);
            let p0 = g0.possibility_spots@[vec_index as int]@[spot_index as int];
            assert(particle == p0);
            lemma_processed_config(g_removed, g0, removed, p0, cells_mid, q);
            assert(processed_from(g0, removed, p0, cells_mid, q));
            assert(views_of(self.possibility_spots@) =~= cells_mid.update(
                dest as int, cells_mid[dest as int].push(q2)));
        }
    }
}

/// Particle `j` of cell `v` in a buffer, judged against grid `g`'s
/// configuration: well formed, inside the arena, smaller than one
/// possibility cell, and stored in the cell of its position.
pub open spec fn placed_in(g: Grid, cells: Seq<Vec<Particle>>, v: int, j: int) -> bool {
    let p = cells[v]@[j];
    &&& p.wf()
    &&& p.in_bounds(g.width as int, g.height as int)
    &&& p.diameter < g.possibility_side_length
    &&& g.spec_spot_index(p.x as int, p.y as int) == v
}

/// A snapshot of the tick's drain loop: the double-buffered pass drains
/// `drain` cell by cell and fills `filled`; `cursor` is the cell the drain
/// has reached.
pub struct TickState {
    pub drain: Seq<Seq<Particle>>,
    pub filled: Seq<Seq<Particle>>,
    pub cursor: int,
}

/// One drain step witnessed by the processed particle `q`: the cell at the
/// cursor loses its last particle `p0`, which runs through the whole
/// per-particle pipeline (`processed_from`) against the remaining drain
/// buffer — so a collision partner's velocities may be rewritten in place —
/// and is pushed, `queue_frame` marked when it changed cells, into the
/// filled buffer's cell of its final position.
pub open spec fn tick_step_with(g: Grid, s1: TickState, s2: TickState, q: Particle) -> bool {
    let v = s1.cursor;
    let p0 = s1.drain[v].last();
    let removed = s1.drain.update(v, s1.drain[v].drop_last());
    &&& processed_from(g, removed, p0, s2.drain, q)
    &&& ({
        let dest = g.spec_spot_index(q.x as int, q.y as int);
        let q2 = if dest != v {
            (Particle { queue_frame: g.frame, ..q })
        } else {
            q
        };
        s2.filled == s1.filled.update(dest, s1.filled[dest].push(q2))
    })
}

/// One drain step: some processed particle `q` witnesses it.
pub open spec fn tick_step(g: Grid, s1: TickState, s2: TickState) -> bool {
    &&& 0 <= s1.cursor < s1.drain.len()
    &&& s1.drain[s1.cursor].len() > 0
    &&& s2.cursor == s1.cursor
    &&& exists|q: Particle| #[trigger] tick_step_with(g, s1, s2, q)
}

/// Between two consecutive snapshots the drain loop either moves the
/// cursor past an emptied cell or performs one drain step on it.
pub open spec fn tick_transition(g: Grid, s1: TickState, s2: TickState) -> bool {
    ||| {
        &&& 0 <= s1.cursor < s1.drain.len()
        &&& s1.drain[s1.cursor].len() == 0
        &&& s2.drain == s1.drain
        &&& s2.filled == s1.filled
        &&& s2.cursor == s1.cursor + 1
    }
    ||| tick_step(g, s1, s2)
}

/// Every consecutive pair of the trace is a tick transition of grid `g`
/// (its configuration and the frame the tick runs at).
pub open spec fn tick_trace_ok(g: Grid, trace: Seq<TickState>) -> bool {
    &&& trace.len() >= 1
    &&& forall|i: int| 0 <= i < trace.len() - 1
        ==> #[trigger] tick_transition(g, trace[i], trace[i + 1])
}

/// The trace starts with the whole buffer `cells` still to drain, an
/// all-empty filled buffer of the same length, and the cursor at the first
/// cell.
pub open spec fn tick_trace_start(trace: Seq<TickState>, cells: Seq<Seq<Particle>>) -> bool {
    &&& trace.first().drain == cells
    &&& trace.first().filled.len() == cells.len()
    &&& (forall|v: int| 0 <= v < trace.first().filled.len()
        ==> #[trigger] trace.first().filled[v].len() == 0)
    &&& trace.first().cursor == 0
}

/// The trace ends with every cell drained — so each particle of the old
/// buffer went through exactly one drain step — and `cells` as the
/// completed filled buffer.
pub open spec fn tick_trace_end(trace: Seq<TickState>, cells: Seq<Seq<Particle>>) -> bool {
    &&& trace.last().filled == cells
    &&& trace.last().cursor == trace.last().drain.len()
    &&& (forall|v: int| 0 <= v < trace.last().drain.len()
        ==> #[trigger] trace.last().drain[v].len() == 0)
}

impl Grid {
    /// One discrete simulation tick: every particle is advanced exactly
    /// once — drained from the current buffer, run through the pipeline,
    /// and committed into a fresh buffer keyed by its final position —
    /// then the frame counter advances, wrapping to 0 at the schedule's
    /// total length, and the raw counter free-runs.  The trace in the
    /// contract pins the new buffer down: it is reachable from the old one
    /// by draining each cell's particles in turn through `processed_from`.
    #[verifier::rlimit(100)]
    #[verifier::spinoff_prover]
    pub fn advance_tick(&mut self)
        requires
            old(self).wf(),
        ensures
            final(self).wf(),
            same_layout(*old(self), *final(self)),
            final(self).particle_count == old(self).particle_count,
            final(self).possibility_spots@.len() == old(self).possibility_spots@.len(),
            final(self).frame == (if old(self).frame as int + 1 < old(self).until_frame as int {
                old(self).frame as int + 1
            } else {
                0int
            }),
            final(self).raw_frame_counter == (if old(self).raw_frame_counter < u32::MAX {
                old(self).raw_frame_counter as int + 1
            } else {
                0int
            }),
            exists|trace: Seq<TickState>|
                #![trigger tick_trace_ok(*old(self), trace)]
                {
                    &&& tick_trace_ok(*old(self), trace)
                    &&& tick_trace_start(trace, views_of(old(self).possibility_spots@))
                    &&& tick_trace_end(trace, views_of(final(self).possibility_spots@))
                },
    {
        let n: usize = self.possibility_spots.len();
        proof {
            assert(self.possibility_spots@.len()
                == self.possibility_x_count * self.possibility_y_count);
        }
        let mut next: Vec<Vec<Particle>> = create_possibility_grid(
            self.possibility_x_count,
            self.possibility_y_count,
        );
        let ghost mut trace: Seq<TickState> = seq![
            TickState {
                drain: views_of(self.possibility_spots@),
                filled: views_of(next@),
                cursor: 0,
            },
        ];
        let mut v: usize = 0;
        while v < n
            invariant
                self.core_wf(),
                same_config(*old(self), *self),
                self.particle_count == old(self).particle_count,
                n == self.possibility_spots@.len(),
                n == old(self).possibility_spots@.len(),
                next@.len() == n,
                v <= n,
                forall|v2: int| 0 <= v2 < v ==> #[trigger] self.possibility_spots@[v2]@.len() == 0,
                forall|nv: int, j: int| 0 <= nv < next@.len() && 0 <= j < next@[nv]@.len()
                    ==> #[trigger] placed_in(*old(self), next@, nv, j),
                total_particles(self.possibility_spots@) + total_particles(next@)
                    == old(self).particle_count as int,
                tick_trace_ok(*old(self), trace),
                tick_trace_start(trace, views_of(old(self).possibility_spots@)),
                trace.last().drain == views_of(self.possibility_spots@),
                trace.last().filled == views_of(next@),
                trace.last().cursor == v as int,
            decreases n - v,
        {
            while self.possibility_spots[v].len() > 0
                invariant
                    self.core_wf(),
                    same_config(*old(self), *self),
                    self.particle_count == old(self).particle_count,
                    n == self.possibility_spots@.len(),
                    n == old(self).possibility_spots@.len(),
                    next@.len() == n,
                    v < n,
                    forall|v2: int| 0 <= v2 < v ==> #[trigger] self.possibility_spots@[v2]@.len() == 0,
                    forall|nv: int, j: int| 0 <= nv < next@.len() && 0 <= j < next@[nv]@.len()
                        ==> #[trigger] placed_in(*old(self), next@, nv, j),
                    total_particles(self.possibility_spots@) + total_particles(next@)
                        == old(self).particle_count as int,
                    tick_trace_ok(*old(self), trace),
                    tick_trace_start(trace, views_of(old(self).possibility_spots@)),
                    trace.last().drain == views_of(self.possibility_spots@),
                    trace.last().filled == views_of(next@),
                    trace.last().cursor == v as int,
                decreases self.possibility_spots@[v as int]@.len(),
            {
                let ghost g_pre = *self;
                let ghost s1 = trace.last();
                proof {
                    assert(g_pre.cell_ok(v as int));
                    assert(g_pre.placed_ok(v as int, g_pre.possibility_spots@[v as int]@.len() - 1));
                }
                let cell = &mut self.possibility_spots[v];
                let popped = cell.pop();
                let particle = popped.unwrap();
                proof {
                    assert(self.possibility_spots@ =~= g_pre.possibility_spots@.update(
                        v as int, self.possibility_spots@[v as int]));
                    lemma_total_update(g_pre.possibility_spots@, v as int,
                        self.possibility_spots[v as int]);
                    assert forall|v2: int| 0 <= v2 < self.possibility_spots@.len()
                        implies #[trigger] self.cell_ok(v2) by {
                        assert(g_pre.cell_ok(v2));
                        assert forall|j2: int| 0 <= j2 < self.possibility_spots@[v2]@.len()
                            implies #[trigger] self.placed_ok(v2, j2) by {
                            assert(g_pre.placed_ok(v2, j2));
                            assert(self.possibility_spots@[v2]@[j2] == g_pre.possibility_spots@[v2]@[j2]);
                        }
                    }
                }
                let ghost g_drained = *self;
                let q = self.process_one(particle);
                proof {
                    lemma_total_congruent(g_drained.possibility_spots@, self.possibility_spots@);
                }
                let dest = self.vec_spot_particle(&q);
                let q2 = if dest != v {
                    Particle { queue_frame: self.frame, ..q }
                } else {
                    q
                };
                let ghost next_pre = next@;
                let ncell = &mut next[dest];
                ncell.push(q2);
                proof {
                    assert(next@ =~= next_pre.update(dest as int, next@[dest as int]));
                    lemma_total_update(next_pre, dest as int, next[dest as int]);
                    assert forall|nv: int, j: int| 0 <= nv < next@.len() && 0 <= j < next@[nv]@.len()
                        implies #[trigger] placed_in(*old(self), next@, nv, j) by {
                        if nv == dest as int && j == next_pre[nv]@.len() {
                            assert(next@[nv]@[j] == q2);
                            assert(old(self).spec_spot_index(q2.x as int, q2.y as int)
                                == self.spec_spot_index(q2.x as int, q2.y as int));
                        } else {
                            assert(placed_in(*old(self), next_pre, nv, j));
                            assert(next@[nv]@[j] == next_pre[nv]@[j]);
                        }
                    }
                    let gg = *old(self);
                    let vv = v as int;
                    let s2 = TickState {
                        drain: views_of(self.possibility_spots@),
                        filled: views_of(next@),
                        cursor: vv,
                    };
                    assert(s1.drain[vv] == g_pre.possibility_spots@[vv]@);
                    assert(s1.drain[vv].last() == particle);
                    assert(s1.drain.update(vv, s1.drain[vv].drop_last())
                        =~= views_of(g_drained.possibility_spots@));
                    assert(same_config(g_drained, gg));
                    lemma_processed_config(
                        g_drained,
                        gg,
                        views_of(g_drained.possibility_spots@),
                        particle,
                        s2.drain,
                        q,
                    );
                    assert(processed_from(
                        gg,
                        s1.drain.update(vv, s1.drain[vv].drop_last()),
                        s1.drain[vv].last(),
                        s2.drain,
                        q,
                    ));
                    assert(gg.spec_spot_index(q.x as int, q.y as int) == dest as int);
                    assert(s1.filled == views_of(next_pre));
                    assert(s2.filled =~= s1.filled.update(
                        dest as int, s1.filled[dest as int].push(q2)));
                    assert(tick_step_with(gg, s1, s2, q));
                    assert(tick_step(gg, s1, s2));
                    assert(tick_transition(gg, s1, s2));
                    let trace0 = trace;
                    trace = trace.push(s2);
                    assert(trace.first() == trace0.first());
                    assert(trace.last() == s2);
                    assert forall|i: int| 0 <= i < trace.len() - 1
                        implies #[trigger] tick_transition(gg, trace[i], trace[i + 1]) by {
                        if i < trace0.len() - 1 {
                            assert(trace[i] == trace0[i]);
                            assert(trace[i + 1] == trace0[i + 1]);
                        } else {
                            assert(trace[i] == s1);
                            assert(trace[i + 1] == s2);
                        }
                    }
                }
            }
            proof {
                let gg = *old(self);
                let s1o = trace.last();
                let s2 = TickState {
                    drain: views_of(self.possibility_spots@),
                    filled: views_of(next@),
                    cursor: v as int + 1,
                };
                assert(s1o.drain[v as int].len()
                    == self.possibility_spots@[v as int]@.len());
                assert(tick_transition(gg, s1o, s2));
                let trace0 = trace;
                trace = trace.push(s2);
                assert(trace.first() == trace0.first());
                assert(trace.last() == s2);
                assert forall|i: int| 0 <= i < trace.len() - 1
                    implies #[trigger] tick_transition(gg, trace[i], trace[i + 1]) by {
                    if i < trace0.len() - 1 {
                        assert(trace[i] == trace0[i]);
                        assert(trace[i + 1] == trace0[i + 1]);
                    } else {
                        assert(trace[i] == s1o);
                        assert(trace[i + 1] == s2);
                    }
                }
            }
            v = v + 1;
        }
        proof {
            lemma_total_empty(self.possibility_spots@);
        }
        self.possibility_spots = next;
        let next_frame: u64 = self.frame as u64 + 1;
        if next_frame < self.until_frame as u64 {
            self.frame = self.frame + 1;
        } else {
            self.frame = 0;
        }
        if self.raw_frame_counter < u32::MAX {
            self.raw_frame_counter = self.raw_frame_counter + 1;
        } else {
            self.raw_frame_counter = 0;
        }
        proof {
            assert forall|v2: int| 0 <= v2 < self.possibility_spots@.len()
                implies #[trigger] self.cell_ok(v2) by {
                assert forall|j2: int| 0 <= j2 < self.possibility_spots@[v2]@.len()
                    implies #[trigger] self.placed_ok(v2, j2) by {
                    assert(placed_in(*old(self), self.possibility_spots@, v2, j2));
                }
            }
            assert(tick_trace_ok(*old(self), trace));
            assert(tick_trace_start(trace, views_of(old(self).possibility_spots@)));
            assert(tick_trace_end(trace, views_of(self.possibility_spots@)));
        }
    }
}

impl Grid {
    /// Whether at least `needed` seeding placements are still free: lets a
    /// caller test `fill`'s capacity precondition at run time.
    pub fn has_free_spots(&self, needed: u32) -> (enough: bool)
        requires
            self.wf(),
        ensures
            enough == (needed as int <= self.free_spot_count()),
    {
        if needed == 0 {
            proof {
                self.lemma_free_count_nonneg(0);
            }
            return true;
        }
        let spot_count: usize = self.possibility_spots.len();
        let ct: usize = self.cell_x_count * self.cell_y_count;
        let mut found: u32 = 0;
        let mut v: usize = 0;
        while v < spot_count
            invariant
                self.wf(),
                v <= spot_count,
                spot_count == self.possibility_spots@.len(),
                ct == self.coarse_total(),
                found < needed,
                found as int + self.free_count_from(v as int * ct as int) == self.free_spot_count(),
            decreases spot_count - v,
        {
            let mut k: usize = 0;
            while k < ct
                invariant
                    self.wf(),
                    v < spot_count,
                    spot_count == self.possibility_spots@.len(),
                    ct == self.coarse_total(),
                    k <= ct,
                    found < needed,
                    found as int + self.free_count_from(v as int * ct as int + k as int)
                        == self.free_spot_count(),
                decreases ct - k,
            {
                proof {
                    self.lemma_combo_encode(v as int, k as int);
                }
                if !self.coarse_taken_in_spot(v, k) {
                    found = found + 1;
                    if found == needed {
                        proof {
                            self.lemma_free_count_nonneg(v as int * ct as int + k as int + 1);
                        }
                        return true;
                    }
                }
                k = k + 1;
            }
            proof {
                let vi = v as int;
                let cti = ct as int;
                assert(vi * cti + cti == (vi + 1) * cti) by (nonlinear_arith);
            }
            v = v + 1;
        }
        proof {
            assert(spot_count as int * ct as int == self.combo_total());
        }
        false
    }
}

/// One empty cell per possibility spot.
fn create_possibility_grid(possibility_x_count: usize, possibility_y_count: usize) -> (spots: Vec<Vec<Particle>>)
    requires
        possibility_x_count * possibility_y_count <= usize::MAX,
    ensures
        spots@.len() == possibility_x_count * possibility_y_count,
        forall|v: int| 0 <= v < spots@.len() ==> #[trigger] spots@[v]@.len() == 0,
        total_particles(spots@) == 0,
{
    let n: usize = possibility_x_count * possibility_y_count;
    let mut spots: Vec<Vec<Particle>> = Vec::new();
    let mut i: usize = 0;
    while i < n
        invariant
            i <= n,
            spots@.len() == i,
            forall|v: int| 0 <= v < i ==> #[trigger] spots@[v]@.len() == 0,
            total_particles(spots@) == 0,
        decreases n - i,
    {
        let empty_cell: Vec<Particle> = Vec::new();
        proof {
            lemma_total_push(spots@, empty_cell);
        }
        spots.push(empty_cell);
        i = i + 1;
    }
    spots
}

} // verus!
