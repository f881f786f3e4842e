use particles::animation::{AnimationTime, StartAnimationAt, animation_time, start_offset_ms};
use particles::force::{Force, ForceBuilder, ForceType};
use particles::grid::{FillStyle, Grid, GridOptions};
use particles::particle::{InitFrame, ParticleAttributes, color_from_rgba};
use particles::position::Position;

fn default_grid() -> Grid {
    let options = GridOptions {
        cell_x_count: 5,
        cell_y_count: 5,
        possibility_x_count: 10,
        possibility_y_count: 10,
        possibility_side_length: 10,
        position: Position::new(1, 2),
        forces: Vec::new(),
    };

    Grid::new(options)
}

fn default_attributes() -> ParticleAttributes {
    ParticleAttributes {
        color: color_from_rgba(20, 20, 200, 255),
        friction: 500,
        diameter: 5,
        elasticity_fraction: 900,
        mass: 1,
        init_frame: InitFrame::Zero,
    }
}

fn default_forces() -> Vec<Force> {
    let mut builder = ForceBuilder::new();

    builder.add(ForceType::Static { vx: 20, vy: 15 }, 50);

    builder.add(ForceType::Idle, 100);

    builder.add(ForceType::Newton { nx: -20, ny: -10 }, 50);

    builder.add(
        ForceType::Accelerate { vx: -100, vy: -10, vx_max: -500, vy_max: -1500 },
        30,
    );

    builder.build()
}

#[test]
fn create_grid() {
    let grid = default_grid();
    assert_eq!(grid.cell_width, 100); // 10 * 10
    assert_eq!(grid.cell_height, 100);
    assert_eq!(grid.possibility_spots.len(), 100); // 10 * 10
    assert_eq!(grid.width, 500);
    assert_eq!(grid.height, 500);
    assert_eq!(grid.position.x, 1);
    assert_eq!(grid.position.y, 2);
}

#[test]
fn fill_grid() {
    let mut grid = default_grid();
    let attributes = default_attributes();

    grid.fill(&attributes, 200, FillStyle::WhiteNoise);

    assert_eq!(grid.particle_count, 200);

    let len = grid
        .possibility_spots
        .iter()
        .fold(0, |acc, x| acc + x.len()) as u32;

    assert_eq!(grid.particle_count, len);
}

#[test]
fn updates_frame() {
    let mut grid = default_grid();
    assert_eq!(0, grid.frame);
    grid.advance_tick();
    assert_eq!(1, grid.frame);
}

#[test]
fn add_particle() {
    let mut grid = default_grid();
    let attributes = default_attributes();

    grid.add_particle(115, 105, &attributes);
    assert_eq!(1, grid.possibility_spots[1].len());

    // if y is 1 more, then the pos in array is + poss_x_count (10).
    grid.add_particle(105, 115, &attributes);
    assert_eq!(1, grid.possibility_spots[10].len());

    let particle = grid.possibility_spots[1][0];

    assert_eq!(1, grid.possibility_x_index(particle.x));
    assert_eq!(0, grid.possibility_y_index(particle.y));

    assert_eq!(1, grid.cell_x_index(particle.x));
    assert_eq!(1, grid.cell_y_index(particle.y));

    // alpha is the low byte of the packed color (255 / 255).
    assert_eq!(255, particle.color % 256);

    assert_eq!(5, particle.diameter);
    assert_eq!(2, particle.radius);
    assert_eq!(500, particle.friction);
    assert_eq!(900, particle.elasticity_fraction);
    assert_eq!(1, particle.mass);
}

#[test]
fn moves_particle() {
    let mut grid = default_grid();
    let attributes = default_attributes();

    grid.add_particle(5, 5, &attributes);

    assert_eq!(1, grid.possibility_spots[0].len());

    grid.possibility_spots[0][0].vx += 10;
    grid.advance_tick();

    assert_eq!(1, grid.possibility_spots[1].len());
    assert_eq!(0, grid.possibility_spots[0].len());
}

#[test]
fn add_external_forces() {
    let forces = default_forces();

    assert_eq!(forces.len(), 4);
    assert_eq!(forces.last().unwrap().until_frame, 230);
}

#[test]
fn apply_forces() {
    let attributes = default_attributes();
    let forces = default_forces();

    let options = GridOptions {
        cell_x_count: 5,
        cell_y_count: 5,
        possibility_x_count: 10,
        possibility_y_count: 10,
        possibility_side_length: 10,
        position: Position::new(1, 2),
        forces,
    };

    let mut grid = Grid::new(options);
    grid.add_particle(100, 100, &attributes);
    grid.advance_tick();

    // frame 0 lies in the static force's window: the velocity delta is
    // applied, and the particle moves by it to (120, 115), which flattens
    // to possibility spot 12.
    let moved = grid.possibility_spots[12][0];
    assert_eq!(20, moved.vx);
    assert_eq!(15, moved.vy);
    assert_eq!(120, moved.x);
    assert_eq!(115, moved.y);
}

#[test]
fn frame_wraps_at_schedule_end() {
    let mut builder = ForceBuilder::new();
    builder.add(ForceType::Idle, 2);
    let options = GridOptions {
        cell_x_count: 2,
        cell_y_count: 2,
        possibility_x_count: 2,
        possibility_y_count: 2,
        possibility_side_length: 10,
        position: Position::new(0, 0),
        forces: builder.build(),
    };
    let mut grid = Grid::new(options);
    assert_eq!(2, grid.until_frame);
    assert_eq!(0, grid.frame);
    grid.advance_tick();
    assert_eq!(1, grid.frame);
    assert_eq!(1, grid.raw_frame_counter);
    grid.advance_tick();
    assert_eq!(0, grid.frame);
    assert_eq!(2, grid.raw_frame_counter);
    grid.advance_tick();
    assert_eq!(1, grid.frame);
}

#[test]
fn tick_keeps_particle_count() {
    let mut grid = default_grid();
    let attributes = default_attributes();
    grid.fill(&attributes, 150, FillStyle::WhiteNoise);
    for _ in 0..5 {
        grid.advance_tick();
        assert_eq!(150, grid.particle_count);
        let len = grid
            .possibility_spots
            .iter()
            .fold(0, |acc, x| acc + x.len()) as u32;
        assert_eq!(150, len);
    }
}

#[test]
fn white_noise_scenario() {
    // Grid(cell=5, poss=10, side=10) spans 500 x 500; filling 200 leaves
    // no two particles sharing a (spot, coarse cell) combination.
    let mut grid = default_grid();
    let attributes = default_attributes();
    assert_eq!(grid.width, 500);
    assert_eq!(grid.height, 500);

    grid.fill(&attributes, 200, FillStyle::WhiteNoise);
    assert_eq!(grid.particle_count, 200);

    for spot in 0..grid.possibility_spots.len() {
        let cell = &grid.possibility_spots[spot];
        for a in 0..cell.len() {
            for b in 0..cell.len() {
                if a != b {
                    let pa = cell[a];
                    let pb = cell[b];
                    let coarse_a = grid.coarse_index(pa.x, pa.y);
                    let coarse_b = grid.coarse_index(pb.x, pb.y);
                    assert_ne!(coarse_a, coarse_b);
                }
            }
        }
    }
}

#[test]
fn free_spots_capacity() {
    let mut grid = default_grid();
    let attributes = default_attributes();
    // 100 spots times 25 coarse cells: 2500 combinations.
    assert!(grid.has_free_spots(2500));
    grid.fill(&attributes, 200, FillStyle::WhiteNoise);
    assert!(grid.has_free_spots(2300));
    assert!(!grid.has_free_spots(2301));
}

#[test]
fn particles_stay_in_bounds() {
    let mut grid = default_grid();
    let attributes = default_attributes();
    grid.fill(&attributes, 50, FillStyle::WhiteNoise);
    // shove every particle hard toward the far corner
    for spot in 0..grid.possibility_spots.len() {
        for i in 0..grid.possibility_spots[spot].len() {
            grid.possibility_spots[spot][i].vx = 1000;
            grid.possibility_spots[spot][i].vy = 1000;
        }
    }
    for _ in 0..3 {
        grid.advance_tick();
        for spot in 0..grid.possibility_spots.len() {
            for i in 0..grid.possibility_spots[spot].len() {
                let p = grid.possibility_spots[spot][i];
                assert!(0 <= p.x && p.x + p.diameter < grid.width);
                assert!(0 <= p.y && p.y + p.diameter < grid.height);
            }
        }
    }
}

#[test]
fn animation_timing() {
    let zero = start_offset_ms(&StartAnimationAt::Zero, 1000);
    assert_eq!(0, zero);
    let ranged = start_offset_ms(&StartAnimationAt::RangeMs(5, 10), 1000);
    assert!(5 <= ranged && ranged < 10);
    let random = start_offset_ms(&StartAnimationAt::Random, 1000);
    assert!(random < 1000);

    let t: AnimationTime = animation_time(2500, 0, 1000);
    assert_eq!(500, t.cycle_ms);
    assert_eq!(2500, t.total_ms);
    let shifted: AnimationTime = animation_time(2500, 700, 1000);
    assert_eq!(200, shifted.cycle_ms);
}

#[test]
fn handle_particle_moves_to_final_cell() {
    let mut grid = default_grid();
    let attributes = default_attributes();

    grid.add_particle(5, 5, &attributes);
    grid.possibility_spots[0][0].vx = 25;

    grid.handle_particle(0, 0);

    // committed at (30, 5): possibility spot 3, marked as relocated
    assert_eq!(0, grid.possibility_spots[0].len());
    assert_eq!(1, grid.possibility_spots[3].len());
    let p = grid.possibility_spots[3][0];
    assert_eq!(30, p.x);
    assert_eq!(grid.frame, p.queue_frame);
    assert_eq!(1, grid.particle_count);
}
