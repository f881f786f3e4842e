use particles::particle::{CollisionData, InitFrame, Particle, ParticleAttributes, color_from_rgba};

fn attributes(mass: i64, elasticity_fraction: i64) -> ParticleAttributes {
    ParticleAttributes {
        color: color_from_rgba(255, 255, 255, 255),
        friction: 0,
        diameter: 5,
        elasticity_fraction,
        mass,
        init_frame: InitFrame::Max,
    }
}

fn tentative_box(p: &Particle) -> CollisionData {
    CollisionData {
        new_x: p.x + p.vx,
        new_y: p.y + p.vy,
        end_new_x: p.x + p.vx + p.diameter,
        end_new_y: p.y + p.vy + p.diameter,
    }
}

#[test]
fn equal_mass_full_elasticity_swaps_velocities() {
    let a = attributes(3, 1000);
    let mut first = Particle::new(100, 100, &a);
    let mut second = Particle::new(110, 95, &a);
    first.vx = 7;
    first.vy = -2;
    second.vx = -3;
    second.vy = 5;

    let data = tentative_box(&first);
    let collided = first.handle_possible_collision(&mut second, &data);

    assert!(collided);
    // exact exchange: momentum and kinetic energy conserved
    assert_eq!(-3, first.vx);
    assert_eq!(5, first.vy);
    assert_eq!(7, second.vx);
    assert_eq!(-2, second.vy);
}

#[test]
fn equal_mass_elasticity_scales_received_velocity() {
    let bouncy = attributes(3, 900);
    let mut first = Particle::new(100, 100, &bouncy);
    let mut second = Particle::new(120, 100, &bouncy);
    first.vx = 10;
    second.vx = -10;

    let data = tentative_box(&first);
    let collided = first.handle_possible_collision(&mut second, &data);

    assert!(collided);
    // each side receives the other's velocity scaled by its own elasticity
    assert_eq!(-9, first.vx);
    assert_eq!(9, second.vx);
}

#[test]
fn unequal_mass_conserves_momentum() {
    let heavy = attributes(2, 1000);
    let light = attributes(1, 1000);
    let mut first = Particle::new(100, 100, &heavy);
    let mut second = Particle::new(104, 100, &light);
    first.vx = 3;
    second.vx = 0;

    let momentum_before = first.mass * first.vx + second.mass * second.vx;

    let data = tentative_box(&first);
    let collided = first.handle_possible_collision(&mut second, &data);

    assert!(collided);
    // vA' = ((2-1)*3 + 0) / 3 = 1, vB' = (2*2*3 + 0) / 3 = 4
    assert_eq!(1, first.vx);
    assert_eq!(4, second.vx);

    let momentum_after = first.mass * first.vx + second.mass * second.vx;
    assert_eq!(momentum_before, momentum_after);
}

#[test]
fn unequal_mass_momentum_drift_stays_under_combined_mass() {
    let heavy = attributes(7, 1000);
    let light = attributes(3, 1000);
    let mut first = Particle::new(100, 100, &heavy);
    let mut second = Particle::new(104, 100, &light);
    first.vx = 5;
    second.vx = -4;

    let momentum_before = first.mass * first.vx + second.mass * second.vx;

    let data = tentative_box(&first);
    let collided = first.handle_possible_collision(&mut second, &data);
    assert!(collided);

    let momentum_after = first.mass * first.vx + second.mass * second.vx;
    let drift = (momentum_after - momentum_before).abs();
    assert!(drift < first.mass + second.mass);
}

#[test]
fn contained_box_still_collides() {
    // One tentative box lies strictly inside the other: both axes overlap,
    // so this is a collision, and equal masses at full elasticity swap
    // their velocities exactly.
    let wide = ParticleAttributes {
        color: color_from_rgba(255, 255, 255, 255),
        friction: 0,
        diameter: 10,
        elasticity_fraction: 1000,
        mass: 3,
        init_frame: InitFrame::Max,
    };
    let narrow = ParticleAttributes { diameter: 2, ..wide };
    let mut first = Particle::new(100, 100, &wide);
    let mut second = Particle::new(104, 104, &narrow);
    first.vx = 1;

    // first's tentative box [101,111]x[100,110] contains second's [104,106]x[104,106]
    let data = tentative_box(&first);
    let collided = first.handle_possible_collision(&mut second, &data);

    assert!(collided);
    assert_eq!(0, first.vx);
    assert_eq!(0, first.vy);
    assert_eq!(1, second.vx);
    assert_eq!(0, second.vy);
}

#[test]
fn disjoint_boxes_do_not_collide() {
    let a = attributes(1, 1000);
    let mut first = Particle::new(100, 100, &a);
    let mut second = Particle::new(300, 300, &a);
    first.vx = 1;

    let data = tentative_box(&first);
    let collided = first.handle_possible_collision(&mut second, &data);

    assert!(!collided);
    assert_eq!(1, first.vx);
    assert_eq!(0, second.vx);
}

#[test]
fn wall_bounce_negates_and_scales() {
    let a = attributes(1, 900);
    let mut p = Particle::new(495, 5, &a);
    p.vx = 10;
    p.vy = 2;

    p.bounce(500, 500);
    // 495 + 10 + 5 crosses the right wall: vx becomes -(10 * 900 / 1000)
    assert_eq!(-9, p.vx);
    assert_eq!(2, p.vy);

    p.transform(500, 500);
    assert_eq!(486, p.x);
    assert_eq!(7, p.y);
    assert!(0 <= p.x && p.x + p.diameter < 500);
}

#[test]
fn transform_clamps_into_bounds() {
    let a = attributes(1, 1000);
    let mut p = Particle::new(2, 490, &a);
    p.vx = -50;
    p.vy = 50;
    p.transform(500, 500);
    assert_eq!(0, p.x);
    assert_eq!(494, p.y); // 500 - diameter - 1
}

#[test]
fn friction_drains_velocity() {
    let a = attributes(4, 1000);
    let mut p = Particle::new(10, 10, &a);
    p.vx = 100;
    p.vy = -40;
    p.apply_friction();
    // friction 0 in these attributes: nothing changes
    assert_eq!(100, p.vx);
    assert_eq!(-40, p.vy);

    let mut slowed = Particle::new(
        10,
        10,
        &ParticleAttributes {
            color: color_from_rgba(0, 0, 0, 255),
            friction: 500,
            diameter: 5,
            elasticity_fraction: 1000,
            mass: 4,
            init_frame: InitFrame::Max,
        },
    );
    slowed.vx = 100;
    slowed.vy = -40;
    slowed.apply_friction();
    assert_eq!(50, slowed.vx);
    assert_eq!(-20, slowed.vy);
}

#[test]
fn penetration_correction_moves_least_overlapping_axis() {
    let a = attributes(3, 1000);
    let mut first = Particle::new(100, 100, &a);
    let mut second = Particle::new(104, 102, &a);

    let data = tentative_box(&first);
    let collided = first.handle_possible_collision(&mut second, &data);
    assert!(collided);
    // both at rest: velocities swap to zero each way; the larger centre
    // difference is on x, so only x is corrected: the first particle is
    // snapped left of the second's box at 104 - 5 - 1.
    assert_eq!(98, first.x);
    assert_eq!(100, first.y);
    assert_eq!(104, second.x);
    assert_eq!(102, second.y);
}

#[test]
fn penetration_correction_snaps_outside_against_motion() {
    // The mover ends up with a negative velocity after the swap; the snap
    // must still land its box just outside the partner's tentative box,
    // compensating the velocity that the next commit will add.
    let a = ParticleAttributes {
        color: color_from_rgba(255, 255, 255, 255),
        friction: 0,
        diameter: 10,
        elasticity_fraction: 1000,
        mass: 3,
        init_frame: InitFrame::Max,
    };
    let mut first = Particle::new(8, 11, &a);
    let mut second = Particle::new(2, 8, &a);
    second.vx = -2;

    let data = tentative_box(&first);
    let collided = first.handle_possible_collision(&mut second, &data);

    assert!(collided);
    // equal mass, full elasticity: velocities swap
    assert_eq!(-2, first.vx);
    assert_eq!(0, second.vx);
    // post-swap boxes: first [6,16], second [2,12]; x has the larger centre
    // difference, so x is corrected: 12 - (-2) + 1 = 15, and committing
    // vx = -2 puts the box at [13,23], outside [2,12].
    assert_eq!(15, first.x);
    assert_eq!(11, first.y);
    assert!(first.x + first.vx > second.x + second.vx + second.diameter);
    // the partner is never moved
    assert_eq!(2, second.x);
    assert_eq!(8, second.y);
}

#[test]
fn packed_color_channels() {
    let c = color_from_rgba(20, 20, 200, 255);
    assert_eq!(0x1414C8FF, c);
    assert_eq!(255, particles::particle::color_alpha(c));
}
