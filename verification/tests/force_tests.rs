use particles::force::{Force, ForceBuilder, ForceType, Point};
use particles::particle::{InitFrame, Particle, ParticleAttributes, color_from_rgba, VEL_LIMIT};

fn body(mass: i64) -> Particle {
    let attributes = ParticleAttributes {
        color: color_from_rgba(0, 0, 0, 255),
        friction: 0,
        diameter: 2,
        elasticity_fraction: 1000,
        mass,
        init_frame: InitFrame::Max,
    };
    Particle::new(100, 100, &attributes)
}

#[test]
fn static_force_adds_velocity() {
    let force = Force { until_frame: 50, force_type: ForceType::Static { vx: 20, vy: 15 } };
    let mut p = body(1);
    force.apply(&mut p, 0, 0);
    assert_eq!(20, p.vx);
    assert_eq!(15, p.vy);
}

#[test]
fn static_force_saturates_at_velocity_bound() {
    let force = Force { until_frame: 50, force_type: ForceType::Static { vx: 20, vy: 0 } };
    let mut p = body(1);
    p.vx = VEL_LIMIT;
    force.apply(&mut p, 0, 0);
    assert_eq!(VEL_LIMIT, p.vx);
}

#[test]
fn newton_force_divides_by_mass() {
    let force = Force { until_frame: 10, force_type: ForceType::Newton { nx: 10, ny: -7 } };
    let mut p = body(2);
    force.apply(&mut p, 3, 0);
    assert_eq!(5, p.vx);
    // -7 / 2 rounds toward zero
    assert_eq!(-3, p.vy);
}

#[test]
fn accelerate_respects_signed_cap() {
    let capped = Force {
        until_frame: 10,
        force_type: ForceType::Accelerate { vx: 10, vy: 10, vx_max: 5, vy_max: 100 },
    };
    let mut p = body(1);
    capped.apply(&mut p, 0, 0);
    // x would pass its cap: not applied; y stays under its cap: applied
    assert_eq!(0, p.vx);
    assert_eq!(10, p.vy);

    let mut against = body(1);
    against.vx = -5;
    against.vy = -5;
    capped.apply(&mut against, 0, 0);
    // a delta against the current direction always applies
    assert_eq!(5, against.vx);
    assert_eq!(5, against.vy);
}

#[test]
fn gravity_dead_zone_suppresses_pull() {
    let force = Force {
        until_frame: 10,
        force_type: ForceType::Gravity {
            gravitation_force: 1000,
            dead_zone: 10,
            mass: 10000,
            start: Point(105, 105),
            end: Point(105, 105),
        },
    };
    // the particle's centre (101, 101) is within 10 of the well on both axes
    let mut p = body(1);
    force.apply(&mut p, 0, 0);
    assert_eq!(0, p.vx);
    assert_eq!(0, p.vy);
}

#[test]
fn gravity_pulls_toward_point() {
    let force = Force {
        until_frame: 10,
        force_type: ForceType::Gravity {
            gravitation_force: 1000,
            dead_zone: 10,
            mass: 10000,
            start: Point(101, 201),
            end: Point(101, 201),
        },
    };
    // centre (101, 101): straight below the well at distance 100
    let mut p = body(1);
    force.apply(&mut p, 0, 0);
    assert_eq!(0, p.vx);
    // force = 1000 * 10000 * 1 / 100^2 = 1000, fully on the y axis
    assert_eq!(1000, p.vy);
}

#[test]
fn gravity_point_interpolates_over_window() {
    let force = Force {
        until_frame: 100,
        force_type: ForceType::Gravity {
            gravitation_force: 2401,
            dead_zone: 10,
            mass: 1000,
            start: Point(100, 0),
            end: Point(100, 100),
        },
    };
    // at frame 50 of [0, 100) the well sits at (100, 50); the particle's
    // centre is (100, 1), so the pull is straight down the y axis at
    // distance 49: force = 2401 * 1000 / 49^2 = 1000.
    let attributes = ParticleAttributes {
        color: color_from_rgba(0, 0, 0, 255),
        friction: 0,
        diameter: 2,
        elasticity_fraction: 1000,
        mass: 1,
        init_frame: InitFrame::Max,
    };
    let mut p = Particle::new(99, 0, &attributes);
    force.apply(&mut p, 50, 0);
    assert_eq!(0, p.vx);
    assert_eq!(1000, p.vy);
}

#[test]
fn builder_appends_cumulative_windows() {
    let mut builder = ForceBuilder::new();
    builder.add(ForceType::Static { vx: 1, vy: 0 }, 10);
    builder.add(ForceType::Idle, 5);
    builder.add(ForceType::Static { vx: -1, vy: 0 }, 10);
    let forces = builder.build();
    assert_eq!(3, forces.len());
    assert_eq!(10, forces[0].until_frame);
    assert_eq!(15, forces[1].until_frame);
    assert_eq!(25, forces[2].until_frame);
}
