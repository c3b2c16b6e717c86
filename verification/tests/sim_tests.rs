// Scenario tests for the simulation step and the launch resolver.  All
// world scalars are fixed-point: 1_000_000 ticks per world unit.

use gravity_toy::sim::Simulation;
use gravity_toy::world::{Planet, Projectile};
use gravity_toy::launch::resolve_launch;
use gravity_toy::fixed::{FP_MAX, SCALE};

fn planet(x: i64, y: i64, size: i64, strength: i64) -> Planet {
    Planet { x, y, size, strength }
}

fn projectile(offset_x: i64, offset_y: i64, vector_x: i64, vector_y: i64) -> Projectile {
    Projectile { offset_x, offset_y, vector_x, vector_y, collision: false }
}

fn session_planets() -> Vec<Planet> {
    vec![
        planet(300 * SCALE, 300 * SCALE, 50 * SCALE, 1 * SCALE),
        planet(500 * SCALE, 300 * SCALE, 50 * SCALE, 10 * SCALE),
        planet(700 * SCALE, 300 * SCALE, 50 * SCALE, 1 * SCALE),
    ]
}

#[test]
fn pure_euler_without_planets() {
    let mut sim = Simulation::new(Vec::new());
    sim.add_projectile(projectile(100 * SCALE, 200 * SCALE, 3 * SCALE, -4 * SCALE));
    sim.step(SCALE);
    let prs = sim.projectiles();
    assert_eq!(prs.len(), 1);
    assert_eq!(prs[0].offset_x, 103 * SCALE);
    assert_eq!(prs[0].offset_y, 196 * SCALE);
    assert_eq!(prs[0].vector_x, 3 * SCALE);
    assert_eq!(prs[0].vector_y, -4 * SCALE);
    assert!(!prs[0].collision);
}

#[test]
fn mirrored_planets_cancel() {
    // Two planets mirrored through the projectile pull equally hard in
    // opposite directions on both axes: zero net force, pure Euler motion.
    let planets = vec![
        planet(200 * SCALE, 200 * SCALE, 50 * SCALE, SCALE),
        planet(400 * SCALE, 400 * SCALE, 50 * SCALE, SCALE),
    ];
    let mut sim = Simulation::new(planets);
    sim.add_projectile(projectile(300 * SCALE, 300 * SCALE, 0, 0));
    sim.step(SCALE);
    let prs = sim.projectiles();
    assert_eq!(prs.len(), 1);
    assert_eq!(prs[0].offset_x, 300 * SCALE);
    assert_eq!(prs[0].offset_y, 300 * SCALE);
    assert_eq!(prs[0].vector_x, 0);
    assert_eq!(prs[0].vector_y, 0);
}

#[test]
fn strength_ramp_reaches_cap_exactly() {
    let mut sim = Simulation::new(session_planets());
    let mut previous: Vec<i64> = sim.planets().iter().map(|p| p.strength).collect();
    for _ in 0..99 {
        sim.step(SCALE);
        let current: Vec<i64> = sim.planets().iter().map(|p| p.strength).collect();
        for (before, after) in previous.iter().zip(current.iter()) {
            assert!(after >= before);
            assert!(*after <= 100 * SCALE);
        }
        previous = current;
    }
    for p in sim.planets().iter() {
        assert_eq!(p.strength, 100 * SCALE);
    }
    sim.step(SCALE);
    for p in sim.planets().iter() {
        assert_eq!(p.strength, 100 * SCALE);
    }
}

#[test]
fn strength_ramp_clips_at_cap() {
    // A charge that would overstep the cap is clipped to exactly 100.0:
    // half a unit under the cap, charged with dt = 2.0.
    let planets = vec![planet(300 * SCALE, 300 * SCALE, 50 * SCALE, 99 * SCALE + SCALE / 2)];
    let mut sim = Simulation::new(planets);
    sim.step(2 * SCALE);
    assert_eq!(sim.planets()[0].strength, 100 * SCALE);
    sim.step(2 * SCALE);
    assert_eq!(sim.planets()[0].strength, 100 * SCALE);
}

#[test]
fn collided_projectile_is_pruned_and_stays_out() {
    let mut sim = Simulation::new(session_planets());
    // Three world units from the first planet: well inside the 5.0 threshold.
    sim.add_projectile(projectile(303 * SCALE, 300 * SCALE, 0, 0));
    sim.step(SCALE);
    assert_eq!(sim.projectiles().len(), 0);
    for _ in 0..10 {
        sim.step(SCALE);
        assert_eq!(sim.projectiles().len(), 0);
    }
}

#[test]
fn collision_boundary_is_strict() {
    // At distance exactly size/10 = 5.0 the projectile is not marked.
    // The seeded velocity exactly cancels the one frame of pull, so the
    // projectile does not move before the collision test.
    let planets = vec![planet(300 * SCALE, 300 * SCALE, 50 * SCALE, SCALE)];
    let mut sim = Simulation::new(planets);
    sim.add_projectile(projectile(305 * SCALE, 300 * SCALE, 240_000, -240_000));
    sim.step(SCALE);
    assert_eq!(sim.projectiles().len(), 1);
    assert_eq!(sim.projectiles()[0].offset_x, 305 * SCALE);
    assert_eq!(sim.projectiles()[0].offset_y, 300 * SCALE);
}

#[test]
fn collision_just_inside_boundary_marks() {
    // One tick under the threshold distance; the compensating velocity
    // again cancels the pull, and the projectile is pruned.
    let planets = vec![planet(300 * SCALE, 300 * SCALE, 50 * SCALE, SCALE)];
    let mut sim = Simulation::new(planets);
    sim.add_projectile(projectile(305 * SCALE - 1, 300 * SCALE, 240_000, -240_000));
    sim.step(SCALE);
    assert_eq!(sim.projectiles().len(), 0);
}

#[test]
fn launch_is_deterministic_and_exact() {
    // A click at (0, 325) against the reference planet gives displacement
    // (325, 0): angle zero, velocity (0.6, 0), start position (360, 325).
    let reference = planet(300 * SCALE, 300 * SCALE, 50 * SCALE, SCALE);
    let p = resolve_launch(0, 325 * SCALE, &reference);
    assert_eq!(p.vector_x, 600_000);
    assert_eq!(p.vector_y, 0);
    assert_eq!(p.offset_x, 360 * SCALE);
    assert_eq!(p.offset_y, 325 * SCALE);
    assert!(!p.collision);
    let q = resolve_launch(0, 325 * SCALE, &reference);
    assert_eq!(p.offset_x, q.offset_x);
    assert_eq!(p.offset_y, q.offset_y);
    assert_eq!(p.vector_x, q.vector_x);
    assert_eq!(p.vector_y, q.vector_y);
}

#[test]
fn launch_with_zero_displacement_aims_along_x() {
    // A click on the shifted anchor itself has no angle; as atan2(0, 0)
    // is zero, the launch aims along the positive x axis.
    let reference = planet(300 * SCALE, 300 * SCALE, 50 * SCALE, SCALE);
    let p = resolve_launch(325 * SCALE, 325 * SCALE, &reference);
    assert_eq!(p.vector_x, 600_000);
    assert_eq!(p.vector_y, 0);
    assert_eq!(p.offset_x, 360 * SCALE);
    assert_eq!(p.offset_y, 325 * SCALE);
}

#[test]
fn launch_appends_to_collection() {
    let mut sim = Simulation::new(session_planets());
    sim.launch(0, 325 * SCALE);
    assert_eq!(sim.projectiles().len(), 1);
    assert_eq!(sim.projectiles()[0].vector_x, 600_000);
    assert_eq!(sim.projectiles()[0].offset_x, 360 * SCALE);
}

#[test]
fn end_to_end_session() {
    let mut sim = Simulation::new(session_planets());
    sim.add_projectile(projectile(120 * SCALE, 300 * SCALE, 0, 300_000));
    sim.add_projectile(projectile(400 * SCALE, 300 * SCALE, 0, -500_000));
    // 500 frames of 0.002 s each: one simulated second in total.
    let dt: i64 = 2_000;
    let mut traces: u32 = 0;
    for _ in 0..500 {
        if sim.step(dt) {
            traces += 1;
        }
        assert!(sim.projectiles().len() <= 2);
    }
    assert_eq!(traces, 1);
    assert_eq!(sim.frame(), 500);
    assert_eq!(sim.planets().len(), 3);
}

#[test]
fn force_accumulation_is_order_independent() {
    let in_order = session_planets();
    let mut reversed = session_planets();
    reversed.reverse();
    let mut rotated = session_planets();
    rotated.rotate_left(1);
    let mut outcomes: Vec<Projectile> = Vec::new();
    for planets in [in_order, reversed, rotated] {
        let mut sim = Simulation::new(planets);
        sim.add_projectile(projectile(350 * SCALE, 280 * SCALE, SCALE, -SCALE));
        sim.step(SCALE);
        assert_eq!(sim.projectiles().len(), 1);
        outcomes.push(sim.projectiles()[0]);
    }
    for p in &outcomes[1..] {
        assert_eq!(p.vector_x, outcomes[0].vector_x);
        assert_eq!(p.vector_y, outcomes[0].vector_y);
        assert_eq!(p.offset_x, outcomes[0].offset_x);
        assert_eq!(p.offset_y, outcomes[0].offset_y);
    }
}

#[test]
fn projectile_on_planet_sees_saturated_force() {
    // A projectile exactly on a planet's anchor has the force law
    // divide by zero; the fixed-point model answers with the saturated
    // maximal force on both axes.
    let planets = vec![planet(300 * SCALE, 300 * SCALE, 50 * SCALE, SCALE)];
    let mut sim = Simulation::new(planets);
    sim.add_projectile(projectile(300 * SCALE, 300 * SCALE, 0, 0));
    sim.step(SCALE);
    let prs = sim.projectiles();
    assert_eq!(prs.len(), 1);
    assert_eq!(prs[0].vector_x, FP_MAX);
    assert_eq!(prs[0].vector_y, FP_MAX);
    assert_eq!(prs[0].offset_x, FP_MAX);
    assert_eq!(prs[0].offset_y, FP_MAX);
}

#[test]
fn trace_fires_every_five_hundredth_frame() {
    let mut sim = Simulation::new(Vec::new());
    let mut traces: u32 = 0;
    for _ in 0..1000 {
        if sim.step(0) {
            traces += 1;
        }
    }
    assert_eq!(traces, 2);
    assert_eq!(sim.frame(), 1000);
}
