//! End-to-end tests of the simulation core: exact values of the reference
//! scenario, conservation and symmetry checks, and the defined edge cases.

use nbody::rational::{isqrt_u128, rat_add, rat_div, Rat};
use nbody::sim::{step, update_acceleration, Body, PhysicsSystem};
use nbody::vec2::V2;

fn r(num: i128, den: i128) -> Rat {
    Rat::new(num, den).expect("well-formed rational")
}

fn v(x: Rat, y: Rat) -> V2 {
    V2 { x, y }
}

fn body(mass: i128, px: Rat, py: Rat, vx: Rat, vy: Rat) -> Body {
    Body::new(r(mass, 1), v(px, py), v(vx, vy)).expect("valid body")
}

/// `a == p / q` as values.
fn is_frac(a: Rat, p: i128, q: i128) -> bool {
    a.num * q == p * a.den
}

/// Momentum component: the sum of `mass * vel` as an exact fraction,
/// returned as (numerator, denominator).
fn momentum(bodies: &[Body], x_axis: bool) -> (i128, i128) {
    let mut num: i128 = 0;
    let mut den: i128 = 1;
    for b in bodies {
        let vc = if x_axis { b.vel.x } else { b.vel.y };
        let tn = b.mass.num * vc.num;
        let td = b.mass.den * vc.den;
        num = num * td + tn * den;
        den *= td;
    }
    (num, den)
}

#[test]
fn isqrt_exact_and_floor() {
    assert_eq!(isqrt_u128(0), 0);
    assert_eq!(isqrt_u128(1), 1);
    assert_eq!(isqrt_u128(144), 12);
    assert_eq!(isqrt_u128(145), 12);
    assert_eq!(isqrt_u128(10), 3);
    assert_eq!(isqrt_u128(u128::MAX), (1u128 << 64) - 1);
}

#[test]
fn rational_arithmetic_is_exact_and_reduced() {
    let half = r(2, 4);
    assert!(is_frac(half, 1, 2));
    let third = r(1, 3);
    let s = rat_add(half, third).expect("no overflow");
    assert!(is_frac(s, 5, 6));
    let q = rat_div(r(1, 2), r(-3, 4)).expect("no overflow");
    assert!(is_frac(q, -2, 3));
    assert!(q.den > 0);
}

#[test]
fn rational_rejects_zero_denominator() {
    assert!(Rat::new(1, 0).is_none());
    assert!(rat_div(r(1, 1), r(0, 1)).is_none());
}

#[test]
fn body_new_rejects_nonpositive_mass() {
    let zero = r(0, 1);
    let p = v(zero, zero);
    assert!(Body::new(r(0, 1), p, p).is_none());
    assert!(Body::new(r(-5, 1), p, p).is_none());
    assert!(Body::new(r(5, 1), p, p).is_some());
}

/// The reference scenario: masses 200 and 50 at distance 100, `dt = 3/2`.
/// All values below are the exact fractions of the analytic formulas.
#[test]
fn reference_scenario_exact_values() {
    let zero = r(0, 1);
    let b0 = body(200, zero, zero, zero, zero);
    let b1 = body(50, r(100, 1), zero, zero, r(-1, 1));
    let dt = r(3, 2);
    let bodies = vec![b0, b1];

    // magnitude = 200 * 50 / 100^2 = 1, so the force on body 1 is (-1, 0)
    // and on body 0 it is (1, 0); accelerations are 1/200 and -1/50.
    let accel = update_acceleration(&bodies).expect("in range");
    assert!(is_frac(accel[0].acc.x, 1, 200));
    assert!(is_frac(accel[0].acc.y, 0, 1));
    assert!(is_frac(accel[1].acc.x, -1, 50));
    assert!(is_frac(accel[1].acc.y, 0, 1));

    let after = step(&bodies, dt).expect("in range");
    // v0' = (3/400, 0), p0' = (9/800, 0)
    assert!(is_frac(after[0].vel.x, 3, 400));
    assert!(is_frac(after[0].vel.y, 0, 1));
    assert!(is_frac(after[0].pos.x, 9, 800));
    assert!(is_frac(after[0].pos.y, 0, 1));
    // v1' = (-3/100, -1), p1' = (100 - 9/200, -3/2) = (19991/200, -3/2)
    assert!(is_frac(after[1].vel.x, -3, 100));
    assert!(is_frac(after[1].vel.y, -1, 1));
    assert!(is_frac(after[1].pos.x, 19991, 200));
    assert!(is_frac(after[1].pos.y, -3, 2));
}

/// Momentum is conserved: the three-body reference scene starts with total
/// momentum zero and keeps it, exactly, across steps.
#[test]
fn momentum_stays_zero() {
    let zero = r(0, 1);
    let bodies = vec![
        body(200, zero, zero, zero, zero),
        body(50, r(100, 1), zero, zero, r(-1, 1)),
        body(50, r(-100, 1), zero, zero, r(1, 1)),
    ];
    let (mx, _) = momentum(&bodies, true);
    let (my, _) = momentum(&bodies, false);
    assert_eq!(mx, 0);
    assert_eq!(my, 0);
    let after = step(&bodies, r(3, 2)).expect("first step in range");
    let (ax, _) = momentum(&after, true);
    let (ay, _) = momentum(&after, false);
    assert_eq!(ax, 0);
    assert_eq!(ay, 0);
}

/// Momentum of a small symmetric pair stays zero over several steps.
#[test]
fn momentum_stays_zero_many_steps() {
    let zero = r(0, 1);
    let mut bodies = vec![
        body(2, r(-1, 1), zero, zero, r(-1, 1)),
        body(2, r(1, 1), zero, zero, r(1, 1)),
    ];
    let dt = r(1, 1);
    for i in 0..2 {
        match step(&bodies, dt) {
            Some(next) => bodies = next,
            None => panic!("step {} left the representable range", i),
        }
        let (mx, _) = momentum(&bodies, true);
        let (my, _) = momentum(&bodies, false);
        assert_eq!(mx, 0);
        assert_eq!(my, 0);
    }
}

/// A single body keeps its velocity and moves in a straight line.
#[test]
fn single_body_straight_line() {
    let mut bodies = vec![body(5, r(2, 1), r(3, 1), r(1, 1), r(-2, 1))];
    let dt = r(1, 1);
    for _ in 0..4 {
        bodies = step(&bodies, dt).expect("in range");
    }
    assert!(is_frac(bodies[0].vel.x, 1, 1));
    assert!(is_frac(bodies[0].vel.y, -2, 1));
    assert!(is_frac(bodies[0].pos.x, 6, 1));
    assert!(is_frac(bodies[0].pos.y, -5, 1));
    assert!(is_frac(bodies[0].acc.x, 0, 1));
    assert!(is_frac(bodies[0].acc.y, 0, 1));
}

/// Two equal masses placed symmetrically get exactly opposite accelerations.
#[test]
fn two_body_opposite_accelerations() {
    let zero = r(0, 1);
    let bodies = vec![
        body(50, r(-100, 1), zero, zero, r(-1, 1)),
        body(50, r(100, 1), zero, zero, r(1, 1)),
    ];
    let accel = update_acceleration(&bodies).expect("in range");
    // magnitude = 50 * 50 / 200^2 = 1/16; accelerations are +-(1/16)/50.
    assert!(is_frac(accel[0].acc.x, 1, 800));
    assert!(is_frac(accel[1].acc.x, -1, 800));
    assert_eq!(
        accel[0].acc.x.num * accel[1].acc.x.den,
        -(accel[1].acc.x.num * accel[0].acc.x.den)
    );
    assert!(is_frac(accel[0].acc.y, 0, 1));
    assert!(is_frac(accel[1].acc.y, 0, 1));
}

/// Coincident bodies are a defined skip: the step succeeds and no
/// acceleration appears on either body.
#[test]
fn zero_distance_is_safe() {
    let five = r(5, 1);
    let bodies = vec![
        body(10, five, five, r(1, 2), r(0, 1)),
        body(20, five, five, r(-1, 2), r(0, 1)),
    ];
    let after = step(&bodies, r(3, 2)).expect("coincident pair must not fail");
    assert_eq!(after[0].acc.x.num, 0);
    assert_eq!(after[0].acc.y.num, 0);
    assert_eq!(after[1].acc.x.num, 0);
    assert_eq!(after[1].acc.y.num, 0);
    assert!(is_frac(after[0].vel.x, 1, 2));
    assert!(is_frac(after[1].vel.x, -1, 2));
}

/// Two independent runs of the same scene are bit-identical.
#[test]
fn runs_are_deterministic() {
    let zero = r(0, 1);
    let scene = || {
        vec![
            body(200, zero, zero, zero, zero),
            body(50, r(100, 1), zero, zero, r(-1, 1)),
            body(50, r(-100, 1), zero, zero, r(1, 1)),
        ]
    };
    let r1 = nbody::sim::run(scene(), r(3, 2), 1);
    let r2 = nbody::sim::run(scene(), r(3, 2), 1);
    assert!(r1.is_some());
    assert_eq!(r1, r2);
}

/// The stage labels drive exactly the stages they name.
#[test]
fn stage_labels_dispatch() {
    let zero = r(0, 1);
    let bodies = vec![
        body(200, zero, zero, zero, zero),
        body(50, r(100, 1), zero, zero, r(-1, 1)),
    ];
    let dt = r(3, 2);
    let via_label = PhysicsSystem::UpdateAcceleration.apply(&bodies, dt);
    let direct = update_acceleration(&bodies);
    assert_eq!(via_label, direct);
    let v1 = PhysicsSystem::UpdateVelocity.apply(&direct.unwrap(), dt).unwrap();
    let moved = PhysicsSystem::Movement.apply(&v1, dt).unwrap();
    assert_eq!(Some(moved), step(&bodies, dt));
}
