//! The three-stage simulation step over an owned list of bodies.
//!
//! One tick runs, in order and each to completion before the next starts:
//! force accumulation (every unordered pair once, Newton's third law encoded
//! by adding a force to one total and subtracting it from the other, then
//! normalization by mass), velocity integration, position integration with
//! the already-updated velocity (semi-implicit Euler).  The gravitational
//! constant is fixed at one: natural units, not a physical calibration.
//!
//! Every stage is pinned to a spec-level mirror of itself, so the whole step
//! is a function of the body list and the timestep: `None` reports that some
//! intermediate magnitude left the `i128` range, in which case the input is
//! simply not advanced.

use crate::rational::{
    rat_div, rat_sqrt, rat_wf, spec_rat_div, spec_rat_mul, spec_rat_sqrt, Rat,
};
use crate::vec2::{
    spec_v2_add, spec_v2_norm_sq, spec_v2_scale, spec_v2_sub, spec_v2_zero, v2_add, v2_norm_sq,
    v2_scale, v2_sub, v2_wf, v2_zero, V2,
};
use vstd::prelude::*;

verus! {

/// A point mass: strictly positive mass, planar position, velocity and the
/// acceleration recomputed from scratch by every force-accumulation pass.
#[derive(Clone, Copy, Debug, PartialEq, Eq, Structural)]
pub struct Body {
    pub mass: Rat,
    pub pos: V2,
    pub vel: V2,
    pub acc: V2,
}

/// The labels of the three stages, in their scheduling order:
/// acceleration before velocity before position.
#[derive(Clone, Copy, Debug, Hash, PartialEq, Eq, Structural)]
pub enum PhysicsSystem {
    UpdateAcceleration,
    UpdateVelocity,
    Movement,
}

/// Mass is strictly positive and every component well-formed.
pub open spec fn body_wf(b: Body) -> bool {
    rat_wf(b.mass) && b.mass.num > 0 && v2_wf(b.pos) && v2_wf(b.vel) && v2_wf(b.acc)
}

/// Every body of the list is well-formed.
pub open spec fn all_bodies_wf(s: Seq<Body>) -> bool {
    forall|i: int| 0 <= i < s.len() ==> body_wf(#[trigger] s[i])
}

impl Body {
    /// Build a body with zero initial acceleration.  A mass that is zero or
    /// negative (or any ill-formed rational) is rejected: accelerations are
    /// obtained by dividing by the mass, so such a body must never enter the
    /// simulation.
    pub fn new(mass: Rat, pos: V2, vel: V2) -> (r: Option<Body>)
        ensures
            match r {
                Some(b) => body_wf(b) && b.mass == mass && b.pos == pos && b.vel == vel
                    && b.acc == spec_v2_zero(),
                None => !(rat_wf(mass) && mass.num > 0 && v2_wf(pos) && v2_wf(vel)),
            },
    {
        if mass.den > 0 && mass.num > 0 && pos.x.den > 0 && pos.y.den > 0 && vel.x.den > 0
            && vel.y.den > 0 {
            Some(Body { mass, pos, vel, acc: v2_zero() })
        } else {
            None
        }
    }
}

/// The timestep of the reference scene, `3/2`.  It is a fixed constant, not
/// derived from wall-clock time: the simulation is frame-rate independent.
pub fn default_dt() -> (r: Rat)
    ensures
        r == (Rat { num: 3, den: 2 }),
{
    Rat { num: 3, den: 2 }
}

// ---------------------------------------------------------------------------
// Stage 1: force accumulation.
// ---------------------------------------------------------------------------

/// Mirror of [`pair_force`]: the gravitational force of the pair `(i, j)`,
/// oriented along `pos_i - pos_j`.  `Some(None)` is the defined skip for
/// coincident bodies; outer `None` reports a range failure.  With
/// displacement `d`, squared distance `q` and approximated distance `s`,
/// the force is `d * (m_i * m_j) / (q * s)` — that is, the unit vector
/// `d / s` times the magnitude `m_i * m_j / q` (gravitational constant one).
#[verifier::opaque]
pub open spec fn spec_pair_force(bi: Body, bj: Body) -> Option<Option<V2>> {
    match spec_v2_sub(bi.pos, bj.pos) {
        None => None,
        Some(d) => match spec_v2_norm_sq(d) {
            None => None,
            Some(dsq) => if dsq.num == 0 {
                Some(None)
            } else {
                match spec_rat_sqrt(dsq) {
                    None => None,
                    Some(s) => match spec_rat_mul(dsq, s) {
                        None => None,
                        Some(denom) => match spec_rat_mul(bi.mass, bj.mass) {
                            None => None,
                            Some(g) => match (spec_rat_mul(d.x, g), spec_rat_mul(d.y, g)) {
                                (Some(nx), Some(ny)) => match (spec_rat_div(nx, denom),
                                    spec_rat_div(ny, denom)) {
                                    (Some(fx), Some(fy)) => Some(Some(V2 { x: fx, y: fy })),
                                    _ => None,
                                },
                                _ => None,
                            },
                        },
                    },
                }
            },
        },
    }
}

/// The pairwise gravitational force, exactly as the mirror defines it.
pub fn pair_force(bi: Body, bj: Body) -> (r: Option<Option<V2>>)
    requires
        body_wf(bi),
        body_wf(bj),
    ensures
        r == spec_pair_force(bi, bj),
        r matches Some(Some(f)) ==> v2_wf(f),
{
    proof {
        reveal(spec_pair_force);
    }
    match v2_sub(bi.pos, bj.pos) {
        None => None,
        Some(d) => match v2_norm_sq(d) {
            None => None,
            Some(dsq) => {
                if dsq.num == 0 {
                    Some(None)
                } else {
                    match rat_sqrt(dsq) {
                        None => None,
                        Some(s) => match crate::rational::rat_mul(dsq, s) {
                            None => None,
                            Some(denom) => match crate::rational::rat_mul(bi.mass, bj.mass) {
                                None => None,
                                Some(g) => match crate::rational::rat_mul(d.x, g) {
                                    None => None,
                                    Some(nx) => match crate::rational::rat_mul(d.y, g) {
                                        None => None,
                                        Some(ny) => match rat_div(nx, denom) {
                                            None => None,
                                            Some(fx) => match rat_div(ny, denom) {
                                                None => None,
                                                Some(fy) => Some(Some(V2 { x: fx, y: fy })),
                                            },
                                        },
                                    },
                                },
                            },
                        },
                    }
                }
            },
        },
    }
}

/// All-zero force totals for `n` bodies.
pub open spec fn zero_accs(n: nat) -> Seq<V2> {
    Seq::new(n, |i: int| spec_v2_zero())
}

/// One pair `(i, j)`: subtract the force from total `i`, add it to total
/// `j`; the coincident skip leaves the totals untouched.
pub open spec fn spec_accum_pair(accs: Seq<V2>, bodies: Seq<Body>, i: int, j: int) -> Option<
    Seq<V2>,
>
    recommends
        0 <= j < i < bodies.len(),
        accs.len() == bodies.len(),
{
    match spec_pair_force(bodies[i], bodies[j]) {
        None => None,
        Some(None) => Some(accs),
        Some(Some(f)) => match (spec_v2_sub(accs[i], f), spec_v2_add(accs[j], f)) {
            (Some(ai), Some(aj)) => Some(accs.update(i, ai).update(j, aj)),
            _ => None,
        },
    }
}

/// The pairs `(i, 0) .. (i, j-1)`, in order.
pub open spec fn spec_accum_inner(accs: Seq<V2>, bodies: Seq<Body>, i: int, j: int) -> Option<
    Seq<V2>,
>
    decreases j,
{
    if j <= 0 {
        Some(accs)
    } else {
        match spec_accum_inner(accs, bodies, i, j - 1) {
            None => None,
            Some(a) => spec_accum_pair(a, bodies, i, j - 1),
        }
    }
}

/// All pairs among the first `i` bodies: each new body against every body
/// before it, so every unordered pair exactly once.
pub open spec fn spec_accum_outer(bodies: Seq<Body>, i: int) -> Option<Seq<V2>>
    decreases i,
{
    if i <= 0 {
        Some(zero_accs(bodies.len()))
    } else {
        match spec_accum_outer(bodies, i - 1) {
            None => None,
            Some(a) => spec_accum_inner(a, bodies, i - 1, i - 1),
        }
    }
}

/// Normalization `a = F / m` of one body's total.
pub open spec fn spec_norm_body(b: Body, t: V2) -> Option<Body> {
    match (spec_rat_div(t.x, b.mass), spec_rat_div(t.y, b.mass)) {
        (Some(ax), Some(ay)) => Some(Body { acc: V2 { x: ax, y: ay }, ..b }),
        _ => None,
    }
}

/// Normalization of the first `k` bodies.
pub open spec fn spec_norm_upto(bodies: Seq<Body>, totals: Seq<V2>, k: int) -> Option<Seq<Body>>
    decreases k,
{
    if k <= 0 {
        Some(Seq::empty())
    } else {
        match spec_norm_upto(bodies, totals, k - 1) {
            None => None,
            Some(s) => match spec_norm_body(bodies[k - 1], totals[k - 1]) {
                None => None,
                Some(b) => Some(s.push(b)),
            },
        }
    }
}

/// Mirror of [`update_acceleration`]: accumulate all pairwise forces, then
/// divide each total by its own mass.
pub open spec fn spec_update_acceleration(bodies: Seq<Body>) -> Option<Seq<Body>> {
    match spec_accum_outer(bodies, bodies.len() as int) {
        None => None,
        Some(totals) => spec_norm_upto(bodies, totals, bodies.len() as int),
    }
}

/// A failed inner recursion stays failed for any larger pair bound.
pub proof fn lemma_accum_inner_none(accs: Seq<V2>, bodies: Seq<Body>, i: int, j1: int, j2: int)
    requires
        spec_accum_inner(accs, bodies, i, j1) is None,
        j1 <= j2,
    ensures
        spec_accum_inner(accs, bodies, i, j2) is None,
    decreases j2 - j1,
{
    if j2 > j1 {
        lemma_accum_inner_none(accs, bodies, i, j1, j2 - 1);
    }
}

/// A failed outer recursion stays failed for any larger body bound.
pub proof fn lemma_accum_outer_none(bodies: Seq<Body>, i1: int, i2: int)
    requires
        spec_accum_outer(bodies, i1) is None,
        i1 <= i2,
    ensures
        spec_accum_outer(bodies, i2) is None,
    decreases i2 - i1,
{
    if i2 > i1 {
        lemma_accum_outer_none(bodies, i1, i2 - 1);
    }
}

/// A failed normalization stays failed for any larger prefix.
pub proof fn lemma_norm_upto_none(bodies: Seq<Body>, totals: Seq<V2>, k1: int, k2: int)
    requires
        spec_norm_upto(bodies, totals, k1) is None,
        k1 <= k2,
    ensures
        spec_norm_upto(bodies, totals, k2) is None,
    decreases k2 - k1,
{
    if k2 > k1 {
        lemma_norm_upto_none(bodies, totals, k1, k2 - 1);
    }
}

/// Force accumulation: every unordered pair contributes equal and opposite
/// forces to the two running totals, and each total is then divided by its
/// own body's mass.  Mass, position and velocity are returned unchanged.
pub fn update_acceleration(bodies: &Vec<Body>) -> (r: Option<Vec<Body>>)
    requires
        all_bodies_wf(bodies@),
    ensures
        match r {
            Some(v) => spec_update_acceleration(bodies@) == Some(v@) && all_bodies_wf(v@)
                && v@.len() == bodies@.len(),
            None => spec_update_acceleration(bodies@) is None,
        },
{
    let n = bodies.len();
    let mut accs: Vec<V2> = Vec::new();
    while accs.len() < n
        invariant
            accs@.len() <= n,
            accs@ == zero_accs(accs@.len() as nat),
        decreases n - accs@.len(),
    {
        accs.push(v2_zero());
        proof {
            assert(accs@ =~= zero_accs(accs@.len() as nat));
        }
    }
    let mut i: usize = 0;
    while i < n
        invariant
            i <= n,
            n == bodies@.len(),
            accs@.len() == n,
            all_bodies_wf(bodies@),
            spec_accum_outer(bodies@, i as int) == Some(accs@),
            forall|k: int| 0 <= k < n ==> v2_wf(#[trigger] accs@[k]),
        decreases n - i,
    {
        let ghost accs0 = accs@;
        let mut j: usize = 0;
        while j < i
            invariant
                j <= i,
                i < n,
                n == bodies@.len(),
                accs@.len() == n,
                all_bodies_wf(bodies@),
                spec_accum_outer(bodies@, i as int) == Some(accs0),
                spec_accum_inner(accs0, bodies@, i as int, j as int) == Some(accs@),
                forall|k: int| 0 <= k < n ==> v2_wf(#[trigger] accs@[k]),
            decreases i - j,
        {
            match pair_force(bodies[i], bodies[j]) {
                None => {
                    proof {
                        lemma_accum_inner_none(accs0, bodies@, i as int, j as int + 1, i as int);
                        lemma_accum_outer_none(bodies@, i as int + 1, n as int);
                    }
                    return None;
                },
                Some(None) => {},
                Some(Some(f)) => {
                    match v2_sub(accs[i], f) {
                        None => {
                            proof {
                                lemma_accum_inner_none(
                                    accs0,
                                    bodies@,
                                    i as int,
                                    j as int + 1,
                                    i as int,
                                );
                                lemma_accum_outer_none(bodies@, i as int + 1, n as int);
                            }
                            return None;
                        },
                        Some(aiv) => {
                            match v2_add(accs[j], f) {
                                None => {
                                    proof {
                                        lemma_accum_inner_none(
                                            accs0,
                                            bodies@,
                                            i as int,
                                            j as int + 1,
                                            i as int,
                                        );
                                        lemma_accum_outer_none(bodies@, i as int + 1, n as int);
                                    }
                                    return None;
                                },
                                Some(ajv) => {
                                    accs.set(i, aiv);
                                    accs.set(j, ajv);
                                },
                            }
                        },
                    }
                },
            }
            j += 1;
        }
        i += 1;
    }
    let ghost totals = accs@;
    let mut out: Vec<Body> = Vec::new();
    let mut k: usize = 0;
    while k < n
        invariant
            k <= n,
            n == bodies@.len(),
            accs@ == totals,
            accs@.len() == n,
            all_bodies_wf(bodies@),
            spec_accum_outer(bodies@, n as int) == Some(totals),
            spec_norm_upto(bodies@, totals, k as int) == Some(out@),
            out@.len() == k,
            all_bodies_wf(out@),
            forall|m: int| 0 <= m < n ==> v2_wf(#[trigger] accs@[m]),
        decreases n - k,
    {
        let b = bodies[k];
        let tx = accs[k].x;
        let ty = accs[k].y;
        match rat_div(tx, b.mass) {
            None => {
                proof {
                    lemma_norm_upto_none(bodies@, totals, k as int + 1, n as int);
                }
                return None;
            },
            Some(ax) => {
                match rat_div(ty, b.mass) {
                    None => {
                        proof {
                            lemma_norm_upto_none(bodies@, totals, k as int + 1, n as int);
                        }
                        return None;
                    },
                    Some(ay) => {
                        out.push(Body { mass: b.mass, pos: b.pos, vel: b.vel, acc: V2 { x: ax, y: ay } });
                    },
                }
            },
        }
        k += 1;
    }
    Some(out)
}

// ---------------------------------------------------------------------------
// Stage 2: velocity integration.
// ---------------------------------------------------------------------------

/// Mirror of one body's velocity update: `vel + acc * dt`.
pub open spec fn spec_vel_body(b: Body, dt: Rat) -> Option<Body> {
    match spec_v2_scale(b.acc, dt) {
        None => None,
        Some(adt) => match spec_v2_add(b.vel, adt) {
            None => None,
            Some(v) => Some(Body { vel: v, ..b }),
        },
    }
}

/// Velocity updates of the first `k` bodies.
pub open spec fn spec_vel_upto(bodies: Seq<Body>, dt: Rat, k: int) -> Option<Seq<Body>>
    decreases k,
{
    if k <= 0 {
        Some(Seq::empty())
    } else {
        match spec_vel_upto(bodies, dt, k - 1) {
            None => None,
            Some(s) => match spec_vel_body(bodies[k - 1], dt) {
                None => None,
                Some(b) => Some(s.push(b)),
            },
        }
    }
}

/// Mirror of [`update_velocity`].
pub open spec fn spec_update_velocity(bodies: Seq<Body>, dt: Rat) -> Option<Seq<Body>> {
    spec_vel_upto(bodies, dt, bodies.len() as int)
}

/// A failed velocity prefix stays failed.
pub proof fn lemma_vel_upto_none(bodies: Seq<Body>, dt: Rat, k1: int, k2: int)
    requires
        spec_vel_upto(bodies, dt, k1) is None,
        k1 <= k2,
    ensures
        spec_vel_upto(bodies, dt, k2) is None,
    decreases k2 - k1,
{
    if k2 > k1 {
        lemma_vel_upto_none(bodies, dt, k1, k2 - 1);
    }
}

/// Velocity integration: every body's velocity advances by its freshly
/// computed acceleration times the fixed timestep; everything else is
/// unchanged.  Runs only after the accumulator has finished every body.
pub fn update_velocity(bodies: &Vec<Body>, dt: Rat) -> (r: Option<Vec<Body>>)
    requires
        all_bodies_wf(bodies@),
        rat_wf(dt),
    ensures
        match r {
            Some(v) => spec_update_velocity(bodies@, dt) == Some(v@) && all_bodies_wf(v@)
                && v@.len() == bodies@.len(),
            None => spec_update_velocity(bodies@, dt) is None,
        },
{
    let n = bodies.len();
    let mut out: Vec<Body> = Vec::new();
    let mut k: usize = 0;
    while k < n
        invariant
            k <= n,
            n == bodies@.len(),
            all_bodies_wf(bodies@),
            rat_wf(dt),
            spec_vel_upto(bodies@, dt, k as int) == Some(out@),
            out@.len() == k,
            all_bodies_wf(out@),
        decreases n - k,
    {
        let b = bodies[k];
        match v2_scale(b.acc, dt) {
            None => {
                proof {
                    lemma_vel_upto_none(bodies@, dt, k as int + 1, n as int);
                }
                return None;
            },
            Some(adt) => {
                match v2_add(b.vel, adt) {
                    None => {
                        proof {
                            lemma_vel_upto_none(bodies@, dt, k as int + 1, n as int);
                        }
                        return None;
                    },
                    Some(v) => {
                        out.push(Body { mass: b.mass, pos: b.pos, vel: v, acc: b.acc });
                    },
                }
            },
        }
        k += 1;
    }
    Some(out)
}

// ---------------------------------------------------------------------------
// Stage 3: position integration.
// ---------------------------------------------------------------------------

/// Mirror of one body's position update: `pos + vel * dt`, with the velocity
/// already advanced by stage 2 — the semi-implicit Euler order.
pub open spec fn spec_mov_body(b: Body, dt: Rat) -> Option<Body> {
    match spec_v2_scale(b.vel, dt) {
        None => None,
        Some(vdt) => match spec_v2_add(b.pos, vdt) {
            None => None,
            Some(p) => Some(Body { pos: p, ..b }),
        },
    }
}

/// Position updates of the first `k` bodies.
pub open spec fn spec_mov_upto(bodies: Seq<Body>, dt: Rat, k: int) -> Option<Seq<Body>>
    decreases k,
{
    if k <= 0 {
        Some(Seq::empty())
    } else {
        match spec_mov_upto(bodies, dt, k - 1) {
            None => None,
            Some(s) => match spec_mov_body(bodies[k - 1], dt) {
                None => None,
                Some(b) => Some(s.push(b)),
            },
        }
    }
}

/// Mirror of [`movement`].
pub open spec fn spec_movement(bodies: Seq<Body>, dt: Rat) -> Option<Seq<Body>> {
    spec_mov_upto(bodies, dt, bodies.len() as int)
}

/// A failed position prefix stays failed.
pub proof fn lemma_mov_upto_none(bodies: Seq<Body>, dt: Rat, k1: int, k2: int)
    requires
        spec_mov_upto(bodies, dt, k1) is None,
        k1 <= k2,
    ensures
        spec_mov_upto(bodies, dt, k2) is None,
    decreases k2 - k1,
{
    if k2 > k1 {
        lemma_mov_upto_none(bodies, dt, k1, k2 - 1);
    }
}

/// Position integration: every body's position advances by its updated
/// velocity times the fixed timestep; everything else is unchanged.
pub fn movement(bodies: &Vec<Body>, dt: Rat) -> (r: Option<Vec<Body>>)
    requires
        all_bodies_wf(bodies@),
        rat_wf(dt),
    ensures
        match r {
            Some(v) => spec_movement(bodies@, dt) == Some(v@) && all_bodies_wf(v@) && v@.len()
                == bodies@.len(),
            None => spec_movement(bodies@, dt) is None,
        },
{
    let n = bodies.len();
    let mut out: Vec<Body> = Vec::new();
    let mut k: usize = 0;
    while k < n
        invariant
            k <= n,
            n == bodies@.len(),
            all_bodies_wf(bodies@),
            rat_wf(dt),
            spec_mov_upto(bodies@, dt, k as int) == Some(out@),
            out@.len() == k,
            all_bodies_wf(out@),
        decreases n - k,
    {
        let b = bodies[k];
        match v2_scale(b.vel, dt) {
            None => {
                proof {
                    lemma_mov_upto_none(bodies@, dt, k as int + 1, n as int);
                }
                return None;
            },
            Some(vdt) => {
                match v2_add(b.pos, vdt) {
                    None => {
                        proof {
                            lemma_mov_upto_none(bodies@, dt, k as int + 1, n as int);
                        }
                        return None;
                    },
                    Some(p) => {
                        out.push(Body { mass: b.mass, pos: p, vel: b.vel, acc: b.acc });
                    },
                }
            },
        }
        k += 1;
    }
    Some(out)
}

// ---------------------------------------------------------------------------
// One full step, and runs of several steps.
// ---------------------------------------------------------------------------

/// Mirror of [`step`]: the three stages in their fixed order, each complete
/// before the next starts.
pub open spec fn spec_step(bodies: Seq<Body>, dt: Rat) -> Option<Seq<Body>> {
    match spec_update_acceleration(bodies) {
        None => None,
        Some(b1) => match spec_update_velocity(b1, dt) {
            None => None,
            Some(b2) => spec_movement(b2, dt),
        },
    }
}

/// Mirror of [`run`]: `steps` consecutive steps.
pub open spec fn spec_run(bodies: Seq<Body>, dt: Rat, steps: nat) -> Option<Seq<Body>>
    decreases steps,
{
    if steps == 0 {
        Some(bodies)
    } else {
        match spec_step(bodies, dt) {
            None => None,
            Some(b) => spec_run(b, dt, (steps - 1) as nat),
        }
    }
}

impl PhysicsSystem {
    /// Run the one stage this label names.
    pub fn apply(self, bodies: &Vec<Body>, dt: Rat) -> (r: Option<Vec<Body>>)
        requires
            all_bodies_wf(bodies@),
            rat_wf(dt),
        ensures
            match self {
                PhysicsSystem::UpdateAcceleration => match r {
                    Some(v) => spec_update_acceleration(bodies@) == Some(v@),
                    None => spec_update_acceleration(bodies@) is None,
                },
                PhysicsSystem::UpdateVelocity => match r {
                    Some(v) => spec_update_velocity(bodies@, dt) == Some(v@),
                    None => spec_update_velocity(bodies@, dt) is None,
                },
                PhysicsSystem::Movement => match r {
                    Some(v) => spec_movement(bodies@, dt) == Some(v@),
                    None => spec_movement(bodies@, dt) is None,
                },
            },
            r matches Some(v) ==> all_bodies_wf(v@) && v@.len() == bodies@.len(),
    {
        match self {
            PhysicsSystem::UpdateAcceleration => update_acceleration(bodies),
            PhysicsSystem::UpdateVelocity => update_velocity(bodies, dt),
            PhysicsSystem::Movement => movement(bodies, dt),
        }
    }
}

/// One simulation step: acceleration, then velocity, then position.
pub fn step(bodies: &Vec<Body>, dt: Rat) -> (r: Option<Vec<Body>>)
    requires
        all_bodies_wf(bodies@),
        rat_wf(dt),
    ensures
        match r {
            Some(v) => spec_step(bodies@, dt) == Some(v@) && all_bodies_wf(v@) && v@.len()
                == bodies@.len(),
            None => spec_step(bodies@, dt) is None,
        },
{
    match PhysicsSystem::UpdateAcceleration.apply(bodies, dt) {
        None => None,
        Some(b1) => match PhysicsSystem::UpdateVelocity.apply(&b1, dt) {
            None => None,
            Some(b2) => PhysicsSystem::Movement.apply(&b2, dt),
        },
    }
}

/// Several consecutive steps.  The result is a function of the initial list,
/// the timestep and the count alone: two runs on equal inputs are equal.
#[verifier::loop_isolation(false)]
pub fn run(bodies: Vec<Body>, dt: Rat, steps: u64) -> (r: Option<Vec<Body>>)
    requires
        all_bodies_wf(bodies@),
        rat_wf(dt),
    ensures
        match r {
            Some(v) => spec_run(bodies@, dt, steps as nat) == Some(v@) && all_bodies_wf(v@),
            None => spec_run(bodies@, dt, steps as nat) is None,
        },
{
    let ghost orig = bodies@;
    let mut cur = bodies;
    let mut left = steps;
    while left > 0
        invariant
            all_bodies_wf(cur@),
            rat_wf(dt),
            spec_run(cur@, dt, left as nat) == spec_run(orig, dt, steps as nat),
        decreases left,
    {
        match step(&cur, dt) {
            None => {
                proof {
                    assert(spec_run(cur@, dt, left as nat) is None);
                }
                return None;
            },
            Some(nxt) => {
                cur = nxt;
            },
        }
        left = left - 1;
    }
    Some(cur)
}

} // verus!
