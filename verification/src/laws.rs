//! The conservation and safety laws of the simulation, proved over the
//! value model of [`crate::model`].

use crate::model::{
    lemma_mul_pair_swap, lemma_q_add_congr, lemma_q_eq_trans, lemma_q_mul_congr, lemma_q_neg_congr,
    lemma_q_scale, lemma_rat_add_q, lemma_rat_div_q, lemma_rat_mul_q, lemma_rat_sub_q, q_add,
    q_div, q_eq, q_mul, q_neg, q_of, q_sub, q_wf, q_zero, Q,
};
use crate::rational::{rat_wf, Rat};
use crate::sim::{
    all_bodies_wf, body_wf, spec_accum_inner, spec_accum_outer, spec_accum_pair, spec_mov_body,
    spec_mov_upto, spec_movement, spec_norm_body, spec_norm_upto, spec_pair_force, spec_run,
    spec_step, spec_update_acceleration, spec_update_velocity, spec_vel_body, spec_vel_upto,
    zero_accs, Body,
};
use crate::vec2::{spec_v2_add, spec_v2_norm_sq, spec_v2_scale, spec_v2_sub, v2_wf, vcomp, V2};
use vstd::prelude::*;

verus! {

/// The fraction a component of a stored vector stands for.
pub open spec fn qc(v: V2, c: bool) -> Q {
    q_of(vcomp(v, c))
}

/// Every vector of the sequence is well-formed.
pub open spec fn all_accs_wf(s: Seq<V2>) -> bool {
    forall|i: int| 0 <= i < s.len() ==> v2_wf(#[trigger] s[i])
}

/// A product with a zero factor is zero.
proof fn lemma_mul_zero(x: int, y: int)
    by (nonlinear_arith)
    requires
        x == 0 || y == 0,
    ensures
        x * y == 0,
{
}

/// A fraction equal in value to one with numerator zero has numerator zero.
proof fn lemma_q_eq_zero_num(x: Q, z: Q)
    by (nonlinear_arith)
    requires
        q_eq(x, z),
        z.n == 0,
        z.d > 0,
    ensures
        x.n == 0,
{
}

/// Subtraction of fractions respects value equality.
proof fn lemma_q_sub_congr(a: Q, a2: Q, b: Q, b2: Q)
    by (nonlinear_arith)
    requires
        q_wf(a),
        q_wf(a2),
        q_wf(b),
        q_wf(b2),
        q_eq(a, a2),
        q_eq(b, b2),
    ensures
        q_eq(q_sub(a, b), q_sub(a2, b2)),
{
}

/// Division respects value equality (for positive divisors).
proof fn lemma_q_div_congr(a: Q, a2: Q, b: Q, b2: Q)
    requires
        q_wf(a),
        q_wf(a2),
        q_wf(b),
        q_wf(b2),
        b.n > 0,
        b2.n > 0,
        q_eq(a, a2),
        q_eq(b, b2),
    ensures
        q_eq(q_div(a, b), q_div(a2, b2)),
{
    lemma_mul_pair_swap(a.n, b.d, a2.d, b2.n);
    lemma_mul_pair_swap(a2.n, b2.d, a.d, b.n);
    assert((a.n * a2.d) * (b.d * b2.n) == (a2.n * a.d) * (b2.d * b.n)) by (nonlinear_arith)
        requires
            a.n * a2.d == a2.n * a.d,
            b.n * b2.d == b2.n * b.d,
    {}
    assert((a2.n * a.d) * (b2.d * b.n) == (a2.n * b2.d) * (a.d * b.n)) by (nonlinear_arith) {}
    assert((a.n * a2.d) * (b.d * b2.n) == (a.n * b.d) * (a2.d * b2.n)) by (nonlinear_arith) {}
}

/// `(a - f) - a` has the value `-f`.
proof fn lemma_q_sub_sub_is_neg(a: Q, f: Q)
    requires
        q_wf(a),
        q_wf(f),
    ensures
        q_eq(q_sub(q_sub(a, f), a), q_neg(f)),
{
    let l = q_sub(q_sub(a, f), a);
    assert((a.n * f.d - f.n * a.d) * a.d - a.n * (a.d * f.d) == (a.d * a.d) * (-f.n))
        by (nonlinear_arith) {}
    assert((a.d * f.d) * a.d == (a.d * a.d) * f.d) by (nonlinear_arith) {}
    assert(a.d * a.d != 0) by (nonlinear_arith)
        requires
            a.d > 0,
    {}
    lemma_q_scale(a.d * a.d, q_neg(f), l);
}

/// `(a + f) - a` has the value `f`.
proof fn lemma_q_add_sub_is_same(a: Q, f: Q)
    requires
        q_wf(a),
        q_wf(f),
    ensures
        q_eq(q_sub(q_add(a, f), a), f),
{
    let l = q_sub(q_add(a, f), a);
    assert((a.n * f.d + f.n * a.d) * a.d - a.n * (a.d * f.d) == (a.d * a.d) * f.n)
        by (nonlinear_arith) {}
    assert((a.d * f.d) * a.d == (a.d * a.d) * f.d) by (nonlinear_arith) {}
    assert(a.d * a.d != 0) by (nonlinear_arith)
        requires
            a.d > 0,
    {}
    lemma_q_scale(a.d * a.d, f, l);
}

/// A pair force that exists is a well-formed vector.
pub proof fn lemma_pair_force_wf(bi: Body, bj: Body)
    requires
        body_wf(bi),
        body_wf(bj),
    ensures
        spec_pair_force(bi, bj) matches Some(Some(f)) ==> v2_wf(f),
{
    reveal(spec_pair_force);
    let pf = spec_pair_force(bi, bj);
    if pf is Some && pf->Some_0 is Some {
        let f = pf->Some_0->Some_0;
        let d = spec_v2_sub(bi.pos, bj.pos)->Some_0;
        lemma_rat_sub_q(bi.pos.x, bj.pos.x, d.x);
        lemma_rat_sub_q(bi.pos.y, bj.pos.y, d.y);
        crate::vec2::lemma_norm_sq_nonneg(d);
        let dsq = spec_v2_norm_sq(d)->Some_0;
        let s = crate::rational::spec_rat_sqrt(dsq)->Some_0;
        let denom = crate::rational::spec_rat_mul(dsq, s)->Some_0;
        let g = crate::rational::spec_rat_mul(bi.mass, bj.mass)->Some_0;
        lemma_rat_mul_q(dsq, s, denom);
        lemma_rat_mul_q(bi.mass, bj.mass, g);
        let nx = crate::rational::spec_rat_mul(d.x, g)->Some_0;
        let ny = crate::rational::spec_rat_mul(d.y, g)->Some_0;
        lemma_rat_mul_q(d.x, g, nx);
        lemma_rat_mul_q(d.y, g, ny);
        lemma_rat_div_q(nx, denom, f.x);
        lemma_rat_div_q(ny, denom, f.y);
    }
}

/// Pairwise symmetry: one pair pass changes the two force totals by exactly
/// opposite vectors — the contribution to body `i` is the negation of the
/// contribution to body `j`, component by component, before any mass
/// normalization.
pub proof fn lemma_pair_contributions_opposite(
    accs: Seq<V2>,
    bodies: Seq<Body>,
    i: int,
    j: int,
    accs2: Seq<V2>,
    c: bool,
)
    requires
        0 <= j < i < bodies.len(),
        accs.len() == bodies.len(),
        all_bodies_wf(bodies),
        all_accs_wf(accs),
        spec_accum_pair(accs, bodies, i, j) == Some(accs2),
    ensures
        accs2.len() == accs.len(),
        q_eq(
            q_sub(qc(accs2[i], c), qc(accs[i], c)),
            q_neg(q_sub(qc(accs2[j], c), qc(accs[j], c))),
        ),
{
    match spec_pair_force(bodies[i], bodies[j]) {
        None => {},
        Some(None) => {
            assert(accs2 == accs);
            let a = qc(accs[i], c);
            let b = qc(accs[j], c);
            lemma_mul_zero(a.n * a.d - a.n * a.d, 1);
            assert(q_sub(a, a).n == 0);
            assert(q_sub(b, b).n == 0);
            assert(q_neg(q_sub(b, b)).n == 0);
            lemma_mul_zero(q_sub(a, a).n, q_neg(q_sub(b, b)).d);
            lemma_mul_zero(q_neg(q_sub(b, b)).n, q_sub(a, a).d);
        },
        Some(Some(f)) => {
            lemma_pair_force_wf(bodies[i], bodies[j]);
            let ai = spec_v2_sub(accs[i], f)->Some_0;
            let aj = spec_v2_add(accs[j], f)->Some_0;
            assert(accs2 == accs.update(i, ai).update(j, aj));
            assert(accs2[i] == ai);
            assert(accs2[j] == aj);
            let a = qc(accs[i], c);
            let b = qc(accs[j], c);
            let fq = qc(f, c);
            if c {
                lemma_rat_sub_q(accs[i].x, f.x, ai.x);
                lemma_rat_add_q(accs[j].x, f.x, aj.x);
            } else {
                lemma_rat_sub_q(accs[i].y, f.y, ai.y);
                lemma_rat_add_q(accs[j].y, f.y, aj.y);
            }
            // qc(ai, c) has the value a - fq; qc(aj, c) has the value b + fq.
            lemma_q_sub_congr(qc(ai, c), q_sub(a, fq), a, a);
            lemma_q_sub_sub_is_neg(a, fq);
            crate::model::lemma_q_add_wf(a, fq);
            crate::model::lemma_q_add_wf(q_sub(a, fq), a);
            crate::model::lemma_q_add_wf(qc(ai, c), a);
            lemma_q_eq_trans(q_sub(qc(ai, c), a), q_sub(q_sub(a, fq), a), q_neg(fq));
            lemma_q_sub_congr(qc(aj, c), q_add(b, fq), b, b);
            lemma_q_add_sub_is_same(b, fq);
            crate::model::lemma_q_add_wf(b, fq);
            crate::model::lemma_q_add_wf(q_add(b, fq), b);
            crate::model::lemma_q_add_wf(qc(aj, c), b);
            lemma_q_eq_trans(q_sub(qc(aj, c), b), q_sub(q_add(b, fq), b), fq);
            lemma_q_neg_congr(q_sub(qc(aj, c), b), fq);
            crate::model::lemma_q_add_wf(qc(aj, c), b);
            lemma_q_eq_trans(
                q_sub(qc(ai, c), a),
                q_neg(fq),
                q_neg(q_sub(qc(aj, c), b)),
            );
        },
    }
}

/// A component of a stored vector that is equal in value to a fraction with
/// numerator zero is stored with numerator zero.
proof fn lemma_qc_zero(v: V2, c: bool, z: Q)
    requires
        q_eq(qc(v, c), z),
        z.n == 0,
        z.d > 0,
    ensures
        vcomp(v, c).num == 0,
{
    lemma_q_eq_zero_num(qc(v, c), z);
}

/// Dividing a zero total by the mass gives a zero acceleration component.
proof fn lemma_norm_zero_total(b: Body, t: V2, nb: Body, c: bool)
    requires
        body_wf(b),
        v2_wf(t),
        vcomp(t, c).num == 0,
        spec_norm_body(b, t) == Some(nb),
    ensures
        nb.mass == b.mass,
        nb.pos == b.pos,
        nb.vel == b.vel,
        v2_wf(nb.acc),
        vcomp(nb.acc, c).num == 0,
{
    let ax = crate::rational::spec_rat_div(t.x, b.mass)->Some_0;
    let ay = crate::rational::spec_rat_div(t.y, b.mass)->Some_0;
    lemma_rat_div_q(t.x, b.mass, ax);
    lemma_rat_div_q(t.y, b.mass, ay);
    let z = q_div(qc(t, c), q_of(b.mass));
    lemma_mul_zero(vcomp(t, c).num as int, b.mass.den as int);
    assert(z.d > 0) by (nonlinear_arith)
        requires
            z.d == vcomp(t, c).den * b.mass.num,
            vcomp(t, c).den > 0,
            b.mass.num > 0,
    {}
    lemma_qc_zero(nb.acc, c, z);
}

/// For one body the accumulator makes no pair pass: the totals stay zero.
proof fn lemma_accum_outer_one(bodies: Seq<Body>)
    requires
        bodies.len() == 1,
    ensures
        spec_accum_outer(bodies, 1) == Some(zero_accs(1)),
{
    assert(spec_accum_outer(bodies, 0) == Some(zero_accs(1)));
    assert(spec_accum_inner(zero_accs(1), bodies, 0, 0) == Some(zero_accs(1)));
}

/// For two bodies the accumulator makes exactly one pair pass.
proof fn lemma_accum_outer_two(bodies: Seq<Body>)
    requires
        bodies.len() == 2,
    ensures
        spec_accum_outer(bodies, 2) == spec_accum_pair(zero_accs(2), bodies, 1, 0),
{
    assert(spec_accum_outer(bodies, 0) == Some(zero_accs(2)));
    assert(spec_accum_inner(zero_accs(2), bodies, 0, 0) == Some(zero_accs(2)));
    assert(spec_accum_outer(bodies, 1) == Some(zero_accs(2)));
    assert(spec_accum_inner(zero_accs(2), bodies, 1, 0) == Some(zero_accs(2)));
    assert(spec_accum_inner(zero_accs(2), bodies, 1, 1) == spec_accum_pair(
        zero_accs(2),
        bodies,
        1,
        0,
    ));
}

/// Single-body stability: with no other mass present the acceleration is
/// exactly zero, the velocity value never changes, and one step advances the
/// position by exactly `velocity * dt` — uniform straight-line motion.
pub proof fn lemma_single_body_uniform_motion(bodies: Seq<Body>, dt: Rat, after: Seq<Body>, c: bool)
    requires
        bodies.len() == 1,
        all_bodies_wf(bodies),
        rat_wf(dt),
        spec_step(bodies, dt) == Some(after),
    ensures
        after.len() == 1,
        vcomp(after[0].acc, c).num == 0,
        q_eq(qc(after[0].vel, c), qc(bodies[0].vel, c)),
        q_eq(
            qc(after[0].pos, c),
            q_add(qc(bodies[0].pos, c), q_mul(qc(bodies[0].vel, c), q_of(dt))),
        ),
{
    reveal_with_fuel(spec_norm_upto, 3);
    reveal_with_fuel(spec_vel_upto, 3);
    reveal_with_fuel(spec_mov_upto, 3);
    let b0 = bodies[0];
    lemma_accum_outer_one(bodies);
    let totals = zero_accs(1);
    assert(totals[0] == crate::vec2::spec_v2_zero());
    let b1 = spec_update_acceleration(bodies)->Some_0;
    assert(spec_norm_upto(bodies, totals, 0) == Some(Seq::<Body>::empty()));
    let nb = spec_norm_body(b0, totals[0])->Some_0;
    assert(b1 == Seq::<Body>::empty().push(nb));
    assert(b1[0] == nb && b1.len() == 1);
    lemma_norm_zero_total(b0, totals[0], nb, c);
    lemma_norm_zero_total(b0, totals[0], nb, !c);
    // Velocity stage: acc * dt has value zero, so the velocity is unchanged.
    let b2 = spec_update_velocity(b1, dt)->Some_0;
    assert(spec_vel_upto(b1, dt, 0) == Some(Seq::<Body>::empty()));
    let vb = spec_vel_body(nb, dt)->Some_0;
    assert(b2 == Seq::<Body>::empty().push(vb));
    assert(b2[0] == vb && b2.len() == 1);
    let adt = spec_v2_scale(nb.acc, dt)->Some_0;
    if c {
        lemma_rat_mul_q(nb.acc.x, dt, adt.x);
        lemma_rat_add_q(nb.vel.x, adt.x, vb.vel.x);
    } else {
        lemma_rat_mul_q(nb.acc.y, dt, adt.y);
        lemma_rat_add_q(nb.vel.y, adt.y, vb.vel.y);
    }
    let mz = q_mul(qc(nb.acc, c), q_of(dt));
    lemma_mul_zero(vcomp(nb.acc, c).num as int, dt.num as int);
    assert(mz.d > 0) by (nonlinear_arith)
        requires
            mz.d == vcomp(nb.acc, c).den * dt.den,
            vcomp(nb.acc, c).den > 0,
            dt.den > 0,
    {}
    lemma_qc_zero(adt, c, mz);
    let vq = qc(nb.vel, c);
    let zq = qc(adt, c);
    let s = q_add(vq, zq);
    lemma_mul_zero(zq.n, vq.d);
    assert(s.n == zq.d * vq.n && s.d == zq.d * vq.d) by (nonlinear_arith)
        requires
            s.n == vq.n * zq.d + zq.n * vq.d,
            s.d == vq.d * zq.d,
            zq.n * vq.d == 0,
    {}
    lemma_q_scale(zq.d, vq, s);
    crate::model::lemma_q_add_wf(vq, zq);
    lemma_q_eq_trans(qc(vb.vel, c), s, vq);
    assert(nb.vel == b0.vel);
    // Position stage: pos + vel' * dt, with vel' equal in value to vel.
    assert(spec_mov_upto(b2, dt, 0) == Some(Seq::<Body>::empty()));
    let mb = spec_mov_body(vb, dt)->Some_0;
    assert(after == Seq::<Body>::empty().push(mb));
    assert(after[0] == mb && after.len() == 1);
    let vdt = spec_v2_scale(vb.vel, dt)->Some_0;
    if c {
        lemma_rat_mul_q(vb.vel.x, dt, vdt.x);
        lemma_rat_add_q(vb.pos.x, vdt.x, mb.pos.x);
    } else {
        lemma_rat_mul_q(vb.vel.y, dt, vdt.y);
        lemma_rat_add_q(vb.pos.y, vdt.y, mb.pos.y);
    }
    let dtq = q_of(dt);
    lemma_q_mul_congr(qc(vb.vel, c), vq, dtq, dtq);
    crate::model::lemma_q_add_wf(qc(vb.vel, c), dtq);
    crate::model::lemma_q_add_wf(vq, dtq);
    lemma_q_eq_trans(qc(vdt, c), q_mul(qc(vb.vel, c), dtq), q_mul(vq, dtq));
    let pq = qc(vb.pos, c);
    lemma_q_add_congr(pq, pq, qc(vdt, c), q_mul(vq, dtq));
    crate::model::lemma_q_add_wf(pq, qc(vdt, c));
    crate::model::lemma_q_add_wf(pq, q_mul(vq, dtq));
    lemma_q_eq_trans(qc(mb.pos, c), q_add(pq, qc(vdt, c)), q_add(pq, q_mul(vq, dtq)));
    assert(vb.pos == b0.pos && mb.vel == vb.vel && mb.acc == nb.acc);
}

/// Zero-distance safety: two bodies at the same position exert no force on
/// each other — the pair is skipped, both accelerations are exactly zero,
/// and no division by the vanishing distance is ever reached.
pub proof fn lemma_coincident_bodies_zero_acceleration(bodies: Seq<Body>, after: Seq<Body>)
    requires
        bodies.len() == 2,
        all_bodies_wf(bodies),
        q_eq(qc(bodies[0].pos, true), qc(bodies[1].pos, true)),
        q_eq(qc(bodies[0].pos, false), qc(bodies[1].pos, false)),
        spec_update_acceleration(bodies) == Some(after),
    ensures
        after.len() == 2,
        after[0].acc.x.num == 0,
        after[0].acc.y.num == 0,
        after[1].acc.x.num == 0,
        after[1].acc.y.num == 0,
{
    reveal_with_fuel(spec_norm_upto, 4);
    lemma_accum_outer_two(bodies);
    reveal(spec_pair_force);
    let pf = spec_pair_force(bodies[1], bodies[0]);
    let sub = spec_v2_sub(bodies[1].pos, bodies[0].pos);
    if sub is Some {
        let d = sub->Some_0;
        lemma_rat_sub_q(bodies[1].pos.x, bodies[0].pos.x, d.x);
        lemma_rat_sub_q(bodies[1].pos.y, bodies[0].pos.y, d.y);
        let zx = q_sub(qc(bodies[1].pos, true), qc(bodies[0].pos, true));
        let zy = q_sub(qc(bodies[1].pos, false), qc(bodies[0].pos, false));
        crate::model::lemma_q_add_wf(qc(bodies[1].pos, true), qc(bodies[0].pos, true));
        crate::model::lemma_q_add_wf(qc(bodies[1].pos, false), qc(bodies[0].pos, false));
        lemma_q_eq_zero_num(q_of(d.x), zx);
        lemma_q_eq_zero_num(q_of(d.y), zy);
        let nsq = spec_v2_norm_sq(d);
        if nsq is Some {
            let xx = crate::rational::spec_rat_mul(d.x, d.x)->Some_0;
            let yy = crate::rational::spec_rat_mul(d.y, d.y)->Some_0;
            lemma_rat_mul_q(d.x, d.x, xx);
            lemma_rat_mul_q(d.y, d.y, yy);
            lemma_mul_zero(d.x.num as int, d.x.num as int);
            lemma_mul_zero(d.y.num as int, d.y.num as int);
            let mx = q_mul(q_of(d.x), q_of(d.x));
            let my = q_mul(q_of(d.y), q_of(d.y));
            assert(mx.d > 0 && my.d > 0) by (nonlinear_arith)
                requires
                    mx.d == d.x.den * d.x.den,
                    my.d == d.y.den * d.y.den,
                    d.x.den > 0,
                    d.y.den > 0,
            {}
            lemma_q_eq_zero_num(q_of(xx), mx);
            lemma_q_eq_zero_num(q_of(yy), my);
            let dsq = nsq->Some_0;
            lemma_rat_add_q(xx, yy, dsq);
            let sq = q_add(q_of(xx), q_of(yy));
            lemma_mul_zero(xx.num as int, yy.den as int);
            lemma_mul_zero(yy.num as int, xx.den as int);
            assert(sq.d > 0) by (nonlinear_arith)
                requires
                    sq.d == xx.den * yy.den,
                    xx.den > 0,
                    yy.den > 0,
            {}
            lemma_q_eq_zero_num(q_of(dsq), sq);
            assert(pf == Some(Option::<V2>::None));
        } else {
            assert(pf is None);
        }
    } else {
        assert(pf is None);
    }
    assert(pf == Some(Option::<V2>::None));
    let totals = zero_accs(2);
    assert(spec_accum_pair(totals, bodies, 1, 0) == Some(totals));
    assert(spec_norm_upto(bodies, totals, 0) == Some(Seq::<Body>::empty()));
    let nb0 = spec_norm_body(bodies[0], totals[0])->Some_0;
    let nb1 = spec_norm_body(bodies[1], totals[1])->Some_0;
    assert(after == Seq::<Body>::empty().push(nb0).push(nb1));
    assert(after[0] == nb0 && after[1] == nb1 && after.len() == 2);
    assert(totals[0] == crate::vec2::spec_v2_zero());
    assert(totals[1] == crate::vec2::spec_v2_zero());
    lemma_norm_zero_total(bodies[0], totals[0], nb0, true);
    lemma_norm_zero_total(bodies[0], totals[0], nb0, false);
    lemma_norm_zero_total(bodies[1], totals[1], nb1, true);
    lemma_norm_zero_total(bodies[1], totals[1], nb1, false);
}

/// Two-body symmetry after normalization: with equal masses, the two
/// accelerations of one accumulator pass are equal in magnitude and opposite
/// in direction, component by component.
pub proof fn lemma_two_body_opposite_acceleration(bodies: Seq<Body>, after: Seq<Body>, c: bool)
    requires
        bodies.len() == 2,
        all_bodies_wf(bodies),
        q_eq(q_of(bodies[0].mass), q_of(bodies[1].mass)),
        spec_update_acceleration(bodies) == Some(after),
    ensures
        after.len() == 2,
        q_eq(qc(after[0].acc, c), q_neg(qc(after[1].acc, c))),
{
    reveal_with_fuel(spec_norm_upto, 4);
    lemma_accum_outer_two(bodies);
    let zv = zero_accs(2);
    let totals = spec_accum_outer(bodies, 2)->Some_0;
    assert(spec_norm_upto(bodies, totals, 0) == Some(Seq::<Body>::empty()));
    let nb0 = spec_norm_body(bodies[0], totals[0])->Some_0;
    let nb1 = spec_norm_body(bodies[1], totals[1])->Some_0;
    assert(after == Seq::<Body>::empty().push(nb0).push(nb1));
    assert(after[0] == nb0 && after[1] == nb1 && after.len() == 2);
    let m0 = q_of(bodies[0].mass);
    let m1 = q_of(bodies[1].mass);
    let a0 = qc(nb0.acc, c);
    let a1 = qc(nb1.acc, c);
    match spec_pair_force(bodies[1], bodies[0]) {
        None => {},
        Some(None) => {
            // The skip: both totals are zero, so both accelerations are zero.
            assert(totals == zv);
            assert(totals[0] == crate::vec2::spec_v2_zero());
            assert(totals[1] == crate::vec2::spec_v2_zero());
            lemma_norm_zero_total(bodies[0], totals[0], nb0, c);
            lemma_norm_zero_total(bodies[1], totals[1], nb1, c);
            lemma_mul_zero(vcomp(nb0.acc, c).num as int, q_neg(a1).d);
            lemma_mul_zero(-(vcomp(nb1.acc, c).num as int), a0.d);
        },
        Some(Some(f)) => {
            lemma_pair_force_wf(bodies[1], bodies[0]);
            let t1 = spec_v2_sub(zv[1], f)->Some_0;
            let t0 = spec_v2_add(zv[0], f)->Some_0;
            assert(totals == zv.update(1, t1).update(0, t0));
            assert(totals[0] == t0 && totals[1] == t1);
            assert(zv[0] == crate::vec2::spec_v2_zero() && zv[1] == crate::vec2::spec_v2_zero());
            if c {
                lemma_rat_add_q(zv[0].x, f.x, t0.x);
                lemma_rat_sub_q(zv[1].x, f.x, t1.x);
                lemma_rat_div_q(t0.x, bodies[0].mass, nb0.acc.x);
                lemma_rat_div_q(t1.x, bodies[1].mass, nb1.acc.x);
            } else {
                lemma_rat_add_q(zv[0].y, f.y, t0.y);
                lemma_rat_sub_q(zv[1].y, f.y, t1.y);
                lemma_rat_div_q(t0.y, bodies[0].mass, nb0.acc.y);
                lemma_rat_div_q(t1.y, bodies[1].mass, nb1.acc.y);
            }
            let fq = qc(f, c);
            lemma_mul_zero(0, fq.d);
            assert(q_add(qc(zv[0], c), fq) == fq);
            assert(q_sub(qc(zv[1], c), fq) == q_neg(fq));
            // totals[0] has value f, totals[1] has value -f.
            let qt0 = qc(t0, c);
            let qt1 = qc(t1, c);
            assert(q_wf(q_div(fq, m1)) && q_wf(q_div(qt0, m0)) && q_wf(q_div(qt1, m1)) && q_wf(
                q_div(q_neg(fq), m1),
            )) by (nonlinear_arith)
                requires
                    fq.d > 0,
                    qt0.d > 0,
                    qt1.d > 0,
                    m0.n > 0,
                    m1.n > 0,
            {}
            // Accelerations: a0 ~ f / m0 and a1 ~ (-f) / m1 == -(f / m1).
            lemma_q_div_congr(qt0, fq, m0, m1);
            lemma_q_eq_trans(a0, q_div(qt0, m0), q_div(fq, m1));
            lemma_q_div_congr(qt1, q_neg(fq), m1, m1);
            lemma_q_eq_trans(a1, q_div(qt1, m1), q_div(q_neg(fq), m1));
            assert(q_div(q_neg(fq), m1) == q_neg(q_div(fq, m1))) by {
                assert((-fq.n) * m1.d == -(fq.n * m1.d)) by (nonlinear_arith) {}
            }
            lemma_q_neg_congr(a1, q_neg(q_div(fq, m1)));
            assert(q_neg(q_neg(q_div(fq, m1))) == q_div(fq, m1));
            lemma_q_eq_trans(a0, q_div(fq, m1), q_neg(a1));
        },
    }
}

/// One body's share of the momentum balance: with acceleration `a = f / m`
/// and the velocity update `v2 = v + a * dt`, the momentum `m * v2` is the
/// old momentum plus the impulse `f * dt`.
proof fn lemma_momentum_body(mq: Q, vq: Q, aq: Q, fq: Q, dtq: Q, vq2: Q)
    requires
        q_wf(mq),
        q_wf(vq),
        q_wf(aq),
        q_wf(fq),
        q_wf(dtq),
        q_wf(vq2),
        mq.n > 0,
        q_eq(aq, q_div(fq, mq)),
        q_eq(vq2, q_add(vq, q_mul(aq, dtq))),
    ensures
        q_eq(q_mul(mq, vq2), q_add(q_mul(mq, vq), q_mul(fq, dtq))),
{
    let adt = q_mul(aq, dtq);
    let vadt = q_add(vq, adt);
    crate::model::lemma_q_add_wf(aq, dtq);
    crate::model::lemma_q_add_wf(vq, adt);
    crate::model::lemma_q_add_wf(mq, vq2);
    crate::model::lemma_q_add_wf(mq, vadt);
    lemma_q_mul_congr(mq, mq, vq2, vadt);
    crate::model::lemma_q_mul_dist(mq, vq, adt);
    crate::model::lemma_q_add_wf(mq, vq);
    crate::model::lemma_q_add_wf(mq, adt);
    crate::model::lemma_q_add_wf(q_mul(mq, vq), q_mul(mq, adt));
    lemma_q_eq_trans(q_mul(mq, vq2), q_mul(mq, vadt), q_add(q_mul(mq, vq), q_mul(mq, adt)));
    // m * (a * dt) == (m * a) * dt, and m * a has the value f.
    crate::model::lemma_q_mul_assoc(mq, aq, dtq);
    crate::model::lemma_q_add_wf(mq, aq);
    assert(q_wf(q_div(fq, mq))) by (nonlinear_arith)
        requires
            fq.d > 0,
            mq.n > 0,
    {}
    lemma_q_mul_congr(mq, mq, aq, q_div(fq, mq));
    crate::model::lemma_q_mul_div_cancel(fq, mq);
    crate::model::lemma_q_add_wf(mq, q_div(fq, mq));
    lemma_q_eq_trans(q_mul(mq, aq), q_mul(mq, q_div(fq, mq)), fq);
    lemma_q_mul_congr(q_mul(mq, aq), fq, dtq, dtq);
    crate::model::lemma_q_add_wf(q_mul(mq, aq), dtq);
    crate::model::lemma_q_add_wf(fq, dtq);
    lemma_q_add_congr(q_mul(mq, vq), q_mul(mq, vq), q_mul(mq, adt), q_mul(fq, dtq));
    crate::model::lemma_q_add_wf(q_mul(mq, vq), q_mul(fq, dtq));
    lemma_q_eq_trans(
        q_mul(mq, vq2),
        q_add(q_mul(mq, vq), q_mul(mq, adt)),
        q_add(q_mul(mq, vq), q_mul(fq, dtq)),
    );
}

/// Conservation of momentum for the closed two-body system: no external
/// force acts, the pair forces balance exactly, and one full step keeps the
/// total `mass * velocity` unchanged in value, component by component.
pub proof fn lemma_two_body_momentum_conserved(bodies: Seq<Body>, dt: Rat, after: Seq<Body>, c: bool)
    requires
        bodies.len() == 2,
        all_bodies_wf(bodies),
        rat_wf(dt),
        spec_step(bodies, dt) == Some(after),
    ensures
        after.len() == 2,
        after[0].mass == bodies[0].mass,
        after[1].mass == bodies[1].mass,
        q_eq(
            q_add(
                q_mul(q_of(bodies[0].mass), qc(after[0].vel, c)),
                q_mul(q_of(bodies[1].mass), qc(after[1].vel, c)),
            ),
            q_add(
                q_mul(q_of(bodies[0].mass), qc(bodies[0].vel, c)),
                q_mul(q_of(bodies[1].mass), qc(bodies[1].vel, c)),
            ),
        ),
{
    reveal_with_fuel(spec_norm_upto, 4);
    reveal_with_fuel(spec_vel_upto, 4);
    reveal_with_fuel(spec_mov_upto, 4);
    lemma_accum_outer_two(bodies);
    let zv = zero_accs(2);
    let totals = spec_accum_outer(bodies, 2)->Some_0;
    let b1 = spec_update_acceleration(bodies)->Some_0;
    let nb0 = spec_norm_body(bodies[0], totals[0])->Some_0;
    let nb1 = spec_norm_body(bodies[1], totals[1])->Some_0;
    assert(b1 == Seq::<Body>::empty().push(nb0).push(nb1));
    assert(b1[0] == nb0 && b1[1] == nb1 && b1.len() == 2);
    let m0 = q_of(bodies[0].mass);
    let m1 = q_of(bodies[1].mass);
    let v0 = qc(bodies[0].vel, c);
    let v1 = qc(bodies[1].vel, c);
    let dtq = q_of(dt);
    // Velocity stage.
    let b2 = spec_update_velocity(b1, dt)->Some_0;
    let vb0 = spec_vel_body(nb0, dt)->Some_0;
    let vb1 = spec_vel_body(nb1, dt)->Some_0;
    assert(b2 == Seq::<Body>::empty().push(vb0).push(vb1));
    assert(b2[0] == vb0 && b2[1] == vb1 && b2.len() == 2);
    let adt0 = spec_v2_scale(nb0.acc, dt)->Some_0;
    let adt1 = spec_v2_scale(nb1.acc, dt)->Some_0;
    // Movement stage keeps mass and velocity.
    let mb0 = spec_mov_body(vb0, dt)->Some_0;
    let mb1 = spec_mov_body(vb1, dt)->Some_0;
    assert(after == Seq::<Body>::empty().push(mb0).push(mb1));
    assert(after[0] == mb0 && after[1] == mb1 && after.len() == 2);
    assert(mb0.vel == vb0.vel && mb1.vel == vb1.vel);
    let w0 = qc(vb0.vel, c);
    let w1 = qc(vb1.vel, c);
    // Bridge the velocity updates of both bodies.
    let a0 = qc(nb0.acc, c);
    let a1 = qc(nb1.acc, c);
    // First establish that both force totals are well-formed vectors.
    match spec_pair_force(bodies[1], bodies[0]) {
        None => {},
        Some(None) => {
            assert(totals == zv);
        },
        Some(Some(f)) => {
            lemma_pair_force_wf(bodies[1], bodies[0]);
            let t1 = spec_v2_sub(zv[1], f)->Some_0;
            let t0 = spec_v2_add(zv[0], f)->Some_0;
            assert(totals == zv.update(1, t1).update(0, t0));
            if c {
                lemma_rat_sub_q(zv[1].x, f.x, t1.x);
                lemma_rat_add_q(zv[0].x, f.x, t0.x);
            } else {
                lemma_rat_sub_q(zv[1].y, f.y, t1.y);
                lemma_rat_add_q(zv[0].y, f.y, t0.y);
            }
        },
    }
    assert(rat_wf(vcomp(totals[0], c)) && rat_wf(vcomp(totals[1], c)));
    if c {
        lemma_rat_div_q(totals[0].x, bodies[0].mass, nb0.acc.x);
        lemma_rat_div_q(totals[1].x, bodies[1].mass, nb1.acc.x);
        lemma_rat_mul_q(nb0.acc.x, dt, adt0.x);
        lemma_rat_add_q(nb0.vel.x, adt0.x, vb0.vel.x);
        lemma_rat_mul_q(nb1.acc.x, dt, adt1.x);
        lemma_rat_add_q(nb1.vel.x, adt1.x, vb1.vel.x);
    } else {
        lemma_rat_div_q(totals[0].y, bodies[0].mass, nb0.acc.y);
        lemma_rat_div_q(totals[1].y, bodies[1].mass, nb1.acc.y);
        lemma_rat_mul_q(nb0.acc.y, dt, adt0.y);
        lemma_rat_add_q(nb0.vel.y, adt0.y, vb0.vel.y);
        lemma_rat_mul_q(nb1.acc.y, dt, adt1.y);
        lemma_rat_add_q(nb1.vel.y, adt1.y, vb1.vel.y);
    }
    // w_k has the value v_k + a_k * dt.
    crate::model::lemma_q_add_wf(a0, dtq);
    crate::model::lemma_q_add_wf(a1, dtq);
    lemma_q_add_congr(v0, v0, qc(adt0, c), q_mul(a0, dtq));
    lemma_q_add_congr(v1, v1, qc(adt1, c), q_mul(a1, dtq));
    crate::model::lemma_q_add_wf(v0, qc(adt0, c));
    crate::model::lemma_q_add_wf(v0, q_mul(a0, dtq));
    crate::model::lemma_q_add_wf(v1, qc(adt1, c));
    crate::model::lemma_q_add_wf(v1, q_mul(a1, dtq));
    lemma_q_eq_trans(w0, q_add(v0, qc(adt0, c)), q_add(v0, q_mul(a0, dtq)));
    lemma_q_eq_trans(w1, q_add(v1, qc(adt1, c)), q_add(v1, q_mul(a1, dtq)));
    // The force totals of the single pair pass.
    match spec_pair_force(bodies[1], bodies[0]) {
        None => {},
        Some(None) => {
            // The skip: totals are zero, so each f_k is the zero fraction.
            assert(totals == zv);
            assert(totals[0] == crate::vec2::spec_v2_zero());
            assert(totals[1] == crate::vec2::spec_v2_zero());
            let zq = qc(crate::vec2::spec_v2_zero(), c);
            assert(zq == q_zero());
            lemma_momentum_body(m0, v0, a0, zq, dtq, w0);
            lemma_momentum_body(m1, v1, a1, zq, dtq, w1);
            lemma_mul_zero(zq.n, dtq.d);
            assert(q_mul(zq, dtq).n == 0);
            lemma_balance_sum(m0, v0, m1, v1, q_mul(zq, dtq), q_neg(q_mul(zq, dtq)), w0, w1);
        },
        Some(Some(f)) => {
            lemma_pair_force_wf(bodies[1], bodies[0]);
            let t1 = spec_v2_sub(zv[1], f)->Some_0;
            let t0 = spec_v2_add(zv[0], f)->Some_0;
            assert(totals == zv.update(1, t1).update(0, t0));
            assert(totals[0] == t0 && totals[1] == t1);
            if c {
                lemma_rat_add_q(zv[0].x, f.x, t0.x);
                lemma_rat_sub_q(zv[1].x, f.x, t1.x);
            } else {
                lemma_rat_add_q(zv[0].y, f.y, t0.y);
                lemma_rat_sub_q(zv[1].y, f.y, t1.y);
            }
            let fq = qc(f, c);
            lemma_mul_zero(0, fq.d);
            assert(q_add(qc(zv[0], c), fq) == fq);
            assert(q_sub(qc(zv[1], c), fq) == q_neg(fq));
            let qt0 = qc(t0, c);
            let qt1 = qc(t1, c);
            assert(q_wf(q_div(fq, m0)) && q_wf(q_div(q_neg(fq), m1)) && q_wf(q_div(qt0, m0))
                && q_wf(q_div(qt1, m1))) by (nonlinear_arith)
                requires
                    fq.d > 0,
                    qt0.d > 0,
                    qt1.d > 0,
                    m0.n > 0,
                    m1.n > 0,
            {}
            lemma_q_div_congr(qt0, fq, m0, m0);
            lemma_q_eq_trans(a0, q_div(qt0, m0), q_div(fq, m0));
            lemma_q_div_congr(qt1, q_neg(fq), m1, m1);
            lemma_q_eq_trans(a1, q_div(qt1, m1), q_div(q_neg(fq), m1));
            lemma_momentum_body(m0, v0, a0, fq, dtq, w0);
            lemma_momentum_body(m1, v1, a1, q_neg(fq), dtq, w1);
            // (-f) * dt == -(f * dt), so the two impulses cancel.
            assert(q_mul(q_neg(fq), dtq) == q_neg(q_mul(fq, dtq))) by {
                assert((-fq.n) * dtq.n == -(fq.n * dtq.n)) by (nonlinear_arith) {}
            }
            crate::model::lemma_q_add_wf(fq, dtq);
            lemma_balance_sum(m0, v0, m1, v1, q_mul(fq, dtq), q_neg(q_mul(fq, dtq)), w0, w1);
        },
    }
}

/// Summing the two momentum-balance equations: opposite impulses cancel and
/// the total momentum keeps its value.
proof fn lemma_balance_sum(m0: Q, v0: Q, m1: Q, v1: Q, imp: Q, impn: Q, w0: Q, w1: Q)
    requires
        q_wf(m0),
        q_wf(v0),
        q_wf(m1),
        q_wf(v1),
        q_wf(imp),
        q_wf(w0),
        q_wf(w1),
        impn == q_neg(imp),
        q_eq(q_mul(m0, w0), q_add(q_mul(m0, v0), imp)),
        q_eq(q_mul(m1, w1), q_add(q_mul(m1, v1), impn)),
    ensures
        q_eq(q_add(q_mul(m0, w0), q_mul(m1, w1)), q_add(q_mul(m0, v0), q_mul(m1, v1))),
{
    let p0 = q_mul(m0, v0);
    let p1 = q_mul(m1, v1);
    crate::model::lemma_q_add_wf(m0, v0);
    crate::model::lemma_q_add_wf(m1, v1);
    crate::model::lemma_q_add_wf(m0, w0);
    crate::model::lemma_q_add_wf(m1, w1);
    // m1 * v1 + (-imp) is exactly the subtraction m1 * v1 - imp.
    assert(q_add(p1, impn) == q_sub(p1, imp)) by {
        assert((-imp.n) * p1.d == -(imp.n * p1.d)) by (nonlinear_arith) {}
    }
    crate::model::lemma_q_add_wf(p0, imp);
    crate::model::lemma_q_add_wf(p1, imp);
    lemma_q_add_congr(q_mul(m0, w0), q_add(p0, imp), q_mul(m1, w1), q_sub(p1, imp));
    crate::model::lemma_q_add_wf(q_mul(m0, w0), q_mul(m1, w1));
    crate::model::lemma_q_add_wf(q_add(p0, imp), q_sub(p1, imp));
    // Rearrange and cancel the impulses.
    crate::model::lemma_q_add_comm(q_add(p0, imp), q_sub(p1, imp));
    crate::model::lemma_q_sub_add_balance(p1, p0, imp);
    crate::model::lemma_q_add_wf(p1, p0);
    crate::model::lemma_q_add_wf(p0, p1);
    crate::model::lemma_q_add_comm(p1, p0);
    lemma_q_eq_trans(
        q_add(q_mul(m0, w0), q_mul(m1, w1)),
        q_add(q_sub(p1, imp), q_add(p0, imp)),
        q_add(p0, p1),
    );
}

/// Determinism: every stage result is pinned to a spec-level function of the
/// body list, the timestep and the step count alone, so two runs from equal
/// inputs end in equal states.
pub proof fn lemma_run_deterministic(
    bodies: Seq<Body>,
    dt: Rat,
    steps: nat,
    r1: Seq<Body>,
    r2: Seq<Body>,
)
    requires
        spec_run(bodies, dt, steps) == Some(r1),
        spec_run(bodies, dt, steps) == Some(r2),
    ensures
        r1 == r2,
{
}

} // verus!
