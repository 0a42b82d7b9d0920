//! The mathematical value of the executable rationals.
//!
//! A [`Q`] is an unbounded fraction of integers; [`q_eq`] identifies two
//! fractions with the same value by cross-multiplication.  The executable
//! operations of [`crate::rational`] are tied to this model by the bridge
//! lemmas below: whenever a checked operation returns `Some`, its stored pair
//! stands for exactly the fraction the model computes.  The conservation
//! laws of [`crate::laws`] are stated and proved over this model.

use crate::rational::{
    lemma_reduce_eqv, rat_wf, spec_rat_add, spec_rat_div, spec_rat_mul, spec_rat_sub, Rat,
};
use vstd::prelude::*;

verus! {

/// An unbounded fraction `n / d`; well-formed when `d > 0`.
pub ghost struct Q {
    pub n: int,
    pub d: int,
}

/// A well-formed fraction keeps its denominator strictly positive.
pub open spec fn q_wf(q: Q) -> bool {
    q.d > 0
}

/// The fraction a stored rational stands for.
pub open spec fn q_of(r: Rat) -> Q {
    Q { n: r.num as int, d: r.den as int }
}

/// Value equality of fractions, by cross-multiplication.
pub open spec fn q_eq(a: Q, b: Q) -> bool {
    a.n * b.d == b.n * a.d
}

/// The fraction zero.
pub open spec fn q_zero() -> Q {
    Q { n: 0, d: 1 }
}

/// Exact addition of fractions.
pub open spec fn q_add(a: Q, b: Q) -> Q {
    Q { n: a.n * b.d + b.n * a.d, d: a.d * b.d }
}

/// Exact subtraction of fractions.
pub open spec fn q_sub(a: Q, b: Q) -> Q {
    Q { n: a.n * b.d - b.n * a.d, d: a.d * b.d }
}

/// Exact multiplication of fractions.
pub open spec fn q_mul(a: Q, b: Q) -> Q {
    Q { n: a.n * b.n, d: a.d * b.d }
}

/// Exact negation of a fraction.
pub open spec fn q_neg(a: Q) -> Q {
    Q { n: -a.n, d: a.d }
}

/// Exact division of fractions (meaningful for `b.n != 0`).
pub open spec fn q_div(a: Q, b: Q) -> Q {
    Q { n: a.n * b.d, d: a.d * b.n }
}

/// Value equality is transitive over well-formed fractions.
pub proof fn lemma_q_eq_trans(a: Q, b: Q, c: Q)
    by (nonlinear_arith)
    requires
        q_wf(a),
        q_wf(b),
        q_wf(c),
        q_eq(a, b),
        q_eq(b, c),
    ensures
        q_eq(a, c),
{
}

/// Addition keeps well-formedness.
pub proof fn lemma_q_add_wf(a: Q, b: Q)
    by (nonlinear_arith)
    requires
        q_wf(a),
        q_wf(b),
    ensures
        q_wf(q_add(a, b)),
        q_wf(q_sub(a, b)),
        q_wf(q_mul(a, b)),
{
}

/// Commutativity of multiplication.
pub proof fn lemma_mul_comm(x: int, y: int)
    by (nonlinear_arith)
    ensures
        x * y == y * x,
{
}

/// Rotating the last three factors of a product of four.
pub proof fn lemma_mul_pair_rot(p: int, q: int, r: int, s: int)
    by (nonlinear_arith)
    ensures
        (p * q) * (r * s) == (p * s) * (q * r),
{
}

/// Addition respects value equality.
pub proof fn lemma_q_add_congr(a: Q, a2: Q, b: Q, b2: Q)
    requires
        q_wf(a),
        q_wf(a2),
        q_wf(b),
        q_wf(b2),
        q_eq(a, a2),
        q_eq(b, b2),
    ensures
        q_eq(q_add(a, b), q_add(a2, b2)),
{
    lemma_mul_add_dist(a.n * b.d, b.n * a.d, a2.d * b2.d);
    lemma_mul_add_dist(a2.n * b2.d, b2.n * a2.d, a.d * b.d);
    lemma_mul_pair_swap(a.n, b.d, a2.d, b2.d);
    lemma_mul_pair_rot(a2.n, a.d, b.d, b2.d);
    lemma_mul_pair_rot(b.n, a.d, a2.d, b2.d);
    lemma_mul_pair_rot(b2.n, b.d, a.d, a2.d);
    lemma_mul_comm(b.d, a.d);
    assert((b2.n * a2.d) * (b.d * a.d) == (b2.n * a2.d) * (a.d * b.d));
}

/// Multiplication respects value equality.
pub proof fn lemma_q_mul_congr(a: Q, a2: Q, b: Q, b2: Q)
    by (nonlinear_arith)
    requires
        q_wf(a),
        q_wf(a2),
        q_wf(b),
        q_wf(b2),
        q_eq(a, a2),
        q_eq(b, b2),
    ensures
        q_eq(q_mul(a, b), q_mul(a2, b2)),
{
}

/// Negation respects value equality.
pub proof fn lemma_q_neg_congr(a: Q, a2: Q)
    by (nonlinear_arith)
    requires
        q_eq(a, a2),
    ensures
        q_eq(q_neg(a), q_neg(a2)),
{
}

/// Addition of fractions is commutative, exactly on pairs.
pub proof fn lemma_q_add_comm(a: Q, b: Q)
    ensures
        q_add(a, b) == q_add(b, a),
{
    assert(a.n * b.d + b.n * a.d == b.n * a.d + a.n * b.d) by (nonlinear_arith) {}
    assert(a.d * b.d == b.d * a.d) by (nonlinear_arith) {}
}

/// Multiplication distributes over a sum on the right.
pub proof fn lemma_mul_dist_left(t: int, x: int, y: int)
    by (nonlinear_arith)
    ensures
        t * (x + y) == t * x + t * y,
{
}

/// Multiplication distributes over a difference on the left.
pub proof fn lemma_mul_sub_dist(x: int, y: int, t: int)
    by (nonlinear_arith)
    ensures
        (x - y) * t == x * t - y * t,
{
}

/// Multiplication distributes over a sum on the left.
pub proof fn lemma_mul_add_dist(x: int, y: int, t: int)
    by (nonlinear_arith)
    ensures
        (x + y) * t == x * t + y * t,
{
}

/// Rearranging a product of four factors with a repeated one.
pub proof fn lemma_mul_pair_square(p: int, q: int, r: int)
    by (nonlinear_arith)
    ensures
        (p * q) * (r * q) == (q * q) * (p * r),
{
}

/// Swapping the inner factors of a product of four.
pub proof fn lemma_mul_pair_swap(p: int, q: int, r: int, s: int)
    by (nonlinear_arith)
    ensures
        (p * q) * (r * s) == (p * r) * (q * s),
{
}

/// Pulling the third factor of four to the front.
pub proof fn lemma_mul_assoc4(w: int, x: int, y: int, z: int)
    by (nonlinear_arith)
    ensures
        (w * x) * (y * z) == y * (w * (x * z)),
{
}

/// Two fractions proportional by a nonzero factor have the same value.
pub proof fn lemma_q_scale(k: int, p: Q, r: Q)
    requires
        k != 0,
        r.n == k * p.n,
        r.d == k * p.d,
    ensures
        q_eq(r, p),
        q_eq(p, r),
{
    assert((k * p.n) * p.d == p.n * (k * p.d)) by (nonlinear_arith) {}
}

/// Multiplying by a fraction and dividing by it again returns the value.
pub proof fn lemma_q_mul_div_cancel(f: Q, m: Q)
    requires
        m.n != 0,
    ensures
        q_eq(q_mul(m, q_div(f, m)), f),
{
    assert(m.n * (f.n * m.d) * f.d == f.n * (m.d * (f.d * m.n))) by (nonlinear_arith) {}
}

/// Multiplication distributes over addition, in value.
pub proof fn lemma_q_mul_dist(a: Q, b: Q, c: Q)
    requires
        q_wf(a),
    ensures
        q_eq(q_mul(a, q_add(b, c)), q_add(q_mul(a, b), q_mul(a, c))),
{
    let l = q_mul(a, q_add(b, c));
    let r = q_add(q_mul(a, b), q_mul(a, c));
    lemma_mul_dist_left(a.n, b.n * c.d, c.n * b.d);
    lemma_mul_dist_left(a.d, a.n * (b.n * c.d), a.n * (c.n * b.d));
    lemma_mul_assoc4(a.n, b.n, a.d, c.d);
    lemma_mul_assoc4(a.n, c.n, a.d, b.d);
    assert(r.n == a.d * l.n);
    lemma_mul_assoc4(a.d, b.d, a.d, c.d);
    assert(r.d == a.d * (a.d * (b.d * c.d)));
    lemma_q_scale(a.d, l, r);
}

/// Multiplication of fractions is associative, exactly on pairs.
pub proof fn lemma_q_mul_assoc(a: Q, b: Q, c: Q)
    ensures
        q_mul(a, q_mul(b, c)) == q_mul(q_mul(a, b), c),
{
    assert(a.n * (b.n * c.n) == (a.n * b.n) * c.n) by (nonlinear_arith) {}
    assert(a.d * (b.d * c.d) == (a.d * b.d) * c.d) by (nonlinear_arith) {}
}

/// Subtracting a force from one total and adding it to another leaves the
/// combined total unchanged, in value.
pub proof fn lemma_q_sub_add_balance(a: Q, b: Q, f: Q)
    requires
        q_wf(a),
        q_wf(b),
        q_wf(f),
    ensures
        q_eq(q_add(q_sub(a, f), q_add(b, f)), q_add(a, b)),
{
    let l = q_add(q_sub(a, f), q_add(b, f));
    let r = q_add(a, b);
    lemma_mul_sub_dist(a.n * f.d, f.n * a.d, b.d * f.d);
    lemma_mul_add_dist(b.n * f.d, f.n * b.d, a.d * f.d);
    lemma_mul_pair_square(a.n, f.d, b.d);
    lemma_mul_pair_swap(f.n, a.d, b.d, f.d);
    lemma_mul_pair_square(b.n, f.d, a.d);
    lemma_mul_dist_left(f.d * f.d, a.n * b.d, b.n * a.d);
    assert(l.n == (f.d * f.d) * r.n);
    lemma_mul_pair_square(a.d, f.d, b.d);
    assert(l.d == (f.d * f.d) * r.d);
    assert(f.d * f.d != 0) by (nonlinear_arith)
        requires
            f.d > 0,
    {}
    lemma_q_scale(f.d * f.d, r, l);
}

// ---------------------------------------------------------------------------
// Bridges: the checked operations compute exactly these fractions.
// ---------------------------------------------------------------------------

/// A successful checked addition stores the exact sum.
pub proof fn lemma_rat_add_q(a: Rat, b: Rat, r: Rat)
    requires
        rat_wf(a),
        rat_wf(b),
        spec_rat_add(a, b) == Some(r),
    ensures
        rat_wf(r),
        q_eq(q_of(r), q_add(q_of(a), q_of(b))),
{
    assert(a.den * b.den > 0) by (nonlinear_arith)
        requires
            a.den > 0,
            b.den > 0,
    {}
    lemma_reduce_eqv(a.num * b.den + b.num * a.den, a.den * b.den);
}

/// A successful checked subtraction stores the exact difference.
pub proof fn lemma_rat_sub_q(a: Rat, b: Rat, r: Rat)
    requires
        rat_wf(a),
        rat_wf(b),
        spec_rat_sub(a, b) == Some(r),
    ensures
        rat_wf(r),
        q_eq(q_of(r), q_sub(q_of(a), q_of(b))),
{
    assert(a.den * b.den > 0) by (nonlinear_arith)
        requires
            a.den > 0,
            b.den > 0,
    {}
    lemma_reduce_eqv(a.num * b.den - b.num * a.den, a.den * b.den);
}

/// A successful checked multiplication stores the exact product.
pub proof fn lemma_rat_mul_q(a: Rat, b: Rat, r: Rat)
    requires
        rat_wf(a),
        rat_wf(b),
        spec_rat_mul(a, b) == Some(r),
    ensures
        rat_wf(r),
        q_eq(q_of(r), q_mul(q_of(a), q_of(b))),
{
    assert(a.den * b.den > 0) by (nonlinear_arith)
        requires
            a.den > 0,
            b.den > 0,
    {}
    lemma_reduce_eqv(a.num * b.num, a.den * b.den);
}

/// A successful checked division stores the exact quotient.
pub proof fn lemma_rat_div_q(a: Rat, b: Rat, r: Rat)
    requires
        rat_wf(a),
        rat_wf(b),
        spec_rat_div(a, b) == Some(r),
    ensures
        rat_wf(r),
        q_eq(q_of(r), q_div(q_of(a), q_of(b))),
{
    let n0 = a.num * b.den;
    let d0 = a.den * b.num;
    if d0 < 0 {
        lemma_reduce_eqv(-n0, -d0);
        assert(r.num * d0 == n0 * r.den) by (nonlinear_arith)
            requires
                r.num * (-d0) == (-n0) * r.den,
        {}
    } else {
        lemma_reduce_eqv(n0, d0);
    }
}


} // verus!
