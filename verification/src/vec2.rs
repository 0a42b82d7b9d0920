//! Planar vectors of exact rationals, with the checked component-wise
//! operations the simulation stages use.

use crate::rational::{
    rat_add, rat_mul, rat_sub, rat_wf, rat_zero, spec_rat_add, spec_rat_mul, spec_rat_sub,
    spec_rat_zero, Rat,
};
use vstd::prelude::*;

verus! {

/// A planar vector; well-formed when both components are.
#[derive(Clone, Copy, Debug, PartialEq, Eq, Structural)]
pub struct V2 {
    pub x: Rat,
    pub y: Rat,
}

/// Both components keep a positive denominator.
pub open spec fn v2_wf(v: V2) -> bool {
    rat_wf(v.x) && rat_wf(v.y)
}

/// Pick a component: `true` for `x`, `false` for `y`.  Contracts that hold
/// of both components are stated once over this selector.
pub open spec fn vcomp(v: V2, c: bool) -> Rat {
    if c {
        v.x
    } else {
        v.y
    }
}

/// The zero vector.
pub open spec fn spec_v2_zero() -> V2 {
    V2 { x: spec_rat_zero(), y: spec_rat_zero() }
}

/// Mirror of [`v2_add`].
pub open spec fn spec_v2_add(a: V2, b: V2) -> Option<V2> {
    match (spec_rat_add(a.x, b.x), spec_rat_add(a.y, b.y)) {
        (Some(x), Some(y)) => Some(V2 { x, y }),
        _ => None,
    }
}

/// Mirror of [`v2_sub`].
pub open spec fn spec_v2_sub(a: V2, b: V2) -> Option<V2> {
    match (spec_rat_sub(a.x, b.x), spec_rat_sub(a.y, b.y)) {
        (Some(x), Some(y)) => Some(V2 { x, y }),
        _ => None,
    }
}

/// Mirror of [`v2_scale`]: both components multiplied by `k`.
pub open spec fn spec_v2_scale(a: V2, k: Rat) -> Option<V2> {
    match (spec_rat_mul(a.x, k), spec_rat_mul(a.y, k)) {
        (Some(x), Some(y)) => Some(V2 { x, y }),
        _ => None,
    }
}

/// Mirror of [`v2_norm_sq`]: the squared length `x * x + y * y`.
pub open spec fn spec_v2_norm_sq(a: V2) -> Option<Rat> {
    match (spec_rat_mul(a.x, a.x), spec_rat_mul(a.y, a.y)) {
        (Some(xx), Some(yy)) => spec_rat_add(xx, yy),
        _ => None,
    }
}

/// The zero vector.
pub fn v2_zero() -> (r: V2)
    ensures
        r == spec_v2_zero(),
{
    V2 { x: rat_zero(), y: rat_zero() }
}

/// Checked component-wise addition.
pub fn v2_add(a: V2, b: V2) -> (r: Option<V2>)
    requires
        v2_wf(a),
        v2_wf(b),
    ensures
        r == spec_v2_add(a, b),
        r matches Some(v) ==> v2_wf(v),
{
    match rat_add(a.x, b.x) {
        None => None,
        Some(x) => match rat_add(a.y, b.y) {
            None => None,
            Some(y) => Some(V2 { x, y }),
        },
    }
}

/// Checked component-wise subtraction.
pub fn v2_sub(a: V2, b: V2) -> (r: Option<V2>)
    requires
        v2_wf(a),
        v2_wf(b),
    ensures
        r == spec_v2_sub(a, b),
        r matches Some(v) ==> v2_wf(v),
{
    match rat_sub(a.x, b.x) {
        None => None,
        Some(x) => match rat_sub(a.y, b.y) {
            None => None,
            Some(y) => Some(V2 { x, y }),
        },
    }
}

/// Checked scaling by a rational factor.
pub fn v2_scale(a: V2, k: Rat) -> (r: Option<V2>)
    requires
        v2_wf(a),
        rat_wf(k),
    ensures
        r == spec_v2_scale(a, k),
        r matches Some(v) ==> v2_wf(v),
{
    match rat_mul(a.x, k) {
        None => None,
        Some(x) => match rat_mul(a.y, k) {
            None => None,
            Some(y) => Some(V2 { x, y }),
        },
    }
}

/// Checked squared length; never negative when it exists.
pub fn v2_norm_sq(a: V2) -> (r: Option<Rat>)
    requires
        v2_wf(a),
    ensures
        r == spec_v2_norm_sq(a),
        r matches Some(q) ==> rat_wf(q) && q.num >= 0,
{
    match rat_mul(a.x, a.x) {
        None => None,
        Some(xx) => match rat_mul(a.y, a.y) {
            None => None,
            Some(yy) => {
                let s = rat_add(xx, yy);
                proof {
                    lemma_norm_sq_nonneg(a);
                }
                s
            },
        },
    }
}

/// The squared length has a nonnegative numerator whenever it exists.
pub proof fn lemma_norm_sq_nonneg(a: V2)
    requires
        v2_wf(a),
    ensures
        spec_v2_norm_sq(a) matches Some(q) ==> rat_wf(q) && q.num >= 0,
{
    if spec_v2_norm_sq(a) is Some {
        let xx_n = a.x.num * a.x.num;
        let xx_d = a.x.den * a.x.den;
        let yy_n = a.y.num * a.y.num;
        let yy_d = a.y.den * a.y.den;
        assert(xx_n >= 0 && xx_d > 0 && yy_n >= 0 && yy_d > 0) by (nonlinear_arith)
            requires
                xx_n == a.x.num * a.x.num,
                xx_d == a.x.den * a.x.den,
                yy_n == a.y.num * a.y.num,
                yy_d == a.y.den * a.y.den,
                a.x.den > 0,
                a.y.den > 0,
        {}
        crate::rational::lemma_reduce_eqv(xx_n, xx_d);
        crate::rational::lemma_reduce_eqv(yy_n, yy_d);
        let xx = crate::rational::spec_reduce(xx_n, xx_d);
        let yy = crate::rational::spec_reduce(yy_n, yy_d);
        let s_n = xx.num * yy.den + yy.num * xx.den;
        let s_d = xx.den * yy.den;
        assert(s_n >= 0 && s_d > 0) by (nonlinear_arith)
            requires
                xx.num >= 0,
                xx.den > 0,
                yy.num >= 0,
                yy.den > 0,
                s_n == xx.num * yy.den + yy.num * xx.den,
                s_d == xx.den * yy.den,
        {}
        crate::rational::lemma_reduce_eqv(s_n, s_d);
    }
}

} // verus!
