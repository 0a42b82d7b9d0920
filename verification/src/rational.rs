//! Exact rational numbers over checked `i128` arithmetic.
//!
//! Every operation returns `Option`: `Some` carries the exact mathematical
//! result (reduced by the gcd of numerator and denominator whenever the
//! runtime divisibility checks confirm the reduction), `None` reports that an
//! intermediate product or sum left the `i128` range.  Each executable
//! operation is pinned to a spec-level mirror, so two calls on equal inputs
//! return equal results.

use vstd::arithmetic::div_mod::{
    lemma_div_by_self, lemma_div_is_ordered, lemma_div_nonincreasing, lemma_div_pos_is_pos,
    lemma_fundamental_div_mod, lemma_small_mod,
};
use vstd::prelude::*;

verus! {

/// Fixed denominator of every square root returned by [`rat_sqrt`]: lengths
/// are resolved to within `1 / 65536`.
pub const SQRT_SCALE: i128 = 65536;

/// `SQRT_SCALE * SQRT_SCALE`.
pub const SQRT_SCALE_SQ: i128 = 65536 * 65536;

/// A rational number `num / den`; well-formed values keep `den > 0`.
#[derive(Clone, Copy, Debug, PartialEq, Eq, Structural)]
pub struct Rat {
    pub num: i128,
    pub den: i128,
}

/// A well-formed rational keeps its denominator strictly positive.
pub open spec fn rat_wf(a: Rat) -> bool {
    a.den > 0
}

/// Does a mathematical integer fit in `i128`?
pub open spec fn in_i128(x: int) -> bool {
    i128::MIN <= x <= i128::MAX
}

/// Euclid's greatest common divisor.
pub open spec fn spec_gcd(a: nat, b: nat) -> nat
    decreases b,
{
    if b == 0 {
        a
    } else {
        spec_gcd(b, a % b)
    }
}

/// Mirror of [`rat_reduce`]: divide `n` and `d` by their gcd when the runtime
/// divisibility checks pass, otherwise keep the pair as it is.
pub open spec fn spec_reduce(n: int, d: int) -> Rat
    recommends
        in_i128(n),
        0 < d <= i128::MAX,
{
    if n == i128::MIN {
        Rat { num: n as i128, den: d as i128 }
    } else {
        let m = if n < 0 {
            -n
        } else {
            n
        };
        let g = spec_gcd(m as nat, d as nat) as int;
        if 1 < g <= i128::MAX && m % g == 0 && d % g == 0 {
            let mr = m / g;
            let dr = d / g;
            Rat {
                num: (if n < 0 {
                    -mr
                } else {
                    mr
                }) as i128,
                den: dr as i128,
            }
        } else {
            Rat { num: n as i128, den: d as i128 }
        }
    }
}

/// Mirror of [`rat_add`]: `a + b` when every intermediate fits in `i128`.
pub open spec fn spec_rat_add(a: Rat, b: Rat) -> Option<Rat> {
    let n1 = a.num * b.den;
    let n2 = b.num * a.den;
    let n = n1 + n2;
    let d = a.den * b.den;
    if in_i128(n1) && in_i128(n2) && in_i128(n) && in_i128(d) {
        Some(spec_reduce(n, d))
    } else {
        None
    }
}

/// Mirror of [`rat_sub`]: `a - b` when every intermediate fits in `i128`.
pub open spec fn spec_rat_sub(a: Rat, b: Rat) -> Option<Rat> {
    let n1 = a.num * b.den;
    let n2 = b.num * a.den;
    let n = n1 - n2;
    let d = a.den * b.den;
    if in_i128(n1) && in_i128(n2) && in_i128(n) && in_i128(d) {
        Some(spec_reduce(n, d))
    } else {
        None
    }
}

/// Mirror of [`rat_mul`]: `a * b` when both products fit in `i128`.
pub open spec fn spec_rat_mul(a: Rat, b: Rat) -> Option<Rat> {
    let n = a.num * b.num;
    let d = a.den * b.den;
    if in_i128(n) && in_i128(d) {
        Some(spec_reduce(n, d))
    } else {
        None
    }
}

/// Mirror of [`rat_div`]: `a / b`; `None` when `b` is zero or an
/// intermediate leaves the `i128` range.
pub open spec fn spec_rat_div(a: Rat, b: Rat) -> Option<Rat> {
    let n0 = a.num * b.den;
    let d0 = a.den * b.num;
    if !(in_i128(n0) && in_i128(d0)) {
        None
    } else if d0 == 0 {
        None
    } else if d0 < 0 {
        if n0 == i128::MIN || d0 == i128::MIN {
            None
        } else {
            Some(spec_reduce(-n0, -d0))
        }
    } else {
        Some(spec_reduce(n0, d0))
    }
}

/// The integer square root: the unique `r >= 0` with
/// `r * r <= q < (r + 1) * (r + 1)` (for `q >= 0`).
pub open spec fn spec_sqrt_floor(q: int) -> int {
    choose|r: int| r >= 0 && #[trigger] (r * r) <= q && q < (r + 1) * (r + 1)
}

/// Mirror of [`rat_sqrt`]: the scaled integer square root of
/// `a.num * SQRT_SCALE_SQ / a.den`, over the fixed denominator `SQRT_SCALE`.
pub open spec fn spec_rat_sqrt(a: Rat) -> Option<Rat>
    recommends
        rat_wf(a),
        a.num >= 0,
{
    let t = a.num * SQRT_SCALE_SQ;
    if in_i128(t) {
        let q = t / (a.den as int);
        Some(Rat { num: spec_sqrt_floor(q) as i128, den: SQRT_SCALE })
    } else {
        None
    }
}

impl Rat {
    /// Build a rational from a numerator and a nonzero denominator,
    /// normalizing the sign so that the denominator is positive.
    /// Rejected: a zero denominator, and the unrepresentable negations of
    /// `i128::MIN`.
    pub fn new(num: i128, den: i128) -> (r: Option<Rat>)
        ensures
            match r {
                Some(x) => rat_wf(x) && den != 0 && x.num * den == num * x.den,
                None => den == 0 || ((num == i128::MIN || den == i128::MIN) && den < 0),
            },
    {
        if den == 0 {
            None
        } else if den < 0 {
            if num == i128::MIN || den == i128::MIN {
                None
            } else {
                proof {
                    assert((-num) * den == num * (-den)) by (nonlinear_arith) {}
                }
                Some(Rat { num: -num, den: -den })
            }
        } else {
            Some(Rat { num, den })
        }
    }

    /// The rational with value `n`.
    pub fn from_int(n: i128) -> (r: Rat)
        ensures
            r.num == n,
            r.den == 1,
            rat_wf(r),
    {
        Rat { num: n, den: 1 }
    }
}

/// The rational zero, `0 / 1`.
pub open spec fn spec_rat_zero() -> Rat {
    Rat { num: 0, den: 1 }
}

/// The rational zero, `0 / 1`.
pub fn rat_zero() -> (r: Rat)
    ensures
        r == spec_rat_zero(),
{
    Rat { num: 0, den: 1 }
}

/// Euclid's algorithm on machine words.
pub fn gcd_u128(a0: u128, b0: u128) -> (g: u128)
    ensures
        g as nat == spec_gcd(a0 as nat, b0 as nat),
{
    let mut a = a0;
    let mut b = b0;
    while b != 0
        invariant
            spec_gcd(a as nat, b as nat) == spec_gcd(a0 as nat, b0 as nat),
        decreases b,
    {
        let t = a % b;
        a = b;
        b = t;
    }
    a
}

/// Divide numerator and denominator by their gcd when the divisibility
/// checks confirm it; the value of the fraction is unchanged.
pub fn rat_reduce(n: i128, d: i128) -> (r: Rat)
    requires
        d > 0,
    ensures
        r == spec_reduce(n as int, d as int),
        rat_wf(r),
{
    if n == i128::MIN {
        Rat { num: n, den: d }
    } else {
        let m: i128 = if n < 0 {
            -n
        } else {
            n
        };
        let mu: u128 = m as u128;
        let du: u128 = d as u128;
        let g: u128 = gcd_u128(mu, du);
        if 1 < g && g <= i128::MAX as u128 && mu % g == 0 && du % g == 0 {
            proof {
                lemma_div_pos_is_pos(mu as int, g as int);
                lemma_div_pos_is_pos(du as int, g as int);
                lemma_div_nonincreasing(mu as int, g as int);
                lemma_div_nonincreasing(du as int, g as int);
                if du < g {
                    lemma_small_mod(du as nat, g as nat);
                    assert(false);
                }
                lemma_div_by_self(g as int);
                lemma_div_is_ordered(g as int, du as int, g as int);
            }
            let mr: i128 = (mu / g) as i128;
            let dr: i128 = (du / g) as i128;
            Rat {
                num: if n < 0 {
                    -mr
                } else {
                    mr
                },
                den: dr,
            }
        } else {
            Rat { num: n, den: d }
        }
    }
}

/// The reduced pair stands for the same fraction, keeps a positive
/// denominator, and keeps the sign of the numerator.
pub proof fn lemma_reduce_eqv(n: int, d: int)
    requires
        in_i128(n),
        0 < d <= i128::MAX,
    ensures
        rat_wf(spec_reduce(n, d)),
        spec_reduce(n, d).num * d == n * spec_reduce(n, d).den,
        n > 0 ==> spec_reduce(n, d).num > 0,
        n == 0 ==> spec_reduce(n, d).num == 0,
        n < 0 ==> spec_reduce(n, d).num < 0,
{
    if n == i128::MIN {
    } else {
        let m = if n < 0 {
            -n
        } else {
            n
        };
        let g = spec_gcd(m as nat, d as nat) as int;
        if 1 < g <= i128::MAX && m % g == 0 && d % g == 0 {
            let mr = m / g;
            let dr = d / g;
            lemma_fundamental_div_mod(m, g);
            lemma_fundamental_div_mod(d, g);
            lemma_div_pos_is_pos(m, g);
            if d < g {
                lemma_small_mod(d as nat, g as nat);
                assert(false);
            }
            lemma_div_by_self(g);
            lemma_div_is_ordered(g, d, g);
            assert(dr >= 1);
            if m > 0 {
                if mr == 0 {
                    assert(g * mr == 0) by (nonlinear_arith)
                        requires
                            mr == 0,
                    {}
                    assert(false);
                }
            }
            assert(m == g * mr);
            assert(d == g * dr);
            if n < 0 {
                assert((-mr) * d == n * dr) by (nonlinear_arith)
                    requires
                        m == g * mr,
                        d == g * dr,
                        m == -n,
                        g > 1,
                {}
            } else {
                assert(mr * d == n * dr) by (nonlinear_arith)
                    requires
                        m == g * mr,
                        d == g * dr,
                        m == n,
                        g > 1,
                {}
            }
        }
    }
}

/// Checked rational addition; `Some` carries the exact sum.
pub fn rat_add(a: Rat, b: Rat) -> (r: Option<Rat>)
    requires
        rat_wf(a),
        rat_wf(b),
    ensures
        r == spec_rat_add(a, b),
        r matches Some(x) ==> rat_wf(x),
{
    match a.num.checked_mul(b.den) {
        None => None,
        Some(n1) => match b.num.checked_mul(a.den) {
            None => None,
            Some(n2) => match n1.checked_add(n2) {
                None => None,
                Some(n) => match a.den.checked_mul(b.den) {
                    None => None,
                    Some(d) => {
                        proof {
                            assert(d > 0) by (nonlinear_arith)
                                requires
                                    a.den > 0,
                                    b.den > 0,
                                    d == a.den * b.den,
                            {}
                        }
                        Some(rat_reduce(n, d))
                    },
                },
            },
        },
    }
}

/// Checked rational subtraction; `Some` carries the exact difference.
pub fn rat_sub(a: Rat, b: Rat) -> (r: Option<Rat>)
    requires
        rat_wf(a),
        rat_wf(b),
    ensures
        r == spec_rat_sub(a, b),
        r matches Some(x) ==> rat_wf(x),
{
    match a.num.checked_mul(b.den) {
        None => None,
        Some(n1) => match b.num.checked_mul(a.den) {
            None => None,
            Some(n2) => match n1.checked_sub(n2) {
                None => None,
                Some(n) => match a.den.checked_mul(b.den) {
                    None => None,
                    Some(d) => {
                        proof {
                            assert(d > 0) by (nonlinear_arith)
                                requires
                                    a.den > 0,
                                    b.den > 0,
                                    d == a.den * b.den,
                            {}
                        }
                        Some(rat_reduce(n, d))
                    },
                },
            },
        },
    }
}

/// Checked rational multiplication; `Some` carries the exact product.
pub fn rat_mul(a: Rat, b: Rat) -> (r: Option<Rat>)
    requires
        rat_wf(a),
        rat_wf(b),
    ensures
        r == spec_rat_mul(a, b),
        r matches Some(x) ==> rat_wf(x),
{
    match a.num.checked_mul(b.num) {
        None => None,
        Some(n) => match a.den.checked_mul(b.den) {
            None => None,
            Some(d) => {
                proof {
                    assert(d > 0) by (nonlinear_arith)
                        requires
                            a.den > 0,
                            b.den > 0,
                            d == a.den * b.den,
                    {}
                }
                Some(rat_reduce(n, d))
            },
        },
    }
}

/// Checked rational division; `None` when `b` is zero or an intermediate
/// leaves the range.
pub fn rat_div(a: Rat, b: Rat) -> (r: Option<Rat>)
    requires
        rat_wf(a),
        rat_wf(b),
    ensures
        r == spec_rat_div(a, b),
        r matches Some(x) ==> rat_wf(x),
{
    match a.num.checked_mul(b.den) {
        None => None,
        Some(n0) => match a.den.checked_mul(b.num) {
            None => None,
            Some(d0) => {
                if d0 == 0 {
                    None
                } else if d0 < 0 {
                    if n0 == i128::MIN || d0 == i128::MIN {
                        None
                    } else {
                        Some(rat_reduce(-n0, -d0))
                    }
                } else {
                    Some(rat_reduce(n0, d0))
                }
            },
        },
    }
}

/// Binary search for the integer square root.
pub fn isqrt_u128(n: u128) -> (r: u128)
    ensures
        (r as int) * (r as int) <= n as int,
        (n as int) < ((r as int) + 1) * ((r as int) + 1),
{
    let mut lo: u128 = 0;
    let mut hi: u128 = 0x1_0000_0000_0000_0000;
    proof {
        assert((hi as int) * (hi as int) > n as int) by (nonlinear_arith)
            requires
                hi == 0x1_0000_0000_0000_0000u128,
                n <= u128::MAX,
        {}
    }
    while hi - lo > 1
        invariant
            lo < hi,
            hi <= 0x1_0000_0000_0000_0000,
            (lo as int) * (lo as int) <= n as int,
            (n as int) < (hi as int) * (hi as int),
        decreases hi - lo,
    {
        let mid: u128 = lo + (hi - lo) / 2;
        proof {
            assert((mid as int) * (mid as int) < u128::MAX as int) by (nonlinear_arith)
                requires
                    mid < 0x1_0000_0000_0000_0000u128,
            {}
        }
        if mid * mid <= n {
            lo = mid;
        } else {
            hi = mid;
        }
    }
    lo
}

/// The integer square root is unique, so any witness equals
/// [`spec_sqrt_floor`].
pub proof fn lemma_sqrt_floor_unique(q: int, r: int)
    requires
        r >= 0,
        r * r <= q,
        q < (r + 1) * (r + 1),
    ensures
        spec_sqrt_floor(q) == r,
{
    assert(r >= 0 && r * r <= q && q < (r + 1) * (r + 1));
    let c = choose|x: int| x >= 0 && #[trigger] (x * x) <= q && q < (x + 1) * (x + 1);
    assert(c >= 0 && c * c <= q && q < (c + 1) * (c + 1));
    assert(c == r) by (nonlinear_arith)
        requires
            r >= 0,
            r * r <= q,
            q < (r + 1) * (r + 1),
            c >= 0,
            c * c <= q,
            q < (c + 1) * (c + 1),
    {}
}

/// Scaled square root: `Some(s)` has `s == sqrt_floor(a * SQRT_SCALE_SQ) / SQRT_SCALE`,
/// a lower approximation of the real square root with step `1 / SQRT_SCALE`.
pub fn rat_sqrt(a: Rat) -> (r: Option<Rat>)
    requires
        rat_wf(a),
        a.num >= 0,
    ensures
        r == spec_rat_sqrt(a),
        r matches Some(x) ==> rat_wf(x) && x.num >= 0,
{
    match a.num.checked_mul(SQRT_SCALE_SQ) {
        None => None,
        Some(t) => {
            proof {
                assert(t >= 0) by (nonlinear_arith)
                    requires
                        a.num >= 0,
                        t == a.num * SQRT_SCALE_SQ,
                        SQRT_SCALE_SQ > 0,
                {}
            }
            let q: u128 = (t as u128) / (a.den as u128);
            proof {
                lemma_div_pos_is_pos(t as int, a.den as int);
                lemma_div_nonincreasing(t as int, a.den as int);
            }
            let s: u128 = isqrt_u128(q);
            proof {
                lemma_sqrt_floor_unique(q as int, s as int);
                assert(s < 0x1_0000_0000_0000_0000u128) by (nonlinear_arith)
                    requires
                        (s as int) * (s as int) <= q as int,
                        q < 0x8000_0000_0000_0000_0000_0000_0000_0000u128,
                {}
            }
            Some(Rat { num: s as i128, den: SQRT_SCALE })
        },
    }
}

} // verus!
