//! Weil and Tate pairings over the test curve.
//!
//! Both pairings run Miller's algorithm: a double-and-add walk over the
//! bits of the subgroup order that accumulates the values of the line
//! through the current pair of points, evaluated at the second argument.
//! The Weil pairing divides the two opposite Miller values; the Tate
//! pairing raises one Miller value to `(p^2 - 1) / r`, the final
//! exponentiation that lands in the subgroup of `r`-th roots of unity.
//!
//! Every division performed on the way is checked; an input configuration
//! that would divide by zero is reported instead of silently mangled.

use vstd::prelude::*;

use crate::errors::ArithmeticError;
use crate::projective_point::{PointSpec, ProjectivePoint};
use crate::test_curve_1::{TestCurve1, TestCurveFieldElement, TEST_CURVE_1_MAIN_SUBGROUP_ORDER};

verus! {

/// The Tate final exponentiation `(p^2 - 1) / r` for base order 59 and
/// subgroup order 5.
pub const TARGET_NORMALIZATION_POWER: u128 = 696;

/// The affine representative of a triple, defined when the norm of `z` is
/// nonzero.
pub open spec fn spec_affine(p: PointSpec) -> PointSpec {
    PointSpec {
        x: TestCurveFieldElement::qmul(p.x, TestCurveFieldElement::qinv(p.z)),
        y: TestCurveFieldElement::qmul(p.y, TestCurveFieldElement::qinv(p.z)),
        z: (1, 0),
    }
}

/// The triple with the `y` coordinate negated.
pub open spec fn spec_point_neg(p: PointSpec) -> PointSpec {
    PointSpec { x: p.x, y: TestCurveFieldElement::qneg(p.y), z: p.z }
}

/// Value at `q` of the line through `p` and `r`, all in affine or identity
/// form; `None` when a slope denominator has norm zero.
pub open spec fn spec_line(p: PointSpec, r: PointSpec, q: PointSpec) -> Option<(int, int)> {
    if ProjectivePoint::spec_eq(p, ProjectivePoint::spec_neutral()) || ProjectivePoint::spec_eq(
        r,
        ProjectivePoint::spec_neutral(),
    ) {
        if ProjectivePoint::spec_eq(p, r) {
            Some((1int, 0int))
        } else if ProjectivePoint::spec_eq(p, ProjectivePoint::spec_neutral()) {
            Some(TestCurveFieldElement::qsub(q.x, r.x))
        } else {
            Some(TestCurveFieldElement::qsub(q.x, p.x))
        }
    } else if !ProjectivePoint::spec_eq(p, r) {
        if p.x == r.x {
            Some(TestCurveFieldElement::qsub(q.x, p.x))
        } else {
            let den = TestCurveFieldElement::qsub(r.x, p.x);
            if TestCurveFieldElement::qnorm(den) == 0 {
                None
            } else {
                let slope = TestCurveFieldElement::qmul(
                    TestCurveFieldElement::qsub(r.y, p.y),
                    TestCurveFieldElement::qinv(den),
                );
                Some(
                    TestCurveFieldElement::qsub(
                        TestCurveFieldElement::qsub(q.y, p.y),
                        TestCurveFieldElement::qmul(slope, TestCurveFieldElement::qsub(q.x, p.x)),
                    ),
                )
            }
        }
    } else {
        let num = TestCurveFieldElement::qadd(
            TestCurveFieldElement::qmul((3, 0), TestCurveFieldElement::qmul(p.x, p.x)),
            TestCurve1::spec_a(),
        );
        let den = TestCurveFieldElement::qmul((2, 0), p.y);
        if den == (0int, 0int) {
            Some(TestCurveFieldElement::qsub(q.x, p.x))
        } else if TestCurveFieldElement::qnorm(den) == 0 {
            None
        } else {
            let slope = TestCurveFieldElement::qmul(num, TestCurveFieldElement::qinv(den));
            Some(
                TestCurveFieldElement::qsub(
                    TestCurveFieldElement::qsub(q.y, p.y),
                    TestCurveFieldElement::qmul(slope, TestCurveFieldElement::qsub(q.x, p.x)),
                ),
            )
        }
    }
}

/// State of Miller's loop after consuming the bits of `m`, most
/// significant first: the accumulated line value and the running point.
/// `None` when a division on the way is undefined.
pub open spec fn spec_miller_loop(pa: PointSpec, qa: PointSpec, m: nat) -> Option<
    ((int, int), PointSpec),
>
    decreases m,
{
    if m <= 1 {
        Some(((1int, 0int), pa))
    } else {
        match spec_miller_loop(pa, qa, m / 2) {
            None => None,
            Some((f, r)) => {
                let s0 = ProjectivePoint::spec_add_points(r, r);
                if TestCurveFieldElement::qnorm(s0.z) == 0 {
                    None
                } else {
                    let s = spec_affine(s0);
                    match spec_line(r, r, qa) {
                        None => None,
                        Some(num) => match spec_line(s, spec_point_neg(s), qa) {
                            None => None,
                            Some(den) => if TestCurveFieldElement::qnorm(den) == 0 {
                                None
                            } else {
                                let f2 = TestCurveFieldElement::qmul(
                                    TestCurveFieldElement::qmul(f, f),
                                    TestCurveFieldElement::qmul(
                                        num,
                                        TestCurveFieldElement::qinv(den),
                                    ),
                                );
                                if m % 2 == 1 {
                                    spec_miller_add_step(pa, qa, f2, s)
                                } else {
                                    Some((f2, s))
                                }
                            },
                        },
                    }
                }
            },
        }
    }
}

/// The conditional add step of Miller's loop for a set bit.
pub open spec fn spec_miller_add_step(
    pa: PointSpec,
    qa: PointSpec,
    f: (int, int),
    r: PointSpec,
) -> Option<((int, int), PointSpec)> {
    let t0 = ProjectivePoint::spec_add_points(r, pa);
    if ProjectivePoint::spec_eq(t0, ProjectivePoint::spec_neutral()) {
        spec_miller_add_lines(pa, qa, f, r, t0)
    } else if TestCurveFieldElement::qnorm(t0.z) == 0 {
        None
    } else {
        spec_miller_add_lines(pa, qa, f, r, spec_affine(t0))
    }
}

/// The line accumulation of the add step, with the new running point `t`.
pub open spec fn spec_miller_add_lines(
    pa: PointSpec,
    qa: PointSpec,
    f: (int, int),
    r: PointSpec,
    t: PointSpec,
) -> Option<((int, int), PointSpec)> {
    match spec_line(r, pa, qa) {
        None => None,
        Some(num) => match spec_line(t, spec_point_neg(t), qa) {
            None => None,
            Some(den) => if TestCurveFieldElement::qnorm(den) == 0 {
                None
            } else {
                Some(
                    (
                        TestCurveFieldElement::qmul(
                            f,
                            TestCurveFieldElement::qmul(num, TestCurveFieldElement::qinv(den)),
                        ),
                        t,
                    ),
                )
            },
        },
    }
}

/// Miller's algorithm on two projective points: both are normalized to
/// affine form, then the loop walks the bits of the subgroup order.
pub open spec fn spec_miller(p: PointSpec, q: PointSpec) -> Option<(int, int)> {
    if TestCurveFieldElement::qnorm(p.z) == 0 || TestCurveFieldElement::qnorm(q.z) == 0 {
        None
    } else {
        match spec_miller_loop(
            spec_affine(p),
            spec_affine(q),
            TEST_CURVE_1_MAIN_SUBGROUP_ORDER as nat,
        ) {
            None => None,
            Some((f, _)) => Some(f),
        }
    }
}

/// The Weil pairing: one for a degenerate argument pair, otherwise the
/// negated ratio of the two opposite Miller values.
pub open spec fn spec_weil(p: PointSpec, q: PointSpec) -> Option<(int, int)> {
    if ProjectivePoint::spec_eq(p, ProjectivePoint::spec_neutral()) || ProjectivePoint::spec_eq(
        q,
        ProjectivePoint::spec_neutral(),
    ) || ProjectivePoint::spec_eq(p, q) {
        Some((1int, 0int))
    } else {
        match spec_miller(p, q) {
            None => None,
            Some(n) => match spec_miller(q, p) {
                None => None,
                Some(d) => if TestCurveFieldElement::qnorm(d) == 0 {
                    None
                } else {
                    Some(
                        TestCurveFieldElement::qneg(
                            TestCurveFieldElement::qmul(n, TestCurveFieldElement::qinv(d)),
                        ),
                    )
                },
            },
        }
    }
}

/// The Tate pairing: one for a degenerate argument pair, otherwise the
/// Miller value raised to the final exponentiation power.
pub open spec fn spec_tate(p: PointSpec, q: PointSpec) -> Option<(int, int)> {
    if ProjectivePoint::spec_eq(p, ProjectivePoint::spec_neutral()) || ProjectivePoint::spec_eq(
        q,
        ProjectivePoint::spec_neutral(),
    ) || ProjectivePoint::spec_eq(p, q) {
        Some((1int, 0int))
    } else {
        match spec_miller(p, q) {
            None => None,
            Some(f) => Some(
                TestCurveFieldElement::qpow(f, TARGET_NORMALIZATION_POWER as nat),
            ),
        }
    }
}

/// Evaluates at `q` the line through `p` and `r`; the points are expected
/// in affine or identity form, as Miller's loop keeps them.
fn line(p: &ProjectivePoint, r: &ProjectivePoint, q: &ProjectivePoint) -> (res: Result<
    TestCurveFieldElement,
    ArithmeticError,
>)
    requires
        p.wf(),
        r.wf(),
        q.wf(),
    ensures
        match res {
            Ok(v) => spec_line(p.spec_point(), r.spec_point(), q.spec_point()) == Some(
                v.spec_pair(),
            ) && v.wf(),
            Err(e) => spec_line(p.spec_point(), r.spec_point(), q.spec_point()) is None && e
                == ArithmeticError::DivisionByZero,
        },
{
    let neutral_p = p.is_neutral_element();
    let neutral_r = r.is_neutral_element();
    if neutral_p || neutral_r {
        if *p == *r {
            Ok(TestCurveFieldElement::one())
        } else if neutral_p {
            Ok(q.x().sub(r.x()))
        } else {
            Ok(q.x().sub(p.x()))
        }
    } else if !(*p == *r) {
        if p.x() == r.x() {
            Ok(q.x().sub(p.x()))
        } else {
            match r.y().sub(p.y()).div(r.x().sub(p.x())) {
                Ok(slope) => Ok(q.y().sub(p.y()).sub(slope.mul(q.x().sub(p.x())))),
                Err(e) => Err(e),
            }
        }
    } else {
        let three = TestCurveFieldElement::from(3);
        let two = TestCurveFieldElement::from(2);
        let num = three.mul(p.x().mul(p.x())).add(TestCurve1::a());
        let den = two.mul(p.y());
        if den == TestCurveFieldElement::from(0) {
            Ok(q.x().sub(p.x()))
        } else {
            match num.div(den) {
                Ok(slope) => Ok(q.y().sub(p.y()).sub(slope.mul(q.x().sub(p.x())))),
                Err(e) => Err(e),
            }
        }
    }
}

/// One walk of Miller's loop over the bits of `m`, most significant
/// first, from affine representatives of the two points.
fn miller_loop(pa: &ProjectivePoint, qa: &ProjectivePoint, m: u64) -> (res: Result<
    (TestCurveFieldElement, ProjectivePoint),
    ArithmeticError,
>)
    requires
        pa.wf(),
        qa.wf(),
        1 <= m,
    ensures
        match res {
            Ok(v) => spec_miller_loop(pa.spec_point(), qa.spec_point(), m as nat) == Some(
                (v.0.spec_pair(), v.1.spec_point()),
            ) && v.0.wf() && v.1.wf(),
            Err(e) => spec_miller_loop(pa.spec_point(), qa.spec_point(), m as nat) is None && e
                == ArithmeticError::DivisionByZero,
        },
    decreases m,
{
    if m == 1 {
        Ok((TestCurveFieldElement::one(), *pa))
    } else {
        let (f, r) = match miller_loop(pa, qa, m / 2) {
            Ok(v) => v,
            Err(e) => {
                return Err(e);
            },
        };
        let s0 = r.operate_with(&r);
        let s = match s0.to_affine() {
            Ok(v) => v,
            Err(_) => {
                return Err(ArithmeticError::DivisionByZero);
            },
        };
        let num = match line(&r, &r, qa) {
            Ok(v) => v,
            Err(e) => {
                return Err(e);
            },
        };
        let den = match line(&s, &s.neg(), qa) {
            Ok(v) => v,
            Err(e) => {
                return Err(e);
            },
        };
        let ratio = match num.div(den) {
            Ok(v) => v,
            Err(e) => {
                return Err(e);
            },
        };
        let f2 = f.mul(f).mul(ratio);
        if m % 2 == 1 {
            let t0 = s.operate_with(pa);
            let t = if t0.is_neutral_element() {
                t0
            } else {
                match t0.to_affine() {
                    Ok(v) => v,
                    Err(_) => {
                        return Err(ArithmeticError::DivisionByZero);
                    },
                }
            };
            let num2 = match line(&s, pa, qa) {
                Ok(v) => v,
                Err(e) => {
                    return Err(e);
                },
            };
            let den2 = match line(&t, &t.neg(), qa) {
                Ok(v) => v,
                Err(e) => {
                    return Err(e);
                },
            };
            let ratio2 = match num2.div(den2) {
                Ok(v) => v,
                Err(e) => {
                    return Err(e);
                },
            };
            Ok((f2.mul(ratio2), t))
        } else {
            Ok((f2, s))
        }
    }
}

/// Miller's algorithm between points `p` and `q` over the bits of the
/// subgroup order.
pub fn miller(p: &ProjectivePoint, q: &ProjectivePoint) -> (res: Result<
    TestCurveFieldElement,
    ArithmeticError,
>)
    requires
        p.wf(),
        q.wf(),
    ensures
        match res {
            Ok(v) => spec_miller(p.spec_point(), q.spec_point()) == Some(v.spec_pair()) && v.wf(),
            Err(e) => spec_miller(p.spec_point(), q.spec_point()) is None && e
                == ArithmeticError::DivisionByZero,
        },
{
    let pa = match p.to_affine() {
        Ok(v) => v,
        Err(_) => {
            return Err(ArithmeticError::DivisionByZero);
        },
    };
    let qa = match q.to_affine() {
        Ok(v) => v,
        Err(_) => {
            return Err(ArithmeticError::DivisionByZero);
        },
    };
    match miller_loop(&pa, &qa, TEST_CURVE_1_MAIN_SUBGROUP_ORDER) {
        Ok((f, _)) => Ok(f),
        Err(e) => Err(e),
    }
}

/// The Weil pairing between points `p` and `q`.
pub fn weil_pairing(p: &ProjectivePoint, q: &ProjectivePoint) -> (res: Result<
    TestCurveFieldElement,
    ArithmeticError,
>)
    requires
        p.wf(),
        q.wf(),
    ensures
        match res {
            Ok(v) => spec_weil(p.spec_point(), q.spec_point()) == Some(v.spec_pair()) && v.wf(),
            Err(e) => spec_weil(p.spec_point(), q.spec_point()) is None && e
                == ArithmeticError::DivisionByZero,
        },
{
    if p.is_neutral_element() || q.is_neutral_element() || *p == *q {
        Ok(TestCurveFieldElement::one())
    } else {
        let n = match miller(p, q) {
            Ok(v) => v,
            Err(e) => {
                return Err(e);
            },
        };
        let d = match miller(q, p) {
            Ok(v) => v,
            Err(e) => {
                return Err(e);
            },
        };
        match n.div(d) {
            Ok(v) => Ok(v.neg()),
            Err(e) => Err(e),
        }
    }
}

/// The Tate pairing between points `p` and `q`.
pub fn tate_pairing(p: &ProjectivePoint, q: &ProjectivePoint) -> (res: Result<
    TestCurveFieldElement,
    ArithmeticError,
>)
    requires
        p.wf(),
        q.wf(),
    ensures
        match res {
            Ok(v) => spec_tate(p.spec_point(), q.spec_point()) == Some(v.spec_pair()) && v.wf(),
            Err(e) => spec_tate(p.spec_point(), q.spec_point()) is None && e
                == ArithmeticError::DivisionByZero,
        },
{
    if p.is_neutral_element() || q.is_neutral_element() || *p == *q {
        Ok(TestCurveFieldElement::one())
    } else {
        match miller(p, q) {
            Ok(f) => Ok(f.pow(TARGET_NORMALIZATION_POWER)),
            Err(e) => Err(e),
        }
    }
}

} // verus!
