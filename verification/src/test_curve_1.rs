//! A small pairing-friendly short Weierstrass curve for exercising the
//! group law and the pairings.
//!
//! The curve is `y^2 = x^3 + x` over the quadratic extension of the prime
//! field of order 59. Its distinguished generator `(35, 31)` spans a
//! subgroup of order 5, and the extension has embedding degree 2, so both
//! pairings land in the same quadratic extension.

use vstd::prelude::*;

use crate::errors::CurveError;
use crate::projective_point::ProjectivePoint;
use crate::quadratic_extension::QuadraticExtensionFieldElement;

verus! {

/// Order of the base prime field of the curve.
pub const TEST_CURVE_1_PRIME_FIELD_ORDER: u64 = 59;

/// Order of the subgroup spanned by the curve's generator.
pub const TEST_CURVE_1_MAIN_SUBGROUP_ORDER: u64 = 5;

/// Coordinate field of the curve: the quadratic extension of the base
/// prime field.
pub type TestCurveFieldElement = QuadraticExtensionFieldElement<TEST_CURVE_1_PRIME_FIELD_ORDER>;

/// The short Weierstrass curve `y^2 = x^3 + a x + b` with `a = 1`, `b = 0`.
pub struct TestCurve1;

impl TestCurve1 {
    /// Curve coefficient `a` as a pair of residues.
    pub open spec fn spec_a() -> (int, int) {
        (1, 0)
    }

    /// Curve coefficient `b` as a pair of residues.
    pub open spec fn spec_b() -> (int, int) {
        (0, 0)
    }

    /// Whether affine coordinates satisfy the curve equation
    /// `y^2 == x^3 + a x + b`.
    pub open spec fn on_curve_affine(x: (int, int), y: (int, int)) -> bool {
        TestCurveFieldElement::qmul(y, y) == TestCurveFieldElement::qadd(
            TestCurveFieldElement::qmul(TestCurveFieldElement::qmul(x, x), x),
            TestCurveFieldElement::qadd(
                TestCurveFieldElement::qmul(Self::spec_a(), x),
                Self::spec_b(),
            ),
        )
    }

    /// Curve coefficient `a`.
    pub fn a() -> (r: TestCurveFieldElement)
        ensures
            r.wf(),
            r.spec_pair() == Self::spec_a(),
    {
        TestCurveFieldElement::from(1)
    }

    /// Curve coefficient `b`.
    pub fn b() -> (r: TestCurveFieldElement)
        ensures
            r.wf(),
            r.spec_pair() == Self::spec_b(),
    {
        TestCurveFieldElement::from(0)
    }

    /// The distinguished generator `(35, 31)` in projective form.
    pub fn generator() -> (r: ProjectivePoint)
        ensures
            r.wf(),
            r.spec_point().x == (35int, 0int),
            r.spec_point().y == (31int, 0int),
            r.spec_point().z == (1int, 0int),
    {
        ProjectivePoint::new(
            [
                TestCurveFieldElement::from(35),
                TestCurveFieldElement::from(31),
                TestCurveFieldElement::from(1),
            ],
        )
    }

    /// Validated construction from affine coordinates: succeeds with the
    /// projective point `(x, y, 1)` exactly when the coordinates satisfy
    /// the curve equation, and reports an invalid point otherwise.
    pub fn create_point_from_affine(x: TestCurveFieldElement, y: TestCurveFieldElement) -> (r:
        Result<ProjectivePoint, CurveError>)
        requires
            x.wf(),
            y.wf(),
        ensures
            match r {
                Ok(p) => Self::on_curve_affine(x.spec_pair(), y.spec_pair()) && p.wf()
                    && p.spec_point().x == x.spec_pair() && p.spec_point().y == y.spec_pair()
                    && p.spec_point().z == (1int, 0int),
                Err(e) => !Self::on_curve_affine(x.spec_pair(), y.spec_pair()) && e
                    == CurveError::InvalidPoint,
            },
    {
        let lhs = y.mul(y);
        let rhs = x.mul(x).mul(x).add(Self::a().mul(x).add(Self::b()));
        if lhs == rhs {
            Ok(ProjectivePoint::new([x, y, TestCurveFieldElement::from(1)]))
        } else {
            Err(CurveError::InvalidPoint)
        }
    }
}

} // verus!
