//! Elliptic curve points in projective short Weierstrass form.
//!
//! A point is a triple `[x: y: z]` of coordinate field elements with
//! `y^2 z = x^3 + a x z^2 + b z^3`; `z == 0` represents the point at
//! infinity, the group identity. Two triples denote the same point when
//! they agree under cross-multiplication, so equality never divides and
//! stays defined at infinity.

use vstd::prelude::*;

use crate::errors::CurveError;
use crate::test_curve_1::{TestCurve1, TestCurveFieldElement};

verus! {

/// Mathematical value of a projective triple: the three coordinate pairs.
pub ghost struct PointSpec {
    /// Pair of residues of the `x` coordinate.
    pub x: (int, int),
    /// Pair of residues of the `y` coordinate.
    pub y: (int, int),
    /// Pair of residues of the `z` coordinate.
    pub z: (int, int),
}

/// A projective point on the curve, with coordinates in the curve's
/// coordinate field.
#[derive(Clone, Copy, Debug, Eq)]
pub struct ProjectivePoint {
    x: TestCurveFieldElement,
    y: TestCurveFieldElement,
    z: TestCurveFieldElement,
}

impl ProjectivePoint {
    /// The triple of coordinate values.
    pub closed spec fn spec_point(self) -> PointSpec {
        PointSpec { x: self.x.spec_pair(), y: self.y.spec_pair(), z: self.z.spec_pair() }
    }

    /// Well-formedness: all three coordinates are reduced.
    pub open spec fn wf(self) -> bool {
        TestCurveFieldElement::pair_wf(self.spec_point().x) && TestCurveFieldElement::pair_wf(
            self.spec_point().y,
        ) && TestCurveFieldElement::pair_wf(self.spec_point().z)
    }

    /// The canonical representative of the point at infinity, `[0: 1: 0]`.
    pub open spec fn spec_neutral() -> PointSpec {
        PointSpec { x: (0, 0), y: (1, 0), z: (0, 0) }
    }

    /// Projective equality by cross-multiplication:
    /// `x1 z2 == z1 x2` and `x1 y2 == y1 x2`.
    pub open spec fn spec_eq(p: PointSpec, q: PointSpec) -> bool {
        TestCurveFieldElement::qmul(p.x, q.z) == TestCurveFieldElement::qmul(p.z, q.x)
            && TestCurveFieldElement::qmul(p.x, q.y) == TestCurveFieldElement::qmul(p.y, q.x)
    }

    /// The curve addition law on triples, mirroring the projective
    /// chord-and-tangent formulas; the identity is absorbed, a doubling
    /// uses the tangent formula, and a point meeting its negation yields
    /// the identity.
    pub open spec fn spec_add_points(p: PointSpec, q: PointSpec) -> PointSpec {
        if Self::spec_eq(q, Self::spec_neutral()) {
            p
        } else if Self::spec_eq(p, Self::spec_neutral()) {
            q
        } else {
            let u1 = TestCurveFieldElement::qmul(q.y, p.z);
            let u2 = TestCurveFieldElement::qmul(p.y, q.z);
            let v1 = TestCurveFieldElement::qmul(q.x, p.z);
            let v2 = TestCurveFieldElement::qmul(p.x, q.z);
            if v1 == v2 {
                if u1 != u2 || p.y == (0int, 0int) {
                    Self::spec_neutral()
                } else {
                    Self::spec_double(p)
                }
            } else {
                let u = TestCurveFieldElement::qsub(u1, u2);
                let v = TestCurveFieldElement::qsub(v1, v2);
                let w = TestCurveFieldElement::qmul(p.z, q.z);
                let vv = TestCurveFieldElement::qmul(v, v);
                let vvv = TestCurveFieldElement::qmul(vv, v);
                let a = TestCurveFieldElement::qsub(
                    TestCurveFieldElement::qsub(
                        TestCurveFieldElement::qmul(TestCurveFieldElement::qmul(u, u), w),
                        vvv,
                    ),
                    TestCurveFieldElement::qmul((2, 0), TestCurveFieldElement::qmul(vv, v2)),
                );
                PointSpec {
                    x: TestCurveFieldElement::qmul(v, a),
                    y: TestCurveFieldElement::qsub(
                        TestCurveFieldElement::qmul(
                            u,
                            TestCurveFieldElement::qsub(TestCurveFieldElement::qmul(vv, v2), a),
                        ),
                        TestCurveFieldElement::qmul(vvv, u2),
                    ),
                    z: TestCurveFieldElement::qmul(vvv, w),
                }
            }
        }
    }

    /// The tangent (doubling) formula on a triple with nonzero `y`.
    pub open spec fn spec_double(p: PointSpec) -> PointSpec {
        let w = TestCurveFieldElement::qadd(
            TestCurveFieldElement::qmul(TestCurve1::spec_a(), TestCurveFieldElement::qmul(p.z, p.z)),
            TestCurveFieldElement::qmul((3, 0), TestCurveFieldElement::qmul(p.x, p.x)),
        );
        let s = TestCurveFieldElement::qmul(p.y, p.z);
        let b = TestCurveFieldElement::qmul(TestCurveFieldElement::qmul(p.x, p.y), s);
        let h = TestCurveFieldElement::qsub(
            TestCurveFieldElement::qmul(w, w),
            TestCurveFieldElement::qmul((8, 0), b),
        );
        PointSpec {
            x: TestCurveFieldElement::qmul((2, 0), TestCurveFieldElement::qmul(h, s)),
            y: TestCurveFieldElement::qsub(
                TestCurveFieldElement::qmul(
                    w,
                    TestCurveFieldElement::qsub(TestCurveFieldElement::qmul((4, 0), b), h),
                ),
                TestCurveFieldElement::qmul(
                    (8, 0),
                    TestCurveFieldElement::qmul(
                        TestCurveFieldElement::qmul(p.y, p.y),
                        TestCurveFieldElement::qmul(s, s),
                    ),
                ),
            ),
            z: TestCurveFieldElement::qmul(
                (8, 0),
                TestCurveFieldElement::qmul(s, TestCurveFieldElement::qmul(s, s)),
            ),
        }
    }

    /// Scalar multiplication by binary double-and-add over the bits of the
    /// exponent, most significant first.
    pub open spec fn spec_scalar_mul(p: PointSpec, k: nat) -> PointSpec
        decreases k,
    {
        if k == 0 {
            Self::spec_neutral()
        } else {
            let half = Self::spec_scalar_mul(p, k / 2);
            let doubled = Self::spec_add_points(half, half);
            if k % 2 == 1 {
                Self::spec_add_points(doubled, p)
            } else {
                doubled
            }
        }
    }

    /// Creates a point from the projective `[x: y: z]` coordinates, without
    /// validating the curve equation.
    pub fn new(value: [TestCurveFieldElement; 3]) -> (r: Self)
        requires
            value[0].wf(),
            value[1].wf(),
            value[2].wf(),
        ensures
            r.wf(),
            r.spec_point() == (PointSpec {
                x: value[0].spec_pair(),
                y: value[1].spec_pair(),
                z: value[2].spec_pair(),
            }),
    {
        Self { x: value[0], y: value[1], z: value[2] }
    }

    /// The `x` coordinate.
    pub fn x(&self) -> (r: TestCurveFieldElement)
        ensures
            r.spec_pair() == self.spec_point().x,
    {
        self.x
    }

    /// The `y` coordinate.
    pub fn y(&self) -> (r: TestCurveFieldElement)
        ensures
            r.spec_pair() == self.spec_point().y,
    {
        self.y
    }

    /// The `z` coordinate.
    pub fn z(&self) -> (r: TestCurveFieldElement)
        ensures
            r.spec_pair() == self.spec_point().z,
    {
        self.z
    }

    /// The coordinates `[x, y, z]` of the point.
    pub fn coordinates(&self) -> (r: [TestCurveFieldElement; 3])
        ensures
            r[0].spec_pair() == self.spec_point().x,
            r[1].spec_pair() == self.spec_point().y,
            r[2].spec_pair() == self.spec_point().z,
    {
        [self.x, self.y, self.z]
    }

    /// The canonical identity representative `[0: 1: 0]`.
    pub fn neutral_element() -> (r: Self)
        ensures
            r.wf(),
            r.spec_point() == Self::spec_neutral(),
    {
        Self {
            x: TestCurveFieldElement::from(0),
            y: TestCurveFieldElement::from(1),
            z: TestCurveFieldElement::from(0),
        }
    }

    /// Whether the point is the group identity, decided through the
    /// cross-multiplication equality so that every representative scaling
    /// of the identity is recognized.
    pub fn is_neutral_element(&self) -> (r: bool)
        requires
            self.wf(),
        ensures
            r == Self::spec_eq(self.spec_point(), Self::spec_neutral()),
    {
        *self == Self::neutral_element()
    }

    /// The additive inverse: the `y` coordinate changes sign.
    pub fn neg(&self) -> (r: Self)
        requires
            self.wf(),
        ensures
            r.wf(),
            r.spec_point() == (PointSpec {
                x: self.spec_point().x,
                y: TestCurveFieldElement::qneg(self.spec_point().y),
                z: self.spec_point().z,
            }),
    {
        Self { x: self.x, y: self.y.neg(), z: self.z }
    }

    /// The group law: curve addition of two points.
    pub fn operate_with(&self, other: &Self) -> (r: Self)
        requires
            self.wf(),
            other.wf(),
        ensures
            r.wf(),
            r.spec_point() == Self::spec_add_points(self.spec_point(), other.spec_point()),
    {
        if other.is_neutral_element() {
            *self
        } else if self.is_neutral_element() {
            *other
        } else {
            let u1 = other.y.mul(self.z);
            let u2 = self.y.mul(other.z);
            let v1 = other.x.mul(self.z);
            let v2 = self.x.mul(other.z);
            if v1 == v2 {
                if u1 != u2 || self.y == TestCurveFieldElement::from(0) {
                    Self::neutral_element()
                } else {
                    let two = TestCurveFieldElement::from(2);
                    let three = TestCurveFieldElement::from(3);
                    let four = TestCurveFieldElement::from(4);
                    let eight = TestCurveFieldElement::from(8);
                    let w = TestCurve1::a().mul(self.z.mul(self.z)).add(
                        three.mul(self.x.mul(self.x)),
                    );
                    let s = self.y.mul(self.z);
                    let b = self.x.mul(self.y).mul(s);
                    let h = w.mul(w).sub(eight.mul(b));
                    let rx = two.mul(h.mul(s));
                    let ry = w.mul(four.mul(b).sub(h)).sub(
                        eight.mul(self.y.mul(self.y).mul(s.mul(s))),
                    );
                    let rz = eight.mul(s.mul(s.mul(s)));
                    Self { x: rx, y: ry, z: rz }
                }
            } else {
                let two = TestCurveFieldElement::from(2);
                let u = u1.sub(u2);
                let v = v1.sub(v2);
                let w = self.z.mul(other.z);
                let vv = v.mul(v);
                let vvv = vv.mul(v);
                let a = u.mul(u).mul(w).sub(vvv).sub(two.mul(vv.mul(v2)));
                let rx = v.mul(a);
                let ry = u.mul(vv.mul(v2).sub(a)).sub(vvv.mul(u2));
                let rz = vvv.mul(w);
                Self { x: rx, y: ry, z: rz }
            }
        }
    }

    /// Scalar multiplication by binary double-and-add; scaling by zero is
    /// the identity.
    pub fn operate_with_self(&self, exp: u128) -> (r: Self)
        requires
            self.wf(),
        ensures
            r.wf(),
            r.spec_point() == Self::spec_scalar_mul(self.spec_point(), exp as nat),
        decreases exp,
    {
        if exp == 0 {
            Self::neutral_element()
        } else {
            let half = self.operate_with_self(exp / 2);
            let doubled = half.operate_with(&half);
            proof {
                assert((exp / 2) as nat == exp as nat / 2);
            }
            if exp % 2 == 1 {
                doubled.operate_with(self)
            } else {
                doubled
            }
        }
    }

    /// The affine representative `[x / z: y / z: 1]`; the point at
    /// infinity, recognized as any triple equal to the identity under the
    /// projective equality, admits no affine conversion.
    pub fn to_affine(&self) -> (r: Result<Self, CurveError>)
        requires
            self.wf(),
        ensures
            match r {
                Ok(p) => TestCurveFieldElement::qnorm(self.spec_point().z) != 0 && p.wf()
                    && p.spec_point() == (PointSpec {
                    x: TestCurveFieldElement::qmul(
                        self.spec_point().x,
                        TestCurveFieldElement::qinv(self.spec_point().z),
                    ),
                    y: TestCurveFieldElement::qmul(
                        self.spec_point().y,
                        TestCurveFieldElement::qinv(self.spec_point().z),
                    ),
                    z: (1int, 0int),
                }),
                Err(e) => TestCurveFieldElement::qnorm(self.spec_point().z) == 0 && e
                    == CurveError::UndefinedAffineConversion,
            },
    {
        match self.z.inv() {
            Ok(z_inv) => Ok(
                Self { x: self.x.mul(z_inv), y: self.y.mul(z_inv), z: TestCurveFieldElement::from(1) },
            ),
            Err(_) => Err(CurveError::UndefinedAffineConversion),
        }
    }
}

impl ProjectivePoint {
    /// The projective equality is reflexive.
    pub proof fn lemma_eq_reflexive(p: PointSpec)
        ensures
            Self::spec_eq(p, p),
    {
        TestCurveFieldElement::lemma_qmul_commutative(p.x, p.z);
        TestCurveFieldElement::lemma_qmul_commutative(p.x, p.y);
    }

    /// The projective equality is symmetric.
    pub proof fn lemma_eq_symmetric(p: PointSpec, q: PointSpec)
        requires
            Self::spec_eq(p, q),
        ensures
            Self::spec_eq(q, p),
    {
        TestCurveFieldElement::lemma_qmul_commutative(p.x, q.z);
        TestCurveFieldElement::lemma_qmul_commutative(p.z, q.x);
        TestCurveFieldElement::lemma_qmul_commutative(p.x, q.y);
        TestCurveFieldElement::lemma_qmul_commutative(p.y, q.x);
    }

    /// Law: scaling all three coordinates by one nonzero scalar leaves the
    /// point unchanged under the projective equality.
    pub proof fn lemma_eq_scaling(p: PointSpec, lambda: (int, int))
        requires
            lambda != (0int, 0int),
        ensures
            Self::spec_eq(
                PointSpec {
                    x: TestCurveFieldElement::qmul(lambda, p.x),
                    y: TestCurveFieldElement::qmul(lambda, p.y),
                    z: TestCurveFieldElement::qmul(lambda, p.z),
                },
                p,
            ),
    {
        TestCurveFieldElement::lemma_qmul_associative(lambda, p.x, p.z);
        TestCurveFieldElement::lemma_qmul_associative(lambda, p.z, p.x);
        TestCurveFieldElement::lemma_qmul_commutative(p.x, p.z);
        TestCurveFieldElement::lemma_qmul_associative(lambda, p.x, p.y);
        TestCurveFieldElement::lemma_qmul_associative(lambda, p.y, p.x);
        TestCurveFieldElement::lemma_qmul_commutative(p.x, p.y);
    }

    /// Law: the identity is a right identity of the group law.
    pub proof fn lemma_neutral_right_identity(p: PointSpec)
        ensures
            Self::spec_add_points(p, Self::spec_neutral()) == p,
            Self::spec_eq(Self::spec_add_points(p, Self::spec_neutral()), p),
    {
        Self::lemma_eq_reflexive(p);
    }

    /// Law: the identity is a left identity of the group law, up to the
    /// projective equality.
    pub proof fn lemma_neutral_left_identity(p: PointSpec)
        ensures
            Self::spec_eq(Self::spec_add_points(Self::spec_neutral(), p), p),
    {
        if Self::spec_eq(p, Self::spec_neutral()) {
            Self::lemma_eq_symmetric(p, Self::spec_neutral());
        } else {
            Self::lemma_eq_reflexive(p);
        }
    }

    /// Law: scaling by zero yields the identity.
    pub proof fn lemma_scalar_mul_zero(p: PointSpec)
        ensures
            Self::spec_scalar_mul(p, 0) == Self::spec_neutral(),
    {
    }
}

impl PartialEq for ProjectivePoint {
    /// Projective equality by cross-multiplication, defined at infinity.
    /// Coordinates of unknown provenance that are not reduced are compared
    /// componentwise instead.
    fn eq(&self, other: &Self) -> (r: bool) {
        if self.x.is_reduced() && self.y.is_reduced() && self.z.is_reduced()
            && other.x.is_reduced() && other.y.is_reduced() && other.z.is_reduced() {
            let px = self.x;
            let py = self.y;
            let pz = self.z;
            let qx = other.x;
            let qy = other.y;
            let qz = other.z;
            px.mul(qz) == pz.mul(qx) && px.mul(qy) == py.mul(qx)
        } else {
            self.x == other.x && self.y == other.y && self.z == other.z
        }
    }
}

impl vstd::std_specs::cmp::PartialEqSpecImpl for ProjectivePoint {
    open spec fn obeys_eq_spec() -> bool {
        true
    }

    open spec fn eq_spec(&self, other: &Self) -> bool {
        if self.wf() && other.wf() {
            ProjectivePoint::spec_eq(self.spec_point(), other.spec_point())
        } else {
            self.spec_point() == other.spec_point()
        }
    }
}

} // verus!
