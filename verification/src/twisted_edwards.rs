//! Twisted Edwards curve points and their addition law.
//!
//! A twisted Edwards curve `a x^2 + y^2 = 1 + d x^2 y^2` carries a group
//! law different from the short Weierstrass chord-and-tangent law: one
//! unified rational formula adds any two points, doubling included, and
//! the affine point `(0, 1)` is the identity. The curve here has `a = 1`
//! and the non-square `d = 2` over the prime field of order 59, so the
//! denominators of the law never vanish on curve points; every division
//! is nonetheless checked and reported.

use vstd::prelude::*;
use vstd::arithmetic::div_mod::lemma_small_mod;
use vstd::arithmetic::power::{lemma_pow0, lemma_pow1, lemma_pow_adds, pow};

use crate::errors::{ArithmeticError, CurveError};
use crate::u64_prime_field::U64FieldElement;

verus! {

/// Order of the base prime field of the Edwards curve.
pub const EDWARDS_FIELD_ORDER: u64 = 59;

/// The curve coefficient `a`.
pub const EDWARDS_A: u64 = 1;

/// The curve coefficient `d`, a quadratic non-residue of the field.
pub const EDWARDS_D: u64 = 2;

/// Coordinate field of the Edwards curve.
pub type EdwardsFieldElement = U64FieldElement<EDWARDS_FIELD_ORDER>;

/// An affine point of the twisted Edwards curve.
#[derive(Clone, Copy, Debug, Eq)]
pub struct EdwardsPoint {
    x: EdwardsFieldElement,
    y: EdwardsFieldElement,
}

impl EdwardsPoint {
    /// The pair of coordinate values.
    pub closed spec fn spec_point(self) -> (int, int) {
        (self.x.spec_value(), self.y.spec_value())
    }

    /// Well-formedness: both coordinates are reduced.
    pub open spec fn wf(self) -> bool {
        0 <= self.spec_point().0 < EDWARDS_FIELD_ORDER as int && 0 <= self.spec_point().1
            < EDWARDS_FIELD_ORDER as int
    }

    /// Whether coordinates satisfy `a x^2 + y^2 == 1 + d x^2 y^2`.
    pub open spec fn on_curve(x: int, y: int) -> bool {
        U64FieldElement::<EDWARDS_FIELD_ORDER>::spec_add(
            U64FieldElement::<EDWARDS_FIELD_ORDER>::spec_mul(
                EDWARDS_A as int,
                U64FieldElement::<EDWARDS_FIELD_ORDER>::spec_mul(x, x),
            ),
            U64FieldElement::<EDWARDS_FIELD_ORDER>::spec_mul(y, y),
        ) == U64FieldElement::<EDWARDS_FIELD_ORDER>::spec_add(
            1,
            U64FieldElement::<EDWARDS_FIELD_ORDER>::spec_mul(
                EDWARDS_D as int,
                U64FieldElement::<EDWARDS_FIELD_ORDER>::spec_mul(
                    U64FieldElement::<EDWARDS_FIELD_ORDER>::spec_mul(x, x),
                    U64FieldElement::<EDWARDS_FIELD_ORDER>::spec_mul(y, y),
                ),
            ),
        )
    }

    /// The shared product `d x1 x2 y1 y2` whose sign splits the two
    /// denominators of the addition law.
    pub open spec fn spec_law_product(p: (int, int), q: (int, int)) -> int {
        U64FieldElement::<EDWARDS_FIELD_ORDER>::spec_mul(
            EDWARDS_D as int,
            U64FieldElement::<EDWARDS_FIELD_ORDER>::spec_mul(
                U64FieldElement::<EDWARDS_FIELD_ORDER>::spec_mul(p.0, q.0),
                U64FieldElement::<EDWARDS_FIELD_ORDER>::spec_mul(p.1, q.1),
            ),
        )
    }

    /// The Edwards sum, defined when both denominators are nonzero:
    /// `x3 = (x1 y2 + y1 x2) / (1 + d x1 x2 y1 y2)` and
    /// `y3 = (y1 y2 - a x1 x2) / (1 - d x1 x2 y1 y2)`.
    pub open spec fn spec_edwards_sum(p: (int, int), q: (int, int)) -> (int, int) {
        let t = Self::spec_law_product(p, q);
        (
            U64FieldElement::<EDWARDS_FIELD_ORDER>::spec_mul(
                U64FieldElement::<EDWARDS_FIELD_ORDER>::spec_add(
                    U64FieldElement::<EDWARDS_FIELD_ORDER>::spec_mul(p.0, q.1),
                    U64FieldElement::<EDWARDS_FIELD_ORDER>::spec_mul(p.1, q.0),
                ),
                U64FieldElement::<EDWARDS_FIELD_ORDER>::spec_inv(
                    U64FieldElement::<EDWARDS_FIELD_ORDER>::spec_add(1, t),
                ),
            ),
            U64FieldElement::<EDWARDS_FIELD_ORDER>::spec_mul(
                U64FieldElement::<EDWARDS_FIELD_ORDER>::spec_sub(
                    U64FieldElement::<EDWARDS_FIELD_ORDER>::spec_mul(p.1, q.1),
                    U64FieldElement::<EDWARDS_FIELD_ORDER>::spec_mul(
                        EDWARDS_A as int,
                        U64FieldElement::<EDWARDS_FIELD_ORDER>::spec_mul(p.0, q.0),
                    ),
                ),
                U64FieldElement::<EDWARDS_FIELD_ORDER>::spec_inv(
                    U64FieldElement::<EDWARDS_FIELD_ORDER>::spec_sub(1, t),
                ),
            ),
        )
    }

    /// The group identity `(0, 1)`.
    pub fn neutral_element() -> (r: Self)
        ensures
            r.wf(),
            r.spec_point() == (0int, 1int),
    {
        Self { x: U64FieldElement::zero(), y: U64FieldElement::one() }
    }

    /// Whether the point is the group identity.
    pub fn is_neutral_element(&self) -> (r: bool)
        requires
            self.wf(),
        ensures
            r == (self.spec_point() == (0int, 1int)),
    {
        *self == Self::neutral_element()
    }

    /// The `x` coordinate.
    pub fn x(&self) -> (r: EdwardsFieldElement)
        ensures
            r.spec_value() == self.spec_point().0,
    {
        self.x
    }

    /// The `y` coordinate.
    pub fn y(&self) -> (r: EdwardsFieldElement)
        ensures
            r.spec_value() == self.spec_point().1,
    {
        self.y
    }

    /// The additive inverse: the `x` coordinate changes sign.
    pub fn neg(&self) -> (r: Self)
        requires
            self.wf(),
        ensures
            r.wf(),
            r.spec_point() == (
                U64FieldElement::<EDWARDS_FIELD_ORDER>::spec_neg(self.spec_point().0),
                self.spec_point().1,
            ),
    {
        Self { x: self.x.neg(), y: self.y }
    }

    /// Validated construction from affine coordinates: succeeds exactly
    /// when they satisfy the curve equation.
    pub fn create_point_from_affine(x: EdwardsFieldElement, y: EdwardsFieldElement) -> (r: Result<
        Self,
        CurveError,
    >)
        requires
            x.wf(),
            y.wf(),
        ensures
            match r {
                Ok(p) => Self::on_curve(x.spec_value(), y.spec_value()) && p.wf() && p.spec_point()
                    == (x.spec_value(), y.spec_value()),
                Err(e) => !Self::on_curve(x.spec_value(), y.spec_value()) && e
                    == CurveError::InvalidPoint,
            },
    {
        let a = U64FieldElement::<EDWARDS_FIELD_ORDER>::new(EDWARDS_A);
        let d = U64FieldElement::<EDWARDS_FIELD_ORDER>::new(EDWARDS_D);
        proof {
            lemma_small_mod(EDWARDS_A as nat, EDWARDS_FIELD_ORDER as nat);
            lemma_small_mod(EDWARDS_D as nat, EDWARDS_FIELD_ORDER as nat);
        }
        let lhs = a.mul(x.mul(x)).add(y.mul(y));
        let rhs = U64FieldElement::one().add(d.mul(x.mul(x).mul(y.mul(y))));
        if lhs == rhs {
            Ok(Self { x, y })
        } else {
            Err(CurveError::InvalidPoint)
        }
    }

    /// The group law: the unified Edwards addition formula, which also
    /// doubles. On curve points of this complete curve the denominators
    /// are never zero; a zero denominator on arbitrary coordinates is
    /// reported as a division by zero.
    pub fn operate_with(&self, other: &Self) -> (r: Result<Self, ArithmeticError>)
        requires
            self.wf(),
            other.wf(),
        ensures
            match r {
                Ok(v) => v.wf() && v.spec_point() == Self::spec_edwards_sum(
                    self.spec_point(),
                    other.spec_point(),
                ) && U64FieldElement::<EDWARDS_FIELD_ORDER>::spec_add(
                    1,
                    Self::spec_law_product(self.spec_point(), other.spec_point()),
                ) != 0 && U64FieldElement::<EDWARDS_FIELD_ORDER>::spec_sub(
                    1,
                    Self::spec_law_product(self.spec_point(), other.spec_point()),
                ) != 0,
                Err(e) => e == ArithmeticError::DivisionByZero
                    && (U64FieldElement::<EDWARDS_FIELD_ORDER>::spec_add(
                    1,
                    Self::spec_law_product(self.spec_point(), other.spec_point()),
                ) == 0 || U64FieldElement::<EDWARDS_FIELD_ORDER>::spec_sub(
                    1,
                    Self::spec_law_product(self.spec_point(), other.spec_point()),
                ) == 0),
            },
    {
        let d = U64FieldElement::<EDWARDS_FIELD_ORDER>::new(EDWARDS_D);
        let a = U64FieldElement::<EDWARDS_FIELD_ORDER>::new(EDWARDS_A);
        proof {
            lemma_small_mod(EDWARDS_A as nat, EDWARDS_FIELD_ORDER as nat);
            lemma_small_mod(EDWARDS_D as nat, EDWARDS_FIELD_ORDER as nat);
        }
        let one = U64FieldElement::<EDWARDS_FIELD_ORDER>::one();
        let t = d.mul(self.x.mul(other.x).mul(self.y.mul(other.y)));
        let x_num = self.x.mul(other.y).add(self.y.mul(other.x));
        let y_num = self.y.mul(other.y).sub(a.mul(self.x.mul(other.x)));
        let x3 = match x_num.div(one.add(t)) {
            Ok(v) => v,
            Err(e) => {
                return Err(e);
            },
        };
        let y3 = match y_num.div(one.sub(t)) {
            Ok(v) => v,
            Err(e) => {
                return Err(e);
            },
        };
        Ok(Self { x: x3, y: y3 })
    }

    /// One raised to any power stays one.
    proof fn lemma_pow_of_one(e: nat)
        ensures
            pow(1, e) == 1,
        decreases e,
    {
        if e == 0 {
            lemma_pow0(1);
        } else {
            Self::lemma_pow_of_one((e - 1) as nat);
            lemma_pow_adds(1, (e - 1) as nat, 1);
            lemma_pow1(1);
        }
    }

    /// Law: the identity is a right identity of the Edwards law — adding
    /// `(0, 1)` divides by one on both coordinates and returns the point.
    pub proof fn lemma_neutral_right_identity(p: (int, int))
        requires
            0 <= p.0 < EDWARDS_FIELD_ORDER as int,
            0 <= p.1 < EDWARDS_FIELD_ORDER as int,
        ensures
            Self::spec_edwards_sum(p, (0, 1)) == p,
    {
        Self::lemma_pow_of_one((EDWARDS_FIELD_ORDER - 2) as nat);
        lemma_small_mod(1, EDWARDS_FIELD_ORDER as nat);
        lemma_small_mod(p.0 as nat, EDWARDS_FIELD_ORDER as nat);
        lemma_small_mod(p.1 as nat, EDWARDS_FIELD_ORDER as nat);
        assert(U64FieldElement::<EDWARDS_FIELD_ORDER>::spec_mul(p.0, 0) == 0);
        assert(U64FieldElement::<EDWARDS_FIELD_ORDER>::spec_mul(p.1, 1) == p.1);
        assert(U64FieldElement::<EDWARDS_FIELD_ORDER>::spec_mul(0, p.1) == 0);
        assert(U64FieldElement::<EDWARDS_FIELD_ORDER>::spec_mul(EDWARDS_D as int, 0) == 0);
        assert(Self::spec_law_product(p, (0, 1)) == 0);
        assert(U64FieldElement::<EDWARDS_FIELD_ORDER>::spec_add(1, 0) == 1);
        assert(U64FieldElement::<EDWARDS_FIELD_ORDER>::spec_inv(1) == 1);
        assert(U64FieldElement::<EDWARDS_FIELD_ORDER>::spec_mul(p.0, 1) == p.0);
        assert(U64FieldElement::<EDWARDS_FIELD_ORDER>::spec_mul(p.1, 0) == 0);
        assert(Self::spec_edwards_sum(p, (0, 1)).0 == p.0);
        assert(U64FieldElement::<EDWARDS_FIELD_ORDER>::spec_sub(1, 0) == 1);
        assert(Self::spec_edwards_sum(p, (0, 1)).1 == p.1);
    }

    /// Law: the identity is a left identity of the Edwards law.
    pub proof fn lemma_neutral_left_identity(p: (int, int))
        requires
            0 <= p.0 < EDWARDS_FIELD_ORDER as int,
            0 <= p.1 < EDWARDS_FIELD_ORDER as int,
        ensures
            Self::spec_edwards_sum((0, 1), p) == p,
    {
        Self::lemma_pow_of_one((EDWARDS_FIELD_ORDER - 2) as nat);
        lemma_small_mod(1, EDWARDS_FIELD_ORDER as nat);
        lemma_small_mod(p.0 as nat, EDWARDS_FIELD_ORDER as nat);
        lemma_small_mod(p.1 as nat, EDWARDS_FIELD_ORDER as nat);
        assert(U64FieldElement::<EDWARDS_FIELD_ORDER>::spec_mul(0, p.0) == 0);
        assert(U64FieldElement::<EDWARDS_FIELD_ORDER>::spec_mul(1, p.1) == p.1);
        assert(U64FieldElement::<EDWARDS_FIELD_ORDER>::spec_mul(1, p.0) == p.0);
        assert(U64FieldElement::<EDWARDS_FIELD_ORDER>::spec_mul(0, p.1) == 0);
        assert(U64FieldElement::<EDWARDS_FIELD_ORDER>::spec_mul(EDWARDS_D as int, 0) == 0);
        assert(Self::spec_law_product((0, 1), p) == 0);
        assert(U64FieldElement::<EDWARDS_FIELD_ORDER>::spec_add(1, 0) == 1);
        assert(U64FieldElement::<EDWARDS_FIELD_ORDER>::spec_sub(1, 0) == 1);
        assert(U64FieldElement::<EDWARDS_FIELD_ORDER>::spec_inv(1) == 1);
        assert(U64FieldElement::<EDWARDS_FIELD_ORDER>::spec_add(0, p.0) == p.0);
        assert(U64FieldElement::<EDWARDS_FIELD_ORDER>::spec_mul(p.0, 1) == p.0);
        assert(U64FieldElement::<EDWARDS_FIELD_ORDER>::spec_mul(
            EDWARDS_A as int,
            U64FieldElement::<EDWARDS_FIELD_ORDER>::spec_mul(0, p.0),
        ) == 0);
        assert(U64FieldElement::<EDWARDS_FIELD_ORDER>::spec_sub(p.1, 0) == p.1);
        assert(U64FieldElement::<EDWARDS_FIELD_ORDER>::spec_mul(p.1, 1) == p.1);
        assert(Self::spec_edwards_sum((0, 1), p).0 == p.0);
        assert(Self::spec_edwards_sum((0, 1), p).1 == p.1);
    }
}

impl PartialEq for EdwardsPoint {
    /// Two affine points are equal exactly when both coordinates coincide.
    fn eq(&self, other: &Self) -> (r: bool) {
        self.x == other.x && self.y == other.y
    }
}

impl vstd::std_specs::cmp::PartialEqSpecImpl for EdwardsPoint {
    open spec fn obeys_eq_spec() -> bool {
        true
    }

    open spec fn eq_spec(&self, other: &Self) -> bool {
        self.spec_point() == other.spec_point()
    }
}

} // verus!
