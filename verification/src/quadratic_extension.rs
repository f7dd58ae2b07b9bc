//! Quadratic extension field over a prime field.
//!
//! The extension adjoins a square root `i` of the non-residue `-1`, so an
//! element is `re + im * i` with both components in the base field; for a
//! base order congruent to 3 modulo 4, `-1` is a quadratic non-residue and
//! the construction yields a field. Arithmetic is the familiar complex
//! arithmetic with components reduced modulo the base order.

use vstd::prelude::*;
use vstd::arithmetic::div_mod::{
    lemma_add_mod_noop, lemma_mod_bound, lemma_mul_mod_noop_general, lemma_small_mod,
    lemma_sub_mod_noop,
};
use vstd::arithmetic::mul::{
    lemma_mul_is_associative, lemma_mul_is_distributive_add,
    lemma_mul_is_distributive_add_other_way, lemma_mul_is_distributive_sub,
    lemma_mul_is_distributive_sub_other_way,
};

use crate::errors::ArithmeticError;
use crate::u64_prime_field::U64FieldElement;

verus! {

/// An element `re + im * i` of the quadratic extension, `i * i == -1`.
#[derive(Clone, Copy, Debug, Eq)]
pub struct QuadraticExtensionFieldElement<const ORDER: u64> {
    re: U64FieldElement<ORDER>,
    im: U64FieldElement<ORDER>,
}

impl<const ORDER: u64> QuadraticExtensionFieldElement<ORDER> {
    /// The pair of canonical component representatives.
    pub closed spec fn spec_pair(self) -> (int, int) {
        (self.re.spec_value(), self.im.spec_value())
    }

    /// Well-formedness: both components are reduced.
    pub open spec fn wf(self) -> bool {
        ORDER > 1 && Self::pair_wf(self.spec_pair())
    }

    /// A pair of reduced residues.
    pub open spec fn pair_wf(a: (int, int)) -> bool {
        ORDER > 1 && 0 <= a.0 < ORDER as int && 0 <= a.1 < ORDER as int
    }

    /// Componentwise sum, reduced.
    pub open spec fn qadd(a: (int, int), b: (int, int)) -> (int, int) {
        ((a.0 + b.0) % (ORDER as int), (a.1 + b.1) % (ORDER as int))
    }

    /// Componentwise difference, reduced.
    pub open spec fn qsub(a: (int, int), b: (int, int)) -> (int, int) {
        ((a.0 - b.0) % (ORDER as int), (a.1 - b.1) % (ORDER as int))
    }

    /// Componentwise additive inverse, reduced.
    pub open spec fn qneg(a: (int, int)) -> (int, int) {
        ((0 - a.0) % (ORDER as int), (0 - a.1) % (ORDER as int))
    }

    /// Product under `i * i == -1`:
    /// `(a.0 + a.1 i)(b.0 + b.1 i) == (a.0 b.0 - a.1 b.1) + (a.0 b.1 + a.1 b.0) i`.
    pub open spec fn qmul(a: (int, int), b: (int, int)) -> (int, int) {
        (
            (a.0 * b.0 - a.1 * b.1) % (ORDER as int),
            (a.0 * b.1 + a.1 * b.0) % (ORDER as int),
        )
    }

    /// The norm `re * re + im * im`, reduced; an element is invertible
    /// exactly when its norm is invertible in the base field.
    pub open spec fn qnorm(a: (int, int)) -> int {
        (a.0 * a.0 + a.1 * a.1) % (ORDER as int)
    }

    /// Multiplicative inverse by the conjugate rule:
    /// `(re + im i)^-1 == (re - im i) / (re * re + im * im)`.
    pub open spec fn qinv(a: (int, int)) -> (int, int) {
        (
            (a.0 * U64FieldElement::<ORDER>::spec_inv(Self::qnorm(a))) % (ORDER as int),
            (((0 - a.1) % (ORDER as int)) * U64FieldElement::<ORDER>::spec_inv(Self::qnorm(a)))
                % (ORDER as int),
        )
    }

    /// Iterated product: `qpow(a, e)` is the product of `e` copies of `a`.
    pub open spec fn qpow(a: (int, int), e: nat) -> (int, int)
        decreases e,
    {
        if e == 0 {
            (1, 0)
        } else {
            Self::qmul(a, Self::qpow(a, (e - 1) as nat))
        }
    }

    /// Builds the element with the two given components, real part first.
    pub fn new(value: [U64FieldElement<ORDER>; 2]) -> (r: Self)
        requires
            value[0].wf(),
            value[1].wf(),
        ensures
            r.wf(),
            r.spec_pair() == (value[0].spec_value(), value[1].spec_value()),
    {
        Self { re: value[0], im: value[1] }
    }

    /// Embeds a base-field value, reduced, as the real component.
    pub fn from(value: u64) -> (r: Self)
        requires
            ORDER > 1,
        ensures
            r.wf(),
            r.spec_pair() == (value as int % (ORDER as int), 0int),
    {
        Self { re: U64FieldElement::new(value), im: U64FieldElement::zero() }
    }

    /// The additive identity.
    pub fn zero() -> (r: Self)
        requires
            ORDER > 1,
        ensures
            r.wf(),
            r.spec_pair() == (0int, 0int),
    {
        Self { re: U64FieldElement::zero(), im: U64FieldElement::zero() }
    }

    /// The multiplicative identity.
    pub fn one() -> (r: Self)
        requires
            ORDER > 1,
        ensures
            r.wf(),
            r.spec_pair() == (1int, 0int),
    {
        Self { re: U64FieldElement::one(), im: U64FieldElement::zero() }
    }

    /// Whether both stored components are reduced; total, for callers that
    /// hold an element of unknown provenance.
    pub fn is_reduced(self) -> (r: bool)
        ensures
            r == self.wf(),
    {
        self.re.is_reduced() && self.im.is_reduced()
    }

    /// Field addition, componentwise.
    pub fn add(self, other: Self) -> (r: Self)
        requires
            self.wf(),
            other.wf(),
        ensures
            r.wf(),
            r.spec_pair() == Self::qadd(self.spec_pair(), other.spec_pair()),
    {
        Self { re: self.re.add(other.re), im: self.im.add(other.im) }
    }

    /// Field subtraction, componentwise.
    pub fn sub(self, other: Self) -> (r: Self)
        requires
            self.wf(),
            other.wf(),
        ensures
            r.wf(),
            r.spec_pair() == Self::qsub(self.spec_pair(), other.spec_pair()),
    {
        Self { re: self.re.sub(other.re), im: self.im.sub(other.im) }
    }

    /// Additive inverse, componentwise.
    pub fn neg(self) -> (r: Self)
        requires
            self.wf(),
        ensures
            r.wf(),
            r.spec_pair() == Self::qneg(self.spec_pair()),
    {
        Self { re: self.re.neg(), im: self.im.neg() }
    }

    /// Field multiplication under `i * i == -1`.
    pub fn mul(self, other: Self) -> (r: Self)
        requires
            self.wf(),
            other.wf(),
        ensures
            r.wf(),
            r.spec_pair() == Self::qmul(self.spec_pair(), other.spec_pair()),
    {
        let re = self.re.mul(other.re).sub(self.im.mul(other.im));
        let im = self.re.mul(other.im).add(self.im.mul(other.re));
        proof {
            let (x0, x1) = self.spec_pair();
            let (y0, y1) = other.spec_pair();
            let m = ORDER as int;
            lemma_sub_mod_noop(x0 * y0, x1 * y1, m);
            lemma_add_mod_noop(x0 * y1, x1 * y0, m);
        }
        Self { re, im }
    }

    /// Multiplicative inverse by the conjugate rule; an element whose norm
    /// is zero — in particular zero itself — is reported as a division by
    /// zero.
    pub fn inv(self) -> (r: Result<Self, ArithmeticError>)
        requires
            self.wf(),
        ensures
            match r {
                Ok(v) => Self::qnorm(self.spec_pair()) != 0 && v.wf() && v.spec_pair()
                    == Self::qinv(self.spec_pair()),
                Err(e) => Self::qnorm(self.spec_pair()) == 0 && e
                    == ArithmeticError::DivisionByZero,
            },
    {
        let norm = self.re.mul(self.re).add(self.im.mul(self.im));
        proof {
            let (x0, x1) = self.spec_pair();
            let m = ORDER as int;
            lemma_add_mod_noop(x0 * x0, x1 * x1, m);
        }
        match norm.inv() {
            Ok(norm_inv) => Ok(
                Self { re: self.re.mul(norm_inv), im: self.im.neg().mul(norm_inv) },
            ),
            Err(e) => Err(e),
        }
    }

    /// Field division: multiplication by the inverse of the divisor, whose
    /// norm must not be zero.
    pub fn div(self, other: Self) -> (r: Result<Self, ArithmeticError>)
        requires
            self.wf(),
            other.wf(),
        ensures
            match r {
                Ok(v) => Self::qnorm(other.spec_pair()) != 0 && v.wf() && v.spec_pair()
                    == Self::qmul(self.spec_pair(), Self::qinv(other.spec_pair())),
                Err(e) => Self::qnorm(other.spec_pair()) == 0 && e
                    == ArithmeticError::DivisionByZero,
            },
    {
        match other.inv() {
            Ok(i) => Ok(self.mul(i)),
            Err(e) => Err(e),
        }
    }
}

impl<const ORDER: u64> QuadraticExtensionFieldElement<ORDER> {
    /// Law: extension multiplication is commutative.
    pub proof fn lemma_qmul_commutative(a: (int, int), b: (int, int))
        requires
            ORDER > 1,
        ensures
            Self::qmul(a, b) == Self::qmul(b, a),
    {
        assert(a.0 * b.0 - a.1 * b.1 == b.0 * a.0 - b.1 * a.1) by (nonlinear_arith);
        assert(a.0 * b.1 + a.1 * b.0 == b.0 * a.1 + b.1 * a.0) by (nonlinear_arith);
    }

    /// Every product has reduced components.
    pub proof fn lemma_qmul_wf(a: (int, int), b: (int, int))
        requires
            ORDER > 1,
        ensures
            Self::pair_wf(Self::qmul(a, b)),
    {
        let m = ORDER as int;
        lemma_mod_bound(a.0 * b.0 - a.1 * b.1, m);
        lemma_mod_bound(a.0 * b.1 + a.1 * b.0, m);
    }

    /// Law: extension multiplication is associative.
    pub proof fn lemma_qmul_associative(a: (int, int), b: (int, int), c: (int, int))
        requires
            ORDER > 1,
        ensures
            Self::qmul(Self::qmul(a, b), c) == Self::qmul(a, Self::qmul(b, c)),
    {
        let m = ORDER as int;
        let x = a.0 * b.0 - a.1 * b.1;
        let y = a.0 * b.1 + a.1 * b.0;
        let u = b.0 * c.0 - b.1 * c.1;
        let v = b.0 * c.1 + b.1 * c.0;
        lemma_sub_mod_noop((x % m) * c.0, (y % m) * c.1, m);
        lemma_mul_mod_noop_general(x, c.0, m);
        lemma_mul_mod_noop_general(y, c.1, m);
        lemma_sub_mod_noop(x * c.0, y * c.1, m);
        assert(Self::qmul(Self::qmul(a, b), c).0 == (x * c.0 - y * c.1) % m);
        lemma_add_mod_noop((x % m) * c.1, (y % m) * c.0, m);
        lemma_mul_mod_noop_general(x, c.1, m);
        lemma_mul_mod_noop_general(y, c.0, m);
        lemma_add_mod_noop(x * c.1, y * c.0, m);
        assert(Self::qmul(Self::qmul(a, b), c).1 == (x * c.1 + y * c.0) % m);
        lemma_sub_mod_noop(a.0 * (u % m), a.1 * (v % m), m);
        lemma_mul_mod_noop_general(a.0, u, m);
        lemma_mul_mod_noop_general(a.1, v, m);
        lemma_sub_mod_noop(a.0 * u, a.1 * v, m);
        assert(Self::qmul(a, Self::qmul(b, c)).0 == (a.0 * u - a.1 * v) % m);
        lemma_add_mod_noop(a.0 * (v % m), a.1 * (u % m), m);
        lemma_mul_mod_noop_general(a.0, v, m);
        lemma_mul_mod_noop_general(a.1, u, m);
        lemma_add_mod_noop(a.0 * v, a.1 * u, m);
        assert(Self::qmul(a, Self::qmul(b, c)).1 == (a.0 * v + a.1 * u) % m);
        lemma_mul_is_distributive_sub_other_way(c.0, a.0 * b.0, a.1 * b.1);
        lemma_mul_is_distributive_add_other_way(c.1, a.0 * b.1, a.1 * b.0);
        lemma_mul_is_distributive_sub_other_way(c.1, a.0 * b.0, a.1 * b.1);
        lemma_mul_is_distributive_add_other_way(c.0, a.0 * b.1, a.1 * b.0);
        lemma_mul_is_distributive_sub(a.0, b.0 * c.0, b.1 * c.1);
        lemma_mul_is_distributive_add(a.1, b.0 * c.1, b.1 * c.0);
        lemma_mul_is_distributive_add(a.0, b.0 * c.1, b.1 * c.0);
        lemma_mul_is_distributive_sub(a.1, b.0 * c.0, b.1 * c.1);
        lemma_mul_is_associative(a.0, b.0, c.0);
        lemma_mul_is_associative(a.0, b.0, c.1);
        lemma_mul_is_associative(a.0, b.1, c.0);
        lemma_mul_is_associative(a.0, b.1, c.1);
        lemma_mul_is_associative(a.1, b.0, c.0);
        lemma_mul_is_associative(a.1, b.0, c.1);
        lemma_mul_is_associative(a.1, b.1, c.0);
        lemma_mul_is_associative(a.1, b.1, c.1);
    }

    /// Law: one is the multiplicative identity of the extension.
    pub proof fn lemma_qmul_one(a: (int, int))
        requires
            Self::pair_wf(a),
        ensures
            Self::qmul((1, 0), a) == a,
            Self::qmul(a, (1, 0)) == a,
    {
        lemma_small_mod(a.0 as nat, ORDER as nat);
        lemma_small_mod(a.1 as nat, ORDER as nat);
        Self::lemma_qmul_commutative(a, (1, 0));
    }

    /// Every iterated product has reduced components.
    pub proof fn lemma_qpow_wf(a: (int, int), e: nat)
        requires
            ORDER > 1,
        ensures
            Self::pair_wf(Self::qpow(a, e)),
        decreases e,
    {
        if e == 0 {
            lemma_small_mod(1, ORDER as nat);
        } else {
            Self::lemma_qpow_wf(a, (e - 1) as nat);
            Self::lemma_qmul_wf(a, Self::qpow(a, (e - 1) as nat));
        }
    }

    /// Law: iterated products compose additively in the exponent.
    pub proof fn lemma_qpow_adds(a: (int, int), e1: nat, e2: nat)
        requires
            ORDER > 1,
        ensures
            Self::qpow(a, e1 + e2) == Self::qmul(Self::qpow(a, e1), Self::qpow(a, e2)),
        decreases e1,
    {
        if e1 == 0 {
            Self::lemma_qpow_wf(a, e2);
            Self::lemma_qmul_one(Self::qpow(a, e2));
        } else {
            Self::lemma_qpow_adds(a, (e1 - 1) as nat, e2);
            assert(Self::qpow(a, (e1 + e2) as nat) == Self::qmul(
                a,
                Self::qmul(Self::qpow(a, (e1 - 1) as nat), Self::qpow(a, e2)),
            ));
            Self::lemma_qmul_associative(a, Self::qpow(a, (e1 - 1) as nat), Self::qpow(a, e2));
        }
    }

    /// Exponentiation by binary square-and-multiply over the bits of the
    /// exponent.
    pub fn pow(self, exp: u128) -> (r: Self)
        requires
            self.wf(),
        ensures
            r.wf(),
            r.spec_pair() == Self::qpow(self.spec_pair(), exp as nat),
        decreases exp,
    {
        if exp == 0 {
            let r = Self::one();
            proof {
                lemma_small_mod(1, ORDER as nat);
            }
            r
        } else {
            let half = self.pow(exp / 2);
            let squared = half.mul(half);
            proof {
                let a = self.spec_pair();
                let h = (exp / 2) as nat;
                Self::lemma_qpow_adds(a, h, h);
                assert(squared.spec_pair() == Self::qpow(a, (h + h) as nat));
            }
            if exp % 2 == 1 {
                let r = squared.mul(self);
                proof {
                    let a = self.spec_pair();
                    let h = (exp / 2) as nat;
                    Self::lemma_qpow_adds(a, (h + h) as nat, 1);
                    Self::lemma_qpow_wf(a, (h + h) as nat);
                    Self::lemma_qmul_one(a);
                    Self::lemma_qmul_commutative(Self::qpow(a, (h + h) as nat), a);
                    assert(Self::qpow(a, 1) == Self::qmul(a, Self::qpow(a, 0)));
                    Self::lemma_qmul_commutative(a, (1, 0));
                    assert(h + h + 1 == exp as nat);
                }
                r
            } else {
                proof {
                    assert((exp / 2) as nat + (exp / 2) as nat == exp as nat);
                }
                squared
            }
        }
    }
}

impl<const ORDER: u64> PartialEq for QuadraticExtensionFieldElement<ORDER> {
    /// Two elements are equal exactly when both canonical components
    /// coincide.
    fn eq(&self, other: &Self) -> (r: bool) {
        self.re == other.re && self.im == other.im
    }
}

impl<const ORDER: u64> vstd::std_specs::cmp::PartialEqSpecImpl
    for QuadraticExtensionFieldElement<ORDER> {
    open spec fn obeys_eq_spec() -> bool {
        true
    }

    open spec fn eq_spec(&self, other: &Self) -> bool {
        self.spec_pair() == other.spec_pair()
    }
}

} // verus!
