//! Prime field with a Montgomery-reduced arithmetic backend.
//!
//! Values are stored in the Montgomery domain: the representative of `v`
//! is `v * R mod MODULUS` with `R = 2^64`. Multiplication then uses
//! Montgomery reduction — an exact division by `R` — instead of a modular
//! division. The backend is functionally equivalent to the plain backend:
//! every contract below speaks of the canonical value `repr * R^-1 mod
//! MODULUS` through the plain backend's own specification functions, so
//! the two backends provably produce identical canonical results.

use vstd::prelude::*;
use vstd::arithmetic::div_mod::{
    lemma_add_mod_noop, lemma_fundamental_div_mod, lemma_mod_add_multiples_vanish,
    lemma_mod_bound, lemma_mod_multiples_vanish, lemma_mod_self_0, lemma_mul_mod_noop,
    lemma_mul_mod_noop_general, lemma_multiply_divide_lt, lemma_small_mod, lemma_sub_mod_noop,
};
use vstd::arithmetic::mul::{
    lemma_mul_is_distributive_add_other_way, lemma_mul_is_distributive_sub_other_way,
    lemma_mul_upper_bound,
};
use vstd::arithmetic::power::{lemma_pow0, lemma_pow1, lemma_pow_adds, pow};

use crate::errors::ArithmeticError;
use crate::u64_prime_field::U64FieldElement;

verus! {

/// The field order of this Montgomery backend.
pub const MONTGOMERY_MODULUS: u64 = 2013265921;

/// `-MODULUS^-1 mod 2^64`, the reduction multiplier of the backend.
pub const MONTGOMERY_MP: u64 = 14393504411089371135;

/// `R^2 mod MODULUS`, used to carry a raw value into the Montgomery
/// domain.
pub const MONTGOMERY_R2: u64 = 663890614;

/// `R^-1 mod MODULUS`, the ghost witness that taking values out of the
/// Montgomery domain inverts putting them in.
pub const MONTGOMERY_R_INV: u64 = 1570897921;

/// The Montgomery radix `R = 2^64` as a mathematical integer.
pub open spec fn spec_radix() -> int {
    0x1_0000_0000_0000_0000
}

/// Configuration of the Montgomery backend: the modulus, the reduction
/// multiplier `MP` and the domain-entry constant `R^2`.
pub struct MontgomeryConfig;

impl MontgomeryConfig {
    /// The field order.
    pub fn modulus() -> (r: u64)
        ensures
            r == MONTGOMERY_MODULUS,
    {
        MONTGOMERY_MODULUS
    }

    /// The reduction multiplier `-MODULUS^-1 mod 2^64`.
    pub fn mp() -> (r: u64)
        ensures
            r == MONTGOMERY_MP,
    {
        MONTGOMERY_MP
    }

    /// The domain-entry constant `R^2 mod MODULUS`.
    pub fn r2() -> (r: u64)
        ensures
            r == MONTGOMERY_R2,
    {
        MONTGOMERY_R2
    }
}

/// An element of the prime field of order `MONTGOMERY_MODULUS`, stored as
/// its Montgomery-domain representative.
#[derive(Clone, Copy, Debug, Eq)]
pub struct MontgomeryFieldElement {
    value: u64,
}

impl MontgomeryFieldElement {
    /// The stored Montgomery-domain representative.
    pub closed spec fn spec_repr(self) -> int {
        self.value as int
    }

    /// The canonical value the element stands for: the representative
    /// taken out of the Montgomery domain.
    pub open spec fn spec_canonical(self) -> int {
        (self.spec_repr() * MONTGOMERY_R_INV) % (MONTGOMERY_MODULUS as int)
    }

    /// Well-formedness: the representative is reduced.
    pub open spec fn wf(self) -> bool {
        0 <= self.spec_repr() < MONTGOMERY_MODULUS as int
    }

    /// `MP * MODULUS == -1 mod R`, `R * R_INV == 1 mod MODULUS`, and the
    /// entry constant squares to the radix: the arithmetic facts the
    /// reduction relies on.
    proof fn lemma_constants()
        ensures
            (MONTGOMERY_MP as int * MONTGOMERY_MODULUS as int) % spec_radix() == spec_radix() - 1,
            (spec_radix() * MONTGOMERY_R_INV as int) % (MONTGOMERY_MODULUS as int) == 1,
            (MONTGOMERY_R2 as int * MONTGOMERY_R_INV as int * MONTGOMERY_R_INV as int) % (
            MONTGOMERY_MODULUS as int) == 1,
    {
        assert((MONTGOMERY_MP as int * MONTGOMERY_MODULUS as int) % spec_radix() == spec_radix()
            - 1);
        assert((spec_radix() * MONTGOMERY_R_INV as int) % (MONTGOMERY_MODULUS as int) == 1);
        assert((MONTGOMERY_R2 as int * MONTGOMERY_R_INV as int * MONTGOMERY_R_INV as int) % (
        MONTGOMERY_MODULUS as int) == 1);
    }

    /// Congruences scale: equal residues stay equal under a common factor.
    proof fn lemma_mul_congruent(a: int, b: int, c: int)
        requires
            a % (MONTGOMERY_MODULUS as int) == b % (MONTGOMERY_MODULUS as int),
        ensures
            (a * c) % (MONTGOMERY_MODULUS as int) == (b * c) % (MONTGOMERY_MODULUS as int),
    {
        let m = MONTGOMERY_MODULUS as int;
        lemma_mul_mod_noop_general(a, c, m);
        lemma_mul_mod_noop_general(b, c, m);
    }

    /// Montgomery reduction: an exact division by the radix in the residue
    /// ring. The result is reduced and satisfies `r * R == t mod MODULUS`.
    fn redc(t: u128) -> (r: u64)
        requires
            (t as int) < MONTGOMERY_MODULUS as int * spec_radix(),
        ensures
            r < MONTGOMERY_MODULUS,
            (r as int * spec_radix()) % (MONTGOMERY_MODULUS as int) == (t as int) % (
            MONTGOMERY_MODULUS as int),
    {
        proof {
            lemma_mod_bound(t as int, spec_radix());
        }
        let t_low: u64 = (t % 0x1_0000_0000_0000_0000u128) as u64;
        proof {
            lemma_mul_upper_bound(
                t_low as int,
                0xffff_ffff_ffff_ffff,
                MONTGOMERY_MP as int,
                0xffff_ffff_ffff_ffff,
            );
            lemma_mod_bound(
                (t_low as u128 * MONTGOMERY_MP as u128) as int,
                spec_radix(),
            );
        }
        let m128: u128 = (t_low as u128) * (MONTGOMERY_MP as u128);
        let m: u64 = (m128 % 0x1_0000_0000_0000_0000u128) as u64;
        proof {
            lemma_mul_upper_bound(
                m as int,
                0xffff_ffff_ffff_ffff,
                MONTGOMERY_MODULUS as int,
                MONTGOMERY_MODULUS as int,
            );
        }
        let m_p: u128 = (m as u128) * (MONTGOMERY_MODULUS as u128);
        let s: u128 = t + m_p;
        proof {
            let rad = spec_radix();
            let p = MONTGOMERY_MODULUS as int;
            let ti = t as int;
            let mi = m as int;
            Self::lemma_constants();
            // m == (t * MP) % R
            assert(t_low as int == ti % rad);
            assert(m128 as int == (t_low as int) * (MONTGOMERY_MP as int));
            assert(mi == ((ti % rad) * (MONTGOMERY_MP as int)) % rad);
            lemma_mul_mod_noop_general(ti % rad, MONTGOMERY_MP as int, rad);
            lemma_mul_mod_noop_general(ti, MONTGOMERY_MP as int, rad);
            assert(mi == (ti * MONTGOMERY_MP as int) % rad);
            // (m * p) % R == (-t) % R
            lemma_mul_mod_noop_general(ti * MONTGOMERY_MP as int, p, rad);
            assert((mi * p) % rad == (ti * MONTGOMERY_MP as int * p) % rad);
            assert(ti * MONTGOMERY_MP as int * p == ti * (MONTGOMERY_MP as int * p))
                by (nonlinear_arith);
            lemma_mul_mod_noop_general(MONTGOMERY_MP as int * p, ti, rad);
            assert((ti * (MONTGOMERY_MP as int * p)) % rad == (ti * (rad - 1)) % rad);
            assert(ti * (rad - 1) == rad * ti + (0 - ti)) by (nonlinear_arith);
            lemma_mod_multiples_vanish(ti, 0 - ti, rad);
            assert((mi * p) % rad == (0 - ti) % rad);
            // s % R == 0
            lemma_add_mod_noop(ti, mi * p, rad);
            lemma_fundamental_div_mod(ti, rad);
            lemma_mod_multiples_vanish(0 - (ti / rad), 0 - (ti % rad), rad);
            assert(0 - ti == rad * (0 - (ti / rad)) + (0 - (ti % rad)));
            assert((0 - ti) % rad == (0 - (ti % rad)) % rad);
            let tr = ti % rad;
            lemma_mod_bound(ti, rad);
            if tr == 0 {
                lemma_small_mod(0, rad as nat);
                assert((s as int) % rad == 0);
            } else {
                lemma_mod_add_multiples_vanish(0 - tr, rad);
                lemma_small_mod((rad - tr) as nat, rad as nat);
                assert((0 - tr) % rad == rad - tr);
                lemma_mod_self_0(rad);
                assert((s as int) % rad == (tr + (rad - tr)) % rad);
                assert((s as int) % rad == 0);
            }
        }
        let q: u128 = s / 0x1_0000_0000_0000_0000u128;
        proof {
            let rad = spec_radix();
            let p = MONTGOMERY_MODULUS as int;
            let si = s as int;
            lemma_fundamental_div_mod(si, rad);
            assert(si == rad * (si / rad));
            lemma_multiply_divide_lt(si, rad, 2 * p);
            assert((q as int) < 2 * p);
            // q * R == s == t + m * p, so q * R == t (mod p)
            let mi = m as int;
            let ti = t as int;
            assert(q as int * rad == ti + mi * p);
            lemma_mod_multiples_vanish(mi, ti, p);
            assert(p * mi == mi * p) by (nonlinear_arith);
            assert((q as int * rad) % p == ti % p);
        }
        if q >= MONTGOMERY_MODULUS as u128 {
            let r: u64 = (q - MONTGOMERY_MODULUS as u128) as u64;
            proof {
                let rad = spec_radix();
                let p = MONTGOMERY_MODULUS as int;
                lemma_mul_is_distributive_sub_other_way(rad, q as int, p);
                assert(r as int == q as int - p);
                assert(r as int * rad == q as int * rad - p * rad);
                lemma_mod_multiples_vanish(0 - rad, q as int * rad, p);
                assert(p * (0 - rad) == 0 - (p * rad)) by (nonlinear_arith);
                assert(r as int * rad == p * (0 - rad) + q as int * rad);
            }
            r
        } else {
            q as u64
        }
    }

    /// Builds the element whose canonical value is `value` reduced modulo
    /// the field order, by carrying it into the Montgomery domain.
    pub fn new(value: u64) -> (r: Self)
        ensures
            r.wf(),
            r.spec_canonical() == value as int % (MONTGOMERY_MODULUS as int),
    {
        proof {
            lemma_mul_upper_bound(
                value as int,
                0xffff_ffff_ffff_ffff,
                MONTGOMERY_R2 as int,
                MONTGOMERY_MODULUS as int - 1,
            );
        }
        let repr = Self::redc((value as u128) * (MONTGOMERY_R2 as u128));
        proof {
            let p = MONTGOMERY_MODULUS as int;
            let rad = spec_radix();
            let rinv = MONTGOMERY_R_INV as int;
            let vi = value as int;
            let ri = repr as int;
            Self::lemma_constants();
            Self::lemma_mul_congruent(ri * rad, vi * MONTGOMERY_R2 as int, rinv);
            Self::lemma_mul_congruent(ri * rad * rinv, vi * MONTGOMERY_R2 as int * rinv, rinv);
            assert(ri * rad * rinv * rinv == (ri * rinv) * (rad * rinv)) by (nonlinear_arith);
            lemma_mul_mod_noop_general(ri * rinv, rad * rinv, p);
            lemma_small_mod(1, MONTGOMERY_MODULUS as nat);
            lemma_mul_mod_noop_general(ri * rinv, 1, p);
            assert((ri * rad * rinv * rinv) % p == (ri * rinv) % p);
            assert(vi * MONTGOMERY_R2 as int * rinv * rinv == vi * (MONTGOMERY_R2 as int * rinv
                * rinv)) by (nonlinear_arith);
            lemma_mul_mod_noop_general(vi, MONTGOMERY_R2 as int * rinv * rinv, p);
            lemma_mul_mod_noop_general(vi, 1, p);
            assert((vi * MONTGOMERY_R2 as int * rinv * rinv) % p == vi % p);
        }
        Self { value: repr }
    }

    /// The canonical value, carried out of the Montgomery domain.
    pub fn representative(self) -> (r: u64)
        requires
            self.wf(),
        ensures
            r as int == self.spec_canonical(),
    {
        let out = Self::redc(self.value as u128);
        proof {
            let p = MONTGOMERY_MODULUS as int;
            let rad = spec_radix();
            let rinv = MONTGOMERY_R_INV as int;
            Self::lemma_constants();
            Self::lemma_mul_congruent(out as int * rad, self.spec_repr(), rinv);
            assert(out as int * rad * rinv == out as int * (rad * rinv)) by (nonlinear_arith);
            lemma_mul_mod_noop_general(out as int, rad * rinv, p);
            lemma_small_mod(1, MONTGOMERY_MODULUS as nat);
            lemma_mul_mod_noop_general(out as int, 1, p);
            lemma_small_mod(out as nat, MONTGOMERY_MODULUS as nat);
        }
        out
    }

    /// The additive identity.
    pub fn zero() -> (r: Self)
        ensures
            r.wf(),
            r.spec_canonical() == 0,
    {
        proof {
            lemma_small_mod(0, MONTGOMERY_MODULUS as nat);
        }
        Self { value: 0 }
    }

    /// The multiplicative identity.
    pub fn one() -> (r: Self)
        ensures
            r.wf(),
            r.spec_canonical() == 1,
    {
        let r = Self::new(1);
        proof {
            lemma_small_mod(1, MONTGOMERY_MODULUS as nat);
        }
        r
    }

    /// Field addition: the Montgomery domain is closed under addition, and
    /// the canonical values add exactly as in the plain backend.
    pub fn add(self, other: Self) -> (r: Self)
        requires
            self.wf(),
            other.wf(),
        ensures
            r.wf(),
            r.spec_canonical() == U64FieldElement::<MONTGOMERY_MODULUS>::spec_add(
                self.spec_canonical(),
                other.spec_canonical(),
            ),
    {
        let wide: u128 = self.value as u128 + other.value as u128;
        let reduced: u128 = wide % (MONTGOMERY_MODULUS as u128);
        proof {
            let p = MONTGOMERY_MODULUS as int;
            let rinv = MONTGOMERY_R_INV as int;
            let (a, b) = (self.spec_repr(), other.spec_repr());
            lemma_mod_bound(wide as int, p);
            lemma_mul_mod_noop_general(a + b, rinv, p);
            lemma_mul_is_distributive_add_other_way(rinv, a, b);
            lemma_add_mod_noop(a * rinv, b * rinv, p);
        }
        Self { value: reduced as u64 }
    }

    /// Field subtraction on canonical values, as in the plain backend.
    pub fn sub(self, other: Self) -> (r: Self)
        requires
            self.wf(),
            other.wf(),
        ensures
            r.wf(),
            r.spec_canonical() == U64FieldElement::<MONTGOMERY_MODULUS>::spec_sub(
                self.spec_canonical(),
                other.spec_canonical(),
            ),
    {
        let wide: u128 = self.value as u128 + MONTGOMERY_MODULUS as u128 - other.value as u128;
        let reduced: u128 = wide % (MONTGOMERY_MODULUS as u128);
        proof {
            let p = MONTGOMERY_MODULUS as int;
            let rinv = MONTGOMERY_R_INV as int;
            let (a, b) = (self.spec_repr(), other.spec_repr());
            lemma_mod_bound(wide as int, p);
            // (a + p - b) % p == (a - b) % p
            lemma_mod_add_multiples_vanish(a - b, p);
            // canonical: ((a - b) % p * rinv) % p == (a * rinv - b * rinv) % p
            lemma_mul_mod_noop_general(a + p - b, rinv, p);
            lemma_mul_mod_noop_general(a - b, rinv, p);
            assert((a + p - b) % p == (a - b) % p);
            lemma_mul_is_distributive_sub_other_way(rinv, a, b);
            lemma_sub_mod_noop(a * rinv, b * rinv, p);
        }
        Self { value: reduced as u64 }
    }

    /// Additive inverse on canonical values; the inverse of zero is zero.
    pub fn neg(self) -> (r: Self)
        requires
            self.wf(),
        ensures
            r.wf(),
            r.spec_canonical() == U64FieldElement::<MONTGOMERY_MODULUS>::spec_neg(
                self.spec_canonical(),
            ),
    {
        let r = Self::zero().sub(self);
        proof {
            let p = MONTGOMERY_MODULUS as int;
            lemma_mod_bound(self.spec_canonical(), p);
        }
        r
    }

    /// Field multiplication by Montgomery reduction of the double-width
    /// product; canonical values multiply as in the plain backend.
    pub fn mul(self, other: Self) -> (r: Self)
        requires
            self.wf(),
            other.wf(),
        ensures
            r.wf(),
            r.spec_canonical() == U64FieldElement::<MONTGOMERY_MODULUS>::spec_mul(
                self.spec_canonical(),
                other.spec_canonical(),
            ),
    {
        proof {
            lemma_mul_upper_bound(
                self.value as int,
                MONTGOMERY_MODULUS as int - 1,
                other.value as int,
                MONTGOMERY_MODULUS as int - 1,
            );
            assert(self.value as int * other.value as int <= (MONTGOMERY_MODULUS as int - 1) * (
            MONTGOMERY_MODULUS as int - 1));
            assert(2013265920int * 2013265920int < 2013265921int * 0x1_0000_0000_0000_0000int);
        }
        let repr = Self::redc((self.value as u128) * (other.value as u128));
        proof {
            let p = MONTGOMERY_MODULUS as int;
            let rad = spec_radix();
            let rinv = MONTGOMERY_R_INV as int;
            let (a, b) = (self.spec_repr(), other.spec_repr());
            let ri = repr as int;
            Self::lemma_constants();
            Self::lemma_mul_congruent(ri * rad, a * b, rinv);
            Self::lemma_mul_congruent(ri * rad * rinv, a * b * rinv, rinv);
            assert(ri * rad * rinv * rinv == (ri * rinv) * (rad * rinv)) by (nonlinear_arith);
            lemma_mul_mod_noop_general(ri * rinv, rad * rinv, p);
            lemma_small_mod(1, MONTGOMERY_MODULUS as nat);
            lemma_mul_mod_noop_general(ri * rinv, 1, p);
            assert((ri * rad * rinv * rinv) % p == (ri * rinv) % p);
            assert(a * b * rinv * rinv == (a * rinv) * (b * rinv)) by (nonlinear_arith);
            lemma_mul_mod_noop(a * rinv, b * rinv, p);
        }
        Self { value: repr }
    }

    /// Exponentiation by binary square-and-multiply on canonical values.
    pub fn pow(self, exp: u128) -> (r: Self)
        requires
            self.wf(),
        ensures
            r.wf(),
            r.spec_canonical() == U64FieldElement::<MONTGOMERY_MODULUS>::spec_pow(
                self.spec_canonical(),
                exp as nat,
            ),
        decreases exp,
    {
        if exp == 0 {
            let r = Self::one();
            proof {
                lemma_small_mod(1, MONTGOMERY_MODULUS as nat);
                lemma_pow0(self.spec_canonical());
            }
            r
        } else {
            let half = self.pow(exp / 2);
            let squared = half.mul(half);
            proof {
                let a = self.spec_canonical();
                let m = MONTGOMERY_MODULUS as int;
                let h = (exp / 2) as nat;
                lemma_mul_mod_noop(pow(a, h), pow(a, h), m);
                lemma_pow_adds(a, h, h);
                assert(squared.spec_canonical() == pow(a, (h + h) as nat) % m);
            }
            if exp % 2 == 1 {
                let r = squared.mul(self);
                proof {
                    let a = self.spec_canonical();
                    let m = MONTGOMERY_MODULUS as int;
                    let h = (exp / 2) as nat;
                    lemma_mod_bound(a, m);
                    lemma_small_mod(a as nat, MONTGOMERY_MODULUS as nat);
                    lemma_mul_mod_noop_general(pow(a, (h + h) as nat), a, m);
                    lemma_pow1(a);
                    lemma_pow_adds(a, (h + h) as nat, 1);
                    assert(r.spec_canonical() == pow(a, (h + h + 1) as nat) % m);
                    assert(h + h + 1 == exp as nat);
                }
                r
            } else {
                proof {
                    assert((exp / 2) as nat + (exp / 2) as nat == exp as nat);
                }
                squared
            }
        }
    }

    /// Equal canonical values force equal representatives: leaving the
    /// Montgomery domain is injective.
    proof fn lemma_canonical_injective(a: Self, b: Self)
        requires
            a.wf(),
            b.wf(),
            a.spec_canonical() == b.spec_canonical(),
        ensures
            a.spec_repr() == b.spec_repr(),
    {
        let p = MONTGOMERY_MODULUS as int;
        let rad = spec_radix();
        let rinv = MONTGOMERY_R_INV as int;
        let (x, y) = (a.spec_repr(), b.spec_repr());
        Self::lemma_constants();
        lemma_mul_mod_noop_general(x * rinv, rad, p);
        lemma_mul_mod_noop_general(y * rinv, rad, p);
        assert(x * rinv * rad == x * (rad * rinv)) by (nonlinear_arith);
        assert(y * rinv * rad == y * (rad * rinv)) by (nonlinear_arith);
        lemma_mul_mod_noop_general(x, rad * rinv, p);
        lemma_mul_mod_noop_general(y, rad * rinv, p);
        lemma_small_mod(1, MONTGOMERY_MODULUS as nat);
        lemma_mul_mod_noop_general(x, 1, p);
        lemma_mul_mod_noop_general(y, 1, p);
        lemma_small_mod(x as nat, MONTGOMERY_MODULUS as nat);
        lemma_small_mod(y as nat, MONTGOMERY_MODULUS as nat);
    }

    /// Multiplicative inverse, computed as exponentiation to `MODULUS - 2`
    /// in the Montgomery domain; inverting zero is reported as a division
    /// by zero.
    pub fn inv(self) -> (r: Result<Self, ArithmeticError>)
        requires
            self.wf(),
        ensures
            match r {
                Ok(v) => self.spec_canonical() != 0 && v.wf() && v.spec_canonical()
                    == U64FieldElement::<MONTGOMERY_MODULUS>::spec_inv(self.spec_canonical()),
                Err(e) => self.spec_canonical() == 0 && e == ArithmeticError::DivisionByZero,
            },
    {
        if self.value == 0 {
            proof {
                lemma_small_mod(0, MONTGOMERY_MODULUS as nat);
            }
            Err(ArithmeticError::DivisionByZero)
        } else {
            proof {
                if self.spec_canonical() == 0 {
                    Self::lemma_canonical_injective(self, Self { value: 0 });
                    lemma_small_mod(0, MONTGOMERY_MODULUS as nat);
                }
            }
            Ok(self.pow((MONTGOMERY_MODULUS - 2) as u128))
        }
    }

    /// Field division: multiplication by the inverse of the divisor, which
    /// must not be zero.
    pub fn div(self, other: Self) -> (r: Result<Self, ArithmeticError>)
        requires
            self.wf(),
            other.wf(),
        ensures
            match r {
                Ok(v) => other.spec_canonical() != 0 && v.wf() && v.spec_canonical()
                    == U64FieldElement::<MONTGOMERY_MODULUS>::spec_mul(
                    self.spec_canonical(),
                    U64FieldElement::<MONTGOMERY_MODULUS>::spec_inv(other.spec_canonical()),
                ),
                Err(e) => other.spec_canonical() == 0 && e == ArithmeticError::DivisionByZero,
            },
    {
        match other.inv() {
            Ok(i) => Ok(self.mul(i)),
            Err(e) => Err(e),
        }
    }

    /// Law: the two backends agree. Both construct the same canonical value
    /// from the same raw input, and every operation's contract above is
    /// stated through the plain backend's specification functions on
    /// canonical values, so equal canonical inputs give equal canonical
    /// outputs across backends, operation by operation.
    pub proof fn lemma_cross_equivalence(a: Self, b: Self, x: U64FieldElement<
        MONTGOMERY_MODULUS,
    >, y: U64FieldElement<MONTGOMERY_MODULUS>)
        requires
            a.wf(),
            b.wf(),
            x.wf(),
            y.wf(),
            a.spec_canonical() == x.spec_value(),
            b.spec_canonical() == y.spec_value(),
        ensures
            U64FieldElement::<MONTGOMERY_MODULUS>::spec_add(a.spec_canonical(), b.spec_canonical())
                == U64FieldElement::<MONTGOMERY_MODULUS>::spec_add(x.spec_value(), y.spec_value()),
            U64FieldElement::<MONTGOMERY_MODULUS>::spec_mul(a.spec_canonical(), b.spec_canonical())
                == U64FieldElement::<MONTGOMERY_MODULUS>::spec_mul(x.spec_value(), y.spec_value()),
            U64FieldElement::<MONTGOMERY_MODULUS>::spec_sub(a.spec_canonical(), b.spec_canonical())
                == U64FieldElement::<MONTGOMERY_MODULUS>::spec_sub(x.spec_value(), y.spec_value()),
            U64FieldElement::<MONTGOMERY_MODULUS>::spec_inv(a.spec_canonical())
                == U64FieldElement::<MONTGOMERY_MODULUS>::spec_inv(x.spec_value()),
    {
    }
}

impl PartialEq for MontgomeryFieldElement {
    /// Two elements are equal exactly when their canonical values
    /// coincide, which for reduced representatives is representative
    /// equality.
    fn eq(&self, other: &Self) -> (r: bool) {
        proof {
            if self.wf() && other.wf() && self.spec_canonical() == other.spec_canonical() {
                MontgomeryFieldElement::lemma_canonical_injective(*self, *other);
            }
        }
        self.value == other.value
    }
}

impl vstd::std_specs::cmp::PartialEqSpecImpl for MontgomeryFieldElement {
    open spec fn obeys_eq_spec() -> bool {
        true
    }

    open spec fn eq_spec(&self, other: &Self) -> bool {
        if self.wf() && other.wf() {
            self.spec_canonical() == other.spec_canonical()
        } else {
            self.spec_repr() == other.spec_repr()
        }
    }
}

} // verus!
