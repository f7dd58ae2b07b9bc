//! Prime field with a plain (naive) modular-arithmetic backend.
//!
//! `U64FieldElement<ORDER>` stores the canonical reduced representative of
//! a residue class modulo `ORDER`. Every operation reduces through a
//! double-width (`u128`) intermediate, so no computation overflows.

use vstd::prelude::*;
use vstd::arithmetic::div_mod::{
    lemma_add_mod_noop, lemma_add_mod_noop_right, lemma_mod_add_multiples_vanish, lemma_mod_bound,
    lemma_mod_self_0, lemma_mul_mod_noop, lemma_mul_mod_noop_general, lemma_small_mod,
    lemma_sub_mod_noop,
};
use vstd::arithmetic::mul::{
    lemma_mul_is_associative, lemma_mul_is_commutative, lemma_mul_is_distributive_add,
    lemma_mul_upper_bound,
};
use vstd::arithmetic::power::{lemma_pow0, lemma_pow1, lemma_pow_adds, pow};

use crate::errors::ArithmeticError;

verus! {

/// An element of the prime field of the given order, held as its canonical
/// reduced representative.
#[derive(Clone, Copy, Debug, Eq)]
pub struct U64FieldElement<const ORDER: u64> {
    value: u64,
}

impl<const ORDER: u64> U64FieldElement<ORDER> {
    /// The canonical representative as a mathematical integer.
    pub closed spec fn spec_value(self) -> int {
        self.value as int
    }

    /// Well-formedness: the representative is reduced and the order admits
    /// a multiplicative identity distinct from zero.
    pub open spec fn wf(self) -> bool {
        ORDER > 1 && 0 <= self.spec_value() < ORDER as int
    }

    /// Sum of two residues, reduced.
    pub open spec fn spec_add(a: int, b: int) -> int {
        (a + b) % (ORDER as int)
    }

    /// Difference of two residues, reduced.
    pub open spec fn spec_sub(a: int, b: int) -> int {
        (a - b) % (ORDER as int)
    }

    /// Additive inverse of a residue, reduced.
    pub open spec fn spec_neg(a: int) -> int {
        (0 - a) % (ORDER as int)
    }

    /// Product of two residues, reduced.
    pub open spec fn spec_mul(a: int, b: int) -> int {
        (a * b) % (ORDER as int)
    }

    /// Exponentiation of a residue, reduced.
    pub open spec fn spec_pow(a: int, e: nat) -> int {
        pow(a, e) % (ORDER as int)
    }

    /// Multiplicative inverse by Fermat's little theorem: exponentiation to
    /// `ORDER - 2`. When `ORDER` is prime this is the field inverse.
    pub open spec fn spec_inv(a: int) -> int {
        Self::spec_pow(a, (ORDER - 2) as nat)
    }

    /// Builds the element whose canonical representative is `value` reduced
    /// modulo the field order.
    pub fn new(value: u64) -> (r: Self)
        requires
            ORDER > 1,
        ensures
            r.wf(),
            r.spec_value() == value as int % (ORDER as int),
    {
        Self { value: value % ORDER }
    }

    /// The additive identity.
    pub fn zero() -> (r: Self)
        requires
            ORDER > 1,
        ensures
            r.wf(),
            r.spec_value() == 0,
    {
        Self { value: 0 }
    }

    /// The multiplicative identity.
    pub fn one() -> (r: Self)
        requires
            ORDER > 1,
        ensures
            r.wf(),
            r.spec_value() == 1,
    {
        Self { value: 1 }
    }

    /// Whether the stored representative is reduced; total, for callers
    /// that hold an element of unknown provenance.
    pub fn is_reduced(self) -> (r: bool)
        ensures
            r == self.wf(),
    {
        ORDER > 1 && self.value < ORDER
    }

    /// The canonical representative.
    pub fn value(self) -> (r: u64)
        ensures
            r as int == self.spec_value(),
    {
        self.value
    }

    /// Field addition.
    pub fn add(self, other: Self) -> (r: Self)
        requires
            self.wf(),
            other.wf(),
        ensures
            r.wf(),
            r.spec_value() == Self::spec_add(self.spec_value(), other.spec_value()),
    {
        let wide: u128 = self.value as u128 + other.value as u128;
        let reduced: u128 = wide % (ORDER as u128);
        proof {
            lemma_mod_bound(wide as int, ORDER as int);
        }
        Self { value: reduced as u64 }
    }

    /// Field subtraction.
    pub fn sub(self, other: Self) -> (r: Self)
        requires
            self.wf(),
            other.wf(),
        ensures
            r.wf(),
            r.spec_value() == Self::spec_sub(self.spec_value(), other.spec_value()),
    {
        let wide: u128 = self.value as u128 + ORDER as u128 - other.value as u128;
        let reduced: u128 = wide % (ORDER as u128);
        proof {
            lemma_mod_bound(wide as int, ORDER as int);
            lemma_sub_mod_noop(
                self.spec_value() + ORDER as int,
                other.spec_value(),
                ORDER as int,
            );
            lemma_add_mod_noop(self.spec_value(), ORDER as int, ORDER as int);
            lemma_mod_self_0(ORDER as int);
            lemma_small_mod(self.value as nat, ORDER as nat);
            lemma_sub_mod_noop(self.spec_value(), other.spec_value(), ORDER as int);
        }
        Self { value: reduced as u64 }
    }

    /// Additive inverse; the inverse of zero is zero itself, keeping the
    /// result canonical.
    pub fn neg(self) -> (r: Self)
        requires
            self.wf(),
        ensures
            r.wf(),
            r.spec_value() == Self::spec_neg(self.spec_value()),
    {
        if self.value == 0 {
            proof {
                lemma_small_mod(0, ORDER as nat);
            }
            Self { value: 0 }
        } else {
            proof {
                lemma_mod_add_multiples_vanish(0 - self.spec_value(), ORDER as int);
                lemma_small_mod((ORDER - self.value) as nat, ORDER as nat);
            }
            Self { value: ORDER - self.value }
        }
    }

    /// Field multiplication through a double-width intermediate.
    pub fn mul(self, other: Self) -> (r: Self)
        requires
            self.wf(),
            other.wf(),
        ensures
            r.wf(),
            r.spec_value() == Self::spec_mul(self.spec_value(), other.spec_value()),
    {
        proof {
            lemma_mul_upper_bound(
                self.value as int,
                0xffff_ffff_ffff_ffff,
                other.value as int,
                0xffff_ffff_ffff_ffff,
            );
        }
        let wide: u128 = self.value as u128 * other.value as u128;
        let reduced: u128 = wide % (ORDER as u128);
        proof {
            lemma_mod_bound(wide as int, ORDER as int);
        }
        Self { value: reduced as u64 }
    }

    /// Exponentiation by binary square-and-multiply over the bits of the
    /// exponent.
    pub fn pow(self, exp: u128) -> (r: Self)
        requires
            self.wf(),
        ensures
            r.wf(),
            r.spec_value() == Self::spec_pow(self.spec_value(), exp as nat),
        decreases exp,
    {
        if exp == 0 {
            let r = Self::one();
            proof {
                lemma_small_mod(1, ORDER as nat);
                lemma_pow0(self.spec_value());
                assert(r.spec_value() == Self::spec_pow(self.spec_value(), exp as nat));
            }
            r
        } else {
            let half = self.pow(exp / 2);
            let squared = half.mul(half);
            proof {
                let a = self.spec_value();
                let m = ORDER as int;
                let h = (exp / 2) as nat;
                assert(half.spec_value() == pow(a, h) % m);
                lemma_mul_mod_noop(pow(a, h), pow(a, h), m);
                lemma_pow_adds(a, h, h);
                assert(squared.spec_value() == pow(a, (h + h) as nat) % m);
            }
            if exp % 2 == 1 {
                let r = squared.mul(self);
                proof {
                    let a = self.spec_value();
                    let m = ORDER as int;
                    let h = (exp / 2) as nat;
                    lemma_mul_mod_noop_general(pow(a, (h + h) as nat), a, m);
                    lemma_pow1(a);
                    lemma_pow_adds(a, (h + h) as nat, 1);
                    assert(r.spec_value() == pow(a, (h + h + 1) as nat) % m);
                    assert(h + h + 1 == exp as nat);
                }
                r
            } else {
                proof {
                    assert((exp / 2) as nat + (exp / 2) as nat == exp as nat);
                }
                squared
            }
        }
    }

    /// Multiplicative inverse, computed as exponentiation to `ORDER - 2`;
    /// inverting zero is reported as a division by zero.
    pub fn inv(self) -> (r: Result<Self, ArithmeticError>)
        requires
            self.wf(),
        ensures
            match r {
                Ok(v) => self.spec_value() != 0 && v.wf() && v.spec_value() == Self::spec_inv(
                    self.spec_value(),
                ),
                Err(e) => self.spec_value() == 0 && e == ArithmeticError::DivisionByZero,
            },
    {
        if self.value == 0 {
            Err(ArithmeticError::DivisionByZero)
        } else {
            Ok(self.pow((ORDER - 2) as u128))
        }
    }

    /// Field division: multiplication by the inverse of the divisor, which
    /// must not be zero.
    pub fn div(self, other: Self) -> (r: Result<Self, ArithmeticError>)
        requires
            self.wf(),
            other.wf(),
        ensures
            match r {
                Ok(v) => other.spec_value() != 0 && v.wf() && v.spec_value() == Self::spec_mul(
                    self.spec_value(),
                    Self::spec_inv(other.spec_value()),
                ),
                Err(e) => other.spec_value() == 0 && e == ArithmeticError::DivisionByZero,
            },
    {
        match other.inv() {
            Ok(i) => Ok(self.mul(i)),
            Err(e) => Err(e),
        }
    }
}

impl<const ORDER: u64> U64FieldElement<ORDER> {
    /// Law: addition is commutative.
    pub proof fn lemma_add_commutative(a: Self, b: Self)
        requires
            a.wf(),
            b.wf(),
        ensures
            Self::spec_add(a.spec_value(), b.spec_value()) == Self::spec_add(
                b.spec_value(),
                a.spec_value(),
            ),
    {
    }

    /// Law: addition is associative.
    pub proof fn lemma_add_associative(a: Self, b: Self, c: Self)
        requires
            a.wf(),
            b.wf(),
            c.wf(),
        ensures
            Self::spec_add(Self::spec_add(a.spec_value(), b.spec_value()), c.spec_value())
                == Self::spec_add(
                a.spec_value(),
                Self::spec_add(b.spec_value(), c.spec_value()),
            ),
    {
        let (x, y, z) = (a.spec_value(), b.spec_value(), c.spec_value());
        let m = ORDER as int;
        lemma_add_mod_noop_right(z, x + y, m);
        lemma_add_mod_noop_right(x, y + z, m);
    }

    /// Law: multiplication is commutative.
    pub proof fn lemma_mul_commutative(a: Self, b: Self)
        requires
            a.wf(),
            b.wf(),
        ensures
            Self::spec_mul(a.spec_value(), b.spec_value()) == Self::spec_mul(
                b.spec_value(),
                a.spec_value(),
            ),
    {
        lemma_mul_is_commutative(a.spec_value(), b.spec_value());
    }

    /// Law: multiplication is associative.
    pub proof fn lemma_mul_associative(a: Self, b: Self, c: Self)
        requires
            a.wf(),
            b.wf(),
            c.wf(),
        ensures
            Self::spec_mul(Self::spec_mul(a.spec_value(), b.spec_value()), c.spec_value())
                == Self::spec_mul(
                a.spec_value(),
                Self::spec_mul(b.spec_value(), c.spec_value()),
            ),
    {
        let (x, y, z) = (a.spec_value(), b.spec_value(), c.spec_value());
        let m = ORDER as int;
        lemma_mul_mod_noop_general(x * y, z, m);
        lemma_mul_mod_noop_general(x, y * z, m);
        lemma_mul_is_associative(x, y, z);
    }

    /// Law: multiplication distributes over addition.
    pub proof fn lemma_mul_distributive(a: Self, b: Self, c: Self)
        requires
            a.wf(),
            b.wf(),
            c.wf(),
        ensures
            Self::spec_mul(a.spec_value(), Self::spec_add(b.spec_value(), c.spec_value()))
                == Self::spec_add(
                Self::spec_mul(a.spec_value(), b.spec_value()),
                Self::spec_mul(a.spec_value(), c.spec_value()),
            ),
    {
        let (x, y, z) = (a.spec_value(), b.spec_value(), c.spec_value());
        let m = ORDER as int;
        lemma_mul_mod_noop_general(x, y + z, m);
        lemma_mul_is_distributive_add(x, y, z);
        lemma_add_mod_noop(x * y, x * z, m);
    }

    /// Law: zero is the additive identity.
    pub proof fn lemma_add_identity(a: Self)
        requires
            a.wf(),
        ensures
            Self::spec_add(a.spec_value(), 0) == a.spec_value(),
    {
        lemma_small_mod(a.spec_value() as nat, ORDER as nat);
    }

    /// Law: one is the multiplicative identity.
    pub proof fn lemma_mul_identity(a: Self)
        requires
            a.wf(),
        ensures
            Self::spec_mul(a.spec_value(), 1) == a.spec_value(),
    {
        lemma_small_mod(a.spec_value() as nat, ORDER as nat);
    }

    /// Law: every element cancels against its additive inverse.
    pub proof fn lemma_add_inverse(a: Self)
        requires
            a.wf(),
        ensures
            Self::spec_add(a.spec_value(), Self::spec_neg(a.spec_value())) == 0,
    {
        let x = a.spec_value();
        let m = ORDER as int;
        if x == 0 {
            lemma_small_mod(0, ORDER as nat);
        } else {
            lemma_mod_add_multiples_vanish(0 - x, m);
            lemma_small_mod((m - x) as nat, ORDER as nat);
            lemma_mod_self_0(m);
        }
    }
}

impl<const ORDER: u64> PartialEq for U64FieldElement<ORDER> {
    /// Two elements are equal exactly when their canonical representatives
    /// coincide.
    fn eq(&self, other: &Self) -> (r: bool) {
        self.value == other.value
    }
}

impl<const ORDER: u64> vstd::std_specs::cmp::PartialEqSpecImpl for U64FieldElement<ORDER> {
    open spec fn obeys_eq_spec() -> bool {
        true
    }

    open spec fn eq_spec(&self, other: &Self) -> bool {
        self.spec_value() == other.spec_value()
    }
}

} // verus!
