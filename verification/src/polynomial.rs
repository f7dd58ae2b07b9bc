//! Polynomials as ordered coefficient sequences over a prime field.
//!
//! The coefficient at index `i` multiplies the `i`-th power of the
//! indeterminate. Evaluation runs Horner's rule; the transforms that
//! evaluate a polynomial at all roots of unity at once live in the
//! transform module.

use vstd::prelude::*;

use crate::u64_prime_field::U64FieldElement;

verus! {

/// A polynomial over the prime field of the given order, as the ordered
/// sequence of its coefficients.
#[derive(Clone, Debug, Eq, PartialEq)]
pub struct Polynomial<const ORDER: u64> {
    coefficients: Vec<U64FieldElement<ORDER>>,
}

impl<const ORDER: u64> Polynomial<ORDER> {
    /// The coefficient sequence.
    pub closed spec fn spec_coefficients(self) -> Seq<U64FieldElement<ORDER>> {
        self.coefficients@
    }

    /// Well-formedness: every coefficient is reduced.
    pub open spec fn wf(self) -> bool {
        forall|i: int|
            0 <= i < self.spec_coefficients().len() ==> (
            #[trigger] self.spec_coefficients()[i]).wf()
    }

    /// Value of the polynomial with coefficient sequence `s` at `x`, by
    /// Horner's rule: `s[0] + x * (s[1] + x * (...))`, reduced.
    pub open spec fn spec_eval(s: Seq<U64FieldElement<ORDER>>, x: int) -> int
        decreases s.len(),
    {
        if s.len() == 0 {
            0
        } else {
            U64FieldElement::<ORDER>::spec_add(
                s[0].spec_value(),
                U64FieldElement::<ORDER>::spec_mul(
                    x,
                    Self::spec_eval(s.subrange(1, s.len() as int), x),
                ),
            )
        }
    }

    /// Builds the polynomial with the given coefficients, lowest power
    /// first.
    pub fn new(coefficients: Vec<U64FieldElement<ORDER>>) -> (r: Self)
        requires
            forall|i: int| 0 <= i < coefficients@.len() ==> (#[trigger] coefficients@[i]).wf(),
        ensures
            r.wf(),
            r.spec_coefficients() == coefficients@,
    {
        Self { coefficients }
    }

    /// The coefficients, lowest power first.
    pub fn coefficients(&self) -> (r: &Vec<U64FieldElement<ORDER>>)
        ensures
            r@ == self.spec_coefficients(),
    {
        &self.coefficients
    }

    /// Evaluates the polynomial at `x` by Horner's rule.
    pub fn evaluate(&self, x: U64FieldElement<ORDER>) -> (r: U64FieldElement<ORDER>)
        requires
            self.wf(),
            x.wf(),
        ensures
            r.wf(),
            r.spec_value() == Self::spec_eval(self.spec_coefficients(), x.spec_value()),
    {
        let ghost s = self.spec_coefficients();
        let n = self.coefficients.len();
        let mut acc = U64FieldElement::<ORDER>::zero();
        let mut j = n;
        while j > 0
            invariant
                0 <= j <= n,
                n == s.len(),
                s == self.spec_coefficients(),
                self.wf(),
                x.wf(),
                acc.wf(),
                acc.spec_value() == Self::spec_eval(s.subrange(j as int, n as int), x.spec_value()),
            decreases j,
        {
            j = j - 1;
            acc = self.coefficients[j].add(x.mul(acc));
            proof {
                let sub = s.subrange(j as int, n as int);
                assert(sub[0] == s[j as int]);
                assert(sub.subrange(1, sub.len() as int) =~= s.subrange(j + 1, n as int));
            }
        }
        proof {
            assert(s.subrange(0, n as int) =~= s);
        }
        acc
    }
}

/// Interleaves column-major coefficient data into a single flat vector:
/// the element at row `i` of column `c` lands at position
/// `i * data.len() + c`. All columns must have the height of the first.
pub fn get_coefficients<T: Copy>(data: &Vec<Vec<T>>) -> (r: Vec<T>)
    requires
        data@.len() > 0,
        forall|c: int| 0 <= c < data@.len() ==> (#[trigger] data@[c])@.len() == data@[0]@.len(),
        data@.len() * data@[0]@.len() <= usize::MAX,
    ensures
        r@.len() == data@.len() * data@[0]@.len(),
        forall|i: int, c: int|
            0 <= i < data@[0]@.len() && 0 <= c < data@.len() ==> r@[i * data@.len() + c] == (
            #[trigger] data@[c]@[i]),
{
    let num_columns = data.len();
    let column_len = data[0].len();
    let mut coeffs: Vec<T> = Vec::new();
    let mut i: usize = 0;
    while i < column_len
        invariant
            0 <= i <= column_len,
            num_columns == data@.len(),
            column_len == data@[0]@.len(),
            num_columns > 0,
            forall|c: int| 0 <= c < data@.len() ==> (#[trigger] data@[c])@.len() == column_len,
            data@.len() * data@[0]@.len() <= usize::MAX,
            coeffs@.len() == i * num_columns,
            forall|k: int, c: int|
                0 <= k < i && 0 <= c < num_columns ==> coeffs@[k * num_columns + c] == (
                #[trigger] data@[c]@[k]),
        decreases column_len - i,
    {
        let mut c: usize = 0;
        proof {
            lemma_row_bound(i as int, column_len as int, num_columns as int);
        }
        while c < num_columns
            invariant
                0 <= c <= num_columns,
                0 <= i < column_len,
                num_columns == data@.len(),
                column_len == data@[0]@.len(),
                forall|cc: int| 0 <= cc < data@.len() ==> (#[trigger] data@[cc])@.len()
                    == column_len,
                data@.len() * data@[0]@.len() <= usize::MAX,
                coeffs@.len() == i * num_columns + c,
                forall|k: int, cc: int|
                    0 <= k < i && 0 <= cc < num_columns ==> coeffs@[k * num_columns + cc] == (
                    #[trigger] data@[cc]@[k]),
                forall|cc: int|
                    0 <= cc < c ==> coeffs@[i * num_columns + cc] == (#[trigger] data@[cc]@[i as int]),
            decreases num_columns - c,
        {
            coeffs.push(data[c][i]);
            c = c + 1;
            proof {
                assert forall|k: int, cc: int|
                    0 <= k < i && 0 <= cc < num_columns implies coeffs@[k * num_columns + cc] == (
                    #[trigger] data@[cc]@[k]) by {
                    lemma_flat_index(k, cc, i as int, num_columns as int);
                }
            }
        }
        i = i + 1;
    }
    proof {
        vstd::arithmetic::mul::lemma_mul_is_commutative(column_len as int, num_columns as int);
        assert forall|i2: int, c2: int|
            0 <= i2 < data@[0]@.len() && 0 <= c2 < data@.len() implies coeffs@[i2 * data@.len()
            + c2] == (#[trigger] data@[c2]@[i2]) by {
            lemma_flat_index(i2, c2, column_len as int, num_columns as int);
        }
    }
    coeffs
}

/// A flat interleaving index stays below the block that follows it.
proof fn lemma_flat_index(k: int, cc: int, rows: int, cols: int)
    requires
        0 <= k < rows,
        0 <= cc < cols,
    ensures
        k * cols + cc < rows * cols,
{
    vstd::arithmetic::mul::lemma_mul_inequality(k + 1, rows, cols);
    vstd::arithmetic::mul::lemma_mul_is_distributive_add_other_way(cols, k, 1);
}

/// A full row of an interleaving stays within the total size bound.
proof fn lemma_row_bound(i: int, rows: int, cols: int)
    requires
        0 <= i < rows,
        0 < cols,
        rows * cols <= usize::MAX,
    ensures
        i * cols + cols <= usize::MAX,
        (i + 1) * cols <= rows * cols,
        (i + 1) * cols == i * cols + cols,
{
    vstd::arithmetic::mul::lemma_mul_inequality(i + 1, rows, cols);
    vstd::arithmetic::mul::lemma_mul_is_distributive_add_other_way(cols, i, 1);
}

} // verus!
