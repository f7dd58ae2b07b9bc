use lambdaworks_math::errors::ArithmeticError;
use lambdaworks_math::montgomery::{MontgomeryConfig, MontgomeryFieldElement};
use lambdaworks_math::polynomial::{get_coefficients, Polynomial};
use lambdaworks_math::quadratic_extension::QuadraticExtensionFieldElement;
use lambdaworks_math::u64_prime_field::U64FieldElement;

type FE = U64FieldElement<59>;
type FEE = QuadraticExtensionFieldElement<59>;
type MFE = MontgomeryFieldElement;

const MODULUS: u64 = 2013265921;
type NFE = U64FieldElement<MODULUS>;

#[test]
fn field_construction_reduces() {
    assert_eq!(FE::new(59 * 3 + 7), FE::new(7));
    assert_eq!(FE::zero(), FE::new(0));
    assert_eq!(FE::one(), FE::new(1));
    assert_eq!(FE::new(7).value(), 7);
}

#[test]
fn field_axioms_hold_on_samples() {
    let (a, b, c) = (FE::new(13), FE::new(40), FE::new(58));
    assert_eq!(a.add(b), b.add(a));
    assert_eq!(a.add(b).add(c), a.add(b.add(c)));
    assert_eq!(a.mul(b), b.mul(a));
    assert_eq!(a.mul(b).mul(c), a.mul(b.mul(c)));
    assert_eq!(a.mul(b.add(c)), a.mul(b).add(a.mul(c)));
    assert_eq!(a.add(FE::zero()), a);
    assert_eq!(a.mul(FE::one()), a);
    assert_eq!(a.add(a.neg()), FE::zero());
    assert_eq!(a.mul(a.inv().unwrap()), FE::one());
}

#[test]
fn field_arithmetic_has_exact_values() {
    assert_eq!(FE::new(50).add(FE::new(20)), FE::new(11));
    assert_eq!(FE::new(3).sub(FE::new(10)), FE::new(52));
    assert_eq!(FE::new(0).neg(), FE::new(0));
    assert_eq!(FE::new(1).neg(), FE::new(58));
    assert_eq!(FE::new(7).mul(FE::new(9)), FE::new(4));
    assert_eq!(FE::new(2).pow(6), FE::new(5));
    assert_eq!(FE::new(4).div(FE::new(2)).unwrap(), FE::new(2));
}

#[test]
fn inverting_zero_fails() {
    assert_eq!(FE::zero().inv().unwrap_err(), ArithmeticError::DivisionByZero);
    assert_eq!(
        FE::new(5).div(FE::zero()).unwrap_err(),
        ArithmeticError::DivisionByZero
    );
}

#[test]
fn montgomery_round_trip_reduces() {
    assert_eq!(MFE::new(0).representative(), 0);
    assert_eq!(MFE::new(1).representative(), 1);
    assert_eq!(MFE::new(MODULUS).representative(), 0);
    assert_eq!(MFE::new(MODULUS + 17).representative(), 17);
    assert_eq!(MFE::new(u64::MAX).representative(), u64::MAX % MODULUS);
    assert_eq!(MFE::one().representative(), 1);
    assert_eq!(MFE::zero().representative(), 0);
}

#[test]
fn montgomery_config_describes_the_backend() {
    assert_eq!(MontgomeryConfig::modulus(), 2013265921);
    assert_eq!(MontgomeryConfig::mp(), 14393504411089371135);
    assert_eq!(MontgomeryConfig::r2(), 663890614);
}

#[test]
fn montgomery_matches_naive_backend() {
    // the same arithmetic sequence on both backends, canonical outputs equal
    let pairs = [(3u64, 2000000000u64), (123456789, 987654321), (MODULUS - 1, MODULUS - 2)];
    for (x, y) in pairs {
        let (am, bm) = (MFE::new(x), MFE::new(y));
        let (an, bn) = (NFE::new(x), NFE::new(y));
        assert_eq!(am.add(bm).representative(), an.add(bn).value());
        assert_eq!(am.sub(bm).representative(), an.sub(bn).value());
        assert_eq!(am.mul(bm).representative(), an.mul(bn).value());
        assert_eq!(am.neg().representative(), an.neg().value());
        assert_eq!(am.pow(77).representative(), an.pow(77).value());
        assert_eq!(
            am.mul(bm).add(am).pow(5).representative(),
            an.mul(bn).add(an).pow(5).value()
        );
        assert_eq!(
            am.inv().unwrap().representative(),
            an.inv().unwrap().value()
        );
        assert_eq!(
            am.div(bm).unwrap().representative(),
            an.div(bn).unwrap().value()
        );
    }
}

#[test]
fn montgomery_inverse_of_zero_fails() {
    assert_eq!(MFE::zero().inv().unwrap_err(), ArithmeticError::DivisionByZero);
}

#[test]
fn montgomery_inverse_cancels() {
    let a = MFE::new(123456789);
    assert_eq!(a.mul(a.inv().unwrap()).representative(), 1);
}

#[test]
fn extension_field_squares_the_imaginary_unit_to_minus_one() {
    let i = FEE::new([FE::new(0), FE::new(1)]);
    assert_eq!(i.mul(i), FEE::from(58));
}

#[test]
fn extension_field_arithmetic_works() {
    let a = FEE::new([FE::new(3), FE::new(4)]);
    let b = FEE::new([FE::new(5), FE::new(7)]);
    // (3 + 4i)(5 + 7i) = 15 - 28 + (21 + 20)i = -13 + 41i
    assert_eq!(a.mul(b), FEE::new([FE::new(46), FE::new(41)]));
    assert_eq!(a.add(b), FEE::new([FE::new(8), FE::new(11)]));
    assert_eq!(a.sub(b), FEE::new([FE::new(57), FE::new(56)]));
    assert_eq!(a.neg(), FEE::new([FE::new(56), FE::new(55)]));
    assert_eq!(a.pow(2), a.mul(a));
    assert_eq!(a.mul(a.inv().unwrap()), FEE::from(1));
    assert_eq!(a.div(b).unwrap().mul(b), a);
}

#[test]
fn extension_field_inverse_of_zero_fails() {
    assert_eq!(FEE::from(0).inv().unwrap_err(), ArithmeticError::DivisionByZero);
}

#[test]
fn polynomial_evaluates_by_horner() {
    // 1 + 2x + 3x^2 at x = 2 is 17
    let p = Polynomial::<59>::new(vec![FE::new(1), FE::new(2), FE::new(3)]);
    assert_eq!(p.evaluate(FE::new(2)), FE::new(17));
    // empty polynomial evaluates to zero
    let zero = Polynomial::<59>::new(vec![]);
    assert_eq!(zero.evaluate(FE::new(5)), FE::new(0));
    assert_eq!(p.coefficients().len(), 3);
}

#[test]
fn get_coefficients_interleaves_columns() {
    let data: Vec<Vec<u64>> = vec![vec![1, 2], vec![3, 4]];
    assert_eq!(get_coefficients(&data), vec![1, 3, 2, 4]);
    let single: Vec<Vec<u64>> = vec![vec![7, 8, 9]];
    assert_eq!(get_coefficients(&single), vec![7, 8, 9]);
}
