use lambdaworks_math::errors::CurveError;
use lambdaworks_math::pairing::{tate_pairing, weil_pairing};
use lambdaworks_math::projective_point::ProjectivePoint;
use lambdaworks_math::test_curve_1::{
    TestCurve1, TestCurveFieldElement, TEST_CURVE_1_MAIN_SUBGROUP_ORDER,
    TEST_CURVE_1_PRIME_FIELD_ORDER,
};
use lambdaworks_math::u64_prime_field::U64FieldElement;

type FEE = TestCurveFieldElement;
type FE = U64FieldElement<TEST_CURVE_1_PRIME_FIELD_ORDER>;

#[test]
fn create_valid_point_works() {
    let point = TestCurve1::create_point_from_affine(FEE::from(35), FEE::from(31)).unwrap();
    assert_eq!(point.x(), FEE::from(35));
    assert_eq!(point.y(), FEE::from(31));
    assert_eq!(point.z(), FEE::from(1));
}

#[test]
fn create_invalid_points_panics() {
    let result = TestCurve1::create_point_from_affine(FEE::from(0), FEE::from(1));
    assert_eq!(result.unwrap_err(), CurveError::InvalidPoint);
}

#[test]
fn equality_works() {
    let g = TestCurve1::generator();
    let g2 = g.operate_with(&g);
    assert_ne!(&g2, &g);
    assert_eq!(&g, &g);
}

#[test]
fn operate_with_self_works_1() {
    let g = TestCurve1::generator();
    assert_eq!(g.operate_with(&g).operate_with(&g), g.operate_with_self(3));
}

#[test]
fn operate_with_self_works_2() {
    let mut point_1 = TestCurve1::generator();
    point_1 = point_1.operate_with_self(TEST_CURVE_1_MAIN_SUBGROUP_ORDER as u128);
    assert!(point_1.is_neutral_element());
}

#[test]
fn doubling_a_point_works() {
    let point = TestCurve1::create_point_from_affine(FEE::from(35), FEE::from(31)).unwrap();
    let expected_result =
        TestCurve1::create_point_from_affine(FEE::from(25), FEE::from(29)).unwrap();
    assert_eq!(point.operate_with_self(2).to_affine().unwrap(), expected_result);
}

#[test]
fn test_weil_pairing() {
    let pa = TestCurve1::create_point_from_affine(FEE::from(35), FEE::from(31)).unwrap();
    let pb = TestCurve1::create_point_from_affine(
        FEE::new([FE::new(24), FE::new(0)]),
        FEE::new([FE::new(0), FE::new(31)]),
    )
    .unwrap();
    let expected_result = FEE::new([FE::new(46), FE::new(3)]);

    let result_weil = weil_pairing(&pa, &pb).unwrap();
    assert_eq!(result_weil, expected_result);
}

#[test]
fn test_tate_pairing() {
    let pa = TestCurve1::create_point_from_affine(FEE::from(35), FEE::from(31)).unwrap();
    let pb = TestCurve1::create_point_from_affine(
        FEE::new([FE::new(24), FE::new(0)]),
        FEE::new([FE::new(0), FE::new(31)]),
    )
    .unwrap();
    let expected_result = FEE::new([FE::new(42), FE::new(19)]);

    let result_tate = tate_pairing(&pa, &pb).unwrap();
    assert_eq!(result_tate, expected_result);
}

#[test]
fn coordinate_getters_work() {
    let x = FEE::from(35);
    let y = FEE::from(31);
    let z = FEE::from(1);
    let point = TestCurve1::create_point_from_affine(x.clone(), y.clone()).unwrap();
    let coordinates = point.coordinates();
    assert_eq!(x, point.x());
    assert_eq!(y, point.y());
    assert_eq!(z, point.z());
    assert_eq!(x, coordinates[0]);
    assert_eq!(y, coordinates[1]);
    assert_eq!(z, coordinates[2]);
}

#[test]
fn neutral_element_is_identity_on_both_sides() {
    let g = TestCurve1::generator();
    let neutral = ProjectivePoint::neutral_element();
    assert_eq!(g.operate_with(&neutral), g);
    assert_eq!(neutral.operate_with(&g), g);
    assert!(neutral.is_neutral_element());
}

#[test]
fn scalar_multiple_of_zero_is_neutral() {
    let g = TestCurve1::generator();
    assert!(g.operate_with_self(0).is_neutral_element());
}

#[test]
fn projective_equality_is_scaling_invariant() {
    let lambda = FEE::from(7);
    let g = TestCurve1::generator();
    let scaled = ProjectivePoint::new([
        g.x().mul(lambda),
        g.y().mul(lambda),
        g.z().mul(lambda),
    ]);
    assert_eq!(scaled, g);
    // a scaled representative of the identity is still recognized as it
    let scaled_neutral = ProjectivePoint::new([FEE::from(0), lambda, FEE::from(0)]);
    assert!(scaled_neutral.is_neutral_element());
}

#[test]
fn to_affine_of_neutral_element_fails() {
    let neutral = ProjectivePoint::neutral_element();
    assert_eq!(
        neutral.to_affine().unwrap_err(),
        CurveError::UndefinedAffineConversion
    );
}

#[test]
fn point_negation_cancels() {
    let g = TestCurve1::generator();
    assert!(g.operate_with(&g.neg()).is_neutral_element());
}

#[test]
fn generator_satisfies_curve_equation() {
    // y^2 == x^3 + x for the generator (35, 31)
    let g = TestCurve1::generator();
    let x = g.x();
    let y = g.y();
    assert_eq!(y.mul(y), x.mul(x).mul(x).add(TestCurve1::a().mul(x)));
}

#[test]
fn weil_pairing_is_bilinear_for_small_scalars() {
    let pa = TestCurve1::create_point_from_affine(FEE::from(35), FEE::from(31)).unwrap();
    let pb = TestCurve1::create_point_from_affine(
        FEE::new([FE::new(24), FE::new(0)]),
        FEE::new([FE::new(0), FE::new(31)]),
    )
    .unwrap();
    let base = weil_pairing(&pa, &pb).unwrap();
    let lhs = weil_pairing(&pa.operate_with_self(2), &pb.operate_with_self(3)).unwrap();
    assert_eq!(lhs, base.pow(6));
}

#[test]
fn tate_pairing_is_bilinear_for_small_scalars() {
    let pa = TestCurve1::create_point_from_affine(FEE::from(35), FEE::from(31)).unwrap();
    let pb = TestCurve1::create_point_from_affine(
        FEE::new([FE::new(24), FE::new(0)]),
        FEE::new([FE::new(0), FE::new(31)]),
    )
    .unwrap();
    let base = tate_pairing(&pa, &pb).unwrap();
    let lhs = tate_pairing(&pa.operate_with_self(3), &pb.operate_with_self(4)).unwrap();
    assert_eq!(lhs, base.pow(12));
}

#[test]
fn pairing_of_a_point_with_itself_is_one() {
    let pa = TestCurve1::create_point_from_affine(FEE::from(35), FEE::from(31)).unwrap();
    assert_eq!(weil_pairing(&pa, &pa).unwrap(), FEE::from(1));
    assert_eq!(tate_pairing(&pa, &pa).unwrap(), FEE::from(1));
}
