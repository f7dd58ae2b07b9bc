use lambdaworks_math::errors::CurveError;
use lambdaworks_math::twisted_edwards::{EdwardsFieldElement, EdwardsPoint};

type FE = EdwardsFieldElement;

fn point(x: u64, y: u64) -> EdwardsPoint {
    EdwardsPoint::create_point_from_affine(FE::new(x), FE::new(y)).unwrap()
}

#[test]
fn edwards_accepts_points_on_the_curve() {
    let g = point(8, 19);
    assert_eq!(g.x(), FE::new(8));
    assert_eq!(g.y(), FE::new(19));
}

#[test]
fn edwards_rejects_points_off_the_curve() {
    let result = EdwardsPoint::create_point_from_affine(FE::new(1), FE::new(1));
    assert_eq!(result.unwrap_err(), CurveError::InvalidPoint);
}

#[test]
fn edwards_addition_has_known_values() {
    // on x^2 + y^2 = 1 + 2 x^2 y^2 over the field of order 59:
    // (8, 19) + (8, 19) = (45, 47) and (45, 47) + (8, 19) = (6, 36)
    let g = point(8, 19);
    let g2 = g.operate_with(&g).unwrap();
    assert_eq!(g2, point(45, 47));
    let g3 = g2.operate_with(&g).unwrap();
    assert_eq!(g3, point(6, 36));
}

#[test]
fn edwards_neutral_element_is_identity_on_both_sides() {
    let g = point(8, 19);
    let neutral = EdwardsPoint::neutral_element();
    assert_eq!(g.operate_with(&neutral).unwrap(), g);
    assert_eq!(neutral.operate_with(&g).unwrap(), g);
    assert!(neutral.is_neutral_element());
    assert!(!g.is_neutral_element());
}

#[test]
fn edwards_addition_is_associative_on_samples() {
    let g = point(8, 19);
    let g2 = g.operate_with(&g).unwrap();
    let g3 = g2.operate_with(&g).unwrap();
    let left = g.operate_with(&g2).unwrap().operate_with(&g3).unwrap();
    let right = g.operate_with(&g2.operate_with(&g3).unwrap()).unwrap();
    assert_eq!(left, right);
}

#[test]
fn edwards_negation_cancels() {
    let g = point(8, 19);
    let sum = g.operate_with(&g.neg()).unwrap();
    assert!(sum.is_neutral_element());
}
