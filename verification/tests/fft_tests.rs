use lambdaworks_math::errors::FFTError;
use lambdaworks_math::fft::{fft, inverse_fft, FftFieldElement};
use lambdaworks_math::polynomial::Polynomial;

type FE = FftFieldElement;

const ORDER: u64 = 18446744069414584321;

fn elems(values: &[u64]) -> Vec<FE> {
    values.iter().map(|v| FE::new(*v)).collect()
}

#[test]
fn fft_of_size_four_has_known_values() {
    let out = fft(&elems(&[1, 2, 3, 4])).unwrap();
    let expected = elems(&[
        10,
        18446181119461163007,
        18446744069414584319,
        562949953421310,
    ]);
    assert_eq!(out, expected);
}

#[test]
fn fft_evaluates_the_polynomial_at_root_powers() {
    // index 0 evaluates at the zeroth power of the root, which is one
    let coeffs = elems(&[5, 0, 9, 1]);
    let out = fft(&coeffs).unwrap();
    let p = Polynomial::<ORDER>::new(coeffs);
    assert_eq!(out[0], p.evaluate(FE::new(1)));
}

#[test]
fn fft_round_trip_restores_the_polynomial() {
    let original = elems(&[5, 0, 9, 1, 2, 2, 7, 3]);
    let transformed = fft(&original).unwrap();
    let restored = inverse_fft(&transformed).unwrap();
    assert_eq!(restored, original);
    // and in the other composition order as well
    let back = fft(&inverse_fft(&original).unwrap()).unwrap();
    assert_eq!(back, original);
}

#[test]
fn fft_round_trip_on_a_single_coefficient() {
    let original = elems(&[42]);
    assert_eq!(inverse_fft(&fft(&original).unwrap()).unwrap(), original);
}

#[test]
fn fft_is_linear() {
    let p = elems(&[3, 1, 4, 1, 5, 9, 2, 6]);
    let q = elems(&[2, 7, 1, 8, 2, 8, 1, 8]);
    let sum: Vec<FE> = p.iter().zip(q.iter()).map(|(a, b)| a.add(*b)).collect();
    let fp = fft(&p).unwrap();
    let fq = fft(&q).unwrap();
    let fsum = fft(&sum).unwrap();
    for i in 0..fsum.len() {
        assert_eq!(fsum[i], fp[i].add(fq[i]));
    }
}

#[test]
fn fft_rejects_lengths_that_are_not_powers_of_two() {
    assert_eq!(fft(&elems(&[])).unwrap_err(), FFTError::InvalidInputSize);
    assert_eq!(
        fft(&elems(&[1, 2, 3])).unwrap_err(),
        FFTError::InvalidInputSize
    );
    assert_eq!(
        inverse_fft(&elems(&[1, 2, 3, 4, 5])).unwrap_err(),
        FFTError::InvalidInputSize
    );
}
