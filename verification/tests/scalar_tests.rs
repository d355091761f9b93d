//! Tests of scalar recovery from little- and big-endian bit lists.

use input_store::scalar::{Scalar, ScalarError, SCALAR_MODULUS, SCALAR_SIZE_IN_BITS};

const ITERATIONS: u64 = 100;

/// A deterministic sample of reduced residues.
fn sample_scalar(i: u64) -> Scalar {
    Scalar::new((i.wrapping_mul(6364136223846793005).wrapping_add(1442695040888963407)) % SCALAR_MODULUS)
}

#[test]
fn test_from_bits_le() {
    for i in 0..ITERATIONS {
        // Sample an element.
        let expected = sample_scalar(i);
        let given_bits = expected.to_bits_le();
        assert_eq!(SCALAR_SIZE_IN_BITS, given_bits.len());

        let candidate = Scalar::from_bits_le(&given_bits).unwrap();
        assert_eq!(expected, candidate);

        // Add excess zero bits.
        let mut candidate = given_bits.clone();
        for _ in 0..i {
            candidate.push(false);
        }

        let candidate = Scalar::from_bits_le(&candidate).unwrap();
        assert_eq!(expected, candidate);
        assert_eq!(SCALAR_SIZE_IN_BITS, candidate.to_bits_le().len());
    }
}

#[test]
fn test_from_bits_be() {
    for i in 0..ITERATIONS {
        // Sample an element.
        let expected = sample_scalar(i);
        let given_bits = expected.to_bits_be();
        assert_eq!(SCALAR_SIZE_IN_BITS, given_bits.len());

        let candidate = Scalar::from_bits_be(&given_bits).unwrap();
        assert_eq!(expected, candidate);

        // Add excess zero bits in front.
        let mut candidate = vec![false; i as usize];
        candidate.extend_from_slice(&given_bits);

        let candidate = Scalar::from_bits_be(&candidate).unwrap();
        assert_eq!(expected, candidate);
        assert_eq!(SCALAR_SIZE_IN_BITS, candidate.to_bits_be().len());
    }
}

#[test]
fn test_from_bits_le_rejects_excess_bits() {
    let mut bits = Scalar::new(5).to_bits_le();
    bits.push(false);
    bits.push(true);
    assert_eq!(Scalar::from_bits_le(&bits), Err(ScalarError::ExcessBits));
}

#[test]
fn test_from_bits_le_rejects_modulus() {
    // All ones at full size is 2^61 - 1, exactly the modulus.
    let bits = vec![true; SCALAR_SIZE_IN_BITS];
    assert_eq!(Scalar::from_bits_le(&bits), Err(ScalarError::ScalarTooLarge));

    // The largest residue is recovered.
    let mut bits = vec![true; SCALAR_SIZE_IN_BITS];
    bits[0] = false;
    let candidate = Scalar::from_bits_le(&bits).unwrap();
    assert_eq!(candidate.value, SCALAR_MODULUS - 1);
}

#[test]
fn test_from_bits_le_short_lists() {
    // A short list is padded with zeros.
    let bits = vec![true, false, true];
    assert_eq!(Scalar::from_bits_le(&bits).unwrap().value, 5);
    let empty: Vec<bool> = Vec::new();
    assert_eq!(Scalar::from_bits_le(&empty).unwrap().value, 0);
}
