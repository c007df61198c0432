use video_gallery::score::{f32_le, SCORE_ONE_BITS};

const SAMPLES: [f32; 16] = [
    0.0, -0.0, 1.0, -1.0, 0.65, 0.64999, 0.9, -0.3, 1e-30, -1e-30,
    f32::INFINITY, f32::NEG_INFINITY, f32::MAX, f32::MIN, f32::MIN_POSITIVE, 3.5,
];

#[test]
fn bit_comparison_matches_f32_order() {
    for a in SAMPLES {
        for b in SAMPLES {
            assert_eq!(f32_le(a.to_bits(), b.to_bits()), a <= b, "{} <= {}", a, b);
        }
    }
}

#[test]
fn nan_is_never_at_least_anything() {
    let nan = f32::NAN.to_bits();
    for a in SAMPLES {
        assert!(!f32_le(a.to_bits(), nan));
        assert!(!f32_le(nan, a.to_bits()));
    }
    assert!(!f32_le(nan, nan));
    let negative_nan = (-f32::NAN).to_bits();
    assert!(!f32_le(0.0f32.to_bits(), negative_nan));
}

#[test]
fn signed_zeros_are_equal() {
    assert!(f32_le(0.0f32.to_bits(), (-0.0f32).to_bits()));
    assert!(f32_le((-0.0f32).to_bits(), 0.0f32.to_bits()));
}

#[test]
fn one_bits_are_one() {
    assert_eq!(f32::from_bits(SCORE_ONE_BITS), 1.0);
}
