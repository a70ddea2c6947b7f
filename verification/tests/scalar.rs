use symbolic_math::scalar::Scalar;

fn scalar(x: f32) -> Scalar {
    Scalar::from_bits(x.to_bits())
}

const SAMPLES: [f32; 30] = [
    0.0,
    -0.0,
    1.0,
    -1.0,
    0.5,
    -0.5,
    1.5,
    -1.5,
    2.0,
    -2.0,
    3.75,
    1e-40,
    -1e-40,
    f32::MIN_POSITIVE,
    0.999_999_94,
    1.000_000_1,
    8_388_607.5,
    8_388_608.0,
    8_388_609.0,
    16_777_216.0,
    -16_777_216.0,
    4_194_304.5,
    123_456.79,
    1e30,
    -1e30,
    f32::MAX,
    f32::MIN,
    f32::INFINITY,
    f32::NEG_INFINITY,
    f32::NAN,
];

#[test]
fn bits_round_trip() {
    for x in SAMPLES {
        assert_eq!(scalar(x).to_bits(), x.to_bits());
    }
    assert_eq!(Scalar::from_bits(0x3f80_0000).to_bits(), 1.0f32.to_bits());
}

#[test]
fn is_zero_agrees_with_comparison() {
    for x in SAMPLES {
        assert_eq!(scalar(x).is_zero(), x == 0.0, "{x}");
    }
}

#[test]
fn is_negative_agrees_with_comparison() {
    for x in SAMPLES {
        assert_eq!(scalar(x).is_negative(), x < 0.0, "{x}");
    }
}

#[test]
fn is_non_positive_agrees_with_comparison() {
    for x in SAMPLES {
        assert_eq!(scalar(x).is_non_positive(), x <= 0.0, "{x}");
    }
}

#[test]
fn has_fraction_agrees_with_fract() {
    for x in SAMPLES {
        assert_eq!(scalar(x).has_fraction(), x.fract() != 0.0, "{x}");
    }
}

#[test]
fn classification_agrees_on_a_sweep_of_bit_patterns() {
    let mut bits: u32 = 0;
    loop {
        let x = f32::from_bits(bits);
        let s = Scalar::from_bits(bits);
        assert_eq!(s.is_zero(), x == 0.0, "{bits:#x}");
        assert_eq!(s.is_negative(), x < 0.0, "{bits:#x}");
        assert_eq!(s.is_non_positive(), x <= 0.0, "{bits:#x}");
        assert_eq!(s.has_fraction(), x.fract() != 0.0, "{bits:#x}");
        match bits.checked_add(0x0001_0003) {
            Some(next) => bits = next,
            None => break,
        }
    }
}

#[test]
fn negative_zero_is_zero_and_not_negative() {
    let z = scalar(-0.0);
    assert!(z.is_zero());
    assert!(!z.is_negative());
    assert!(z.is_non_positive());
    assert!(!z.has_fraction());
}

#[test]
fn not_a_number_is_in_no_order_and_has_a_fraction() {
    let n = scalar(f32::NAN);
    assert!(!n.is_zero());
    assert!(!n.is_negative());
    assert!(!n.is_non_positive());
    assert!(n.has_fraction());
}

#[test]
fn infinities_have_a_fraction() {
    assert!(scalar(f32::INFINITY).has_fraction());
    assert!(scalar(f32::NEG_INFINITY).has_fraction());
    assert!(scalar(f32::NEG_INFINITY).is_negative());
}
