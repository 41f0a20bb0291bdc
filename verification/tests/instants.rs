use timeleap_memo::instant_lt;

fn samples() -> Vec<f32> {
    vec![
        0.0,
        -0.0,
        1.0,
        -1.0,
        0.5,
        2.0,
        1.0e-40,
        -1.0e-40,
        f32::MIN_POSITIVE,
        f32::MAX,
        f32::MIN,
        f32::INFINITY,
        f32::NEG_INFINITY,
        f32::NAN,
        -f32::NAN,
        123.25,
        -0.016,
    ]
}

#[test]
fn orders_as_f32_less_than() {
    for a in samples() {
        for b in samples() {
            assert_eq!(instant_lt(a.to_bits(), b.to_bits()), a < b, "{} < {}", a, b);
        }
    }
}

#[test]
fn simple_comparisons() {
    assert!(instant_lt(1.0f32.to_bits(), 2.0f32.to_bits()));
    assert!(!instant_lt(2.0f32.to_bits(), 1.0f32.to_bits()));
    assert!(instant_lt((-1.0f32).to_bits(), 0.0f32.to_bits()));
    assert!(instant_lt((-2.0f32).to_bits(), (-1.0f32).to_bits()));
}

#[test]
fn zeros_and_nan() {
    assert!(!instant_lt((-0.0f32).to_bits(), 0.0f32.to_bits()));
    assert!(!instant_lt(0.0f32.to_bits(), (-0.0f32).to_bits()));
    assert!(!instant_lt(f32::NAN.to_bits(), 1.0f32.to_bits()));
    assert!(!instant_lt(1.0f32.to_bits(), f32::NAN.to_bits()));
    assert!(!instant_lt(f32::NAN.to_bits(), f32::NAN.to_bits()));
}
