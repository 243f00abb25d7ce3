use desktop_commands::cpu_usage::{INFINITY_BITS, SIGN_BIT};
use desktop_commands::CpuUsage;

fn usage(percent: f32) -> CpuUsage {
    CpuUsage::from_bits(percent.to_bits())
}

fn samples() -> Vec<f32> {
    vec![
        0.0,
        -0.0,
        f32::MIN_POSITIVE,
        -f32::MIN_POSITIVE,
        f32::from_bits(1),
        f32::from_bits(SIGN_BIT | 1),
        0.5,
        -0.5,
        1.0,
        -1.0,
        12.5,
        99.999,
        100.0,
        800.0,
        -800.0,
        f32::MAX,
        f32::MIN,
        f32::INFINITY,
        f32::NEG_INFINITY,
        f32::NAN,
        -f32::NAN,
        f32::from_bits(0x7f80_0001),
        f32::from_bits(0xffff_ffff),
    ]
}

#[test]
fn bits_are_kept() {
    for bits in [0u32, 1, 0x3f80_0000, 0x7f80_0000, 0x7fc0_0000, 0x8000_0000, u32::MAX] {
        assert_eq!(CpuUsage::from_bits(bits).to_bits(), bits);
        assert_eq!(CpuUsage::from_bits(bits).bits, bits);
    }
    assert_eq!(usage(1.0).to_bits(), 0x3f80_0000);
    assert_eq!(usage(12.5).to_bits(), 0x4148_0000);
}

#[test]
fn constants_are_the_sign_and_infinity_patterns() {
    assert_eq!(SIGN_BIT, (-0.0f32).to_bits());
    assert_eq!(INFINITY_BITS, f32::INFINITY.to_bits());
}

#[test]
fn is_nan_agrees_with_the_numbers() {
    for x in samples() {
        assert_eq!(usage(x).is_nan(), x.is_nan(), "{x:?}");
    }
}

#[test]
fn infinity_is_a_number_and_the_next_pattern_is_not() {
    assert!(!CpuUsage::from_bits(0x7f80_0000).is_nan());
    assert!(CpuUsage::from_bits(0x7f80_0001).is_nan());
    assert!(!CpuUsage::from_bits(0xff80_0000).is_nan());
    assert!(CpuUsage::from_bits(0xff80_0001).is_nan());
}

#[test]
fn lt_agrees_with_the_numbers() {
    for x in samples() {
        for y in samples() {
            assert_eq!(usage(x).lt(usage(y)), x < y, "{x:?} < {y:?}");
        }
    }
}

#[test]
fn lt_on_given_samples() {
    assert!(usage(1.5).lt(usage(20.0)));
    assert!(!usage(20.0).lt(usage(1.5)));
    assert!(!usage(7.25).lt(usage(7.25)));
    assert!(usage(-3.0).lt(usage(-2.0)));
    assert!(usage(-2.0).lt(usage(0.0)));
    assert!(usage(f32::NEG_INFINITY).lt(usage(f32::MIN)));
    assert!(usage(f32::MAX).lt(usage(f32::INFINITY)));
}

#[test]
fn the_two_zeros_are_equal_numbers() {
    assert!(!usage(0.0).lt(usage(-0.0)));
    assert!(!usage(-0.0).lt(usage(0.0)));
    assert!(usage(-0.0).lt(usage(f32::from_bits(1))));
    assert!(usage(f32::from_bits(SIGN_BIT | 1)).lt(usage(0.0)));
    assert!(usage(f32::from_bits(SIGN_BIT | 1)).lt(usage(-0.0)));
}

#[test]
fn nan_is_below_nothing_and_nothing_is_below_it() {
    for x in samples() {
        assert!(!usage(f32::NAN).lt(usage(x)));
        assert!(!usage(x).lt(usage(f32::NAN)));
    }
}

#[test]
fn equality_is_that_of_the_patterns() {
    assert_eq!(usage(12.5), usage(12.5));
    assert_ne!(usage(0.0), usage(-0.0));
    assert_eq!(usage(f32::NAN), usage(f32::NAN));
}
