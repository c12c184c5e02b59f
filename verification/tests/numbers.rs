use vary_velocity::decimal::format_one_decimal;
use vary_velocity::binary32::{larger, less_than, smaller, truncate_to_byte};
use vary_velocity::scaling::scale;

/// A fixed sequence of bit patterns that visits every binade, both signs,
/// subnormals, infinities and NaNs.
fn patterns() -> Vec<u32> {
    let mut out: Vec<u32> = vec![
        0, 1, 2, 0x007F_FFFF, 0x0080_0000, 0x0080_0001, 0x3F80_0000, 0x3F7F_FFFF,
        0x7F7F_FFFF, 0x7F80_0000, 0x7F80_0001, 0x7FC0_0000, 0x8000_0000, 0x8000_0001,
        0xFF80_0000, 0xFFC0_0000, 0x42FE_0000, 0x437F_0000, 0x4380_0000, 0x2EDB_E6FF,
    ];
    let mut state: u64 = 0x9E37_79B9_7F4A_7C15;
    for _ in 0..200_000 {
        state = state.wrapping_mul(6364136223846793005).wrapping_add(1442695040888963407);
        out.push((state >> 32) as u32);
    }
    out
}

#[test]
fn scale_agrees_with_hardware_multiplication() {
    let factors: [u8; 9] = [1, 2, 3, 5, 15, 25, 127, 200, 255];
    for bits in patterns() {
        let x = f32::from_bits(bits);
        for k in factors {
            let expected = x * (k as f32);
            let got = scale(bits, k);
            if expected.is_nan() {
                assert_eq!(got, bits);
            } else {
                assert_eq!(got, expected.to_bits(), "{:#x} * {}", bits, k);
            }
        }
    }
}

#[test]
fn scale_rounds_ties_to_even() {
    // 0x00FF_FFFF * 3 needs two more bits; the remainder is exactly half
    let x = f32::from_bits(0x3FFF_FFFF);
    assert_eq!(scale(0x3FFF_FFFF, 3), (x * 3.0).to_bits());
    assert_eq!(scale(0x3F80_0001, 3), (f32::from_bits(0x3F80_0001) * 3.0).to_bits());
    assert_eq!(scale(0x3F80_0003, 5), (f32::from_bits(0x3F80_0003) * 5.0).to_bits());
}

#[test]
fn scale_overflows_to_infinity() {
    assert_eq!(scale(0x7F7F_FFFF, 2), 0x7F80_0000);
    assert_eq!(scale(0xFF7F_FFFF, 25), 0xFF80_0000);
    assert_eq!(scale(0x7F80_0000, 25), 0x7F80_0000);
}

#[test]
fn scale_exact_values() {
    assert_eq!(scale(1.0f32.to_bits(), 25), 25.0f32.to_bits());
    assert_eq!(scale(1.0f32.to_bits(), 127), 127.0f32.to_bits());
    assert_eq!(scale(0.5f32.to_bits(), 127), 63.5f32.to_bits());
    assert_eq!(scale(0, 25), 0);
    assert_eq!(scale(0x8000_0000, 25), 0x8000_0000);
    assert_eq!(scale(1, 3), 3);
}

#[test]
fn truncate_agrees_with_cast() {
    for bits in patterns() {
        let x = f32::from_bits(bits);
        assert_eq!(truncate_to_byte(bits), x as u8, "{:#x}", bits);
    }
    for n in 0..=255u32 {
        let x = n as f32;
        assert_eq!(truncate_to_byte(x.to_bits()), n as u8);
        assert_eq!(truncate_to_byte((x + 0.75).to_bits()), n as u8);
    }
    assert_eq!(truncate_to_byte(255.99f32.to_bits()), 255);
    assert_eq!(truncate_to_byte(256.0f32.to_bits()), 255);
    assert_eq!(truncate_to_byte((-0.5f32).to_bits()), 0);
}

#[test]
fn ordering_agrees_with_hardware() {
    let all = patterns();
    for pair in all.windows(2) {
        let (a, b) = (pair[0], pair[1]);
        let (x, y) = (f32::from_bits(a), f32::from_bits(b));
        assert_eq!(less_than(a, b), x < y);
        let hi = f32::from_bits(larger(a, b));
        let lo = f32::from_bits(smaller(a, b));
        if x.is_nan() && y.is_nan() {
            assert!(hi.is_nan() && lo.is_nan());
        } else {
            assert!(hi == x.max(y));
            assert!(lo == x.min(y));
        }
    }
    assert!(!less_than(0x8000_0000, 0));
    assert!(!less_than(0, 0x8000_0000));
    assert!(less_than(0x8000_0001, 0));
    assert!(less_than(0xFF80_0000, 0xFF7F_FFFF));
}

#[test]
fn one_decimal_agrees_with_standard_formatting() {
    for bits in patterns() {
        let x = f32::from_bits(bits);
        assert_eq!(format_one_decimal(bits), format!("{:.1}", x), "{:#x}", bits);
    }
    // every value of a control in steps of 1/4096, scaled as the controls are
    for n in 0..=4096u32 {
        let v = n as f32 / 4096.0;
        for scaled in [v * 25.0, v * 5.0, v * 127.0, -v] {
            assert_eq!(format_one_decimal(scaled.to_bits()), format!("{:.1}", scaled));
        }
    }
}

#[test]
fn one_decimal_ties_go_to_even() {
    assert_eq!(format_one_decimal(0.25f32.to_bits()), "0.2");
    assert_eq!(format_one_decimal(0.75f32.to_bits()), "0.8");
    assert_eq!(format_one_decimal(1.25f32.to_bits()), "1.2");
    assert_eq!(format_one_decimal(24.75f32.to_bits()), "24.8");
    assert_eq!(format_one_decimal(0.05f32.to_bits()), "0.1");
    assert_eq!(format_one_decimal(0.04f32.to_bits()), "0.0");
    for quarter in 0..400u32 {
        let x = quarter as f32 / 4.0;
        assert_eq!(format_one_decimal(x.to_bits()), format!("{:.1}", x));
    }
}

#[test]
fn one_decimal_special_values() {
    assert_eq!(format_one_decimal(0), "0.0");
    assert_eq!(format_one_decimal(0x8000_0000), "-0.0");
    assert_eq!(format_one_decimal(0x7F80_0000), "inf");
    assert_eq!(format_one_decimal(0xFF80_0000), "-inf");
    assert_eq!(format_one_decimal(0x7FC0_0000), "NaN");
    assert_eq!(format_one_decimal(0xFFC0_0000), "NaN");
    assert_eq!(format_one_decimal(25.0f32.to_bits()), "25.0");
    assert_eq!(format_one_decimal(0x7F7F_FFFF), "340282346638528859811704183484516925440.0");
    assert_eq!(format_one_decimal((-12.34f32).to_bits()), "-12.3");
}
