use metrics_rs_dashboard_actix::code::{bits_of_code, code_of_bits, SIGN_BIT};

#[test]
fn codes_keep_the_order_of_the_readings() {
    let readings = [
        f64::NEG_INFINITY,
        -1.0e300,
        -2.5,
        -1.0e-300,
        -0.0,
        0.0,
        1.0e-300,
        1.5,
        3.7,
        1.0e300,
        f64::INFINITY,
    ];
    for pair in readings.windows(2) {
        assert!(code_of_bits(pair[0].to_bits()) < code_of_bits(pair[1].to_bits()));
    }
    for x in readings {
        assert_eq!(bits_of_code(code_of_bits(x.to_bits())), x.to_bits());
    }
}

#[test]
fn codes_are_the_order_of_ieee_754() {
    let numbers = [-7.25, 3.0, -0.0, 0.0, 1.0e9, -1.0e-9, 42.0, f64::MAX, f64::MIN, f64::NAN];
    for x in numbers {
        for y in numbers {
            let by_code = code_of_bits(x.to_bits()).cmp(&code_of_bits(y.to_bits()));
            assert_eq!(by_code, x.total_cmp(&y), "{} and {}", x, y);
        }
    }
}

#[test]
fn codes_of_given_bits() {
    assert_eq!(code_of_bits(0), SIGN_BIT);
    assert_eq!(code_of_bits(1), SIGN_BIT + 1);
    assert_eq!(code_of_bits(SIGN_BIT - 1), u64::MAX);
    assert_eq!(code_of_bits(SIGN_BIT), SIGN_BIT - 1);
    assert_eq!(code_of_bits(u64::MAX), 0);
    assert_eq!(code_of_bits(1.0f64.to_bits()), 0xbff0_0000_0000_0000);
    assert_eq!(code_of_bits((-1.0f64).to_bits()), 0x400f_ffff_ffff_ffff);
    assert_eq!(bits_of_code(SIGN_BIT), 0);
    assert_eq!(bits_of_code(0), u64::MAX);
    assert_eq!(bits_of_code(SIGN_BIT - 1), SIGN_BIT);
    assert_eq!(bits_of_code(u64::MAX), SIGN_BIT - 1);
    assert_eq!(SIGN_BIT, 1 << 63);
}

#[test]
fn bits_and_codes_are_inverse() {
    for i in 0..64u32 {
        for x in [1u64 << i, (1u64 << i) - 1, !(1u64 << i), (1u64 << i).wrapping_mul(0x9e37_79b9_7f4a_7c15)] {
            assert_eq!(bits_of_code(code_of_bits(x)), x);
            assert_eq!(code_of_bits(bits_of_code(x)), x);
        }
    }
}
