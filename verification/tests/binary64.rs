use judge::binary64::{denotes_zero, is_probability, total_order_key, ONE, SIGN_BIT};

fn samples() -> Vec<f64> {
    vec![
        f64::from_bits(0xFFF8_0000_0000_0001),
        f64::NEG_INFINITY,
        f64::MIN,
        -1.0e16,
        -2.5,
        -1.0,
        -f64::MIN_POSITIVE,
        -5e-324,
        -0.0,
        0.0,
        5e-324,
        f64::MIN_POSITIVE,
        0.1,
        0.5,
        1.0,
        1.0e16,
        1.0e16 + 2.0,
        f64::MAX,
        f64::INFINITY,
        f64::NAN,
        f64::from_bits(0x7FFF_FFFF_FFFF_FFFF),
    ]
}

#[test]
fn key_orders_as_the_total_order() {
    let xs = samples();
    for a in &xs {
        for b in &xs {
            let by_key = total_order_key(a.to_bits()).cmp(&total_order_key(b.to_bits()));
            assert_eq!(by_key, a.total_cmp(b), "{a:?} against {b:?}");
        }
    }
}

#[test]
fn key_of_known_patterns() {
    assert_eq!(total_order_key(0.0_f64.to_bits()), 0);
    assert_eq!(total_order_key((-0.0_f64).to_bits()), -1);
    assert_eq!(total_order_key(1.0_f64.to_bits()), 0x3FF0_0000_0000_0000);
    assert_eq!(total_order_key((-1.0_f64).to_bits()), -0x3FF0_0000_0000_0001);
    assert_eq!(total_order_key(5e-324_f64.to_bits()), 1);
    assert_eq!(total_order_key((-5e-324_f64).to_bits()), -2);
    assert_eq!(total_order_key(u64::MAX), i64::MIN);
    assert_eq!(total_order_key(SIGN_BIT - 1), i64::MAX);
}

#[test]
fn key_is_strictly_rising_over_the_samples() {
    let xs = samples();
    for pair in xs.windows(2) {
        assert!(total_order_key(pair[0].to_bits()) < total_order_key(pair[1].to_bits()));
    }
}

#[test]
fn zero_is_either_zero_and_nothing_else() {
    assert!(denotes_zero(0.0_f64.to_bits()));
    assert!(denotes_zero((-0.0_f64).to_bits()));
    for x in samples() {
        assert_eq!(denotes_zero(x.to_bits()), x == 0.0, "{x:?}");
    }
}

#[test]
fn probability_is_strictly_between_zero_and_one() {
    for x in samples() {
        assert_eq!(is_probability(x.to_bits()), 0.0 < x && x < 1.0, "{x:?}");
    }
    assert!(is_probability(0.5_f64.to_bits()));
    assert!(is_probability(5e-324_f64.to_bits()));
    assert!(is_probability(ONE - 1));
    assert!(!is_probability(ONE));
    assert!(!is_probability(0));
    assert!(!is_probability(SIGN_BIT));
    assert!(!is_probability((-0.5_f64).to_bits()));
    assert!(!is_probability(f64::NAN.to_bits()));
    assert!(!is_probability(f64::INFINITY.to_bits()));
}

#[test]
fn one_has_the_pattern_of_one() {
    assert_eq!(ONE, 1.0_f64.to_bits());
    assert_eq!(SIGN_BIT, (-0.0_f64).to_bits());
}

#[test]
fn key_follows_the_numbers_where_they_are_finite() {
    let xs: Vec<f64> = samples().into_iter().filter(|x| x.is_finite()).collect();
    for a in &xs {
        for b in &xs {
            if a < b {
                assert!(total_order_key(a.to_bits()) < total_order_key(b.to_bits()));
            }
            if total_order_key(a.to_bits()) <= total_order_key(b.to_bits()) {
                assert!(a <= b);
            }
        }
    }
}

#[test]
fn key_tells_all_patterns_apart() {
    let xs = samples();
    for (i, a) in xs.iter().enumerate() {
        for (j, b) in xs.iter().enumerate() {
            assert_eq!(total_order_key(a.to_bits()) == total_order_key(b.to_bits()), i == j);
        }
    }
}
