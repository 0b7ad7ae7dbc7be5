use glow2whatever::reading::Reading;
use glow2whatever::vibrate::{clamped, strength};

fn reading(value: f64) -> Reading {
    Reading { bits: value.to_bits() }
}

fn value(r: Reading) -> f64 {
    f64::from_bits(r.bits)
}

/// Numbers of every kind and size.
fn samples() -> Vec<f64> {
    let mut list = vec![
        0.0,
        -0.0,
        1.0,
        -1.0,
        0.1,
        0.8,
        0.001,
        0.0005,
        0.9999999,
        1.0000000000000002,
        1.5,
        123.456,
        -123.456,
        9007199254740991.0,
        9007199254740992.0,
        9223372036854775.807,
        9223372036854776.0,
        -9223372036854776.0,
        9.3e15,
        -9.3e15,
        1e300,
        -1e300,
        f64::MAX,
        f64::MIN,
        f64::MIN_POSITIVE,
        f64::EPSILON,
        5e-324,
        -5e-324,
        1e-310,
        f64::INFINITY,
        f64::NEG_INFINITY,
        f64::NAN,
    ];
    let mut x: u64 = 0x9E37_79B9_7F4A_7C15;
    for i in 0..20000_u64 {
        x ^= x << 13;
        x ^= x >> 7;
        x ^= x << 17;
        list.push(f64::from_bits(x));
        list.push(((x >> 20) as f64) / 1000.0);
        list.push(((i as f64) - 10000.0) / 1000.0);
        list.push(f64::from_bits((x >> 12) | ((1000 + i % 60) << 52)));
    }
    list
}

#[test]
fn thousandths_of_plain_numbers() {
    assert_eq!(reading(0.5).thousandths(), 500);
    assert_eq!(reading(0.0).thousandths(), 0);
    assert_eq!(reading(1.0).thousandths(), 1000);
    assert_eq!(reading(0.642).thousandths(), 642);
    assert_eq!(reading(-2.25).thousandths(), -2250);
    assert_eq!(reading(19.256).thousandths(), 19256);
}

#[test]
fn thousandths_drop_the_fraction() {
    assert_eq!(reading(0.0019999).thousandths(), 1);
    assert_eq!(reading(-0.0019999).thousandths(), -1);
    assert_eq!(reading(0.0009).thousandths(), 0);
}

#[test]
fn thousandths_round_the_product_first() {
    // 1.001 is a little less than it seems, and so is its thousandfold.
    assert_eq!(reading(1.001).thousandths(), 1000);
    // 0.29 and 0.57 are a little less than they seem, but their thousandfold is rounded up.
    assert_eq!(reading(0.29).thousandths(), 290);
    assert_eq!(reading(0.57).thousandths(), 570);
    assert_eq!(reading(4.35).thousandths(), 4350);
}

#[test]
fn thousandths_stay_close_to_the_reading() {
    for i in -5000..5000 {
        let x = f64::from(i) / 7.0;
        let exact = (x * 1000.0).abs();
        let found = reading(x).thousandths().abs() as f64;
        assert!(found <= exact + 0.5 && found + 1.0 > exact - 0.5);
    }
}

#[test]
fn thousandths_at_the_limits() {
    assert_eq!(reading(f64::NAN).thousandths(), 0);
    assert_eq!(reading(f64::INFINITY).thousandths(), i64::MAX);
    assert_eq!(reading(f64::NEG_INFINITY).thousandths(), i64::MIN);
    assert_eq!(reading(f64::MAX).thousandths(), i64::MAX);
    assert_eq!(reading(f64::MIN).thousandths(), i64::MIN);
    assert_eq!(reading(1e16).thousandths(), i64::MAX);
    assert_eq!(reading(-1e16).thousandths(), i64::MIN);
    assert_eq!(reading(5e-324).thousandths(), 0);
}

#[test]
fn thousandths_agree_with_the_hardware() {
    for x in samples() {
        assert_eq!(reading(x).thousandths(), (x * 1000_f64) as i64, "{x:e}");
    }
}

#[test]
fn truncation_agrees_with_the_hardware() {
    for x in samples() {
        assert_eq!(reading(x).truncated(), x as i64, "{x:e}");
    }
}

#[test]
fn products_agree_with_the_hardware() {
    let list = samples();
    for i in 0..list.len() {
        let a = list[i];
        let b = list[(i * 7 + 3) % list.len()];
        let product = reading(a).times(reading(b));
        if (a * b).is_nan() {
            assert!(value(product).is_nan());
        } else {
            assert_eq!(product.bits, (a * b).to_bits(), "{a:e} * {b:e}");
        }
    }
    for i in 0..32 {
        for j in 0..32 {
            let product = reading(list[i]).times(reading(list[j]));
            let expected = list[i] * list[j];
            assert!(product.bits == expected.to_bits() || expected.is_nan() && value(product).is_nan());
        }
    }
}

#[test]
fn equality_is_that_of_numbers() {
    assert!(reading(0.0) == reading(-0.0));
    assert!(reading(f64::NAN) != reading(f64::NAN));
    assert!(reading(1.5) == reading(1.5));
    assert!(reading(1.5) != reading(-1.5));
    let list = samples();
    for i in 0..32 {
        for j in 0..32 {
            assert_eq!(reading(list[i]) == reading(list[j]), list[i] == list[j]);
        }
    }
}

#[test]
fn powers_are_moved_into_the_unit_range() {
    assert_eq!(value(clamped(reading(-3.0))), 0.0);
    assert_eq!(value(clamped(reading(0.25))), 0.25);
    assert_eq!(value(clamped(reading(1.0))), 1.0);
    assert_eq!(value(clamped(reading(1.25))), 1.0);
    assert!(value(clamped(reading(f64::NAN))).is_nan());
    for x in samples() {
        let expected = x.clamp(0.0, 1.0);
        assert!(clamped(reading(x)).bits == expected.to_bits() || x.is_nan());
    }
}

#[test]
fn strengths_agree_with_the_hardware() {
    assert_eq!(value(strength(reading(0.5))), 0.4);
    assert_eq!(value(strength(reading(7.0))), 0.8);
    assert_eq!(value(strength(reading(-1.0))), 0.0);
    for x in samples() {
        let expected = (1.0 * x.clamp(0.0, 1.0)) * 0.8;
        let found = value(strength(reading(x)));
        assert!(found.to_bits() == expected.to_bits() || expected.is_nan() && found.is_nan());
        if !x.is_nan() {
            assert!((0.0..=0.8).contains(&found));
        }
    }
}

#[test]
fn strengths_follow_the_power() {
    let mut last = 0.0;
    for i in 0..1500 {
        let found = value(strength(reading(f64::from(i) / 1000.0)));
        assert!(found >= last);
        last = found;
    }
}

#[test]
fn thousandths_follow_readings() {
    let mut last = i64::MIN;
    for i in -3000..3000 {
        let found = reading(f64::from(i) / 1700.0).thousandths();
        assert!(found >= last);
        last = found;
    }
}

#[test]
fn whole_numbers_are_scaled_without_error() {
    for n in [0_i64, 1, 2, 999, 12345, 9_007_199_254_740] {
        assert_eq!(reading(n as f64).thousandths(), 1000 * n);
        assert_eq!(reading(-n as f64).thousandths(), -1000 * n);
    }
}

#[test]
fn thousandths_are_the_whole_part_of_the_product() {
    for x in samples() {
        assert_eq!(reading(x).thousandths(), reading(x).times(reading(1000.0)).truncated(), "{x:e}");
    }
}
