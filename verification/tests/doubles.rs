//! Bit-pattern arithmetic against the hardware's.

use mirrorlane::double::Double;

fn d(x: f64) -> Double {
    Double::from_bits(x.to_bits())
}

/// A plain generator of varied bit patterns.
fn next(seed: &mut u64) -> u64 {
    *seed ^= *seed << 13;
    *seed ^= *seed >> 7;
    *seed ^= *seed << 17;
    *seed
}

fn natural(seed: &mut u64) -> f64 {
    loop {
        let x = f64::from_bits(next(seed) & 0x7FFF_FFFF_FFFF_FFFF);
        if x.is_finite() {
            return x;
        }
    }
}

fn unit(seed: &mut u64) -> f64 {
    (next(seed) >> 11) as f64 / (1u64 << 53) as f64
}

#[test]
fn sums_agree_with_the_hardware() {
    let mut seed = 0x1234_5678_9ABC_DEF1;
    for _ in 0..20000 {
        let (a, b) = (natural(&mut seed), natural(&mut seed));
        assert_eq!(d(a).plus(d(b)).to_bits(), (a + b).to_bits(), "{a} + {b}");
        let (a, b) = (unit(&mut seed) * 7.0, unit(&mut seed));
        assert_eq!(d(a).plus(d(b)).to_bits(), (a + b).to_bits(), "{a} + {b}");
        let near = f64::from_bits(a.to_bits() ^ (next(&mut seed) >> 12));
        assert_eq!(d(a).plus(d(near)).to_bits(), (a + near).to_bits());
    }
    for (a, b) in [
        (0.1, 0.2),
        (0.0, 0.0),
        (0.0, -0.0),
        (f64::MAX, f64::MAX),
        (f64::MAX, 1.0),
        (5e-324, 5e-324),
        (f64::MIN_POSITIVE, 5e-324),
        (9007199254740992.0, 1.0),
        (9007199254740993.0, 1.0),
        (1.0, f64::EPSILON / 2.0),
        (1.0 + f64::EPSILON, f64::EPSILON / 2.0),
    ] {
        assert_eq!(d(a).plus(d(b)).to_bits(), (a + b).to_bits(), "{a} + {b}");
    }
}

#[test]
fn quotients_agree_with_the_hardware() {
    let mut seed = 0xFEDC_BA98_7654_3211;
    for _ in 0..20000 {
        let (a, b) = (natural(&mut seed), natural(&mut seed));
        if b > 0.0 {
            assert_eq!(d(a).over(d(b)).to_bits(), (a / b).to_bits(), "{a} / {b}");
        }
        let (a, b) = (unit(&mut seed) * 3.0, unit(&mut seed) + 0.001);
        assert_eq!(d(a).over(d(b)).to_bits(), (a / b).to_bits(), "{a} / {b}");
    }
    for (a, b) in [
        (1.0, 3.0),
        (2.0, 3.0),
        (0.0, 5.0),
        (5e-324, 2.0),
        (1.5e-323, 2.0),
        (5e-324, f64::MAX),
        (f64::MAX, 5e-324),
        (f64::MIN_POSITIVE, 3.0),
        (0.9, 1.8),
    ] {
        assert_eq!(d(a).over(d(b)).to_bits(), (a / b).to_bits(), "{a} / {b}");
    }
}

#[test]
fn products_agree_with_the_hardware() {
    let mut seed = 0x0F1E_2D3C_4B5A_6978;
    for _ in 0..20000 {
        let a = natural(&mut seed);
        let n = next(&mut seed) >> 11;
        assert_eq!(d(a).times(n).to_bits(), (a * n as f64).to_bits(), "{a} * {n}");
        let a = unit(&mut seed);
        let n = next(&mut seed) % 1000;
        assert_eq!(d(a).times(n).to_bits(), (a * n as f64).to_bits(), "{a} * {n}");
    }
    for n in [0u64, 1, 3, 1 << 53, (1 << 53) + 1, u64::MAX, u64::MAX - 1023] {
        assert_eq!(d(1.0).times(n).to_bits(), (n as f64).to_bits(), "{n}");
    }
}

#[test]
fn the_order_agrees_with_the_hardware() {
    let values = [
        f64::NEG_INFINITY,
        -1.5,
        -5e-324,
        -0.0,
        0.0,
        5e-324,
        0.6,
        1.0,
        f64::INFINITY,
        f64::NAN,
    ];
    for a in values {
        for b in values {
            assert_eq!(d(a).less(d(b)), a < b, "{a} < {b}");
            assert_eq!(d(a) == d(b), a == b, "{a} == {b}");
        }
        assert_eq!(d(a).is_nan(), a.is_nan());
    }
}

#[test]
fn clamping_agrees_with_the_hardware() {
    for a in [-1.0, -0.0, 0.0, 0.25, 1.0, 1.5, f64::INFINITY, f64::NEG_INFINITY, 5e-324] {
        assert_eq!(d(a).clamp_unit().to_bits(), a.clamp(0.0, 1.0).to_bits(), "{a}");
    }
    assert_eq!(d(f64::NAN).clamp_unit(), d(0.0), "what is no number is in range too");
}

#[test]
fn two_decimals_agree_with_the_formatter() {
    let mut seed = 0x2545_F491_4F6C_DD1D;
    for _ in 0..5000 {
        let a = unit(&mut seed);
        assert_eq!(d(a).to_two_decimals(), format!("{a:.2}"));
        let a = unit(&mut seed) * 100000.0;
        assert_eq!(d(a).to_two_decimals(), format!("{a:.2}"));
    }
    for _ in 0..300 {
        let a = natural(&mut seed);
        assert_eq!(d(a).to_two_decimals(), format!("{a:.2}"));
    }
    for a in [
        0.0,
        -0.0,
        0.005,
        0.015,
        0.125,
        0.375,
        0.625,
        0.875,
        0.995,
        1.0,
        2.5,
        1e16,
        9007199254740993.0,
        1e300,
        f64::MAX,
        5e-324,
        f64::INFINITY,
    ] {
        assert_eq!(d(a).to_two_decimals(), format!("{a:.2}"), "{a}");
    }
}
