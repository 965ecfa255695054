use balatro_core::double::Double;

fn d(x: f64) -> Double {
    Double::from_bits(x.to_bits())
}

fn same(a: Double, b: f64) -> bool {
    (a.is_nan() && b.is_nan()) || a.to_bits() == b.to_bits()
}

/// Numbers of every class: zeros, subnormals, powers of two and their
/// neighbours, infinities, NaN, and a spread of random encodings.
fn samples() -> Vec<f64> {
    let mut v = vec![
        0.0,
        -0.0,
        1.0,
        -1.0,
        0.5,
        1.5,
        2.5,
        -2.5,
        3.0,
        0.1,
        0.01,
        1e-300,
        -1e-300,
        1e300,
        f64::MAX,
        f64::MIN_POSITIVE,
        f64::from_bits(1),
        f64::from_bits(0x000f_ffff_ffff_ffff),
        f64::INFINITY,
        f64::NEG_INFINITY,
        f64::NAN,
        9007199254740992.0,
        9007199254740993.0,
        4503599627370495.5,
        1.0 / 16384.0,
        3.0 / 16384.0,
        1.1239285023,
        std::f64::consts::PI,
    ];
    let mut x: u64 = 0x9e37_79b9_7f4a_7c15;
    for i in 0..300u64 {
        x ^= x << 13;
        x ^= x >> 7;
        x ^= x << 17;
        v.push(f64::from_bits(x));
        // Near one, where rounding and cancellation are frequent.
        v.push(f64::from_bits((x & 0x800f_ffff_ffff_ffff) | ((1015 + i % 20) << 52)));
    }
    v
}

#[test]
fn arithmetic_is_the_hardware_arithmetic() {
    let v = samples();
    for &a in &v {
        for &b in &v {
            assert!(same(d(a).add(d(b)), a + b), "{a:e} + {b:e}");
            assert!(same(d(a).sub(d(b)), a - b), "{a:e} - {b:e}");
            assert!(same(d(a).mul(d(b)), a * b), "{a:e} * {b:e}");
            assert!(same(d(a).div(d(b)), a / b), "{a:e} / {b:e}");
        }
    }
}

#[test]
fn comparison_is_the_hardware_comparison() {
    let v = samples();
    for &a in &v {
        for &b in &v {
            assert_eq!(d(a).lt(d(b)), a < b, "{a:e} < {b:e}");
            assert_eq!(d(a).le(d(b)), a <= b, "{a:e} <= {b:e}");
            assert_eq!(d(a).equals(d(b)), a == b, "{a:e} == {b:e}");
            let m = d(a).max(d(b));
            if a != b {
                assert!(same(m, a.max(b)), "max {a:e} {b:e}");
            }
        }
    }
}

#[test]
fn floor_abs_neg_and_integer_conversion_match() {
    for &a in &samples() {
        assert!(same(d(a).floor(), a.floor()), "floor {a:e}");
        assert!(same(d(a).abs(), a.abs()), "abs {a:e}");
        assert!(same(d(a).neg(), -a), "neg {a:e}");
        assert_eq!(d(a).to_i64(), a as i64, "cast {a:e}");
    }
    for n in [0i64, 1, -1, 7, -300, 1 << 53, (1 << 53) + 1, i64::MAX, i64::MIN] {
        assert!(same(Double::from_i64(n), n as f64), "from {n}");
    }
    assert!(same(Double::from_u64(u64::MAX), u64::MAX as f64));
}

#[test]
fn decimal_rounding_goes_through_thirteen_places() {
    for &a in &samples() {
        if a.is_finite() {
            let want: f64 = format!("{a:.13}").parse().unwrap();
            assert!(same(d(a).round13(), want), "round13 {a:e}");
        }
    }
    assert!(d(f64::NAN).round13().is_nan());
}

#[test]
fn literals_are_the_nearest_doubles() {
    assert_eq!(Double::lit(1, 100).to_bits(), 0.01f64.to_bits());
    assert_eq!(Double::lit(15, 10).to_bits(), 1.5f64.to_bits());
    assert_eq!(Double::lit(1, 10_000).to_bits(), 0.0001f64.to_bits());
    assert_eq!(
        Double::lit(11239285023, 10_000_000_000).to_bits(),
        1.1239285023f64.to_bits()
    );
    assert_eq!(
        Double::lit(2134453429141, 1_000_000_000_000).to_bits(),
        2.134453429141f64.to_bits()
    );
    assert_eq!(Double::lit(172431234, 100_000_000).to_bits(), 1.72431234f64.to_bits());
}
