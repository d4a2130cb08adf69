use tienda_pos::double::{
    absolute, by_hundred, from_integer, is_less, is_same, minus, negate, plus, times, to_whole,
};
use tienda_pos::rules::{clamp, iva_parts, HUNDRED, IVA_RATE};

/// Numbers of every kind: zeros, subnormals, ties, large ones, the infinities and what is none.
fn samples() -> Vec<f64> {
    let mut out: Vec<f64> = vec![
        0.0,
        -0.0,
        f64::from_bits(1),
        -f64::from_bits(1),
        f64::from_bits(2),
        f64::from_bits(3),
        f64::from_bits(0x000f_ffff_ffff_ffff),
        f64::MIN_POSITIVE,
        f64::from_bits(0x0010_0000_0000_0001),
        1e-300,
        1e-10,
        0.01,
        0.1,
        0.16,
        0.5,
        0.499999999999999944,
        1.0,
        -1.0,
        1.0 + f64::EPSILON,
        1.5,
        2.5,
        -2.5,
        3.0,
        11.6,
        19.99,
        99.995,
        100.0,
        1234.565,
        -1234.565,
        4503599627370495.5,
        4503599627370496.0,
        9007199254740991.0,
        9007199254740992.0,
        9007199254740994.0,
        1e16,
        1e22,
        -1e100,
        1e200,
        1e308,
        f64::MAX,
        f64::MIN,
        f64::INFINITY,
        f64::NEG_INFINITY,
        f64::NAN,
    ];
    // and a scatter of patterns
    let mut x: u64 = 0x9e37_79b9_7f4a_7c15;
    for _ in 0..80 {
        x ^= x << 13;
        x ^= x >> 7;
        x ^= x << 17;
        out.push(f64::from_bits(x));
        let small: f64 = ((x >> 12) as f64) / 4503599627370496.0 * 2000.0 - 1000.0;
        out.push(small);
        out.push((small * 100.0).round() / 100.0);
        out.push(f64::from_bits((x & 0x001f_ffff_ffff_ffff) | (x & 0x8000_0000_0000_0000)));
    }
    out
}

/// The bits of a number; every result that is not a number counts as the same.
fn bits(x: f64) -> u64 {
    if x.is_nan() {
        0x7ff8_0000_0000_0000
    } else {
        x.to_bits()
    }
}

#[test]
fn sums_and_differences_are_rounded_as_the_machine_does() {
    let xs: Vec<f64> = samples();
    for a in &xs {
        for b in &xs {
            assert_eq!(plus(a.to_bits(), b.to_bits()), bits(a + b), "{} + {}", a, b);
            assert_eq!(minus(a.to_bits(), b.to_bits()), bits(a - b), "{} - {}", a, b);
            assert_eq!(plus(a.to_bits(), b.to_bits()), plus(b.to_bits(), a.to_bits()));
        }
    }
}

#[test]
fn products_are_rounded_as_the_machine_does() {
    let xs: Vec<f64> = samples();
    for a in &xs {
        for b in &xs {
            assert_eq!(times(a.to_bits(), b.to_bits()), bits(a * b), "{} * {}", a, b);
        }
    }
}

#[test]
fn hundredths_and_whole_numbers_are_rounded_as_the_machine_does() {
    for a in &samples() {
        assert_eq!(by_hundred(a.to_bits()), bits(a / 100.0), "{} / 100", a);
        assert_eq!(to_whole(a.to_bits()), bits(a.round()), "round {}", a);
    }
}

#[test]
fn signs_and_order_are_those_of_the_machine() {
    let xs: Vec<f64> = samples();
    for a in &xs {
        assert_eq!(negate(a.to_bits()), (-a).to_bits());
        assert_eq!(absolute(a.to_bits()), a.abs().to_bits());
        for b in &xs {
            assert_eq!(is_less(a.to_bits(), b.to_bits()), a < b);
            assert_eq!(is_same(a.to_bits(), b.to_bits()), a == b);
        }
    }
}

#[test]
fn integers_are_rounded_as_the_machine_does() {
    let big: [i128; 12] = [
        0,
        1,
        -1,
        7,
        1_000_000,
        9007199254740991,
        9007199254740992,
        9007199254740993,
        9007199254740995,
        u64::MAX as i128,
        i64::MAX as i128,
        i64::MIN as i128,
    ];
    for n in big {
        assert_eq!(from_integer(n), (n as f64).to_bits(), "{}", n);
    }
    let mut x: u64 = 12345;
    for _ in 0..1000 {
        x = x.wrapping_mul(6364136223846793005).wrapping_add(1442695040888963407);
        assert_eq!(from_integer(x as i128), (x as f64).to_bits());
        assert_eq!(from_integer((x as i64) as i128), ((x as i64) as f64).to_bits());
    }
}

#[test]
fn whole_numbers_add_and_subtract_exactly() {
    for a in [0i128, 3, 250, 9007199254740000] {
        for b in [0i128, 1, 17, 991] {
            assert_eq!(plus(from_integer(a), from_integer(b)), from_integer(a + b));
            assert_eq!(minus(from_integer(a), from_integer(b)), from_integer(a - b));
        }
    }
}

#[test]
fn nothing_is_left_below_zero() {
    let stock: u64 = 0.3f64.to_bits();
    let sold: u64 = (0.1f64 + 0.1f64 + 0.1f64 - 0.00000000000000006f64).to_bits();
    assert!(!is_less(stock, sold));
    assert!(!is_less(minus(stock, sold), 0));
    assert_eq!(minus(5.0f64.to_bits(), 5.0f64.to_bits()), 0.0f64.to_bits());
}

#[test]
fn the_rate_and_the_hundred_are_what_they_say() {
    assert_eq!(f64::from_bits(IVA_RATE), 0.16);
    assert_eq!(f64::from_bits(HUNDRED), 100.0);
}

#[test]
fn tax_is_split_off_in_hundredths() {
    for (gross, iva, net) in [
        (0.0, 0.0, 0.0),
        (100.0, 16.0, 84.0),
        (11.6, 1.86, 9.74),
        (12.5, 2.0, 10.5),
        (19.99, 3.2, 16.79),
        (0.03, 0.0, 0.03),
        (-5.0, -0.8, -4.2),
        (0.1, 0.02, 0.08),
        (1e16, 1.6e15, 8.4e15),
    ] {
        let (a, b) = iva_parts(f64::to_bits(gross));
        assert_eq!(f64::from_bits(a), iva, "tax in {}", gross);
        assert_eq!(f64::from_bits(b), net, "rest of {}", gross);
    }
    for x in &samples() {
        let iva: f64 = (x * 0.16 * 100.0).round() / 100.0;
        let net: f64 = ((x - iva) * 100.0).round() / 100.0;
        assert_eq!(iva_parts(x.to_bits()), (bits(iva), bits(net)), "{}", x);
    }
}

#[test]
fn clamp_keeps_to_the_bounds() {
    let (lo, hi) = (9.0f64.to_bits(), 18.0f64.to_bits());
    assert_eq!(clamp(11.0f64.to_bits(), lo, hi), 11.0f64.to_bits());
    assert_eq!(clamp(9.0f64.to_bits(), lo, hi), lo);
    assert_eq!(clamp(18.0f64.to_bits(), lo, hi), hi);
    assert_eq!(clamp((-3.0f64).to_bits(), lo, hi), lo);
    assert_eq!(clamp(18.5f64.to_bits(), lo, hi), hi);
    assert_eq!(clamp(f64::INFINITY.to_bits(), lo, hi), hi);
    assert_eq!(clamp(f64::NAN.to_bits(), lo, hi), f64::NAN.to_bits());
}

#[test]
fn tax_is_sixteen_in_a_hundred_to_the_cent() {
    let mut g: i128 = 0;
    while g < 0x2000_0000_0000 {
        let k: i128 = (16 * g + 50) / 100;
        let (iva, net) = iva_parts(by_hundred(from_integer(g)));
        assert_eq!(iva, by_hundred(from_integer(k)), "tax on {} cents", g);
        assert_eq!(net, by_hundred(from_integer(g - k)), "rest of {} cents", g);
        g = if g < 20_000 { g + 1 } else { g + g / 1000 + 1 };
    }
}

#[test]
fn whole_numbers_multiply_exactly() {
    for a in [0i128, 1, -3, 250, 94906265] {
        for b in [0i128, 1, 17, -991, 94906265] {
            let exact: u64 = from_integer(a * b);
            assert!(is_same(times(from_integer(a), from_integer(b)), exact));
        }
    }
}
