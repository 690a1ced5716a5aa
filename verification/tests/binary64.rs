use polybot::binary64::number;
use polybot::binary64::Binary64;
use polybot::decimal::append_decimal;
use polybot::decimal::parse_binary64;
use polybot::decimal::parse_i64;
use polybot::decimal::parse_unsigned;
use polybot::formatting::fixed;
use polybot::formatting::order_text;

fn of(x: f64) -> Binary64 {
    number(x.to_bits())
}

fn native(x: Binary64) -> f64 {
    f64::from_bits(x.bits)
}

fn agrees(x: Binary64, y: f64) -> bool {
    x.bits == y.to_bits() || (x.is_nan() && y.is_nan())
}

struct Source {
    state: u64,
}

impl Source {
    fn next(&mut self) -> u64 {
        self.state ^= self.state << 13;
        self.state ^= self.state >> 7;
        self.state ^= self.state << 17;
        self.state
    }

    fn any(&mut self) -> f64 {
        let kind = self.next() % 8;
        let bits = self.next();
        match kind {
            0 => f64::from_bits(bits),
            1 => (bits % 2_000_001) as f64 / 1_000_000.0 - 1.0,
            2 => (bits % 100_000) as f64 / 100.0,
            3 => f64::from_bits(bits & 0x800f_ffff_ffff_ffff),
            4 => (bits % 4096) as f64 - 2048.0 + 0.5,
            5 => f64::from_bits((bits & 0x800f_ffff_ffff_ffff) | 0x3ff0_0000_0000_0000),
            6 => f64::from_bits((bits & 0x803f_ffff_ffff_ffff) | 0x4300_0000_0000_0000),
            _ => specials()[(bits % 14) as usize],
        }
    }
}

fn specials() -> Vec<f64> {
    vec![
        0.0,
        -0.0,
        1.0,
        -1.0,
        0.5,
        -0.5,
        f64::INFINITY,
        f64::NEG_INFINITY,
        f64::NAN,
        f64::MAX,
        f64::MIN_POSITIVE,
        f64::from_bits(1),
        4503599627370496.5,
        9007199254740993.0,
    ]
}

#[test]
fn four_operations_agree_with_the_hardware() {
    let mut source = Source { state: 0x1234_5678_9abc_def1 };
    for _ in 0..200_000 {
        let (a, b) = (source.any(), source.any());
        let (x, y) = (of(a), of(b));
        assert!(agrees(x.plus(y), a + b), "{a:e} + {b:e}");
        assert!(agrees(x.minus(y), a - b), "{a:e} - {b:e}");
        assert!(agrees(x.times(y), a * b), "{a:e} * {b:e}");
        assert!(agrees(x.over(y), a / b), "{a:e} / {b:e}");
    }
}

#[test]
fn special_operands_agree_with_the_hardware() {
    for a in specials() {
        for b in specials() {
            let (x, y) = (of(a), of(b));
            assert!(agrees(x.plus(y), a + b), "{a:e} + {b:e}");
            assert!(agrees(x.minus(y), a - b), "{a:e} - {b:e}");
            assert!(agrees(x.times(y), a * b), "{a:e} * {b:e}");
            assert!(agrees(x.over(y), a / b), "{a:e} / {b:e}");
            assert_eq!(x.lt(y), a < b);
            assert_eq!(x.le(y), a <= b);
            assert_eq!(x.gt(y), a > b);
            assert_eq!(x.ge(y), a >= b);
            assert_eq!(x.same(y), a == b);
            assert_eq!(x.total_lt(y), a.total_cmp(&b).is_lt());
        }
    }
}

#[test]
fn rounding_functions_agree_with_the_hardware() {
    let mut source = Source { state: 0x0fed_cba9_8765_4321 };
    for _ in 0..200_000 {
        let a = source.any();
        let x = of(a);
        assert!(agrees(x.floor(), a.floor()), "floor {a:e}");
        assert!(agrees(x.ceil(), a.ceil()), "ceil {a:e}");
        assert!(agrees(x.round(), a.round()), "round {a:e}");
        assert!(agrees(x.trunc(), a.trunc()), "trunc {a:e}");
        assert!(agrees(x.sqrt(), a.sqrt()), "sqrt {a:e}");
        assert!(agrees(x.abs(), a.abs()), "abs {a:e}");
        assert!(agrees(x.negate(), -a), "negate {a:e}");
        assert_eq!(x.to_i64(), a as i64, "to_i64 {a:e}");
        assert_eq!(x.is_finite(), a.is_finite());
        assert_eq!(x.is_nan(), a.is_nan());
        assert_eq!(x.is_infinite(), a.is_infinite());
    }
}

#[test]
fn comparisons_agree_with_the_hardware() {
    let mut source = Source { state: 0x5555_aaaa_3333_cccd };
    for _ in 0..100_000 {
        let (a, b) = (source.any(), source.any());
        let (x, y) = (of(a), of(b));
        assert_eq!(x.lt(y), a < b);
        assert_eq!(x.ge(y), a >= b);
        assert_eq!(x.total_lt(y), a.total_cmp(&b).is_lt());
        if a != b {
            assert!(agrees(x.max(y), a.max(b)), "max {a:e} {b:e}");
            assert!(agrees(x.min(y), a.min(b)), "min {a:e} {b:e}");
        }
        if a <= b {
            let c = source.any();
            assert!(agrees(of(c).clamp(x, y), c.clamp(a, b)), "clamp {c:e} {a:e} {b:e}");
        }
    }
}

#[test]
fn integers_become_the_nearest_numbers() {
    let mut source = Source { state: 0x7777_1111_2222_9999 };
    for _ in 0..50_000 {
        let n = source.next() >> (source.next() % 64);
        assert_eq!(native(Binary64::from_u64(n)), n as f64);
        assert_eq!(native(Binary64::from_i64(n as i64)), n as i64 as f64);
    }
    assert_eq!(native(Binary64::from_u64(u64::MAX)), 18446744073709551616.0);
    assert_eq!(native(Binary64::from_i64(i64::MIN)), -9223372036854775808.0);
}

#[test]
fn decimal_text_is_read_as_the_standard_library_reads_it() {
    let texts = [
        "0", "-0", "1", "+1", "0.1", ".5", "5.", "1e3", "1E-3", "1e+3", "-2.5e-7", "1e400", "-1e400",
        "1e-400", "4.9e-324", "2.4703282292062327e-324", "2.4703282292062328e-324",
        "1.7976931348623157e308", "1.7976931348623159e308", "9007199254740993", "9007199254740992.5",
        "0.30000000000000004", "123456789012345678901234567890", "inf", "-Infinity", "NaN", "iNf", "",
        ".", "e5", "1e", "1e+", "+", "-", "1.2.3", "1 ", " 1", "0x10", "1_000", "--1", "infinit",
        "00000000000000000000000000000000000000000000000001.50",
        "1e99999999999999999999999999", "1e-99999999999999999999999999", "0e999999999999999999999",
        "8.98846567431157953864652595394512366808988489471153286367150405788663379e307",
    ];
    for text in texts {
        match (parse_binary64(text), text.parse::<f64>()) {
            (Some(x), Ok(y)) => assert!(agrees(x, y), "{text}"),
            (None, Err(_)) => {}
            (x, y) => panic!("{text}: {x:?} {y:?}"),
        }
    }
    let mut source = Source { state: 0x2468_1357_9bdf_ace1 };
    for _ in 0..3_000 {
        let a = source.any();
        if a.is_finite() {
            let shortest = format!("{a:e}");
            assert_eq!(parse_binary64(&shortest).unwrap().bits, a.to_bits(), "{shortest}");
            let plain = format!("{a}");
            assert_eq!(parse_binary64(&plain).unwrap().bits, a.to_bits(), "{plain}");
        }
    }
}

#[test]
fn integers_are_read_as_the_standard_library_reads_them() {
    let texts = [
        "0", "7", "+7", "-7", "-0", "9223372036854775807", "9223372036854775808",
        "-9223372036854775808", "-9223372036854775809", "18446744073709551615",
        "18446744073709551616", "", "+", "-", "1.0", " 1", "1 ", "0000000000000000000000000000012",
        "12a", "4294967295", "4294967296",
    ];
    for text in texts {
        assert_eq!(parse_i64(text), text.parse::<i64>().ok(), "{text}");
        assert_eq!(parse_unsigned(text, u64::MAX), text.parse::<u64>().ok().filter(|_| !text.starts_with('-')), "{text}");
        assert_eq!(
            parse_unsigned(text, u32::MAX as u64),
            text.parse::<u32>().ok().filter(|_| !text.starts_with('-')).map(|n| n as u64),
            "{text}"
        );
    }
}

#[test]
fn decimal_writing_and_reading_go_back_and_forth() {
    for n in [0u128, 9, 10, 99, 100, 12345, u64::MAX as u128, u128::MAX] {
        let mut text = "=".to_string();
        append_decimal(&mut text, n);
        assert_eq!(text, format!("={n}"));
    }
}

#[test]
fn fixed_places_agree_with_the_standard_library() {
    let mut source = Source { state: 0x0101_0202_0303_0405 };
    for _ in 0..2_000 {
        let a = source.any();
        for places in [0usize, 1, 2, 3, 4, 6, 8, 25] {
            assert_eq!(fixed(of(a), places as u32), format!("{a:.places$}"), "{a:e} {places}");
        }
    }
    for (value, places, text) in [
        (0.125, 2, "0.12"),
        (0.375, 2, "0.38"),
        (2.5, 0, "2"),
        (-0.001, 2, "-0.00"),
        (1e23, 1, "99999999999999991611392.0"),
        (0.05, 19, "0.0500000000000000028"),
        (1e-30, 32, "0.00000000000000000000000000000100"),
    ] {
        assert_eq!(fixed(of(value), places), text);
    }
    assert_eq!(fixed(of(5e-324), 1080), format!("{:.1080}", 5e-324));
    assert_eq!(fixed(of(f64::NEG_INFINITY), 3), "-inf");
    assert_eq!(fixed(of(f64::NAN), 3), "NaN");
}

#[test]
fn only_amounts_above_zero_can_be_ordered() {
    assert_eq!(order_text(of(0.47), 2), Some("0.47".to_string()));
    assert_eq!(order_text(of(20.0), 2), Some("20.00".to_string()));
    assert_eq!(order_text(of(0.0), 2), None);
    assert_eq!(order_text(of(-1.0), 2), None);
    assert_eq!(order_text(of(f64::NAN), 2), None);
    assert_eq!(order_text(of(f64::INFINITY), 2), None);
}
