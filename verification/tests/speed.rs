use fan_controller::speed::{is_zero_speed, parse_speed_level};

fn by_float(payload: &str) -> Option<u8> {
    let level = payload.parse::<f32>().ok()?;
    if level.is_finite() {
        Some(level.round().clamp(1.0, 6.0) as u8)
    } else {
        None
    }
}

#[test]
fn parses_and_clamps_speed_levels() {
    assert_eq!(parse_speed_level("1"), Some(1));
    assert_eq!(parse_speed_level("3.4"), Some(3));
    assert_eq!(parse_speed_level("6"), Some(6));
    assert_eq!(parse_speed_level("0"), Some(1));
    assert_eq!(parse_speed_level("7"), Some(6));
    assert_eq!(parse_speed_level("nope"), None);
    assert_eq!(parse_speed_level("NaN"), None);
}

#[test]
fn reads_numbers_as_single_precision() {
    let payloads = [
        "", "+", "-", ".", "+.", "-.", "e5", ".e5", "1e", "1e+", "1e-", "1e5.", "1 ", " 1", "1_0",
        "0x1", "--1", "+-1", "1..2", "1.2.3", "1e5e5", "1f", "inf", "-inf", "+inf", "Infinity",
        "-nan", "NAN", "1", "+1", "-1", "2.", ".5", "-.5", "5.e0", "1e0", "1E0", "25e-1", "0.25E+1",
        "0.00035e4", "350e-2", "3.4999998", "3.49999988", "3.499999880790710449",
        "3.49999988079071044921875", "3.49999988079071044921874", "3.499999880790710449218749999",
        "3.499999880790710449218750001", "1.499999940395355224609375",
        "1.499999940395355224609374", "1.4999999403953552246093749999999999", "1.49999995",
        "2.49999988079071044921875", "2.4999998807907104492187", "4.4999997615814208984375",
        "4.4999997615814208984374", "5.4999997615814208984375", "5.4999997615814208984374",
        "000000000000000000000000000000000000000000000003", "000.4e1", "-0", "0.0", "0e999999",
        "1e38", "3.4e38", "3.5e38", "1e39", "1e400", "-1e39", "-3.4e38", "-7",
        "340282356779733661637539395458142568447", "340282356779733661637539395458142568448",
        "340282356779733661637539395458142568447.999", "3.4028235677973366e38",
        "3.4028235677973367e38", "34028235677973366163753939545814256844e1",
        "34028235677973366163753939545814256844.8e1", "340282350000000000000000000000000000000",
        "1e-400", "1e-45", "0.0000000000000000000000000000000000000000000000000000003e55",
        "99999999999999999999999999999999999999", "999999999999999999999999999999999999999",
        "3e+00000000000000000000000000000000000000000000000000", "\u{0663}", "3\u{00e9}",
    ];
    for payload in payloads {
        assert_eq!(parse_speed_level(payload), by_float(payload), "{payload}");
    }
    for n in 0..8000 {
        let payload = format!("{}.{:03}", n / 1000, n % 1000);
        assert_eq!(parse_speed_level(&payload), by_float(&payload), "{payload}");
        let payload = format!("-{}e-3", n);
        assert_eq!(parse_speed_level(&payload), by_float(&payload), "{payload}");
    }
}

#[test]
fn reads_numbers_of_any_length() {
    assert_eq!(parse_speed_level("1e99999999999999999999999999999999999999"), None);
    assert_eq!(parse_speed_level("-1e99999999999999999999999999999999999999"), None);
    assert_eq!(parse_speed_level("1e-99999999999999999999999999999999999999"), Some(1));
    assert_eq!(parse_speed_level("0e99999999999999999999999999999999999999"), Some(1));
    let digits = "4".repeat(3000);
    assert_eq!(parse_speed_level(&format!("{digits}e-2999")), Some(4));
    assert_eq!(parse_speed_level(&format!("{digits}e-3000")), Some(1));
    assert_eq!(parse_speed_level(&digits), None);
}

#[test]
fn whole_numbers_are_brought_within_the_levels() {
    for n in 0..1000u32 {
        let expected = n.clamp(1, 6) as u8;
        assert_eq!(parse_speed_level(&n.to_string()), Some(expected));
        assert_eq!(is_zero_speed(&n.to_string()), n == 0);
    }
}

#[test]
fn zero_is_zero_however_it_is_written() {
    for payload in ["0", "-0", "+0", "0.", ".0", "000.000", "0e5", "-0.0E-7"] {
        assert!(is_zero_speed(payload), "{payload}");
    }
    for payload in ["", ".", "off", "0x0", "0.1", "1e-9", "10", "nan"] {
        assert!(!is_zero_speed(payload), "{payload}");
    }
}

#[test]
fn larger_numbers_never_ask_for_lower_levels() {
    let ascending = [
        "-1e38", "-7", "-0.5", "-0", "0", "1e-40", "0.4999", "1", "1.4999", "1.5", "2.49e0", "25e-1",
        "3.4", "35e-1", "4.4", "4.5", "5.49", "5.5", "6", "0.7e1", "1e2", "3.4e38",
    ];
    for pair in ascending.windows(2) {
        assert!(parse_speed_level(pair[0]).unwrap() <= parse_speed_level(pair[1]).unwrap());
    }
}
