use orbit_propagator::numeric::{decimal_string, is_float_text, parse_i32, parse_u32};
use orbit_propagator::text::chars_of;

#[test]
fn parse_u32_cases() {
    assert_eq!(parse_u32("0"), Some(0));
    assert_eq!(parse_u32("+42"), Some(42));
    assert_eq!(parse_u32("9993"), Some(9993));
    assert_eq!(parse_u32("4294967295"), Some(4294967295));
    assert_eq!(parse_u32("4294967296"), None);
    assert_eq!(parse_u32("99999999999999999999"), None);
    assert_eq!(parse_u32("-1"), None);
    assert_eq!(parse_u32(""), None);
    assert_eq!(parse_u32("+"), None);
    assert_eq!(parse_u32(" 1"), None);
    assert_eq!(parse_u32("1a"), None);
}

#[test]
fn parse_u32_agrees_with_std() {
    for s in ["0", "+7", "007", "4294967295", "4294967296", "-0", "", "+", "12 ", "x"] {
        assert_eq!(parse_u32(s), s.parse::<u32>().ok(), "{}", s);
    }
}

#[test]
fn parse_i32_cases() {
    assert_eq!(parse_i32("900"), Some(900));
    assert_eq!(parse_i32("-2147483648"), Some(i32::MIN));
    assert_eq!(parse_i32("2147483647"), Some(i32::MAX));
    assert_eq!(parse_i32("2147483648"), None);
    assert_eq!(parse_i32("-2147483649"), None);
    assert_eq!(parse_i32("-"), None);
    assert_eq!(parse_i32("+-1"), None);
    assert_eq!(parse_i32("-0"), Some(0));
    for s in ["80", "-9", "+5", "abc", "", "--1", "1.0"] {
        assert_eq!(parse_i32(s), s.parse::<i32>().ok(), "{}", s);
    }
}

#[test]
fn decimal_string_cases() {
    assert_eq!(decimal_string(0), "0");
    assert_eq!(decimal_string(7), "7");
    assert_eq!(decimal_string(10), "10");
    assert_eq!(decimal_string(900), "900");
    assert_eq!(decimal_string(u64::MAX), u64::MAX.to_string());
}

#[test]
fn float_text_cases() {
    let accepted = [
        "1", "1.", ".5", "0.5", "+1.5", "-2", "1e5", "1E+5", "2.5e-3", ".5E7", "inf", "-Infinity",
        "NaN", "+nan", "INF", "80275.98708465", "0.00073094", "16.0582471",
    ];
    for s in accepted {
        assert!(is_float_text(s), "{}", s);
        assert!(s.parse::<f64>().is_ok(), "{}", s);
    }
    let refused = [
        "", ".", "+", "e5", "1e", "1e+", "1.2.3", "0.-11606", " 1", "1 ", "infin", "nana", "1,5",
        "0x10", "1e5.0", "--1",
    ];
    for s in refused {
        assert!(!is_float_text(s), "{}", s);
        assert!(s.parse::<f64>().is_err(), "{}", s);
    }
}

#[test]
fn chars_of_cases() {
    assert_eq!(chars_of("aé\u{3000}"), vec!['a', 'é', '\u{3000}']);
    assert!(chars_of("").is_empty());
}
