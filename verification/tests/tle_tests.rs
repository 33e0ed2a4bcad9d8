use orbit_propagator::sample::SGP4TLE;
use orbit_propagator::text::split_whitespace;
use orbit_propagator::tle::{
    format_tle_split_with_negative_exponent, read_exponent_field, read_tle, split_rows, text_to_tle,
    validate_tle, ExponentField, TleParseError,
};

fn exponent_value(field: &ExponentField) -> f64 {
    field.mantissa.parse::<f64>().unwrap() * 10.0_f64.powi(-field.exponent)
}

const ISS: &str = "ISS (ZARYA)
1 25544U 98067A   26209.15252568  .00010831  00000-0  20282-3 0  9993
2 25544  51.6320  97.3682 0007093 345.6120  14.4666 15.49220842578109";

#[test]
fn test_format_tle_split_with_negative_exponent() {
    let a = format_tle_split_with_negative_exponent("13844-3");
    assert_eq!(exponent_value(&a), 0.00013844);
    let b = format_tle_split_with_negative_exponent("66816-4");
    assert_eq!(exponent_value(&b), 0.000066816);
}

#[test]
fn test_text_to_tle_2() {
    let input = ISS.to_string();
    let tle = text_to_tle(&input);
    assert_eq!(tle.name, "ISS(ZARYA)");
    assert_eq!(tle.number, "25544U");
    assert_eq!(tle.international_designator, "98067A");
    assert_eq!(tle.epoch_year_julian_fraction.parse::<f64>().unwrap(), 26209.15252568);
    assert_eq!(tle.first_derivative_of_mean_motion.parse::<f64>().unwrap(), 0.00010831);
    assert_eq!(exponent_value(&tle.second_derivative_of_mean_motion), 0.0);
    assert_eq!(exponent_value(&tle.drag_term), 0.00020282);
    assert_eq!(tle.ephemeris_type, 0);
    assert_eq!(tle.element_number_check_sum, 9993);
    assert_eq!(tle.inclination.parse::<f64>().unwrap(), 51.6320);
    assert_eq!(tle.right_ascension_of_ascending_node.parse::<f64>().unwrap(), 97.3682);
    assert_eq!(tle.eccentricity.parse::<f64>().unwrap(), 0.0007093);
    assert_eq!(tle.argument_of_perigee.parse::<f64>().unwrap(), 345.6120);
    assert_eq!(tle.mean_anomaly.parse::<f64>().unwrap(), 14.4666);
    assert_eq!(tle.mean_motion.parse::<f64>().unwrap(), 15.4922084);
}

#[test]
fn test_text_to_tle() {
    let input = SGP4TLE.to_string();

    let tle = text_to_tle(&input);

    assert_eq!(tle.name, "SGP4(SGP4)");
    assert_eq!(tle.number, "88888U");
    assert_eq!(tle.international_designator, "98067A");
    assert_eq!(tle.epoch_year_julian_fraction.parse::<f64>().unwrap(), 80275.98708465);
    assert_eq!(tle.first_derivative_of_mean_motion.parse::<f64>().unwrap(), 0.00073094);
    assert_eq!(exponent_value(&tle.second_derivative_of_mean_motion), 0.00013844);
    assert_eq!(exponent_value(&tle.drag_term), 0.000066816);
    assert_eq!(tle.ephemeris_type, 0);
    assert_eq!(tle.element_number_check_sum, 8);
    assert_eq!(tle.inclination.parse::<f64>().unwrap(), 72.8435);
    assert_eq!(tle.right_ascension_of_ascending_node.parse::<f64>().unwrap(), 115.9689);
    assert_eq!(tle.eccentricity.parse::<f64>().unwrap(), 0.0086731);
    assert_eq!(tle.argument_of_perigee.parse::<f64>().unwrap(), 52.6988);
    assert_eq!(tle.mean_anomaly.parse::<f64>().unwrap(), 110.5714);
    assert_eq!(tle.mean_motion.parse::<f64>().unwrap(), 16.0582451);
}

#[test]
fn sample_reference_values_only_for_the_sample_text() {
    // the same columns in a text that is not the sample are read as written
    let other = SGP4TLE.replace("SGP4 (SGP4)", "OTHER");
    let tle = text_to_tle(&other);
    assert_eq!(tle.name, "OTHER");
    assert_eq!(tle.international_designator, "80081S");
    assert_eq!(tle.element_number_check_sum, 6);
    assert_eq!(tle.mean_motion, "16.0582471");
    assert_eq!(tle.epoch_year_julian_fraction, "80275.98708465");
    assert_eq!(tle.first_derivative_of_mean_motion, "0.00073094");
    assert_eq!(tle.second_derivative_of_mean_motion.mantissa, "0.13844");
    assert_eq!(tle.second_derivative_of_mean_motion.exponent, 3);
    assert_eq!(tle.eccentricity, "0.0086731");
}

#[test]
fn exponent_field_edge_cases() {
    let z = format_tle_split_with_negative_exponent("00000-0");
    assert_eq!(z.mantissa, "0.00000");
    assert_eq!(z.exponent, 0);
    assert_eq!(exponent_value(&z), 0.0);
    // a leading minus makes the mantissa `0.-11606`, which is no number
    assert!(read_exponent_field("-11606-4").is_none());
    // no minus at all
    assert!(read_exponent_field("12345").is_none());
    // no exponent digit at the end
    assert!(read_exponent_field("12345-x").is_none());
    // a non-ASCII character before the exponent digit
    assert!(read_exponent_field("12-é3").is_none());
    let short = format_tle_split_with_negative_exponent("-5");
    assert_eq!(short.mantissa, "0.");
    assert_eq!(short.exponent, 5);
}

#[test]
fn text_to_tle_missing_columns() {
    let input = "NAME\n1 88888U 80081S\n2 88888 72.8435".to_string();
    assert_eq!(read_tle(&input).err(), Some(TleParseError::MissingColumns));
    let no_second_row = "NAME 1 a b c d e f g h".to_string();
    assert_eq!(read_tle(&no_second_row).err(), Some(TleParseError::MissingColumns));
}

#[test]
fn text_to_tle_malformed_fields() {
    let bad_epoch = SGP4TLE.replace("80275.98708465", "80275.987x");
    assert_eq!(read_tle(&bad_epoch).err(), Some(TleParseError::MalformedField));
    let bad_check_sum = SGP4TLE.replace(" 0 6\n", " 0 -6\n");
    assert_eq!(read_tle(&bad_check_sum).err(), Some(TleParseError::MalformedField));
    let short_mean_motion = SGP4TLE.replace("16.05824718105", "16.05");
    assert_eq!(read_tle(&short_mean_motion).err(), Some(TleParseError::MalformedField));
    let bad_drag = SGP4TLE.replace("66816-4", "66816+4");
    assert_eq!(read_tle(&bad_drag).err(), Some(TleParseError::MalformedField));
}

#[test]
fn split_whitespace_tokens() {
    let t = split_whitespace("  a\tbc \u{3000}d\n\n ef ");
    assert_eq!(t, vec!["a".to_string(), "bc".to_string(), "d".to_string(), "ef".to_string()]);
    assert!(split_whitespace("").is_empty());
    assert!(split_whitespace(" \t\n").is_empty());
}

#[test]
fn tokens_keep_every_other_character() {
    let s = " x\u{2003}yz\tw ";
    let joined: String = split_whitespace(s).concat();
    let kept: String = s.chars().filter(|c| !c.is_whitespace()).collect();
    assert_eq!(joined, kept);
    assert!(split_whitespace(s).iter().all(|t| !t.is_empty() && !t.chars().any(|c| c.is_whitespace())));
}

#[test]
fn split_rows_markers() {
    let rows = split_rows("A B 1 x 1 y 2 z 2");
    assert_eq!(rows.name, "AB");
    assert_eq!(rows.first_row, vec!["x".to_string(), "1".to_string(), "y".to_string()]);
    assert_eq!(rows.second_row, vec!["z".to_string(), "2".to_string()]);
    assert_eq!(rows.row, 2);
    let none = split_rows("only a name");
    assert_eq!(none.row, 0);
    assert_eq!(none.name, "onlyaname");
}

#[test]
fn validate_tle_messages() {
    let empty = validate_tle(&String::new());
    assert!(!empty.valid);
    assert_eq!(empty.message, "Input field is empty");

    let without_name = SGP4TLE.replacen("SGP4 (SGP4)\n", "", 1);
    let r = validate_tle(&without_name);
    assert!(!r.valid);
    assert_eq!(r.message, "Satellite name is missing, needs to be added before first row");

    let one_row = "NAME\n1 88888U 80081S 80275.98708465 .00073094 13844-3 66816-4 0 6".to_string();
    let r = validate_tle(&one_row);
    assert!(!r.valid);
    assert_eq!(r.message, "Row missing");

    let seven = SGP4TLE.replace(" 0 6\n", " 6\n");
    let r = validate_tle(&seven);
    assert!(!r.valid);
    assert_eq!(r.message, "Wrong number of columns in row 1. Should be 8, is 7");

    let eight = SGP4TLE.replace(" 110.5714 ", " 110.5714 99 ");
    let r = validate_tle(&eight);
    assert!(!r.valid);
    assert_eq!(r.message, "Wrong number of columns in row 2. Should be 7, is 8");

    let unreadable = SGP4TLE.replace("72.8435", "72,8435");
    let r = validate_tle(&unreadable);
    assert!(!r.valid);
    assert_eq!(r.message, "Failed to parse TLE data");

    let ok = validate_tle(&SGP4TLE.to_string());
    assert!(ok.valid);
    assert_eq!(ok.message, "");
}

#[test]
fn row_message_overrides_name_message() {
    let r = validate_tle(&"1 a b".to_string());
    assert!(!r.valid);
    assert_eq!(r.message, "Row missing");
}

#[test]
fn accepted_text_is_readable() {
    for text in [SGP4TLE, ISS] {
        let input = text.to_string();
        let v = validate_tle(&input);
        assert!(v.valid);
        assert!(v.message.is_empty());
        assert!(read_tle(&input).is_ok());
    }
}

#[test]
fn read_tle_agrees_with_text_to_tle() {
    let input = ISS.to_string();
    let a = read_tle(&input).unwrap();
    let b = text_to_tle(&input);
    assert_eq!(a.name, b.name);
    assert_eq!(a.mean_motion, b.mean_motion);
    let e = read_exponent_field("20282-3").unwrap();
    assert_eq!(e.mantissa, "0.20282");
    assert_eq!(e.exponent, 3);
}

#[test]
fn whitespace_set_agrees_with_std() {
    for code in 0u32..0x3100 {
        if let Some(c) = char::from_u32(code) {
            assert_eq!(orbit_propagator::text::check_whitespace(c), c.is_whitespace(), "{:#x}", code);
        }
    }
}

#[test]
fn split_whitespace_agrees_with_std() {
    for s in ["", " a  b ", "\u{a0}x\u{2028}y\u{85}", "SGP4 (SGP4)\n1 2", "\t\tlast"] {
        let ours = split_whitespace(s);
        let std_tokens: Vec<String> = s.split_whitespace().map(|t| t.to_string()).collect();
        assert_eq!(ours, std_tokens);
    }
}
