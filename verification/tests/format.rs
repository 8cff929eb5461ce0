use gtfs_coords::coordinate::{format_coordinate, format_fixed};

#[test]
fn plain_decimal_gets_eight_places() {
    assert_eq!(format_coordinate("45.1"), "45.10000000");
    assert_eq!(format_coordinate("-73.5"), "-73.50000000");
    assert_eq!(format_coordinate("7"), "7.00000000");
    assert_eq!(format_coordinate("+7"), "7.00000000");
    assert_eq!(format_coordinate("5."), "5.00000000");
    assert_eq!(format_coordinate(".5"), "0.50000000");
    assert_eq!(format_coordinate("0045.25"), "45.25000000");
}

#[test]
fn scientific_notation_is_accepted() {
    assert_eq!(format_coordinate("1e-3"), "0.00100000");
    assert_eq!(format_coordinate("1.5E2"), "150.00000000");
    assert_eq!(format_coordinate("4.51e+1"), "45.10000000");
    assert_eq!(format_coordinate("-7.35e1"), "-73.50000000");
    assert_eq!(format_coordinate("123456789e-9"), "0.12345679");
}

#[test]
fn surrounding_white_space_is_ignored() {
    assert_eq!(format_coordinate(" 45.1 "), "45.10000000");
    assert_eq!(format_coordinate("\t-73.5\r\n"), "-73.50000000");
    assert_eq!(format_coordinate("\u{a0}1\u{3000}"), "1.00000000");
}

#[test]
fn non_numeric_text_is_returned_unchanged() {
    for text in ["N/A", "", "   ", "abc", "1,5", "4 5", ".", "-", "+", "e5", "1e", "1e+", "1.2.3",
        "--1", "0x10", " n/a ", "inf", "NaN", "infinity", "1e5x", "1_000"]
    {
        assert_eq!(format_coordinate(text), text);
    }
}

#[test]
fn rounding_is_half_to_even_on_the_decimal_value() {
    assert_eq!(format_coordinate("0.000000005"), "0.00000000");
    assert_eq!(format_coordinate("0.000000015"), "0.00000002");
    assert_eq!(format_coordinate("0.000000025"), "0.00000002");
    assert_eq!(format_coordinate("0.0000000250000001"), "0.00000003");
    assert_eq!(format_coordinate("0.000000004999"), "0.00000000");
    assert_eq!(format_coordinate("0.000000006"), "0.00000001");
    assert_eq!(format_coordinate("999.999999995"), "1000.00000000");
    assert_eq!(format_coordinate("0.999999996"), "1.00000000");
    assert_eq!(format_coordinate("45.123456789"), "45.12345679");
}

#[test]
fn sign_is_kept_where_the_magnitude_rounds_to_zero() {
    assert_eq!(format_coordinate("-0"), "-0.00000000");
    assert_eq!(format_coordinate("-0.000000001"), "-0.00000000");
    assert_eq!(format_coordinate("-1e-400"), "-0.00000000");
    assert_eq!(format_coordinate("0e99999999999999999999999999999999999999999"), "0.00000000");
    assert_eq!(format_coordinate("1e-99999999999999999999999999999999999999999"), "0.00000000");
}

#[test]
fn magnitudes_beyond_the_range_are_returned_unchanged() {
    assert_eq!(format_coordinate("1e309"), "1e309");
    assert_eq!(format_coordinate("1e99999999999999999999999999999999999999999"),
        "1e99999999999999999999999999999999999999999");
    let widest = format_coordinate("1e308");
    assert_eq!(widest.len(), 309 + 1 + 8);
    assert!(widest.starts_with("1000"));
    assert!(widest.ends_with("0.00000000"));
    let nines = format!("{}.999999999", "9".repeat(309));
    assert_eq!(format_coordinate(&nines), nines);
}

#[test]
fn other_precisions() {
    assert_eq!(format_fixed("45.15", 1), "45.2");
    assert_eq!(format_fixed("45.25", 1), "45.2");
    assert_eq!(format_fixed("45.5", 0), "46");
    assert_eq!(format_fixed("44.5", 0), "44");
    assert_eq!(format_fixed("0.4", 0), "0");
    assert_eq!(format_fixed("1", 3), "1.000");
    assert_eq!(format_fixed("x", 3), "x");
}

#[test]
fn formatting_twice_changes_nothing_more() {
    for text in ["45.1", "-73.5", " 1e-3 ", "N/A", "", "999.999999995", "-0.000000001", "1e309"] {
        let once = format_coordinate(text);
        assert_eq!(format_coordinate(&once), once);
    }
}

#[test]
fn formatted_text_is_a_number_close_to_the_input() {
    for text in ["45.1", "-73.5", "0", "-0", "1e-3", "  12.3456789012345  ", "45.123456785",
        "0.000000005", "89.99999999999", "-179.999999996", "1.5e2", "123456789e-9", "6.02E+5",
        ".5", "5.", "0.1234567849999999999999999", "0.1234567850000000000000001"]
    {
        let out = format_coordinate(text);
        let point = out.find('.').unwrap();
        assert_eq!(out.len() - point - 1, 8, "{:?}", text);
        assert!(out[point + 1..].chars().all(|c| c.is_ascii_digit()));
        let formatted: f64 = out.parse().unwrap();
        let given: f64 = text.trim().parse().unwrap();
        assert!((formatted - given).abs() <= 1e-8, "{:?} -> {:?}", text, out);
    }
}

#[test]
fn agrees_with_double_precision_formatting_on_plain_coordinates() {
    for i in 0..4001 {
        let value = -180.0 + (i as f64) * 0.09;
        for text in [format!("{:.6}", value), format!("{:.3}", value), format!("{:e}", value)] {
            let number: f64 = text.parse().unwrap();
            assert_eq!(format_coordinate(&text), format!("{:.8}", number), "{:?}", text);
        }
    }
    for text in ["0.5", "0.25", "0.125", "1e0", "-0.0", "1e-7", "1e-8", "3e-9", "7e-9", "1e10"] {
        let number: f64 = text.parse().unwrap();
        assert_eq!(format_coordinate(text), format!("{:.8}", number), "{:?}", text);
    }
}
