//! Decimals as text and back.

use aquilo::decimal::Decimal;
use aquilo::number;

#[test]
fn prints_like_a_debugged_float() {
    for x in [
        0.0, 1.0, 40.0, 150.2, 152.8, 0.5, 0.001, 0.0001, 0.00012, 0.00009, 1e-7, 1.5e-7, 1e15,
        1.5e15, 9999999999999998.0, 1e16, 1.5e16, 1.7976931348623157e308, 5e-324, 123456.789,
        -150.2, -1e-9, -2.5e20,
    ] {
        let text = format!("{x:?}");
        let d = Decimal::parse(&text).unwrap();
        assert_eq!(d.text(), text);
    }
}

#[test]
fn reads_shorter_and_longer_forms() {
    assert_eq!(Decimal::parse("150.20"), Decimal::parse("150.2"));
    assert_eq!(Decimal::parse("1502e-1"), Decimal::parse("150.2"));
    assert_eq!(Decimal::parse("1.502E+2"), Decimal::parse("150.2"));
    assert_eq!(Decimal::parse("0150.2"), Decimal::parse("150.2"));
    // Zero keeps the sign it is written with.
    assert_ne!(Decimal::parse("-0.0"), Decimal::parse("0"));
    assert_eq!(Decimal::parse("-0.0"), Decimal::parse("-0"));
    assert_eq!(Decimal::parse("-0.0").unwrap().text(), "-0.0");
    assert_eq!(Decimal::parse("1500"), Some(Decimal { negative: false, digits: 15, exp: 2 }));
}

#[test]
fn rejects_what_is_no_decimal() {
    for s in ["", "-", ".", "1.", ".5", "+1", "1e", "1e+", "1x", "1.2.3", "inf", "NaN", " 1", "1 "] {
        assert_eq!(Decimal::parse(s), None, "{s:?}");
    }
    assert_eq!(Decimal::parse("18446744073709551616"), None);
    assert_eq!(Decimal::parse("1e99999"), None);
}

#[test]
fn fractions_come_in_their_shortest_form() {
    assert_eq!(Decimal::new(15020, 2), Decimal::new(1502, 1));
    assert_eq!(Decimal::new(15020, 2).text(), "150.2");
    assert_eq!(Decimal::new(-15020, 2).text(), "-150.2");
    assert_eq!(Decimal::new(0, 2).text(), "0.0");
    assert_eq!(Decimal::new(i64::MIN, 0).text(), "-9.223372036854775808e18");
    assert_eq!(Decimal::new(4000, 2).text(), "40.0");
    assert_eq!(Decimal::new(7, 3).text(), "0.007");
}

#[test]
fn integers_read_as_the_standard_library_reads_them() {
    for s in [
        "0", "7", "-7", "+7", "007", "9223372036854775807", "9223372036854775808",
        "-9223372036854775808", "-9223372036854775809", "", "-", "+", "--1", "+-1", "1_0", " 1",
        "0x10", "१", "99999999999999999999",
    ] {
        assert_eq!(number::parse_i64(s), s.parse::<i64>().ok(), "{s:?}");
        assert_eq!(number::parse_u16(s), s.parse::<u16>().ok(), "{s:?}");
    }
    assert_eq!(number::parse_u16("65535"), Some(65535));
    assert_eq!(number::parse_u16("65536"), None);
}

#[test]
fn integers_are_written_in_decimal() {
    for n in [0, 7, 10, 99, 100, -1, -10, i64::MAX, i64::MIN] {
        assert_eq!(number::write_integer(n), n.to_string());
        assert_eq!(number::parse_i64(&number::write_integer(n)), Some(n));
    }
}
