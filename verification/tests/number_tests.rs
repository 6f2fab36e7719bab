use quark::number::{has_dot, is_fraction, parse_integer};
use quark::text::{chars_of, same_text};

#[test]
fn integers() {
    assert_eq!(parse_integer("0"), Some(0));
    assert_eq!(parse_integer("42"), Some(42));
    assert_eq!(parse_integer("007"), Some(7));
    assert_eq!(parse_integer("+15"), Some(15));
    assert_eq!(parse_integer("-15"), Some(-15));
    assert_eq!(parse_integer("-0"), Some(0));
}

#[test]
fn integers_at_the_limits() {
    assert_eq!(parse_integer("9223372036854775807"), Some(i64::MAX));
    assert_eq!(parse_integer("-9223372036854775808"), Some(i64::MIN));
    assert_eq!(parse_integer("9223372036854775808"), None);
    assert_eq!(parse_integer("-9223372036854775809"), None);
    assert_eq!(parse_integer("00000000000000000000000000000000000001"), Some(1));
    assert_eq!(parse_integer("99999999999999999999999999999999999999999999"), None);
}

#[test]
fn texts_that_are_no_integers() {
    for text in ["", "+", "-", "1 ", " 1", "1_000", "12a", "a", "1.0", "--1", "+-1", "١٢"] {
        assert_eq!(parse_integer(text), None, "{:?}", text);
    }
}

#[test]
fn integers_as_std_reads_them() {
    for text in ["0", "-0", "+0", "123", "-123", "", "-", "+", "9223372036854775807",
        "9223372036854775808", "-9223372036854775808", "-9223372036854775809", "1e3", "0x10"]
    {
        assert_eq!(parse_integer(text), text.parse::<i64>().ok(), "{:?}", text);
    }
}

#[test]
fn fractions() {
    for text in ["3.14", "0.5", "1.", ".5", "+1.5", "-1.5", "-.5", "1.5e3", "1.5E3", "1.e3",
        ".5e-3", "1.5e+10", "000.000", "1.5e400", "123456789012345678901234567890.5"]
    {
        assert!(is_fraction(text), "{:?}", text);
    }
}

#[test]
fn texts_that_are_no_fractions() {
    for text in ["", ".", "+.", "-.", "1", "1e3", "1.2.3", "1.5e", "1.5e+", "1.5e3.0", "1.5x",
        " 1.5", "1.5 ", "1..5", ".e3", "+-1.5", "1.5e--3", "1_0.5", "a.b", "1.5f", "inf", "nan",
        "1.5ee3", "e.5", "١.٥"]
    {
        assert!(!is_fraction(text), "{:?}", text);
    }
}

#[test]
fn fractions_as_std_reads_them() {
    for text in ["3.14", "1.", ".5", ".", "+.", "1.5e3", "1.e3", ".e3", "1.5e", "1.5e+", "-1.5",
        "+-1.5", "1.2.3", "1.5 ", " 1.5", "1.5E-7", "1_0.5", "0.1e1.0", "..", "1.5e400", "-.5e-9"]
    {
        assert_eq!(is_fraction(text), text.parse::<f64>().is_ok(), "{:?}", text);
    }
}

#[test]
fn dots() {
    assert!(has_dot("1.5"));
    assert!(has_dot("."));
    assert!(has_dot("abc."));
    assert!(!has_dot(""));
    assert!(!has_dot("15"));
}

#[test]
fn text_is_compared_by_characters() {
    assert!(same_text("", ""));
    assert!(same_text("echo", "echo"));
    assert!(same_text("été", "été"));
    assert!(!same_text("echo", "echp"));
    assert!(!same_text("echo", "echoo"));
    assert!(!same_text("", "a"));
}

#[test]
fn characters_of_a_text() {
    assert_eq!(chars_of(""), Vec::<char>::new());
    assert_eq!(chars_of("aé€"), vec!['a', 'é', '€']);
}
