//! Names: parsing from wire spellings, naming restrictions, and formatting.

use influx_line::InfluxLineError;
use influx_line::InfluxName;
use influx_line::KeyName;
use influx_line::MeasurementName;
use influx_line::QuotedString;

#[test]
fn key_name_successful_parsing() {
    let cases: Vec<(&str, &str)> = vec![
        ("amogus", "amogus"),
        ("stupid\"quote", "stupid\"quote"),
        ("a\\=b", "a=b"),
        ("hello\\ man", "hello man"),
        ("milk\\,bread\\,butter", "milk,bread,butter"),
        ("a\\a", "a\\a"),
        ("a\\\\a", "a\\a"),
        ("a\\\\\\a", "a\\\\a"),
        ("a\\\\\\\\a", "a\\\\a"),
        ("a\\\\\\\\\\a", "a\\\\\\a"),
        ("a\\\\\\\\\\\\a", "a\\\\\\a"),
        ("haha\\\\", "haha\\"),
        ("day\\ when\\ f(x\\,\\ y)\\ \\=\\ 10", "day when f(x, y) = 10"),
        ("\u{1F480}\\ dead\\ man\\ \u{1F480}", "\u{1F480} dead man \u{1F480}"),
    ];
    for (escaped_input, expected_raw) in cases {
        let expected = KeyName::new(String::from(expected_raw)).expect("valid name");
        let actual = KeyName::from_str(escaped_input).expect("must parse");
        assert_eq!(expected.as_str(), actual.as_str());
    }
}

#[test]
fn key_name_parsing_fails() {
    let cases: Vec<&str> = vec![
        "",
        "hello kitty",
        "you,me,together...",
        "1+1=10",
        "we\\ are\\ number\\ one\\",
        "_reserved",
    ];
    for escaped_input in cases {
        assert!(KeyName::from_str(escaped_input).is_err());
    }
}

#[test]
fn key_name_display() {
    let cases: Vec<(&str, &str)> = vec![
        ("john cena", "john\\ cena"),
        ("you,me", "you\\,me"),
        ("a\\ b", "a\\\\ b"),
    ];
    for (input, expected) in cases {
        let name = KeyName::new(String::from(input)).expect("valid name");
        assert_eq!(expected, name.to_line_protocol());
    }
}

#[test]
fn key_name_reserved_prefix_rejected() {
    assert_eq!(
        KeyName::new(String::from("_bad")).unwrap_err(),
        InfluxLineError::NameRestriction
    );
    assert_eq!(
        KeyName::new(String::from("")).unwrap_err(),
        InfluxLineError::NameRestriction
    );
}

#[test]
fn measurement_name_successful_parsing() {
    let cases: Vec<(&str, &str)> = vec![
        ("amogus", "amogus"),
        ("1+1=10", "1+1=10"),
        ("stupid\"quote", "stupid\"quote"),
        ("hello\\ man", "hello man"),
        ("milk\\,bread\\,butter", "milk,bread,butter"),
        ("a\\a", "a\\a"),
        ("a\\\\a", "a\\a"),
        ("haha\\\\", "haha\\"),
        ("\u{1F480}\\ dead\\ man\\ \u{1F480}", "\u{1F480} dead man \u{1F480}"),
    ];
    for (escaped_input, expected_raw) in cases {
        let actual = MeasurementName::from_str(escaped_input).expect("must parse");
        assert_eq!(expected_raw, actual.as_str());
    }
}

#[test]
fn measurement_name_parsing_fails() {
    let cases: Vec<&str> = vec![
        "",
        "hello kitty",
        "you,me,together...",
        "we\\ are\\ number\\ one\\",
        "_reserved",
    ];
    for escaped_input in cases {
        assert!(MeasurementName::from_str(escaped_input).is_err());
    }
}

#[test]
fn measurement_name_display() {
    let cases: Vec<(&str, &str)> = vec![
        ("john cena", "john\\ cena"),
        ("you,me", "you\\,me"),
        ("a\\ b", "a\\\\ b"),
        ("a=b", "a=b"),
    ];
    for (input, expected) in cases {
        let name = MeasurementName::new(String::from(input)).expect("valid name");
        assert_eq!(expected, name.to_line_protocol());
    }
}

#[test]
fn influx_name_successful_parsing() {
    let cases: Vec<(&str, &str)> = vec![
        ("amogus", "amogus"),
        ("hello\\ man", "hello man"),
        ("milk\\,bread\\,butter", "milk,bread,butter"),
        ("a\\=b", "a=b"),
        ("stupid\"quote", "stupid\"quote"),
        ("a\\a", "a\\a"),
        ("a\\\\a", "a\\a"),
        ("a\\\\\\a", "a\\\\a"),
        ("a\\\\\\\\a", "a\\\\a"),
        ("a\\\\\\\\\\a", "a\\\\\\a"),
        ("a\\\\\\\\\\\\a", "a\\\\\\a"),
        ("\\\\", "\\"),
        ("\\\\\\\\", "\\\\"),
        ("\\\\\\\\\\\\", "\\\\\\"),
        ("day\\ when\\ f(x\\,\\ y)\\ \\=\\ 10", "day when f(x, y) = 10"),
        ("\u{1F480}\\ dead\\ man\\ \u{1F480}", "\u{1F480} dead man \u{1F480}"),
    ];
    for (escaped_input, expected_raw) in cases {
        let actual = InfluxName::from_str(escaped_input).expect("must parse");
        assert_eq!(expected_raw, actual.as_str());
    }
}

#[test]
fn influx_name_parsing_fails() {
    let cases: Vec<&str> = vec![
        "",
        "hello kitty",
        "you,me,together...",
        "1+1=10",
        "_reserved",
        "we\\ are\\ number\\ one\\",
    ];
    for escaped_input in cases {
        assert!(InfluxName::from_str(escaped_input).is_err());
    }
}

#[test]
fn influx_name_trailing_escape_fails() {
    // An escape character still pending at the end of input is an error,
    // whatever the run length before it.
    for escaped_input in ["\\", "\\\\\\", "\\\\\\\\\\", "haha\\"] {
        let error = InfluxName::from_str(escaped_input).unwrap_err();
        assert!(
            matches!(error, influx_line::NameParseError::Failed(_)),
            "on {:?}",
            escaped_input
        );
    }
}

#[test]
fn quoted_string_successful_parsing() {
    let cases: Vec<(&str, &str)> = vec![
        ("\"\"", ""),
        ("\"\\\"string\\\" within a string\"", "\"string\" within a string"),
        ("\"slash \\\\ escaped\"", "slash \\ escaped"),
    ];
    for (escaped_input, expected_value) in cases {
        let actual = QuotedString::from_str(escaped_input).expect("must parse");
        assert_eq!(expected_value, actual.as_str());
    }
}

#[test]
fn quoted_string_parse_error() {
    let cases: Vec<&str> = vec![
        "",
        "\"",
        "a",
        "\"R",
        "L\"",
        "\"I HATE PANCAKES",
        "I LOVE PANCAKES\"",
        "\"left \" right\"",
        "\"Who put \\ here?\"",
        "\"dead\\\"",
    ];
    for input in cases {
        assert!(QuotedString::from_str(input).is_err());
    }
}

#[test]
fn quoted_string_display() {
    let cases: Vec<(&str, &str)> = vec![
        ("", "\"\""),
        ("a", "\"a\""),
        ("\"", "\"\\\"\""),
        ("\\", "\"\\\\\""),
        ("welcome, \"friend\" :\\", "\"welcome, \\\"friend\\\" :\\\\\""),
    ];
    for (input, expected) in cases {
        let actual = QuotedString::new(String::from(input)).to_line_protocol();
        assert_eq!(expected, actual);
    }
}
