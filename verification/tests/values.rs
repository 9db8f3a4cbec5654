//! Scalar field values: suffixed integers, booleans, floats, timestamps,
//! and the ordered value dispatcher.

use influx_line::Boolean;
use influx_line::FloatValue;
use influx_line::InfluxInteger;
use influx_line::InfluxLineError;
use influx_line::InfluxUInteger;
use influx_line::InfluxValue;
use influx_line::QuotedString;
use influx_line::Timestamp;

#[test]
fn successful_int_parsing() {
    let cases: Vec<(&str, i64)> = vec![("123i", 123), ("0i", 0), ("-25565i", -25565), (
        "+7i",
        7,
    ), ("-9223372036854775808i", i64::MIN), ("9223372036854775807i", i64::MAX)];
    for (input, expected) in cases {
        let actual = InfluxInteger::from_str(input).expect("must parse");
        assert_eq!(expected, actual.value());
    }
}

#[test]
fn int_parse_error() {
    let cases: Vec<&str> = vec![
        "123u",
        "0",
        "128.0",
        "",
        "randomi",
        "123 01i",
        "9223372036854775808i",
        "i",
    ];
    for input in cases {
        assert_eq!(
            InfluxInteger::from_str(input).unwrap_err(),
            InfluxLineError::IntegerNotParsed
        );
    }
}

#[test]
fn successful_uint_parsing() {
    let cases: Vec<(&str, u64)> = vec![("123u", 123), ("0u", 0), (
        "18446744073709551615u",
        u64::MAX,
    )];
    for (input, expected) in cases {
        let actual = InfluxUInteger::from_str(input).expect("must parse");
        assert_eq!(expected, actual.value());
    }
}

#[test]
fn uint_parse_error() {
    let cases: Vec<&str> = vec![
        "25565i",
        "-25565i",
        "-25565u",
        "0",
        "128.0",
        "",
        "randomu",
        "123 01u",
        "18446744073709551616u",
    ];
    for input in cases {
        assert_eq!(
            InfluxUInteger::from_str(input).unwrap_err(),
            InfluxLineError::UIntegerNotParsed
        );
    }
}

#[test]
fn integer_formatting() {
    assert_eq!("15i", InfluxInteger::new(15).to_line_protocol());
    assert_eq!("-15i", InfluxInteger::new(-15).to_line_protocol());
    assert_eq!("0u", InfluxUInteger::new(0).to_line_protocol());
    assert_eq!(
        "-9223372036854775808i",
        InfluxInteger::new(i64::MIN).to_line_protocol()
    );
    assert_eq!(
        "18446744073709551615u",
        InfluxUInteger::new(u64::MAX).to_line_protocol()
    );
}

#[test]
fn boolean_spellings() {
    for input in ["t", "T", "true", "True", "TRUE"] {
        assert!(Boolean::from_str(input).expect("must parse").value());
    }
    for input in ["f", "F", "false", "False", "FALSE"] {
        assert!(!Boolean::from_str(input).expect("must parse").value());
    }
    for input in ["yes", "tRUE", "FalsE", "", "0", "1"] {
        assert_eq!(
            Boolean::from_str(input).unwrap_err(),
            InfluxLineError::BooleanNotParsed
        );
    }
    assert_eq!("true", Boolean::new(true).to_line_protocol());
    assert_eq!("false", Boolean::new(false).to_line_protocol());
}

#[test]
fn float_grammar() {
    // A spelling with a decimal point, and the special words, are kept as
    // written; a number without a point gains `.0` after its integer
    // digits, so the rendering always carries a decimal point.
    let accepted: Vec<(&str, &str)> = vec![
        ("12.33", "12.33"),
        ("1", "1.0"),
        ("17", "17.0"),
        ("-1.234456e+78", "-1.234456e+78"),
        ("+5", "+5.0"),
        ("5.", "5."),
        (".5", ".5"),
        ("1e300", "1.0e300"),
        ("-2e-5", "-2.0e-5"),
        ("inf", "inf"),
        ("-inf", "-inf"),
        ("Infinity", "Infinity"),
        ("NaN", "NaN"),
        ("nan", "nan"),
        ("17.0", "17.0"),
    ];
    for (input, expected) in accepted {
        let parsed = FloatValue::from_str(input).expect("must parse");
        assert_eq!(expected, parsed.as_str(), "on {:?}", input);
        assert_eq!(
            input.parse::<f64>().ok().map(|f| f.to_bits()),
            parsed.as_str().parse::<f64>().ok().map(|f| f.to_bits()),
            "normalization must not change the value of {:?}",
            input
        );
    }
    let rejected: Vec<&str> = vec!["", "123i", "123u", "true", "t", "1..2", "e5", ".e5", "1e", "abc", "+"];
    for input in rejected {
        assert_eq!(
            FloatValue::from_str(input).unwrap_err(),
            InfluxLineError::BadValue
        );
    }
}

#[test]
fn float_grammar_matches_std() {
    // The verified grammar accepts exactly what reading a 64-bit float
    // accepts.
    let cases: Vec<&str> = vec![
        "12.33",
        "1",
        "-1.234456e+78",
        "+5",
        "5.",
        ".5",
        "1e300",
        "inf",
        "-inf",
        "Infinity",
        "NaN",
        "",
        "123i",
        "123u",
        "true",
        "1..2",
        "e5",
        ".e5",
        "1e",
        "abc",
        "+",
        "1.5e-9",
        "-0.0",
        "5e",
        "0x10",
        " 1",
        "1 ",
    ];
    for input in cases {
        let std_accepts = input.parse::<f64>().is_ok();
        let grammar_accepts = FloatValue::from_str(input).is_ok();
        assert_eq!(std_accepts, grammar_accepts, "disagree on {:?}", input);
    }
}

#[test]
fn float_debug_rendering_reparses() {
    // The debug rendering of a 64-bit float is within the verified grammar;
    // the stored spelling denotes the same value and carries a decimal
    // point.
    let values: Vec<f64> = vec![17.0, -15.57, 1e300, 5e-324, 0.1, -0.0];
    for value in values {
        let text = format!("{:?}", value);
        let parsed = FloatValue::from_str(&text).expect("must parse");
        assert!(parsed.as_str().contains('.'), "no point in {:?}", parsed.as_str());
        assert_eq!(
            value.to_bits(),
            parsed.as_str().parse::<f64>().expect("reparses").to_bits()
        );
    }
}

#[test]
fn value_dispatch_order() {
    let float = InfluxValue::from_str("12.33").expect("must parse");
    assert_eq!(float, InfluxValue::Float(FloatValue::from_str("12.33").unwrap()));
    let bare_int = InfluxValue::from_str("1").expect("must parse");
    assert_eq!(bare_int, InfluxValue::Float(FloatValue::from_str("1").unwrap()));
    let sci = InfluxValue::from_str("-1.234456e+78").expect("must parse");
    assert_eq!(sci, InfluxValue::Float(FloatValue::from_str("-1.234456e+78").unwrap()));
    let int = InfluxValue::from_str("125i").expect("must parse");
    assert_eq!(int, InfluxValue::Integer(InfluxInteger::new(125)));
    let negative = InfluxValue::from_str("-25565i").expect("must parse");
    assert_eq!(negative, InfluxValue::Integer(InfluxInteger::new(-25565)));
    let uint = InfluxValue::from_str("999999999u").expect("must parse");
    assert_eq!(uint, InfluxValue::UInteger(InfluxUInteger::new(999999999)));
    let yes = InfluxValue::from_str("true").expect("must parse");
    assert_eq!(yes, InfluxValue::Boolean(Boolean::new(true)));
    let no = InfluxValue::from_str("FALSE").expect("must parse");
    assert_eq!(no, InfluxValue::Boolean(Boolean::new(false)));
    let string = InfluxValue::from_str("\"Dunno what to say\"").expect("must parse");
    assert_eq!(
        string,
        InfluxValue::String(QuotedString::new(String::from("Dunno what to say")))
    );
    assert_eq!(
        InfluxValue::from_str("not a value").unwrap_err(),
        InfluxLineError::BadValue
    );
}

#[test]
fn value_formatting() {
    assert_eq!(
        "17.0",
        InfluxValue::Float(FloatValue::from_str("17.0").unwrap()).to_line_protocol()
    );
    assert_eq!("15i", InfluxValue::Integer(InfluxInteger::new(15)).to_line_protocol());
    assert_eq!("0u", InfluxValue::UInteger(InfluxUInteger::new(0)).to_line_protocol());
    assert_eq!("true", InfluxValue::Boolean(Boolean::new(true)).to_line_protocol());
    assert_eq!("false", InfluxValue::Boolean(Boolean::new(false)).to_line_protocol());
    assert_eq!(
        "\"eat \\\"this\\\" hehe\"",
        InfluxValue::String(QuotedString::new(String::from("eat \"this\" hehe")))
            .to_line_protocol()
    );
}

#[test]
fn suffix_exclusivity() {
    // An integer spelling with the wrong or no suffix never changes type.
    for n in [0i64, 1, -1, 25565, -25565, i64::MAX, i64::MIN] {
        let spelled = format!("{}i", n);
        let parsed = InfluxValue::from_str(&spelled).expect("must parse");
        assert_eq!(parsed, InfluxValue::Integer(InfluxInteger::new(n)));
        assert!(FloatValue::from_str(&spelled).is_err());
    }
    for n in [0u64, 1, 228, u64::MAX] {
        let spelled = format!("{}u", n);
        let parsed = InfluxValue::from_str(&spelled).expect("must parse");
        assert_eq!(parsed, InfluxValue::UInteger(InfluxUInteger::new(n)));
        assert!(FloatValue::from_str(&spelled).is_err());
    }
}

#[test]
fn timestamp_parsing() {
    assert_eq!(
        1556813561098000000,
        Timestamp::from_str("1556813561098000000").expect("must parse").nanos()
    );
    assert_eq!(-100500, Timestamp::from_str("-100500").expect("must parse").nanos());
    for input in ["", "abcdefg", "123i", "128.0"] {
        assert_eq!(
            Timestamp::from_str(input).unwrap_err(),
            InfluxLineError::TimestampNotParsed
        );
    }
    assert_eq!(
        "1556813561098000000",
        Timestamp::new(1556813561098000000).to_line_protocol()
    );
}

#[test]
fn timestamp_datetime_round_trip() {
    let nanos: i64 = 1704067200000000000;
    let datetime = Timestamp::new(nanos).to_datetime();
    let back = Timestamp::from_datetime(&datetime).expect("in range");
    assert_eq!(nanos, back.nanos());
    let now = influx_line::types::timestamp::utc_now();
    assert!(Timestamp::from_datetime(&now).is_ok());
}
