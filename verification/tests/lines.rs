//! Whole records: parsing, formatting, round trips, upsert order, and the
//! tokenizer's raw segments.

use influx_line::line::parsing::LinearLineParser;
use influx_line::Boolean;
use influx_line::FloatValue;
use influx_line::InfluxLine;
use influx_line::InfluxLineError;
use influx_line::InfluxUInteger;
use influx_line::InfluxValue;
use influx_line::QuotedString;
use influx_line::Timestamp;

#[test]
fn minimal_line_parsing() {
    let line = InfluxLine::from_str("measurement field1=228u").expect("must parse");
    assert_eq!("measurement", line.measurement().as_str());
    assert_eq!(0, line.tags().len());
    assert_eq!(1, line.fields().len());
    assert_eq!(
        line.field("field1"),
        Some(&InfluxValue::UInteger(InfluxUInteger::new(228)))
    );
    assert!(line.timestamp().is_none());
}

#[test]
fn minimal_line_with_newline() {
    let line = InfluxLine::from_str("measurement field1=228u\n").expect("must parse");
    assert_eq!("measurement", line.measurement().as_str());
    assert_eq!(
        line.field("field1"),
        Some(&InfluxValue::UInteger(InfluxUInteger::new(228)))
    );
}

#[test]
fn full_line_parsing() {
    let text = "human,language=ru,location=siberia age=25u,is\\ epic=true,balance=-15.57,name=\"Egorka\" 1704067200000000000";
    let line = InfluxLine::from_str(text).expect("must parse");
    assert_eq!("human", line.measurement().as_str());
    assert_eq!(2, line.tags().len());
    assert_eq!("ru", line.tag("language").expect("tag").as_str());
    assert_eq!("siberia", line.tag("location").expect("tag").as_str());
    assert!(line.tag("not a tag").is_none());
    assert_eq!(4, line.fields().len());
    assert_eq!(
        line.field("age"),
        Some(&InfluxValue::UInteger(InfluxUInteger::new(25)))
    );
    assert_eq!(
        line.field("is epic"),
        Some(&InfluxValue::Boolean(Boolean::new(true)))
    );
    assert_eq!(
        line.field("balance"),
        Some(&InfluxValue::Float(FloatValue::from_str("-15.57").unwrap()))
    );
    assert_eq!(
        line.field("name"),
        Some(&InfluxValue::String(QuotedString::new(String::from("Egorka"))))
    );
    assert!(line.field("non-existent").is_none());
    assert_eq!(1704067200000000000, line.timestamp().expect("timestamp").nanos());
}

#[test]
fn line_parsing_errors() {
    let cases: Vec<(&str, InfluxLineError)> = vec![
        ("", InfluxLineError::NoWhitespaceDelimiter),
        (",tag=v field=1i", InfluxLineError::NoMeasurement),
        ("measurement,tag1=tag1,tag2=tag2", InfluxLineError::NoFields),
        (
            "measure ment,tag1=tag1,tag2=tag2 field1=1.0 12345",
            InfluxLineError::UnescapedSpecialCharacter,
        ),
        (
            "measurement,tag1=tag1,tag2=tag2 field1=not\\ a\\ string 12345",
            InfluxLineError::UnexpectedEscapeSymbol,
        ),
        ("measurement field1=1.00 timestamp_here", InfluxLineError::TimestampNotParsed),
        ("measurement field1=", InfluxLineError::NoValue),
        ("measurement field1=\"unterminated", InfluxLineError::NoQuoteDelimiter),
        ("measurement field1=\"closed\"junk", InfluxLineError::SymbolsAfterClosedString),
        ("measurement,_tag=v field=1i", InfluxLineError::NameRestriction),
        ("measurement field=maybe", InfluxLineError::BadValue),
    ];
    for (input, expected) in cases {
        assert_eq!(InfluxLine::from_str(input).unwrap_err(), expected, "on {:?}", input);
    }
}

#[test]
fn no_fields_but_yes_timestamp_fails() {
    // The tag section runs to the end of input before any field is found.
    assert!(InfluxLine::from_str("measurement,tag1=tag1,tag2=tag2 123456789").is_err());
}

#[test]
fn display_line() {
    let text = "human,language=ru,location=siberia age=25u,is\\ epic=true,balance=-15.57,name=\"Egorka\" 1704067200000000000";
    let line = InfluxLine::from_str(text).expect("must parse");
    assert_eq!(text, line.to_line_protocol());
    let minimal = InfluxLine::from_str("measurement field1=228u").expect("must parse");
    assert_eq!("measurement field1=228u", minimal.to_line_protocol());
}

#[test]
fn builders_and_round_trip() {
    let line = InfluxLine::try_new("human", "age", InfluxValue::UInteger(InfluxUInteger::new(25)))
        .and_then(|l| l.try_with_field("is epic", InfluxValue::Boolean(Boolean::new(true))))
        .and_then(|l| {
            l.try_with_field(
                "balance",
                InfluxValue::Float(FloatValue::from_str("-15.57").unwrap()),
            )
        })
        .and_then(|l| {
            l.try_with_field(
                "name",
                InfluxValue::String(QuotedString::new(String::from("Egorka"))),
            )
        })
        .and_then(|l| l.try_with_tag("language", "ru"))
        .and_then(|l| l.try_with_tag("location", "siberia"))
        .map(|l| l.with_timestamp(Timestamp::new(1704067200000000000)))
        .expect("all names valid");
    let text = line.to_line_protocol();
    assert_eq!(
        "human,language=ru,location=siberia age=25u,is\\ epic=true,balance=-15.57,name=\"Egorka\" 1704067200000000000",
        text
    );
    let reparsed = InfluxLine::from_str(&text).expect("round trip");
    assert_eq!(line, reparsed);
    assert_eq!(text, reparsed.to_line_protocol());
}

#[test]
fn upsert_order_preserved() {
    let line = InfluxLine::try_new("human", "age", InfluxValue::UInteger(InfluxUInteger::new(15)))
        .and_then(|l| l.try_with_tag("club", "art"))
        .and_then(|l| l.try_with_tag("location", "siberia"))
        .and_then(|l| l.try_with_tag("club", "sports"))
        .expect("all names valid");
    assert_eq!("sports", line.tag("club").expect("tag").as_str());
    assert_eq!("siberia", line.tag("location").expect("tag").as_str());
    assert!(line.tag("not added yet lol").is_none());
    let tags = line.tags();
    assert_eq!(2, tags.len());
    assert_eq!("club", tags[0].key.as_str());
    assert_eq!("sports", tags[0].value.as_str());
    assert_eq!("location", tags[1].key.as_str());
    assert_eq!("siberia", tags[1].value.as_str());
}

#[test]
fn duplicate_field_key_keeps_first_position() {
    let line = InfluxLine::from_str("m a=1i,b=2i,a=3i").expect("must parse");
    let fields = line.fields();
    assert_eq!(2, fields.len());
    assert_eq!("a", fields[0].key.as_str());
    assert_eq!(fields[0].value, InfluxValue::Integer(influx_line::InfluxInteger::new(3)));
    assert_eq!("b", fields[1].key.as_str());
}

#[test]
fn empty_field_set_rejected() {
    let measurement =
        influx_line::MeasurementName::new(String::from("measurement")).expect("valid");
    let rejected = InfluxLine::full(measurement, Vec::new(), Vec::new(), None);
    assert_eq!(rejected.unwrap_err(), InfluxLineError::NoFields);
}

#[test]
fn tokenizer_raw_segments() {
    let raw = LinearLineParser
        .process("m,t\\ a\\=g\\,1=super\\ co\\=\\,ol,tag2=2 field=true 999")
        .expect("must tokenize");
    assert_eq!("m", raw.measurement);
    assert_eq!(2, raw.tags.len());
    assert_eq!("t\\ a\\=g\\,1", raw.tags[0].key);
    assert_eq!("super\\ co\\=\\,ol", raw.tags[0].value);
    assert_eq!("tag2", raw.tags[1].key);
    assert_eq!("2", raw.tags[1].value);
    assert_eq!(1, raw.fields.len());
    assert_eq!("field", raw.fields[0].key);
    assert_eq!("true", raw.fields[0].value);
    assert_eq!(Some(String::from("999")), raw.timestamp);
}

#[test]
fn tokenizer_quoted_value_segments() {
    let raw = LinearLineParser
        .process("m escape\\ sym\\=bol=\"\\\\prison \\\"escape\\\"\"")
        .expect("must tokenize");
    assert_eq!("escape\\ sym\\=bol", raw.fields[0].key);
    assert_eq!("\"\\\\prison \\\"escape\\\"\"", raw.fields[0].value);
    assert_eq!(None, raw.timestamp);
}

#[test]
fn tokenizer_errors() {
    let cases: Vec<&str> = vec!["123", "a=", "a=,c=d", ",", "", "a=\"string not closed"];
    for input in cases {
        assert!(LinearLineParser.process(input).is_err(), "on {:?}", input);
    }
}

#[test]
fn escaped_names_round_trip() {
    let text = "day\\ when\\ f(x\\,\\ y)=10,weird\\=tag=\\=\\,\\ v key\\ a=\"va\\\\l\\\"ue\" -1";
    let line = InfluxLine::from_str(text).expect("must parse");
    assert_eq!("day when f(x, y)=10", line.measurement().as_str());
    assert_eq!("=, v", line.tag("weird=tag").expect("tag").as_str());
    let formatted = line.to_line_protocol();
    let reparsed = InfluxLine::from_str(&formatted).expect("round trip");
    assert_eq!(line, reparsed);
    assert_eq!(formatted, reparsed.to_line_protocol());
}

#[test]
fn error_messages() {
    assert_eq!("No fields found", InfluxLineError::NoFields.message());
    assert_eq!(
        "Failed to parse timestamp",
        InfluxLineError::TimestampNotParsed.message()
    );
}

#[test]
fn unicode_line_round_trip() {
    let text = "m\u{00E4}tning,he\\ just\\ \u{1F480}=fr\u{1F480} v\u{00E4}rde=\"h\u{00E9}llo\" 7";
    let line = InfluxLine::from_str(text).expect("must parse");
    assert_eq!("m\u{00E4}tning", line.measurement().as_str());
    assert_eq!(
        "fr\u{1F480}",
        line.tag("he just \u{1F480}").expect("tag").as_str()
    );
    assert_eq!(
        line.field("v\u{00E4}rde"),
        Some(&InfluxValue::String(QuotedString::new(String::from("h\u{00E9}llo"))))
    );
    assert_eq!(7, line.timestamp().expect("timestamp").nanos());
    let formatted = line.to_line_protocol();
    assert_eq!(text, formatted);
    assert_eq!(line, InfluxLine::from_str(&formatted).expect("round trip"));
}

#[test]
fn string_scanner_on_empty_input_fails() {
    let empty: Vec<char> = vec![];
    let result = influx_line::line::field::StringValueParser::new().process(&empty, 0);
    assert_eq!(result.unwrap_err(), InfluxLineError::Failed);
}

#[test]
fn float_fields_format_with_decimal_point() {
    // A float field parsed from a pointless spelling renders with its
    // decimal point made explicit; the special words stay as written.
    let line = InfluxLine::from_str("m a=1,b=1e300,c=17.0,d=-inf,e=NaN").expect("must parse");
    assert_eq!("m a=1.0,b=1.0e300,c=17.0,d=-inf,e=NaN", line.to_line_protocol());
    let reparsed = InfluxLine::from_str(&line.to_line_protocol()).expect("round trip");
    assert_eq!(line, reparsed);
}
