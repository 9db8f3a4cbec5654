use vstd::prelude::*;

verus! {

/// A library level error that occurs when any failure occurs,
/// such as a parse error or invalid input in a constructor.
#[derive(Debug, Clone, Copy, PartialEq, Eq, Structural)]
pub enum InfluxLineError {
    /// Input could not be processed at all.
    Failed,
    /// A key was not followed by a value.
    NoValue,
    /// The line does not begin with a measurement name.
    NoMeasurement,
    /// The line has no field section.
    NoFields,
    /// An escape character was not followed by anything it may escape.
    UnexpectedEscapeSymbol,
    /// A special character appeared bare where it must be escaped.
    UnescapedSpecialCharacter,
    /// The measurement section is not terminated by a space delimiter.
    NoWhitespaceDelimiter,
    /// A string field value is not delimited by double quotes on both sides.
    NoQuoteDelimiter,
    /// Text follows the closing double quote of a string field value.
    SymbolsAfterClosedString,
    /// A name is empty or begins with the reserved prefix.
    NameRestriction,
    /// A field value with the integer suffix is not a valid signed integer.
    IntegerNotParsed,
    /// A field value with the unsigned suffix is not a valid unsigned integer.
    UIntegerNotParsed,
    /// A field value is not one of the accepted boolean spellings.
    BooleanNotParsed,
    /// The trailing segment is not a valid integer timestamp.
    TimestampNotParsed,
    /// A field value matches none of the recognized value types.
    BadValue,
    /// A calendar instant cannot be represented as 64-bit nanoseconds.
    DateTimeOutOfRange,
}

impl InfluxLineError {
    /// A short human-readable description of the error.
    pub fn message(&self) -> &'static str {
        match self {
            InfluxLineError::Failed => "Failed to process input",
            InfluxLineError::NoValue => "No value found",
            InfluxLineError::NoMeasurement => "No measurement found",
            InfluxLineError::NoFields => "No fields found",
            InfluxLineError::UnexpectedEscapeSymbol => "Unexpected escape symbol",
            InfluxLineError::UnescapedSpecialCharacter => "Unescaped special character found",
            InfluxLineError::NoWhitespaceDelimiter => "Space delimiter not found",
            InfluxLineError::NoQuoteDelimiter => "Closing double quote delimiter not found",
            InfluxLineError::SymbolsAfterClosedString => {
                "Unexpected symbols after a closing double quote delimiter"
            },
            InfluxLineError::NameRestriction => "Naming restriction was not met",
            InfluxLineError::IntegerNotParsed => "Failed to parse Integer value",
            InfluxLineError::UIntegerNotParsed => "Failed to parse UInteger value",
            InfluxLineError::BooleanNotParsed => "Failed to parse Boolean value",
            InfluxLineError::TimestampNotParsed => "Failed to parse timestamp",
            InfluxLineError::BadValue => {
                "Failed to parse field value as any of the expected types"
            },
            InfluxLineError::DateTimeOutOfRange => {
                "Timestamp not constructed: DateTime out of range"
            },
        }
    }
}

} // verus!
