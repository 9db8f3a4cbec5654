//! Timestamps: a signed 64-bit nanosecond count at the end of a line,
//! convertible to and from a calendar instant.

use vstd::prelude::*;

use crate::error::InfluxLineError;
use crate::types::chars::chars_to_string;
use crate::types::chars::str_to_chars;
use crate::types::decimal::i64_from_chars;
use crate::types::decimal::i64_to_chars;
use crate::types::decimal::int_dec_rep;
use crate::types::decimal::lemma_i64_parse_int_dec_rep;
use crate::types::decimal::timestamp_parse;

verus! {

/// A calendar instant in UTC, held opaquely. Verus cannot declare chrono's
/// `DateTime` type itself — its time-zone parameter is bound by a chrono
/// trait — so this struct carries one, and the trusted functions beside it
/// are the whole boundary to chrono.
#[verifier::external_body]
pub struct UtcDateTime {
    inner: chrono::DateTime<chrono::Utc>,
}

/// Relies on chrono's `Utc::now`: the current calendar instant. The result
/// depends on the clock, so nothing is promised of it; chrono panics here
/// if the system clock reads before the Unix epoch.
#[verifier::external_body]
pub fn utc_now() -> UtcDateTime {
    UtcDateTime { inner: chrono::Utc::now() }
}

/// Relies on chrono's `DateTime::timestamp_nanos_opt`: the number of
/// non-leap nanoseconds since the Unix epoch, or `None` when the instant
/// lies outside the roughly 584 years such a count can represent.
#[verifier::external_body]
fn datetime_to_nanos(value: &UtcDateTime) -> Option<i64> {
    value.inner.timestamp_nanos_opt()
}

/// Relies on chrono's `DateTime::from_timestamp_nanos`: every 64-bit
/// nanosecond count is representable, and the conversion is documented to
/// round-trip with `timestamp_nanos_opt`.
#[verifier::external_body]
fn datetime_from_nanos(nanos: i64) -> UtcDateTime {
    UtcDateTime { inner: chrono::DateTime::from_timestamp_nanos(nanos) }
}

/// The wire spelling of a timestamp: a bare signed decimal number.
pub open spec fn timestamp_wire(n: i64) -> Seq<char> {
    int_dec_rep(n as int)
}

/// A timestamp, in nanoseconds since the Unix epoch.
#[derive(Debug, Clone, Copy, PartialEq, Eq, Hash, Structural)]
pub struct Timestamp(pub i64);

impl Timestamp {
    /// Wraps a nanosecond count.
    pub fn new(nanos: i64) -> (r: Timestamp)
        ensures
            r.0 == nanos,
    {
        Timestamp(nanos)
    }

    /// The nanosecond count.
    pub fn nanos(self) -> (r: i64)
        ensures
            r == self.0,
    {
        self.0
    }

    /// Parses a timestamp from a range of wire characters.
    pub fn parse_chars(v: &Vec<char>, from: usize, to: usize) -> (r: Result<
        Timestamp,
        InfluxLineError,
    >)
        requires
            from <= to <= v@.len(),
        ensures
            match timestamp_parse(v@.subrange(from as int, to as int)) {
                Ok(n) => r is Ok && r.unwrap().0 == n,
                Err(e) => r == Err::<Timestamp, InfluxLineError>(e),
            },
    {
        match i64_from_chars(v, from, to) {
            Some(n) => Ok(Timestamp(n)),
            None => Err(InfluxLineError::TimestampNotParsed),
        }
    }

    /// Parses a timestamp from its wire spelling.
    pub fn from_str(s: &str) -> (r: Result<Timestamp, InfluxLineError>)
        ensures
            match timestamp_parse(s@) {
                Ok(n) => r is Ok && r.unwrap().0 == n,
                Err(e) => r == Err::<Timestamp, InfluxLineError>(e),
            },
    {
        let chars = str_to_chars(s);
        let n = chars.len();
        proof {
            assert(chars@.subrange(0, n as int) =~= s@);
        }
        Timestamp::parse_chars(&chars, 0, n)
    }

    /// The wire spelling: the signed decimal nanosecond count.
    pub fn wire_chars(&self) -> (r: Vec<char>)
        ensures
            r@ == timestamp_wire(self.0),
    {
        i64_to_chars(self.0)
    }

    /// The wire spelling as text.
    pub fn to_line_protocol(&self) -> (r: String)
        ensures
            r@ == timestamp_wire(self.0),
    {
        chars_to_string(&self.wire_chars())
    }

    /// Converts a calendar instant to a timestamp; an instant outside the
    /// representable range is the one conversion error formatting can meet.
    pub fn from_datetime(value: &UtcDateTime) -> (r: Result<
        Timestamp,
        InfluxLineError,
    >)
        ensures
            r is Err ==> r == Err::<Timestamp, InfluxLineError>(
                InfluxLineError::DateTimeOutOfRange,
            ),
    {
        match datetime_to_nanos(value) {
            Some(nanos) => Ok(Timestamp(nanos)),
            None => Err(InfluxLineError::DateTimeOutOfRange),
        }
    }

    /// Converts the timestamp to a calendar instant; every nanosecond count
    /// is representable.
    pub fn to_datetime(self) -> UtcDateTime {
        datetime_from_nanos(self.0)
    }
}

/// Round trip: the wire spelling of a timestamp parses back to the same
/// nanosecond count.
pub proof fn lemma_timestamp_round_trip(n: i64)
    ensures
        timestamp_parse(timestamp_wire(n)) == Ok::<i64, InfluxLineError>(n),
{
    lemma_i64_parse_int_dec_rep(n);
}

} // verus!
