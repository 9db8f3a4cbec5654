//! The measurement scanner: consumes characters, honoring backslash
//! escaping, until the unescaped comma or space that ends the measurement
//! segment.

use vstd::prelude::*;

use crate::error::InfluxLineError;
use crate::line::parsing::Escaped;
use crate::line::parsing::ScanNext;

verus! {

/// Where the measurement segment of `s` ends when scanned from `i` in
/// escape state `escaped`: the index of the unescaped delimiter and what
/// follows it, or the error met first. Within a backslash run every
/// following character counts as escaped.
pub open spec fn measurement_scan(s: Seq<char>, i: int, escaped: bool) -> Result<
    (int, ScanNext),
    InfluxLineError,
>
    decreases s.len() - i,
    when 0 <= i <= s.len()
{
    if i >= s.len() {
        Err(InfluxLineError::NoWhitespaceDelimiter)
    } else {
        let c = s[i];
        if !escaped && (c == ',' || c == ' ') && i == 0 {
            Err(InfluxLineError::NoMeasurement)
        } else if !escaped && c == ',' {
            Ok((i, ScanNext::Tags))
        } else if !escaped && c == ' ' {
            Ok((i, ScanNext::Fields))
        } else if !escaped && c == '\\' {
            measurement_scan(s, i + 1, true)
        } else if !escaped {
            measurement_scan(s, i + 1, false)
        } else if c == '\\' {
            measurement_scan(s, i + 1, true)
        } else {
            measurement_scan(s, i + 1, false)
        }
    }
}

/// A successful measurement scan ends at a delimiter inside the input, at
/// or after where it started.
pub proof fn lemma_measurement_scan_range(s: Seq<char>, i: int, escaped: bool)
    requires
        0 <= i <= s.len(),
    ensures
        match measurement_scan(s, i, escaped) {
            Ok((e, k)) => i <= e < s.len(),
            Err(_) => true,
        },
    decreases s.len() - i,
{
    if i < s.len() {
        lemma_measurement_scan_range(s, i + 1, true);
        lemma_measurement_scan_range(s, i + 1, false);
    }
}

/// What follows the measurement segment, with the index where it starts.
#[derive(Debug, Clone, Copy, PartialEq, Eq, Structural)]
pub enum MeasurementTail {
    Tags(usize),
    Fields(usize),
}

/// The executable measurement scanner.
#[derive(Debug)]
pub struct MeasurementParser {
    pub escaped: Escaped,
}

impl MeasurementParser {
    pub fn new() -> (r: MeasurementParser)
        ensures
            r.escaped == Escaped::No,
    {
        MeasurementParser { escaped: Escaped::No }
    }

    /// Scans the measurement segment at the start of `line`, returning
    /// where it ends and what follows, as `measurement_scan` says.
    pub fn process(self, line: &Vec<char>) -> (r: Result<
        (usize, MeasurementTail),
        InfluxLineError,
    >)
        requires
            self.escaped == Escaped::No,
        ensures
            match measurement_scan(line@, 0, false) {
                Ok((e, ScanNext::Tags)) => r matches Ok((end, MeasurementTail::Tags(t)))
                    && end as int == e && t as int == e + 1,
                Ok((e, ScanNext::Fields)) => r matches Ok((end, MeasurementTail::Fields(t)))
                    && end as int == e && t as int == e + 1,
                Err(er) => r == Err::<(usize, MeasurementTail), InfluxLineError>(er),
            },
    {
        let n = line.len();
        let mut escaped = self.escaped;
        let mut i: usize = 0;
        while i < n
            invariant
                0 <= i <= n,
                n == line@.len(),
                measurement_scan(line@, 0, false) == measurement_scan(
                    line@,
                    i as int,
                    escaped == Escaped::Yes,
                ),
            decreases n - i,
        {
            let c = line[i];
            match (escaped, c) {
                (Escaped::No, ',') if i == 0 => {
                    return Err(InfluxLineError::NoMeasurement);
                },
                (Escaped::No, ' ') if i == 0 => {
                    return Err(InfluxLineError::NoMeasurement);
                },
                (Escaped::No, ',') => {
                    return Ok((i, MeasurementTail::Tags(i + 1)));
                },
                (Escaped::No, ' ') => {
                    return Ok((i, MeasurementTail::Fields(i + 1)));
                },
                (Escaped::No, '\\') => {
                    escaped = Escaped::Yes;
                },
                (Escaped::No, _) => {},
                (Escaped::Yes, '\\') => {},
                (Escaped::Yes, _) => {
                    escaped = Escaped::No;
                },
            }
            i = i + 1;
        }
        Err(InfluxLineError::NoWhitespaceDelimiter)
    }
}

} // verus!
