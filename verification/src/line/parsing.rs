//! The segment tokenizer: escape-aware scanners that split a raw line into
//! a measurement slice, raw tag pairs, raw field pairs and an optional raw
//! timestamp slice, all without decoding escapes.

use vstd::prelude::*;

use crate::error::InfluxLineError;
use crate::line::field::field_pair_scan;
use crate::line::field::FieldParser;
use crate::line::key::key_scan;
use crate::line::key::lemma_key_scan_range;
use crate::line::measurement::lemma_measurement_scan_range;
use crate::line::measurement::measurement_scan;
use crate::line::measurement::MeasurementParser;
use crate::line::measurement::MeasurementTail;
use crate::line::tag::lemma_tag_value_scan_range;
use crate::line::tag::tag_pair_scan;
use crate::line::tag::tag_value_scan;
use crate::line::tag::TagParser;
use crate::line::tag::TagParserTail;
use crate::types::chars::chars_to_string;
use crate::types::chars::str_to_chars;
use crate::types::chars::subchars;

verus! {

/// Whether the previous character was an unconsumed escape character.
#[derive(Debug, Clone, Copy, PartialEq, Eq, Structural)]
pub enum Escaped {
    Yes,
    No,
}

/// What follows the segment a scanner has just delimited: more tag pairs,
/// or the field section.
#[derive(Debug, Clone, Copy, PartialEq, Eq, Structural)]
pub enum ScanNext {
    Tags,
    Fields,
}

/// What follows a field value: the timestamp section, another field pair,
/// or nothing.
#[derive(Debug, Clone, Copy, PartialEq, Eq, Structural)]
pub enum FieldParserTail {
    Timestamp,
    Field,
    End,
}

/// A raw, still-escaped key/value pair of the wire text.
#[derive(Debug, Clone, PartialEq, Eq)]
pub struct RawKeyValuePair {
    pub key: String,
    pub value: String,
}

/// The raw tag pairs of `s` from `i` on, with where the field section
/// starts after them.
pub open spec fn tags_scan(s: Seq<char>, i: int) -> Result<
    (Seq<(Seq<char>, Seq<char>)>, int),
    InfluxLineError,
>
    decreases s.len() - i,
    when 0 <= i <= s.len()
    via tags_scan_decreases
{
    match tag_pair_scan(s, i) {
        Err(e) => Err(e),
        Ok((pair, (v_end, next))) => match next {
            ScanNext::Fields => Ok((seq![pair], v_end + 1)),
            ScanNext::Tags => match tags_scan(s, v_end + 1) {
                Err(e) => Err(e),
                Ok((rest, f)) => Ok((seq![pair] + rest, f)),
            },
        },
    }
}

#[via_fn]
proof fn tags_scan_decreases(s: Seq<char>, i: int) {
    lemma_key_scan_range(s, i, false);
    match key_scan(s, i, false) {
        Ok(e) => {
            lemma_tag_value_scan_range(s, e + 1, e + 1, false);
        },
        Err(_) => {},
    }
}

/// A successful tag section scan puts the field section inside the input,
/// after where it started.
pub proof fn lemma_tags_scan_range(s: Seq<char>, i: int)
    requires
        0 <= i <= s.len(),
    ensures
        match tags_scan(s, i) {
            Ok((pairs, f)) => i < f <= s.len(),
            Err(_) => true,
        },
    decreases s.len() - i,
{
    lemma_key_scan_range(s, i, false);
    match key_scan(s, i, false) {
        Ok(e) => {
            lemma_tag_value_scan_range(s, e + 1, e + 1, false);
            match tag_value_scan(s, e + 1, e + 1, false) {
                Ok((v, k)) => {
                    if k == ScanNext::Tags {
                        lemma_tags_scan_range(s, v + 1);
                    }
                },
                Err(_) => {},
            }
        },
        Err(_) => {},
    }
}

/// The raw field pairs of `s` from `i` on, with where the timestamp
/// section starts after them, if one follows.
pub open spec fn fields_scan(s: Seq<char>, i: int) -> Result<
    (Seq<(Seq<char>, Seq<char>)>, Option<int>),
    InfluxLineError,
>
    decreases s.len() - i,
    when 0 <= i <= s.len()
    via fields_scan_decreases
{
    match field_pair_scan(s, i) {
        Err(e) => Err(e),
        Ok((pair, (v_end, next))) => match next {
            FieldParserTail::End => Ok((seq![pair], None)),
            FieldParserTail::Timestamp => Ok((seq![pair], Some(v_end + 1))),
            FieldParserTail::Field => match fields_scan(s, v_end + 1) {
                Err(e) => Err(e),
                Ok((rest, ts)) => Ok((seq![pair] + rest, ts)),
            },
        },
    }
}

#[via_fn]
proof fn fields_scan_decreases(s: Seq<char>, i: int) {
    lemma_key_scan_range(s, i, false);
    match key_scan(s, i, false) {
        Ok(e) => {
            crate::line::field::lemma_simple_value_scan_range(s, e + 1, e + 1);
            crate::line::field::lemma_string_value_scan_range(
                s,
                e + 1,
                crate::line::field::ParserState::Start,
                false,
            );
        },
        Err(_) => {},
    }
}

/// A successful field section scan yields at least one pair, and a
/// timestamp section, when one follows, starts within the input.
pub proof fn lemma_fields_scan_range(s: Seq<char>, i: int)
    requires
        0 <= i <= s.len(),
    ensures
        match fields_scan(s, i) {
            Ok((pairs, ts)) => pairs.len() >= 1 && (ts matches Some(t) ==> i < t <= s.len()),
            Err(_) => true,
        },
    decreases s.len() - i,
{
    lemma_key_scan_range(s, i, false);
    match key_scan(s, i, false) {
        Ok(e) => {
            crate::line::field::lemma_simple_value_scan_range(s, e + 1, e + 1);
            crate::line::field::lemma_string_value_scan_range(
                s,
                e + 1,
                crate::line::field::ParserState::Start,
                false,
            );
            match crate::line::field::field_value_scan(s, e + 1) {
                Ok((v, k)) => {
                    if k == FieldParserTail::Field {
                        lemma_fields_scan_range(s, v + 1);
                    }
                },
                Err(_) => {},
            }
        },
        Err(_) => {},
    }
}

/// One definitional step of `fields_scan`, spelled out.
pub proof fn lemma_fields_scan_step(
    s: Seq<char>,
    i: int,
    pair: (Seq<char>, Seq<char>),
    v_end: int,
    next: FieldParserTail,
)
    requires
        0 <= i <= s.len(),
        field_pair_scan(s, i) == Ok::<((Seq<char>, Seq<char>), (int, FieldParserTail)), InfluxLineError>(
            (pair, (v_end, next)),
        ),
        next == FieldParserTail::Field ==> 0 <= v_end + 1 <= s.len(),
    ensures
        fields_scan(s, i) == (match next {
            FieldParserTail::End => Ok::<(Seq<(Seq<char>, Seq<char>)>, Option<int>), InfluxLineError>(
                (seq![pair], None),
            ),
            FieldParserTail::Timestamp => Ok((seq![pair], Some(v_end + 1))),
            FieldParserTail::Field => match fields_scan(s, v_end + 1) {
                Err(e) => Err(e),
                Ok((rest, ts)) => Ok((seq![pair] + rest, ts)),
            },
        }),
{
    reveal_with_fuel(fields_scan, 2);
    if next == FieldParserTail::End {
        assert(fields_scan(s, i) == Ok::<
            (Seq<(Seq<char>, Seq<char>)>, Option<int>),
            InfluxLineError,
        >((seq![pair], None)));
    } else if next == FieldParserTail::Timestamp {
        assert(fields_scan(s, i) == Ok::<
            (Seq<(Seq<char>, Seq<char>)>, Option<int>),
            InfluxLineError,
        >((seq![pair], Some(v_end + 1))));
    } else {
        match fields_scan(s, v_end + 1) {
            Err(e) => {
                assert(fields_scan(s, i) == Err::<
                    (Seq<(Seq<char>, Seq<char>)>, Option<int>),
                    InfluxLineError,
                >(e));
            },
            Ok((rest, ts)) => {
                assert(fields_scan(s, i) == Ok::<
                    (Seq<(Seq<char>, Seq<char>)>, Option<int>),
                    InfluxLineError,
                >((seq![pair] + rest, ts)));
            },
        }
    }
}

/// The raw segments of one line: the measurement slice, the tag and field
/// pair slices, and the timestamp slice, all still escaped.
pub struct RawLineView {
    pub measurement: Seq<char>,
    pub tags: Seq<(Seq<char>, Seq<char>)>,
    pub fields: Seq<(Seq<char>, Seq<char>)>,
    pub timestamp: Option<Seq<char>>,
}

/// What tokenizing one raw line yields: measurement scan, then zero or
/// more tag pairs, then one or more field pairs, then an optional
/// timestamp slice running to the end of the input.
pub open spec fn line_tokenize(s: Seq<char>) -> Result<RawLineView, InfluxLineError> {
    match measurement_scan(s, 0, false) {
        Err(e) => Err(e),
        Ok((m_end, next)) => {
            let m = s.subrange(0, m_end);
            match next {
                ScanNext::Tags => match tags_scan(s, m_end + 1) {
                    Err(e) => Err(e),
                    Ok((tags, f_start)) => match fields_scan(s, f_start) {
                        Err(e) => Err(e),
                        Ok((fields, ts)) => Ok(
                            RawLineView {
                                measurement: m,
                                tags,
                                fields,
                                timestamp: match ts {
                                    Some(t) => Some(s.subrange(t, s.len() as int)),
                                    None => None,
                                },
                            },
                        ),
                    },
                },
                ScanNext::Fields => match fields_scan(s, m_end + 1) {
                    Err(e) => Err(e),
                    Ok((fields, ts)) => Ok(
                        RawLineView {
                            measurement: m,
                            tags: Seq::empty(),
                            fields,
                            timestamp: match ts {
                                Some(t) => Some(s.subrange(t, s.len() as int)),
                                None => None,
                            },
                        },
                    ),
                },
            }
        },
    }
}

/// The raw segments of one line, as owned text.
#[derive(Debug, Clone, PartialEq, Eq)]
pub struct RawLine {
    pub measurement: String,
    pub tags: Vec<RawKeyValuePair>,
    pub fields: Vec<RawKeyValuePair>,
    pub timestamp: Option<String>,
}

impl View for RawLine {
    type V = RawLineView;

    open spec fn view(&self) -> RawLineView {
        RawLineView {
            measurement: self.measurement@,
            tags: self.tags@.map(|i: int, p: RawKeyValuePair| (p.key@, p.value@)),
            fields: self.fields@.map(|i: int, p: RawKeyValuePair| (p.key@, p.value@)),
            timestamp: match self.timestamp {
                Some(t) => Some(t@),
                None => None,
            },
        }
    }
}

/// The executable tokenizer for one whole line.
#[derive(Debug)]
pub struct LinearLineParser;

impl LinearLineParser {
    /// Collects the tag pairs of `line` from `from` on, as `tags_scan`
    /// says.
    fn parse_tags(&self, line: &Vec<char>, from: usize) -> (r: Result<
        (Vec<RawKeyValuePair>, usize),
        InfluxLineError,
    >)
        requires
            from <= line@.len(),
        ensures
            match tags_scan(line@, from as int) {
                Ok((pairs, f)) => r matches Ok((v, fs)) && fs as int == f && v@.map(
                    |i: int, p: RawKeyValuePair| (p.key@, p.value@),
                ) == pairs && fs <= line@.len(),
                Err(e) => r == Err::<(Vec<RawKeyValuePair>, usize), InfluxLineError>(e),
            },
    {
        let ghost s = line@;
        let mut pairs: Vec<RawKeyValuePair> = Vec::new();
        let mut tail: usize = from;
        proof {
            assert(pairs@.map(|i: int, p: RawKeyValuePair| (p.key@, p.value@)) =~= Seq::<
                (Seq<char>, Seq<char>),
            >::empty());
        }
        loop
            invariant
                from <= tail <= line@.len(),
                s == line@,
                tags_scan(s, from as int) == (match tags_scan(s, tail as int) {
                    Ok((rest, f)) => Ok::<(Seq<(Seq<char>, Seq<char>)>, int), InfluxLineError>(
                        (pairs@.map(|i: int, p: RawKeyValuePair| (p.key@, p.value@)) + rest, f),
                    ),
                    Err(e) => Err(e),
                }),
            decreases line@.len() - tail,
        {
            let ghost old_pairs = pairs@;
            let (pair, t) = match TagParser.process(line, tail) {
                Ok(p) => p,
                Err(e) => {
                    return Err(e);
                },
            };
            let ghost pv = (pair.key@, pair.value@);
            match t {
                TagParserTail::Tag(next_tail) => {
                    pairs.push(pair);
                    proof {
                        let mapped = |i: int, p: RawKeyValuePair| (p.key@, p.value@);
                        assert(pairs@.map(mapped) =~= old_pairs.map(mapped).push(pv));
                        match tags_scan(s, next_tail as int) {
                            Ok((rest, f)) => {
                                assert(tags_scan(s, tail as int) == Ok::<
                                    (Seq<(Seq<char>, Seq<char>)>, int),
                                    InfluxLineError,
                                >((seq![pv] + rest, f)));
                                assert(old_pairs.map(mapped).push(pv) + rest =~= old_pairs.map(
                                    mapped,
                                ) + (seq![pv] + rest));
                            },
                            Err(e) => {
                                assert(tags_scan(s, tail as int) == Err::<
                                    (Seq<(Seq<char>, Seq<char>)>, int),
                                    InfluxLineError,
                                >(e));
                            },
                        }
                    }
                    tail = next_tail;
                },
                TagParserTail::Fields(f_start) => {
                    pairs.push(pair);
                    proof {
                        let mapped = |i: int, p: RawKeyValuePair| (p.key@, p.value@);
                        assert(pairs@.map(mapped) =~= old_pairs.map(mapped).push(pv));
                        assert(tags_scan(s, tail as int) == Ok::<
                            (Seq<(Seq<char>, Seq<char>)>, int),
                            InfluxLineError,
                        >((seq![pv], f_start as int)));
                        assert(old_pairs.map(mapped).push(pv) =~= old_pairs.map(mapped)
                            + seq![pv]);
                    }
                    return Ok((pairs, f_start));
                },
            }
        }
    }

    /// Collects the field pairs of `line` from `from` on, as `fields_scan`
    /// says.
    #[verifier::rlimit(50)]
    fn parse_fields(&self, line: &Vec<char>, from: usize) -> (r: Result<
        (Vec<RawKeyValuePair>, Option<usize>),
        InfluxLineError,
    >)
        requires
            from <= line@.len(),
        ensures
            match fields_scan(line@, from as int) {
                Ok((pairs, ts)) => r matches Ok((v, t)) && v@.map(
                    |i: int, p: RawKeyValuePair| (p.key@, p.value@),
                ) == pairs && (match ts {
                    Some(ti) => t matches Some(tu) && tu as int == ti && tu <= line@.len(),
                    None => t is None,
                }),
                Err(e) => r == Err::<(Vec<RawKeyValuePair>, Option<usize>), InfluxLineError>(e),
            },
    {
        let ghost s = line@;
        let n = line.len();
        let mut pairs: Vec<RawKeyValuePair> = Vec::new();
        let mut tail: usize = from;
        proof {
            assert(pairs@.map(|i: int, p: RawKeyValuePair| (p.key@, p.value@)) =~= Seq::<
                (Seq<char>, Seq<char>),
            >::empty());
        }
        loop
            invariant
                from <= tail <= n,
                n == line@.len(),
                s == line@,
                fields_scan(s, from as int) == (match fields_scan(s, tail as int) {
                    Ok((rest, ts)) => Ok::<
                        (Seq<(Seq<char>, Seq<char>)>, Option<int>),
                        InfluxLineError,
                    >((pairs@.map(|i: int, p: RawKeyValuePair| (p.key@, p.value@)) + rest, ts)),
                    Err(e) => Err(e),
                }),
            decreases line@.len() - tail,
        {
            let ghost old_pairs = pairs@;
            let (pair, v_end, kind) = match FieldParser.process(line, tail) {
                Ok(p) => p,
                Err(e) => {
                    return Err(e);
                },
            };
            let ghost pv = (pair.key@, pair.value@);
            let ghost mapped = |i: int, p: RawKeyValuePair| (p.key@, p.value@);
            proof {
                lemma_fields_scan_step(s, tail as int, pv, v_end as int, kind);
            }
            match kind {
                FieldParserTail::Field => {
                    pairs.push(pair);
                    proof {
                        assert(pairs@.map(mapped) =~= old_pairs.map(mapped).push(pv));
                        match fields_scan(s, v_end + 1) {
                            Ok((rest, ts)) => {
                                assert(fields_scan(s, tail as int) == Ok::<
                                    (Seq<(Seq<char>, Seq<char>)>, Option<int>),
                                    InfluxLineError,
                                >((seq![pv] + rest, ts)));
                                assert(old_pairs.map(mapped).push(pv) + rest =~= old_pairs.map(
                                    mapped,
                                ) + (seq![pv] + rest));
                            },
                            Err(e) => {
                                assert(fields_scan(s, tail as int) == Err::<
                                    (Seq<(Seq<char>, Seq<char>)>, Option<int>),
                                    InfluxLineError,
                                >(e));
                            },
                        }
                    }
                    tail = v_end + 1;
                },
                FieldParserTail::Timestamp => {
                    pairs.push(pair);
                    proof {
                        assert(pairs@.map(mapped) =~= old_pairs.map(mapped).push(pv));
                        assert(fields_scan(s, tail as int) == Ok::<
                            (Seq<(Seq<char>, Seq<char>)>, Option<int>),
                            InfluxLineError,
                        >((seq![pv], Some(v_end + 1))));
                        assert(old_pairs.map(mapped).push(pv) =~= old_pairs.map(mapped)
                            + seq![pv]);
                    }
                    return Ok((pairs, Some(v_end + 1)));
                },
                FieldParserTail::End => {
                    pairs.push(pair);
                    proof {
                        assert(pairs@.map(mapped) =~= old_pairs.map(mapped).push(pv));
                        assert(fields_scan(s, tail as int) == Ok::<
                            (Seq<(Seq<char>, Seq<char>)>, Option<int>),
                            InfluxLineError,
                        >((seq![pv], None)));
                        assert(old_pairs.map(mapped).push(pv) =~= old_pairs.map(mapped)
                            + seq![pv]);
                    }
                    return Ok((pairs, None));
                },
            }
        }
    }

    /// Tokenizes a range of raw line characters, as `line_tokenize` says.
    pub fn process_chars(&self, line: &Vec<char>) -> (r: Result<RawLine, InfluxLineError>)
        ensures
            match line_tokenize(line@) {
                Ok(v) => r is Ok && r.unwrap()@ == v,
                Err(e) => r == Err::<RawLine, InfluxLineError>(e),
            },
    {
        let n = line.len();
        proof {
            lemma_measurement_scan_range(line@, 0, false);
        }
        let (m_end, m_tail) = match MeasurementParser::new().process(line) {
            Ok(p) => p,
            Err(e) => {
                return Err(e);
            },
        };
        proof {
            match measurement_scan(line@, 0, false) {
                Ok((e, k)) => {
                    assert(m_end as int == e && e < line@.len());
                },
                Err(_) => {
                    assert(false);
                },
            }
        }
        let measurement = chars_to_string(&subchars(line, 0, m_end));
        let (tags, f_start) = match m_tail {
            MeasurementTail::Tags(t_start) => {
                proof {
                    lemma_tags_scan_range(line@, t_start as int);
                }
                match self.parse_tags(line, t_start) {
                    Ok(p) => p,
                    Err(e) => {
                        return Err(e);
                    },
                }
            },
            MeasurementTail::Fields(f_start) => (Vec::new(), f_start),
        };
        proof {
            lemma_fields_scan_range(line@, f_start as int);
        }
        let (fields, ts_start) = match self.parse_fields(line, f_start) {
            Ok(p) => p,
            Err(e) => {
                return Err(e);
            },
        };
        let timestamp = match ts_start {
            Some(t) => Some(chars_to_string(&subchars(line, t, n))),
            None => None,
        };
        let raw = RawLine { measurement, tags, fields, timestamp };
        proof {
            let v = line_tokenize(line@).unwrap();
            assert(raw@.measurement == v.measurement);
            assert(raw@.tags =~= v.tags);
            assert(raw@.fields =~= v.fields);
            assert(raw@.timestamp == v.timestamp);
        }
        Ok(raw)
    }

    /// Tokenizes one raw line of text.
    pub fn process(&self, line: &str) -> (r: Result<RawLine, InfluxLineError>)
        ensures
            match line_tokenize(line@) {
                Ok(v) => r is Ok && r.unwrap()@ == v,
                Err(e) => r == Err::<RawLine, InfluxLineError>(e),
            },
    {
        let chars = str_to_chars(line);
        self.process_chars(&chars)
    }
}

} // verus!
