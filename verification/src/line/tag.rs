//! The tag scanner: a tag pair is a key segment up to an unescaped equals
//! sign, then a value segment up to the unescaped comma (more tags) or
//! space (fields follow).

use vstd::prelude::*;

use crate::error::InfluxLineError;
use crate::line::key::key_scan;
use crate::line::key::lemma_key_scan_range;
use crate::line::key::KeyParser;
use crate::line::parsing::Escaped;
use crate::line::parsing::RawKeyValuePair;
use crate::line::parsing::ScanNext;
use crate::types::chars::chars_to_string;
use crate::types::chars::subchars;

verus! {

/// Where the tag value that began at `start` ends when scanned from `i` in
/// escape state `escaped`: the index of the unescaped delimiter and what
/// follows, or the error met first. Within a backslash run every following
/// character counts as escaped.
pub open spec fn tag_value_scan(s: Seq<char>, start: int, i: int, escaped: bool) -> Result<
    (int, ScanNext),
    InfluxLineError,
>
    decreases s.len() - i,
    when 0 <= i <= s.len()
{
    if i >= s.len() {
        Err(InfluxLineError::NoFields)
    } else {
        let c = s[i];
        if !escaped && (c == ',' || c == ' ') && i == start {
            Err(InfluxLineError::NoValue)
        } else if !escaped && c == ',' {
            Ok((i, ScanNext::Tags))
        } else if !escaped && c == ' ' {
            Ok((i, ScanNext::Fields))
        } else if !escaped && c == '\\' {
            tag_value_scan(s, start, i + 1, true)
        } else if !escaped {
            tag_value_scan(s, start, i + 1, false)
        } else if c == '\\' {
            tag_value_scan(s, start, i + 1, true)
        } else {
            tag_value_scan(s, start, i + 1, false)
        }
    }
}

/// A successful tag value scan ends inside the input, at or after its
/// start.
pub proof fn lemma_tag_value_scan_range(s: Seq<char>, start: int, i: int, escaped: bool)
    requires
        0 <= i <= s.len(),
    ensures
        match tag_value_scan(s, start, i, escaped) {
            Ok((e, k)) => i <= e < s.len(),
            Err(_) => true,
        },
    decreases s.len() - i,
{
    if i < s.len() {
        lemma_tag_value_scan_range(s, start, i + 1, true);
        lemma_tag_value_scan_range(s, start, i + 1, false);
    }
}

/// One raw tag pair of `s` beginning at `i`: its still-escaped key and
/// value slices, the value's end, and what follows.
pub open spec fn tag_pair_scan(s: Seq<char>, i: int) -> Result<
    ((Seq<char>, Seq<char>), (int, ScanNext)),
    InfluxLineError,
> {
    match key_scan(s, i, false) {
        Err(e) => Err(e),
        Ok(k_end) => match tag_value_scan(s, k_end + 1, k_end + 1, false) {
            Err(e) => Err(e),
            Ok((v_end, next)) => Ok(
                ((s.subrange(i, k_end), s.subrange(k_end + 1, v_end)), (v_end, next)),
            ),
        },
    }
}

/// What follows a tag pair, with the index where it starts.
#[derive(Debug, Clone, Copy, PartialEq, Eq, Structural)]
pub enum TagParserTail {
    Tag(usize),
    Fields(usize),
}

/// The executable tag value scanner.
#[derive(Debug)]
pub struct TagValueParser {
    pub escaped: Escaped,
}

impl TagValueParser {
    pub fn new() -> (r: TagValueParser)
        ensures
            r.escaped == Escaped::No,
    {
        TagValueParser { escaped: Escaped::No }
    }

    /// Scans the tag value of `line` beginning at `from`, returning where
    /// it ends and what follows, as `tag_value_scan` says.
    pub fn process(self, line: &Vec<char>, from: usize) -> (r: Result<
        (usize, TagParserTail),
        InfluxLineError,
    >)
        requires
            self.escaped == Escaped::No,
            from <= line@.len(),
        ensures
            match tag_value_scan(line@, from as int, from as int, false) {
                Ok((e, ScanNext::Tags)) => r matches Ok((end, TagParserTail::Tag(t))) && end as int
                    == e && t as int == e + 1,
                Ok((e, ScanNext::Fields)) => r matches Ok((end, TagParserTail::Fields(t)))
                    && end as int == e && t as int == e + 1,
                Err(er) => r == Err::<(usize, TagParserTail), InfluxLineError>(er),
            },
    {
        let n = line.len();
        let mut escaped = self.escaped;
        let mut i: usize = from;
        while i < n
            invariant
                from <= i <= n,
                n == line@.len(),
                tag_value_scan(line@, from as int, from as int, false) == tag_value_scan(
                    line@,
                    from as int,
                    i as int,
                    escaped == Escaped::Yes,
                ),
            decreases n - i,
        {
            let c = line[i];
            match (escaped, c) {
                (Escaped::No, ',') if i == from => {
                    return Err(InfluxLineError::NoValue);
                },
                (Escaped::No, ' ') if i == from => {
                    return Err(InfluxLineError::NoValue);
                },
                (Escaped::No, ',') => {
                    return Ok((i, TagParserTail::Tag(i + 1)));
                },
                (Escaped::No, ' ') => {
                    return Ok((i, TagParserTail::Fields(i + 1)));
                },
                (Escaped::No, '\\') => {
                    escaped = Escaped::Yes;
                },
                (Escaped::No, _) => {},
                (Escaped::Yes, '\\') => {},
                (Escaped::Yes, _) => {
                    escaped = Escaped::No;
                },
            }
            i = i + 1;
        }
        Err(InfluxLineError::NoFields)
    }
}

/// The executable tag pair scanner: one key, one value.
#[derive(Debug)]
pub struct TagParser;

impl TagParser {
    /// Scans one raw tag pair of `line` beginning at `from`, as
    /// `tag_pair_scan` says.
    pub fn process(self, line: &Vec<char>, from: usize) -> (r: Result<
        (RawKeyValuePair, TagParserTail),
        InfluxLineError,
    >)
        requires
            from <= line@.len(),
        ensures
            match tag_pair_scan(line@, from as int) {
                Ok(((k, v), (e, ScanNext::Tags))) => r matches Ok((pair, TagParserTail::Tag(t)))
                    && pair.key@ == k && pair.value@ == v && t as int == e + 1 && t <= line@.len()
                    && from < t,
                Ok(((k, v), (e, ScanNext::Fields))) => r matches Ok(
                    (pair, TagParserTail::Fields(t)),
                ) && pair.key@ == k && pair.value@ == v && t as int == e + 1 && t <= line@.len()
                    && from < t,
                Err(er) => r == Err::<(RawKeyValuePair, TagParserTail), InfluxLineError>(er),
            },
    {
        let n = line.len();
        proof {
            lemma_key_scan_range(line@, from as int, false);
        }
        let k_end = match KeyParser::new().process(line, from) {
            Ok(e) => e,
            Err(er) => {
                return Err(er);
            },
        };
        proof {
            match key_scan(line@, from as int, false) {
                Ok(e) => {
                    assert(k_end as int == e && e < line@.len());
                    assert(k_end < n);
                },
                Err(_) => {
                    assert(false);
                },
            }
            lemma_tag_value_scan_range(line@, k_end + 1, k_end + 1, false);
        }
        let (v_end, tail) = match TagValueParser::new().process(line, k_end + 1) {
            Ok(p) => p,
            Err(er) => {
                return Err(er);
            },
        };
        let key = chars_to_string(&subchars(line, from, k_end));
        let value = chars_to_string(&subchars(line, k_end + 1, v_end));
        Ok((RawKeyValuePair { key, value }, tail))
    }
}

} // verus!
