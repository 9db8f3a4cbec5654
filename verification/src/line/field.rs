//! The field scanner: a field pair is a key segment up to an unescaped
//! equals sign, then either a quoted string value with its own sub-scanner
//! or a bare value that may contain no backslash.

use vstd::prelude::*;

use crate::error::InfluxLineError;
use crate::line::key::key_scan;
use crate::line::key::lemma_key_scan_range;
use crate::line::key::KeyParser;
use crate::line::parsing::Escaped;
use crate::line::parsing::FieldParserTail;
use crate::line::parsing::RawKeyValuePair;
use crate::types::chars::chars_to_string;
use crate::types::chars::subchars;

verus! {

/// Where the bare (unquoted) field value that began at `start` ends when
/// scanned from `i`: a backslash is always an error, and a newline ends
/// the line.
pub open spec fn simple_value_scan(s: Seq<char>, start: int, i: int) -> Result<
    (int, FieldParserTail),
    InfluxLineError,
>
    decreases s.len() - i,
    when 0 <= i <= s.len()
{
    if i >= s.len() {
        Ok((i, FieldParserTail::End))
    } else {
        let c = s[i];
        if c == '\\' {
            Err(InfluxLineError::UnexpectedEscapeSymbol)
        } else if (c == ' ' || c == ',') && i == start {
            Err(InfluxLineError::NoValue)
        } else if c == ' ' {
            Ok((i, FieldParserTail::Timestamp))
        } else if c == ',' {
            Ok((i, FieldParserTail::Field))
        } else if c == '\n' {
            Ok((i, FieldParserTail::End))
        } else {
            simple_value_scan(s, start, i + 1)
        }
    }
}

/// A successful bare value scan ends at or after its start, within one
/// position past the input.
pub proof fn lemma_simple_value_scan_range(s: Seq<char>, start: int, i: int)
    requires
        0 <= i <= s.len(),
    ensures
        match simple_value_scan(s, start, i) {
            Ok((e, k)) => i <= e <= s.len() && (k != FieldParserTail::End ==> e < s.len()),
            Err(_) => true,
        },
    decreases s.len() - i,
{
    if i < s.len() {
        lemma_simple_value_scan_range(s, start, i + 1);
    }
}

/// The states of the quoted value sub-scanner.
#[derive(Debug, Clone, Copy, PartialEq, Eq, Structural)]
pub enum ParserState {
    Start,
    StringLeftQuote,
    StringContent,
    StringRightQuote,
}

/// What the quoted value sub-scanner does after the closing quote.
#[derive(Debug, Clone, Copy, PartialEq, Eq, Structural)]
pub enum Transition {
    ToTimestamp,
    ToNextField,
}

/// Where the quoted field value ends when scanned from `i` in state
/// `state`: the value runs to its closing quote, after which only a comma,
/// a space or the end of input may follow.
pub open spec fn string_value_scan(
    s: Seq<char>,
    i: int,
    state: ParserState,
    escaped: bool,
) -> Result<(int, FieldParserTail), InfluxLineError>
    decreases s.len() - i,
    when 0 <= i <= s.len()
{
    if i >= s.len() {
        match state {
            ParserState::StringRightQuote => Ok((i, FieldParserTail::End)),
            ParserState::Start => Err(InfluxLineError::Failed),
            _ => Err(InfluxLineError::NoQuoteDelimiter),
        }
    } else {
        let c = s[i];
        match state {
            ParserState::Start => if c == '"' {
                string_value_scan(s, i + 1, ParserState::StringLeftQuote, false)
            } else {
                Err(InfluxLineError::NoQuoteDelimiter)
            },
            ParserState::StringLeftQuote => if c == '"' {
                string_value_scan(s, i + 1, ParserState::StringRightQuote, false)
            } else {
                string_value_scan(s, i + 1, ParserState::StringContent, c == '\\')
            },
            ParserState::StringContent => if escaped {
                if c == '\\' || c == '"' {
                    string_value_scan(s, i + 1, ParserState::StringContent, false)
                } else {
                    Err(InfluxLineError::UnexpectedEscapeSymbol)
                }
            } else if c == '\\' {
                string_value_scan(s, i + 1, ParserState::StringContent, true)
            } else if c == '"' {
                string_value_scan(s, i + 1, ParserState::StringRightQuote, false)
            } else {
                string_value_scan(s, i + 1, ParserState::StringContent, false)
            },
            ParserState::StringRightQuote => if c == ',' {
                Ok((i, FieldParserTail::Field))
            } else if c == ' ' {
                Ok((i, FieldParserTail::Timestamp))
            } else {
                Err(InfluxLineError::SymbolsAfterClosedString)
            },
        }
    }
}

/// A successful quoted value scan ends at or after where it started,
/// within one position past the input.
pub proof fn lemma_string_value_scan_range(s: Seq<char>, i: int, state: ParserState, escaped: bool)
    requires
        0 <= i <= s.len(),
    ensures
        match string_value_scan(s, i, state, escaped) {
            Ok((e, k)) => i <= e <= s.len() && (k != FieldParserTail::End ==> e < s.len()),
            Err(_) => true,
        },
    decreases s.len() - i,
{
    if i < s.len() {
        lemma_string_value_scan_range(s, i + 1, ParserState::StringLeftQuote, false);
        lemma_string_value_scan_range(s, i + 1, ParserState::StringRightQuote, false);
        lemma_string_value_scan_range(s, i + 1, ParserState::StringContent, false);
        lemma_string_value_scan_range(s, i + 1, ParserState::StringContent, true);
    }
}

/// Where the field value that begins at `start` ends: a double quote
/// selects the quoted sub-scanner, anything else the bare one, and a
/// missing value is an error.
pub open spec fn field_value_scan(s: Seq<char>, start: int) -> Result<
    (int, FieldParserTail),
    InfluxLineError,
> {
    if start >= s.len() {
        Err(InfluxLineError::NoValue)
    } else if s[start] == '"' {
        string_value_scan(s, start, ParserState::Start, false)
    } else {
        simple_value_scan(s, start, start)
    }
}

/// One raw field pair of `s` beginning at `i`: its still-escaped key and
/// value slices, the value's end, and what follows.
pub open spec fn field_pair_scan(s: Seq<char>, i: int) -> Result<
    ((Seq<char>, Seq<char>), (int, FieldParserTail)),
    InfluxLineError,
> {
    match key_scan(s, i, false) {
        Err(e) => Err(e),
        Ok(k_end) => match field_value_scan(s, k_end + 1) {
            Err(e) => Err(e),
            Ok((v_end, next)) => Ok(
                ((s.subrange(i, k_end), s.subrange(k_end + 1, v_end)), (v_end, next)),
            ),
        },
    }
}

/// The executable bare value scanner.
#[derive(Debug)]
pub struct SimpleValueParser;

impl SimpleValueParser {
    /// Scans the bare field value of `line` beginning at `from`, as
    /// `simple_value_scan` says.
    pub fn process(self, line: &Vec<char>, from: usize) -> (r: Result<
        (usize, FieldParserTail),
        InfluxLineError,
    >)
        requires
            from <= line@.len(),
        ensures
            match simple_value_scan(line@, from as int, from as int) {
                Ok((e, k)) => r matches Ok((end, kind)) && end as int == e && kind == k,
                Err(er) => r == Err::<(usize, FieldParserTail), InfluxLineError>(er),
            },
    {
        let n = line.len();
        let mut i: usize = from;
        while i < n
            invariant
                from <= i <= n,
                n == line@.len(),
                simple_value_scan(line@, from as int, from as int) == simple_value_scan(
                    line@,
                    from as int,
                    i as int,
                ),
            decreases n - i,
        {
            let c = line[i];
            if c == '\\' {
                return Err(InfluxLineError::UnexpectedEscapeSymbol);
            }
            if (c == ' ' || c == ',') && i == from {
                return Err(InfluxLineError::NoValue);
            }
            if c == ' ' {
                return Ok((i, FieldParserTail::Timestamp));
            }
            if c == ',' {
                return Ok((i, FieldParserTail::Field));
            }
            if c == '\n' {
                return Ok((i, FieldParserTail::End));
            }
            i = i + 1;
        }
        Ok((i, FieldParserTail::End))
    }
}

/// The executable quoted value sub-scanner.
#[derive(Debug)]
pub struct StringValueParser {
    pub state: ParserState,
    pub escaped: Escaped,
}

impl StringValueParser {
    pub fn new() -> (r: StringValueParser)
        ensures
            r.state == ParserState::Start,
            r.escaped == Escaped::No,
    {
        StringValueParser { state: ParserState::Start, escaped: Escaped::No }
    }

    /// Feeds one character to the sub-scanner. `None` means the scan goes
    /// on; a transition names the delimiter just seen after the closing
    /// quote.
    pub fn consume_char(&mut self, character: char) -> (r: Result<
        Option<Transition>,
        InfluxLineError,
    >)
        ensures
            ({
                let st = old(self).state;
                let esc = old(self).escaped == Escaped::Yes;
                match st {
                    ParserState::Start => if character == '"' {
                        r matches Ok(None) && final(self).state == ParserState::StringLeftQuote
                            && final(self).escaped == Escaped::No
                    } else {
                        r == Err::<Option<Transition>, InfluxLineError>(
                            InfluxLineError::NoQuoteDelimiter,
                        )
                    },
                    ParserState::StringLeftQuote => if character == '"' {
                        r matches Ok(None) && final(self).state == ParserState::StringRightQuote
                            && final(self).escaped == Escaped::No
                    } else {
                        r matches Ok(None) && final(self).state == ParserState::StringContent && (
                        final(self).escaped == Escaped::Yes <==> character == '\\')
                    },
                    ParserState::StringContent => if esc {
                        if character == '\\' || character == '"' {
                            r matches Ok(None) && final(self).state == ParserState::StringContent
                                && final(self).escaped == Escaped::No
                        } else {
                            r == Err::<Option<Transition>, InfluxLineError>(
                                InfluxLineError::UnexpectedEscapeSymbol,
                            )
                        }
                    } else if character == '\\' {
                        r matches Ok(None) && final(self).state == ParserState::StringContent
                            && final(self).escaped == Escaped::Yes
                    } else if character == '"' {
                        r matches Ok(None) && final(self).state == ParserState::StringRightQuote
                            && final(self).escaped == Escaped::No
                    } else {
                        r matches Ok(None) && final(self).state == ParserState::StringContent
                            && final(self).escaped == Escaped::No
                    },
                    ParserState::StringRightQuote => if character == ',' {
                        r matches Ok(Some(t)) && t == Transition::ToNextField
                    } else if character == ' ' {
                        r matches Ok(Some(t)) && t == Transition::ToTimestamp
                    } else {
                        r == Err::<Option<Transition>, InfluxLineError>(
                            InfluxLineError::SymbolsAfterClosedString,
                        )
                    },
                }
            }),
    {
        match (self.state, self.escaped, character) {
            (ParserState::Start, _, '"') => {
                self.state = ParserState::StringLeftQuote;
                self.escaped = Escaped::No;
                Ok(None)
            },
            (ParserState::Start, _, _) => Err(InfluxLineError::NoQuoteDelimiter),
            (ParserState::StringLeftQuote, _, '"') => {
                self.state = ParserState::StringRightQuote;
                self.escaped = Escaped::No;
                Ok(None)
            },
            (ParserState::StringLeftQuote, _, c) => {
                if c == '\\' {
                    self.escaped = Escaped::Yes;
                } else {
                    self.escaped = Escaped::No;
                }
                self.state = ParserState::StringContent;
                Ok(None)
            },
            (ParserState::StringContent, Escaped::No, '\\') => {
                self.escaped = Escaped::Yes;
                Ok(None)
            },
            (ParserState::StringContent, Escaped::No, '"') => {
                self.state = ParserState::StringRightQuote;
                Ok(None)
            },
            (ParserState::StringContent, Escaped::No, _) => Ok(None),
            (ParserState::StringContent, Escaped::Yes, '\\') => {
                self.escaped = Escaped::No;
                Ok(None)
            },
            (ParserState::StringContent, Escaped::Yes, '"') => {
                self.escaped = Escaped::No;
                Ok(None)
            },
            (ParserState::StringContent, Escaped::Yes, _) => Err(
                InfluxLineError::UnexpectedEscapeSymbol,
            ),
            (ParserState::StringRightQuote, _, ',') => Ok(Some(Transition::ToNextField)),
            (ParserState::StringRightQuote, _, ' ') => Ok(Some(Transition::ToTimestamp)),
            (ParserState::StringRightQuote, _, _) => Err(
                InfluxLineError::SymbolsAfterClosedString,
            ),
        }
    }

    /// Scans the quoted field value of `line` beginning at `from`, as
    /// `string_value_scan` says.
    pub fn process(self, line: &Vec<char>, from: usize) -> (r: Result<
        (usize, FieldParserTail),
        InfluxLineError,
    >)
        requires
            self.state == ParserState::Start,
            self.escaped == Escaped::No,
            from <= line@.len(),
        ensures
            match string_value_scan(line@, from as int, ParserState::Start, false) {
                Ok((e, k)) => r matches Ok((end, kind)) && end as int == e && kind == k,
                Err(er) => r == Err::<(usize, FieldParserTail), InfluxLineError>(er),
            },
    {
        let mut parser = self;
        let n = line.len();
        let mut i: usize = from;
        while i < n
            invariant
                from <= i <= n,
                n == line@.len(),
                string_value_scan(line@, from as int, ParserState::Start, false)
                    == string_value_scan(
                    line@,
                    i as int,
                    parser.state,
                    parser.escaped == Escaped::Yes,
                ),
            decreases n - i,
        {
            match parser.consume_char(line[i]) {
                Ok(None) => {},
                Ok(Some(Transition::ToNextField)) => {
                    return Ok((i, FieldParserTail::Field));
                },
                Ok(Some(Transition::ToTimestamp)) => {
                    return Ok((i, FieldParserTail::Timestamp));
                },
                Err(e) => {
                    return Err(e);
                },
            }
            i = i + 1;
        }
        match parser.state {
            ParserState::StringRightQuote => Ok((i, FieldParserTail::End)),
            ParserState::Start => Err(InfluxLineError::Failed),
            ParserState::StringLeftQuote => Err(InfluxLineError::NoQuoteDelimiter),
            ParserState::StringContent => Err(InfluxLineError::NoQuoteDelimiter),
        }
    }
}

/// The executable field value scanner: dispatches on the first character.
#[derive(Debug)]
pub struct FieldValueParser;

impl FieldValueParser {
    /// Scans the field value of `line` beginning at `from`, as
    /// `field_value_scan` says.
    pub fn process(self, line: &Vec<char>, from: usize) -> (r: Result<
        (usize, FieldParserTail),
        InfluxLineError,
    >)
        requires
            from <= line@.len(),
        ensures
            match field_value_scan(line@, from as int) {
                Ok((e, k)) => r matches Ok((end, kind)) && end as int == e && kind == k,
                Err(er) => r == Err::<(usize, FieldParserTail), InfluxLineError>(er),
            },
    {
        if from == line.len() {
            return Err(InfluxLineError::NoValue);
        }
        if line[from] == '"' {
            StringValueParser::new().process(line, from)
        } else {
            SimpleValueParser.process(line, from)
        }
    }
}

/// The executable field pair scanner: one key, one value.
#[derive(Debug)]
pub struct FieldParser;

impl FieldParser {
    /// Scans one raw field pair of `line` beginning at `from`, as
    /// `field_pair_scan` says.
    pub fn process(self, line: &Vec<char>, from: usize) -> (r: Result<
        (RawKeyValuePair, usize, FieldParserTail),
        InfluxLineError,
    >)
        requires
            from <= line@.len(),
        ensures
            match field_pair_scan(line@, from as int) {
                Ok(((k, v), (e, next))) => r matches Ok((pair, end, kind)) && pair.key@ == k
                    && pair.value@ == v && end as int == e && kind == next && end <= line@.len()
                    && from < end && (kind != FieldParserTail::End ==> end < line@.len()),
                Err(er) => r == Err::<(RawKeyValuePair, usize, FieldParserTail), InfluxLineError>(er),
            },
    {
        let n = line.len();
        proof {
            lemma_key_scan_range(line@, from as int, false);
        }
        let k_end = match KeyParser::new().process(line, from) {
            Ok(e) => e,
            Err(er) => {
                return Err(er);
            },
        };
        proof {
            match key_scan(line@, from as int, false) {
                Ok(e) => {
                    assert(k_end as int == e && e < line@.len());
                    assert(k_end < n);
                },
                Err(_) => {
                    assert(false);
                },
            }
            lemma_simple_value_scan_range(line@, k_end + 1, k_end + 1);
            lemma_string_value_scan_range(line@, k_end + 1, ParserState::Start, false);
        }
        let (v_end, kind) = match FieldValueParser.process(line, k_end + 1) {
            Ok(p) => p,
            Err(er) => {
                return Err(er);
            },
        };
        let key = chars_to_string(&subchars(line, from, k_end));
        let value = chars_to_string(&subchars(line, k_end + 1, v_end));
        Ok((RawKeyValuePair { key, value }, v_end, kind))
    }
}

} // verus!
