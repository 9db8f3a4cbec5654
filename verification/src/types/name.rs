//! A standalone validated name for measurements, tags and fields, with its
//! own character-by-character wire decoder, which reports the position of
//! the first character it refuses.

use vstd::prelude::*;
use vstd::string::StrSliceExecFns;

use crate::types::chars::chars_to_string;
use crate::types::chars::str_to_chars;
use crate::types::key::valid_name;
use crate::error::InfluxLineError;
use crate::types::parser::decode_run;
use crate::types::parser::decode_step;
use crate::types::parser::escape_decode;
use crate::types::parser::is_special;
use crate::types::parser::lemma_decode_error_at;
use crate::types::parser::lemma_decode_run_step_ok;

verus! {

/// The characters this name must escape on the wire.
pub open spec fn name_special_chars() -> Seq<char> {
    seq![' ', '=', ',']
}

/// What decoding this name's wire spelling yields: the shared decoding
/// machine with stray escapes tolerated. An unescaped special character and
/// an escape character still pending at the end of input both fail.
pub open spec fn influx_name_decode(s: Seq<char>) -> Result<Seq<char>, InfluxLineError> {
    escape_decode(s, name_special_chars(), '\\', true)
}

/// A name rejected by the naming restriction, carrying the rejected text.
#[derive(Debug, Clone, PartialEq, Eq)]
pub struct MalformedNameError(pub String);

/// Why parsing a name from wire text failed.
#[derive(Debug, Clone, PartialEq, Eq)]
pub enum NameParseError {
    /// The input ends while an escape character is still pending.
    Failed(String),
    /// The character at the given position may not appear unescaped.
    BadCharacter(String, usize),
    /// The decoded text fails the naming restriction.
    Malformed(MalformedNameError),
}

/// A measurement, tag or field name, stored unescaped.
#[derive(Debug, PartialEq, Eq, Hash)]
pub struct InfluxName {
    name: String,
}

impl Clone for InfluxName {
    /// Clones the value; the copy has the same view.
    fn clone(&self) -> (r: Self)
        ensures
            r@ == self@,
    {
        InfluxName { name: self.name.clone() }
    }
}

impl View for InfluxName {
    type V = Seq<char>;

    closed spec fn view(&self) -> Seq<char> {
        self.name@
    }
}

/// The states of the name decoder.
#[derive(Debug, Clone, Copy, PartialEq, Eq, Structural)]
pub enum NameParserState {
    SeenCharacter,
    SeenEscapeCharacter,
    Error,
}

/// The classification of one character for the name decoder.
#[derive(Debug, Clone, Copy, PartialEq, Eq, Structural)]
pub enum CharacterState {
    Normal,
    Special,
    Escape,
}

/// The name decoder: feed it one character at a time, then extract.
#[derive(Debug)]
pub struct Parser {
    pub buffer: Vec<char>,
    pub state: NameParserState,
}

impl Parser {
    pub fn new() -> (r: Parser)
        ensures
            r.buffer@ == Seq::<char>::empty(),
            r.state == NameParserState::SeenCharacter,
    {
        Parser { buffer: Vec::new(), state: NameParserState::SeenCharacter }
    }

    /// Classifies one character.
    pub fn character_state(character: char) -> (r: CharacterState)
        ensures
            r == (if character == '\\' {
                CharacterState::Escape
            } else if is_special(character, name_special_chars()) {
                CharacterState::Special
            } else {
                CharacterState::Normal
            }),
    {
        if character == '\\' {
            CharacterState::Escape
        } else if character == ' ' || character == '=' || character == ',' {
            proof {
                assert(name_special_chars().contains(character));
            }
            CharacterState::Special
        } else {
            proof {
                assert(!name_special_chars().contains(character)) by {
                    assert(forall|j: int|
                        0 <= j < name_special_chars().len() ==> name_special_chars()[j] == ' '
                            || name_special_chars()[j] == '=' || name_special_chars()[j] == ',');
                }
            }
            CharacterState::Normal
        }
    }

    /// Feeds one character: the decoding step of the shared machine with
    /// stray escapes tolerated, plus an absorbing error state. Returns
    /// whether the character was accepted.
    pub fn process_char(&mut self, character: char) -> (r: bool)
        ensures
            old(self).state == NameParserState::Error ==> final(self).state
                == NameParserState::Error && !r,
            old(self).state != NameParserState::Error ==> match decode_step(
                old(self).buffer@,
                old(self).state == NameParserState::SeenEscapeCharacter,
                character,
                name_special_chars(),
                '\\',
                true,
            ) {
                Ok((acc, escaped)) => r && final(self).buffer@ == acc && final(self).state == (
                if escaped {
                    NameParserState::SeenEscapeCharacter
                } else {
                    NameParserState::SeenCharacter
                }),
                Err(_) => !r && final(self).state == NameParserState::Error && final(self).buffer@
                    == old(self).buffer@,
            },
    {
        let char_state = Parser::character_state(character);
        match (self.state, char_state) {
            (NameParserState::SeenCharacter, CharacterState::Normal) => {
                self.buffer.push(character);
                self.state = NameParserState::SeenCharacter;
            },
            (NameParserState::SeenCharacter, CharacterState::Special) => {
                self.state = NameParserState::Error;
            },
            (NameParserState::SeenCharacter, CharacterState::Escape) => {
                self.state = NameParserState::SeenEscapeCharacter;
            },
            (NameParserState::SeenEscapeCharacter, CharacterState::Normal) => {
                self.buffer.push('\\');
                self.buffer.push(character);
                self.state = NameParserState::SeenCharacter;
            },
            (NameParserState::SeenEscapeCharacter, CharacterState::Special) => {
                self.buffer.push(character);
                self.state = NameParserState::SeenCharacter;
            },
            (NameParserState::SeenEscapeCharacter, CharacterState::Escape) => {
                self.buffer.push('\\');
                self.state = NameParserState::SeenCharacter;
            },
            (NameParserState::Error, _) => {
                self.state = NameParserState::Error;
            },
        }
        self.state != NameParserState::Error
    }

    /// Takes the decoded text out; an escape character still pending at the
    /// end of input is refused, as is the error state.
    pub fn extract(self) -> (r: Option<String>)
        ensures
            self.state == NameParserState::SeenCharacter ==> r is Some && r.unwrap()@
                == self.buffer@,
            self.state != NameParserState::SeenCharacter ==> r is None,
    {
        match self.state {
            NameParserState::SeenCharacter => Some(chars_to_string(&self.buffer)),
            NameParserState::SeenEscapeCharacter => None,
            NameParserState::Error => None,
        }
    }
}

impl InfluxName {
    /// Creates a name from a raw, unescaped string, enforcing the naming
    /// restriction; the rejected text rides along in the error.
    pub fn new(value: String) -> (r: Result<InfluxName, MalformedNameError>)
        ensures
            valid_name(value@) ==> r is Ok && r.unwrap()@ == value@,
            !valid_name(value@) ==> (r matches Err(MalformedNameError(t)) && t@ == value@),
    {
        let s = value.as_str();
        if s.unicode_len() == 0 {
            return Err(MalformedNameError(value));
        }
        if s.get_char(0) == '_' {
            return Err(MalformedNameError(value));
        }
        Ok(InfluxName { name: value })
    }

    /// The raw, unescaped name.
    pub fn as_str(&self) -> (r: &str)
        ensures
            r@ == self@,
    {
        self.name.as_str()
    }

    /// Parses a name from its wire spelling: an unescaped special character
    /// names its position, a trailing escape character fails, and a decoded
    /// name must meet the naming restriction.
    pub fn from_str(s: &str) -> (r: Result<InfluxName, NameParseError>)
        ensures
            match influx_name_decode(s@) {
                Ok(w) => if valid_name(w) {
                    r is Ok && r.unwrap()@ == w
                } else {
                    r matches Err(NameParseError::Malformed(MalformedNameError(t))) && t@ == w
                },
                Err(e) => if e == InfluxLineError::UnexpectedEscapeSymbol {
                    r matches Err(NameParseError::Failed(t)) && t@ == s@
                } else {
                    r matches Err(NameParseError::BadCharacter(t, i)) && t@ == s@ && 0 <= i
                        < s@.len()
                },
            },
    {
        let chars = str_to_chars(s);
        let n = chars.len();
        let mut parser = Parser::new();
        let mut i: usize = 0;
        while i < n
            invariant
                i <= n,
                n == chars@.len(),
                chars@ == s@,
                parser.state != NameParserState::Error,
                decode_run(
                    s@.take(i as int),
                    Seq::<char>::empty(),
                    false,
                    name_special_chars(),
                    '\\',
                    true,
                ) == Ok::<(Seq<char>, bool), crate::error::InfluxLineError>(
                    (
                        parser.buffer@,
                        parser.state == NameParserState::SeenEscapeCharacter,
                    ),
                ),
            decreases n - i,
        {
            let ghost old_buffer = parser.buffer@;
            let ghost old_escaped = parser.state == NameParserState::SeenEscapeCharacter;
            let is_processed = parser.process_char(chars[i]);
            if !is_processed {
                proof {
                    lemma_decode_error_at(
                        s@,
                        i as int,
                        old_buffer,
                        old_escaped,
                        crate::error::InfluxLineError::UnescapedSpecialCharacter,
                        name_special_chars(),
                        '\\',
                        true,
                    );
                }
                return Err(NameParseError::BadCharacter(String::from_str(s), i));
            }
            proof {
                lemma_decode_run_step_ok(
                    s@,
                    i as int,
                    old_buffer,
                    old_escaped,
                    parser.buffer@,
                    parser.state == NameParserState::SeenEscapeCharacter,
                    name_special_chars(),
                    '\\',
                    true,
                );
            }
            i = i + 1;
        }
        proof {
            assert(s@.take(n as int) =~= s@);
        }
        let parsed = match parser.extract() {
            Some(p) => p,
            None => {
                return Err(NameParseError::Failed(String::from_str(s)));
            },
        };
        match InfluxName::new(parsed) {
            Ok(name) => Ok(name),
            Err(e) => Err(NameParseError::Malformed(e)),
        }
    }
}

} // verus!
