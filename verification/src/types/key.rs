//! Tag keys, tag values and field keys: validated names whose wire spelling
//! escapes commas, equals signs and spaces.

use vstd::prelude::*;
use vstd::string::StrSliceExecFns;

use crate::error::InfluxLineError;
use crate::types::chars::chars_to_string;
use crate::types::chars::str_to_chars;
use crate::types::formatter::encode_chars;
use crate::types::parser::decode_chars;
use crate::types::parser::encode_round_trippable;
use crate::types::parser::escape_decode;
use crate::types::parser::escape_encode;
use crate::types::parser::lemma_decode_of_encode;
use crate::types::parser::StrayEscapes;

verus! {

/// The escape character of the line protocol.
pub open spec fn escape_char() -> char {
    '\\'
}

/// The characters a key name must escape on the wire.
pub open spec fn key_special_chars() -> Seq<char> {
    seq![',', '=', ' ']
}

/// The naming restriction: names are non-empty and do not begin with the
/// reserved prefix `_`.
pub open spec fn valid_name(s: Seq<char>) -> bool {
    s.len() > 0 && s[0] != '_'
}

/// What parsing a key name from its wire spelling yields: escape-decoding
/// with stray escapes tolerated, then the naming restriction.
pub open spec fn key_name_parse(s: Seq<char>) -> Result<Seq<char>, InfluxLineError> {
    match escape_decode(s, key_special_chars(), escape_char(), true) {
        Ok(w) => if valid_name(w) {
            Ok(w)
        } else {
            Err(InfluxLineError::NameRestriction)
        },
        Err(e) => Err(e),
    }
}

/// The wire spelling of a key name.
pub open spec fn key_name_wire(w: Seq<char>) -> Seq<char> {
    escape_encode(w, key_special_chars(), escape_char())
}

/// The special characters of key names, as a vector.
pub fn key_specials() -> (r: Vec<char>)
    ensures
        r@ == key_special_chars(),
{
    let r: Vec<char> = vec![',', '=', ' '];
    proof {
        assert(r@ =~= key_special_chars());
    }
    r
}

/// A tag key, tag value or field key, stored unescaped.
#[derive(Debug, PartialEq, Eq, Hash)]
pub struct KeyName {
    name: String,
}

impl Clone for KeyName {
    /// Clones the value; the copy has the same view.
    fn clone(&self) -> (r: Self)
        ensures
            r@ == self@,
    {
        KeyName { name: self.name.clone() }
    }
}

impl View for KeyName {
    type V = Seq<char>;

    closed spec fn view(&self) -> Seq<char> {
        self.name@
    }
}

impl KeyName {
    /// The invariant every constructed key name meets.
    pub open spec fn wf(self) -> bool {
        valid_name(self@)
    }

    /// Creates a key name from a raw, unescaped string, enforcing the
    /// naming restriction.
    pub fn new(name: String) -> (r: Result<KeyName, InfluxLineError>)
        ensures
            valid_name(name@) ==> r is Ok && r.unwrap()@ == name@,
            !valid_name(name@) ==> r == Err::<KeyName, InfluxLineError>(
                InfluxLineError::NameRestriction,
            ),
            r is Ok ==> r.unwrap().wf(),
    {
        let s = name.as_str();
        if s.unicode_len() == 0 {
            return Err(InfluxLineError::NameRestriction);
        }
        if s.get_char(0) == '_' {
            return Err(InfluxLineError::NameRestriction);
        }
        Ok(KeyName { name })
    }

    /// The raw, unescaped name.
    pub fn as_str(&self) -> (r: &str)
        ensures
            r@ == self@,
    {
        self.name.as_str()
    }

    /// Parses a key name from a range of still-escaped wire characters.
    pub fn parse_chars(v: &Vec<char>, from: usize, to: usize) -> (r: Result<
        KeyName,
        InfluxLineError,
    >)
        requires
            from <= to <= v@.len(),
        ensures
            match key_name_parse(v@.subrange(from as int, to as int)) {
                Ok(w) => r is Ok && r.unwrap()@ == w && r.unwrap().wf(),
                Err(e) => r == Err::<KeyName, InfluxLineError>(e),
            },
    {
        let specials = key_specials();
        let decoded = match decode_chars(v, from, to, &specials, '\\', StrayEscapes::Allow) {
            Ok(d) => d,
            Err(e) => {
                return Err(e);
            },
        };
        if decoded.len() == 0 {
            return Err(InfluxLineError::NameRestriction);
        }
        if decoded[0] == '_' {
            return Err(InfluxLineError::NameRestriction);
        }
        Ok(KeyName { name: chars_to_string(&decoded) })
    }

    /// Parses a key name from its wire spelling.
    pub fn from_str(s: &str) -> (r: Result<KeyName, InfluxLineError>)
        ensures
            match key_name_parse(s@) {
                Ok(w) => r is Ok && r.unwrap()@ == w && r.unwrap().wf(),
                Err(e) => r == Err::<KeyName, InfluxLineError>(e),
            },
    {
        let chars = str_to_chars(s);
        let n = chars.len();
        proof {
            assert(chars@.subrange(0, n as int) =~= s@);
        }
        KeyName::parse_chars(&chars, 0, n)
    }

    /// The wire spelling, with the special characters escaped.
    pub fn wire_chars(&self) -> (r: Vec<char>)
        ensures
            r@ == key_name_wire(self@),
    {
        let specials = key_specials();
        let raw = str_to_chars(self.name.as_str());
        encode_chars(&raw, &specials, '\\')
    }

    /// The wire spelling as text.
    pub fn to_line_protocol(&self) -> (r: String)
        ensures
            r@ == key_name_wire(self@),
    {
        chars_to_string(&self.wire_chars())
    }
}

/// A key name whose wire spelling parses back to the same name: every
/// literal escape character in it is followed by an ordinary character.
pub open spec fn key_name_round_trippable(w: Seq<char>) -> bool {
    encode_round_trippable(w, key_special_chars(), escape_char())
}

/// Round trip: the wire spelling of a valid, round-trippable key name
/// parses back to exactly that name.
pub proof fn lemma_key_name_round_trip(w: Seq<char>)
    requires
        valid_name(w),
        key_name_round_trippable(w),
    ensures
        key_name_parse(key_name_wire(w)) == Ok::<Seq<char>, InfluxLineError>(w),
{
    lemma_decode_of_encode(w, key_special_chars(), escape_char(), true);
}

} // verus!
