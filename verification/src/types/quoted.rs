//! String field values: arbitrary text, wrapped in double quotes on the
//! wire, with double quotes and backslashes escaped inside.

use vstd::prelude::*;

use crate::error::InfluxLineError;
use crate::types::chars::chars_to_string;
use crate::types::chars::str_to_chars;
use crate::types::formatter::encode_chars;
use crate::types::key::escape_char;
use crate::types::parser::decode_chars;
use crate::types::parser::escape_decode;
use crate::types::parser::escape_encode;
use crate::types::parser::lemma_decode_of_encode;
use crate::types::parser::StrayEscapes;

verus! {

/// The characters a string field value must escape on the wire.
pub open spec fn string_special_chars() -> Seq<char> {
    seq!['"', '\\']
}

/// What parsing a string field value from its wire spelling yields: the
/// slice must be wrapped in double quotes, and its interior is
/// escape-decoded with stray escapes refused.
pub open spec fn quoted_string_parse(s: Seq<char>) -> Result<Seq<char>, InfluxLineError> {
    if s.len() < 2 || s[0] != '"' || s.last() != '"' {
        Err(InfluxLineError::NoQuoteDelimiter)
    } else {
        escape_decode(
            s.subrange(1, s.len() - 1),
            string_special_chars(),
            escape_char(),
            false,
        )
    }
}

/// The wire spelling of a string field value.
pub open spec fn quoted_string_wire(w: Seq<char>) -> Seq<char> {
    seq!['"'] + escape_encode(w, string_special_chars(), escape_char()) + seq!['"']
}

/// The special characters of string field values, as a vector.
pub fn string_specials() -> (r: Vec<char>)
    ensures
        r@ == string_special_chars(),
{
    let r: Vec<char> = vec!['"', '\\'];
    proof {
        assert(r@ =~= string_special_chars());
    }
    r
}

/// A string field value, stored unescaped and unquoted.
#[derive(Debug, PartialEq, Eq, Hash)]
pub struct QuotedString {
    value: String,
}

impl Clone for QuotedString {
    /// Clones the value; the copy has the same view.
    fn clone(&self) -> (r: Self)
        ensures
            r@ == self@,
    {
        QuotedString { value: self.value.clone() }
    }
}

impl View for QuotedString {
    type V = Seq<char>;

    closed spec fn view(&self) -> Seq<char> {
        self.value@
    }
}

impl QuotedString {
    /// Creates a string field value from any raw text.
    pub fn new(value: String) -> (r: QuotedString)
        ensures
            r@ == value@,
    {
        QuotedString { value }
    }

    /// The raw, unescaped text.
    pub fn as_str(&self) -> (r: &str)
        ensures
            r@ == self@,
    {
        self.value.as_str()
    }

    /// Parses a string field value from a range of still-escaped wire
    /// characters, boundary quotes included.
    pub fn parse_chars(v: &Vec<char>, from: usize, to: usize) -> (r: Result<
        QuotedString,
        InfluxLineError,
    >)
        requires
            from <= to <= v@.len(),
        ensures
            match quoted_string_parse(v@.subrange(from as int, to as int)) {
                Ok(w) => r is Ok && r.unwrap()@ == w,
                Err(e) => r == Err::<QuotedString, InfluxLineError>(e),
            },
    {
        if to - from < 2 || v[from] != '"' || v[to - 1] != '"' {
            return Err(InfluxLineError::NoQuoteDelimiter);
        }
        let specials = string_specials();
        proof {
            let s = v@.subrange(from as int, to as int);
            assert(s.len() >= 2 && s[0] == '"' && s.last() == '"');
            assert(v@.subrange(from + 1, to - 1) =~= s.subrange(1, s.len() - 1));
        }
        let decoded = match decode_chars(
            v,
            from + 1,
            to - 1,
            &specials,
            '\\',
            StrayEscapes::Forbid,
        ) {
            Ok(d) => d,
            Err(e) => {
                return Err(e);
            },
        };
        Ok(QuotedString { value: chars_to_string(&decoded) })
    }

    /// Parses a string field value from its wire spelling.
    pub fn from_str(s: &str) -> (r: Result<QuotedString, InfluxLineError>)
        ensures
            match quoted_string_parse(s@) {
                Ok(w) => r is Ok && r.unwrap()@ == w,
                Err(e) => r == Err::<QuotedString, InfluxLineError>(e),
            },
    {
        let chars = str_to_chars(s);
        let n = chars.len();
        proof {
            assert(chars@.subrange(0, n as int) =~= s@);
        }
        QuotedString::parse_chars(&chars, 0, n)
    }

    /// The wire spelling: the escaped interior wrapped in double quotes.
    pub fn wire_chars(&self) -> (r: Vec<char>)
        ensures
            r@ == quoted_string_wire(self@),
    {
        let specials = string_specials();
        let raw = str_to_chars(self.value.as_str());
        let encoded = encode_chars(&raw, &specials, '\\');
        let mut out: Vec<char> = Vec::new();
        out.push('"');
        let n = encoded.len();
        let mut i: usize = 0;
        while i < n
            invariant
                i <= n,
                n == encoded@.len(),
                out@ == seq!['"'] + encoded@.take(i as int),
            decreases n - i,
        {
            out.push(encoded[i]);
            i = i + 1;
            proof {
                assert(out@ =~= seq!['"'] + encoded@.take(i as int));
            }
        }
        out.push('"');
        proof {
            assert(encoded@.take(n as int) =~= encoded@);
            assert(out@ =~= quoted_string_wire(self@));
        }
        out
    }

    /// The wire spelling as text.
    pub fn to_line_protocol(&self) -> (r: String)
        ensures
            r@ == quoted_string_wire(self@),
    {
        chars_to_string(&self.wire_chars())
    }
}

/// Round trip: the wire spelling of any string field value parses back to
/// exactly that value. Both special characters, the quote and the escape
/// character itself, are always escaped, so no condition is needed.
pub proof fn lemma_quoted_string_round_trip(w: Seq<char>)
    ensures
        quoted_string_parse(quoted_string_wire(w)) == Ok::<Seq<char>, InfluxLineError>(w),
{
    let wire = quoted_string_wire(w);
    let enc = escape_encode(w, string_special_chars(), escape_char());
    assert(string_special_chars().contains(escape_char()));
    lemma_decode_of_encode(w, string_special_chars(), escape_char(), false);
    assert(wire.len() >= 2);
    assert(wire[0] == '"');
    assert(wire.last() == '"');
    assert(wire.subrange(1, wire.len() - 1) =~= enc);
}

} // verus!
