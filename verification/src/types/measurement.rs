//! Measurement names: validated names whose wire spelling escapes commas
//! and spaces.

use vstd::prelude::*;
use vstd::string::StrSliceExecFns;

use crate::error::InfluxLineError;
use crate::types::chars::chars_to_string;
use crate::types::chars::str_to_chars;
use crate::types::formatter::encode_chars;
use crate::types::key::escape_char;
use crate::types::key::valid_name;
use crate::types::parser::decode_chars;
use crate::types::parser::encode_round_trippable;
use crate::types::parser::escape_decode;
use crate::types::parser::escape_encode;
use crate::types::parser::lemma_decode_of_encode;
use crate::types::parser::StrayEscapes;

verus! {

/// The characters a measurement name must escape on the wire.
pub open spec fn measurement_special_chars() -> Seq<char> {
    seq![',', ' ']
}

/// What parsing a measurement name from its wire spelling yields:
/// escape-decoding with stray escapes tolerated, then the naming
/// restriction.
pub open spec fn measurement_name_parse(s: Seq<char>) -> Result<Seq<char>, InfluxLineError> {
    match escape_decode(s, measurement_special_chars(), escape_char(), true) {
        Ok(w) => if valid_name(w) {
            Ok(w)
        } else {
            Err(InfluxLineError::NameRestriction)
        },
        Err(e) => Err(e),
    }
}

/// The wire spelling of a measurement name.
pub open spec fn measurement_name_wire(w: Seq<char>) -> Seq<char> {
    escape_encode(w, measurement_special_chars(), escape_char())
}

/// The special characters of measurement names, as a vector.
pub fn measurement_specials() -> (r: Vec<char>)
    ensures
        r@ == measurement_special_chars(),
{
    let r: Vec<char> = vec![',', ' '];
    proof {
        assert(r@ =~= measurement_special_chars());
    }
    r
}

/// A measurement name, stored unescaped.
#[derive(Debug, PartialEq, Eq, Hash)]
pub struct MeasurementName {
    name: String,
}

impl Clone for MeasurementName {
    /// Clones the value; the copy has the same view.
    fn clone(&self) -> (r: Self)
        ensures
            r@ == self@,
    {
        MeasurementName { name: self.name.clone() }
    }
}

impl View for MeasurementName {
    type V = Seq<char>;

    closed spec fn view(&self) -> Seq<char> {
        self.name@
    }
}

impl MeasurementName {
    /// The invariant every constructed measurement name meets.
    pub open spec fn wf(self) -> bool {
        valid_name(self@)
    }

    /// Creates a measurement name from a raw, unescaped string, enforcing
    /// the naming restriction.
    pub fn new(name: String) -> (r: Result<MeasurementName, InfluxLineError>)
        ensures
            valid_name(name@) ==> r is Ok && r.unwrap()@ == name@,
            !valid_name(name@) ==> r == Err::<MeasurementName, InfluxLineError>(
                InfluxLineError::NameRestriction,
            ),
            r is Ok ==> r.unwrap().wf(),
    {
        let s = name.as_str();
        if s.unicode_len() == 0 {
            return Err(InfluxLineError::NameRestriction);
        }
        if s.get_char(0) == '_' {
            return Err(InfluxLineError::NameRestriction);
        }
        Ok(MeasurementName { name })
    }

    /// The raw, unescaped name.
    pub fn as_str(&self) -> (r: &str)
        ensures
            r@ == self@,
    {
        self.name.as_str()
    }

    /// Parses a measurement name from a range of still-escaped wire
    /// characters.
    pub fn parse_chars(v: &Vec<char>, from: usize, to: usize) -> (r: Result<
        MeasurementName,
        InfluxLineError,
    >)
        requires
            from <= to <= v@.len(),
        ensures
            match measurement_name_parse(v@.subrange(from as int, to as int)) {
                Ok(w) => r is Ok && r.unwrap()@ == w && r.unwrap().wf(),
                Err(e) => r == Err::<MeasurementName, InfluxLineError>(e),
            },
    {
        let specials = measurement_specials();
        let decoded = match decode_chars(v, from, to, &specials, '\\', StrayEscapes::Allow) {
            Ok(d) => d,
            Err(e) => {
                return Err(e);
            },
        };
        if decoded.len() == 0 {
            return Err(InfluxLineError::NameRestriction);
        }
        if decoded[0] == '_' {
            return Err(InfluxLineError::NameRestriction);
        }
        Ok(MeasurementName { name: chars_to_string(&decoded) })
    }

    /// Parses a measurement name from its wire spelling.
    pub fn from_str(s: &str) -> (r: Result<MeasurementName, InfluxLineError>)
        ensures
            match measurement_name_parse(s@) {
                Ok(w) => r is Ok && r.unwrap()@ == w && r.unwrap().wf(),
                Err(e) => r == Err::<MeasurementName, InfluxLineError>(e),
            },
    {
        let chars = str_to_chars(s);
        let n = chars.len();
        proof {
            assert(chars@.subrange(0, n as int) =~= s@);
        }
        MeasurementName::parse_chars(&chars, 0, n)
    }

    /// The wire spelling, with the special characters escaped.
    pub fn wire_chars(&self) -> (r: Vec<char>)
        ensures
            r@ == measurement_name_wire(self@),
    {
        let specials = measurement_specials();
        let raw = str_to_chars(self.name.as_str());
        encode_chars(&raw, &specials, '\\')
    }

    /// The wire spelling as text.
    pub fn to_line_protocol(&self) -> (r: String)
        ensures
            r@ == measurement_name_wire(self@),
    {
        chars_to_string(&self.wire_chars())
    }
}

/// A measurement name whose wire spelling parses back to the same name.
pub open spec fn measurement_name_round_trippable(w: Seq<char>) -> bool {
    encode_round_trippable(w, measurement_special_chars(), escape_char())
}

/// Round trip: the wire spelling of a valid, round-trippable measurement
/// name parses back to exactly that name.
pub proof fn lemma_measurement_name_round_trip(w: Seq<char>)
    requires
        valid_name(w),
        measurement_name_round_trippable(w),
    ensures
        measurement_name_parse(measurement_name_wire(w)) == Ok::<Seq<char>, InfluxLineError>(w),
{
    lemma_decode_of_encode(w, measurement_special_chars(), escape_char(), true);
}

} // verus!
