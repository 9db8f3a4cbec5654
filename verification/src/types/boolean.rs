//! Boolean field values: six accepted spellings on parse, one canonical
//! spelling per value on format.

use vstd::prelude::*;

use crate::error::InfluxLineError;
use crate::types::chars::chars_eq;
use crate::types::chars::chars_to_string;
use crate::types::chars::str_to_chars;
use crate::types::chars::subchars;

verus! {

/// The spellings accepted for the true value.
pub open spec fn is_true_literal(s: Seq<char>) -> bool {
    s == seq!['t'] || s == seq!['T'] || s == seq!['t', 'r', 'u', 'e'] || s == seq![
        'T',
        'r',
        'u',
        'e',
    ] || s == seq!['T', 'R', 'U', 'E']
}

/// The spellings accepted for the false value.
pub open spec fn is_false_literal(s: Seq<char>) -> bool {
    s == seq!['f'] || s == seq!['F'] || s == seq!['f', 'a', 'l', 's', 'e'] || s == seq![
        'F',
        'a',
        'l',
        's',
        'e',
    ] || s == seq!['F', 'A', 'L', 'S', 'E']
}

/// What parsing a boolean field value yields: an exact literal match
/// against the accepted spellings.
pub open spec fn boolean_parse(s: Seq<char>) -> Result<bool, InfluxLineError> {
    if is_true_literal(s) {
        Ok(true)
    } else if is_false_literal(s) {
        Ok(false)
    } else {
        Err(InfluxLineError::BooleanNotParsed)
    }
}

/// The canonical wire spelling of a boolean value.
pub open spec fn boolean_wire(b: bool) -> Seq<char> {
    if b {
        seq!['t', 'r', 'u', 'e']
    } else {
        seq!['f', 'a', 'l', 's', 'e']
    }
}

/// A boolean field value.
#[derive(Debug, Clone, Copy, PartialEq, Eq, Hash, Structural)]
pub struct Boolean(pub bool);

impl Boolean {
    /// Wraps a value.
    pub fn new(value: bool) -> (r: Boolean)
        ensures
            r.0 == value,
    {
        Boolean(value)
    }

    /// The wrapped value.
    pub fn value(self) -> (r: bool)
        ensures
            r == self.0,
    {
        self.0
    }

    /// Parses a boolean field value from a range of wire characters.
    pub fn parse_chars(v: &Vec<char>, from: usize, to: usize) -> (r: Result<
        Boolean,
        InfluxLineError,
    >)
        requires
            from <= to <= v@.len(),
        ensures
            match boolean_parse(v@.subrange(from as int, to as int)) {
                Ok(b) => r is Ok && r.unwrap().0 == b,
                Err(e) => r == Err::<Boolean, InfluxLineError>(e),
            },
    {
        let seg = subchars(v, from, to);
        let t1: Vec<char> = vec!['t'];
        let t2: Vec<char> = vec!['T'];
        let t3: Vec<char> = vec!['t', 'r', 'u', 'e'];
        let t4: Vec<char> = vec!['T', 'r', 'u', 'e'];
        let t5: Vec<char> = vec!['T', 'R', 'U', 'E'];
        let f1: Vec<char> = vec!['f'];
        let f2: Vec<char> = vec!['F'];
        let f3: Vec<char> = vec!['f', 'a', 'l', 's', 'e'];
        let f4: Vec<char> = vec!['F', 'a', 'l', 's', 'e'];
        let f5: Vec<char> = vec!['F', 'A', 'L', 'S', 'E'];
        proof {
            assert(t1@ =~= seq!['t']);
            assert(t2@ =~= seq!['T']);
            assert(t3@ =~= seq!['t', 'r', 'u', 'e']);
            assert(t4@ =~= seq!['T', 'r', 'u', 'e']);
            assert(t5@ =~= seq!['T', 'R', 'U', 'E']);
            assert(f1@ =~= seq!['f']);
            assert(f2@ =~= seq!['F']);
            assert(f3@ =~= seq!['f', 'a', 'l', 's', 'e']);
            assert(f4@ =~= seq!['F', 'a', 'l', 's', 'e']);
            assert(f5@ =~= seq!['F', 'A', 'L', 'S', 'E']);
        }
        if chars_eq(&seg, &t1) || chars_eq(&seg, &t2) || chars_eq(&seg, &t3) || chars_eq(&seg, &t4)
            || chars_eq(&seg, &t5) {
            Ok(Boolean(true))
        } else if chars_eq(&seg, &f1) || chars_eq(&seg, &f2) || chars_eq(&seg, &f3) || chars_eq(
            &seg,
            &f4,
        ) || chars_eq(&seg, &f5) {
            Ok(Boolean(false))
        } else {
            Err(InfluxLineError::BooleanNotParsed)
        }
    }

    /// Parses a boolean field value from its wire spelling.
    pub fn from_str(s: &str) -> (r: Result<Boolean, InfluxLineError>)
        ensures
            match boolean_parse(s@) {
                Ok(b) => r is Ok && r.unwrap().0 == b,
                Err(e) => r == Err::<Boolean, InfluxLineError>(e),
            },
    {
        let chars = str_to_chars(s);
        let n = chars.len();
        proof {
            assert(chars@.subrange(0, n as int) =~= s@);
        }
        Boolean::parse_chars(&chars, 0, n)
    }

    /// The canonical wire spelling.
    pub fn wire_chars(&self) -> (r: Vec<char>)
        ensures
            r@ == boolean_wire(self.0),
    {
        let r: Vec<char> = if self.0 {
            vec!['t', 'r', 'u', 'e']
        } else {
            vec!['f', 'a', 'l', 's', 'e']
        };
        proof {
            assert(r@ =~= boolean_wire(self.0));
        }
        r
    }

    /// The canonical wire spelling as text.
    pub fn to_line_protocol(&self) -> (r: String)
        ensures
            r@ == boolean_wire(self.0),
    {
        chars_to_string(&self.wire_chars())
    }
}

/// Round trip: the canonical spelling of a boolean parses back to the same
/// value.
pub proof fn lemma_boolean_round_trip(b: bool)
    ensures
        boolean_parse(boolean_wire(b)) == Ok::<bool, InfluxLineError>(b),
{
    if b {
        assert(is_true_literal(boolean_wire(b)));
    } else {
        assert(!is_true_literal(boolean_wire(b))) by {
            assert(boolean_wire(b).len() == 5);
            assert(boolean_wire(b)[0] == 'f');
        }
        assert(is_false_literal(boolean_wire(b)));
    }
}

} // verus!
