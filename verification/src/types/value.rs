//! The closed field value union over float, integer, unsigned integer,
//! boolean and string, with its ordered-attempt parser and canonical
//! formatter.

use vstd::prelude::*;

use crate::error::InfluxLineError;
use crate::types::boolean::boolean_parse;
use crate::types::boolean::boolean_wire;
use crate::types::boolean::is_true_literal;
use crate::types::boolean::lemma_boolean_round_trip;
use crate::types::boolean::Boolean;
use crate::types::chars::chars_to_string;
use crate::types::chars::str_to_chars;
use crate::types::float::float_normalize;
use crate::types::float::float_pointed;
use crate::types::float::is_float_literal;
use crate::types::float::lemma_float_literal_last;
use crate::types::float::lemma_float_normalize;
use crate::types::float::to_lower;
use crate::types::float::FloatValue;
use crate::types::integer::integer_parse;
use crate::types::integer::integer_wire;
use crate::types::integer::lemma_integer_round_trip;
use crate::types::integer::lemma_uinteger_round_trip;
use crate::types::integer::uinteger_parse;
use crate::types::integer::uinteger_wire;
use crate::types::integer::InfluxInteger;
use crate::types::integer::InfluxUInteger;
use crate::types::quoted::lemma_quoted_string_round_trip;
use crate::types::quoted::quoted_string_parse;
use crate::types::quoted::quoted_string_wire;
use crate::types::quoted::QuotedString;

verus! {

/// The mathematical value of a field value: float text, numbers, a
/// boolean, or string text.
pub enum ValueView {
    Float(Seq<char>),
    Integer(i64),
    UInteger(u64),
    Boolean(bool),
    String(Seq<char>),
}

/// A typed field value.
#[derive(Debug, PartialEq, Eq, Hash)]
pub enum InfluxValue {
    Float(FloatValue),
    Integer(InfluxInteger),
    UInteger(InfluxUInteger),
    Boolean(Boolean),
    String(QuotedString),
}

impl Clone for InfluxValue {
    /// Clones the value; the copy has the same view.
    fn clone(&self) -> (r: Self)
        ensures
            r@ == self@,
    {
        match self {
            InfluxValue::Float(f) => InfluxValue::Float(f.clone()),
            InfluxValue::Integer(n) => InfluxValue::Integer(*n),
            InfluxValue::UInteger(n) => InfluxValue::UInteger(*n),
            InfluxValue::Boolean(b) => InfluxValue::Boolean(*b),
            InfluxValue::String(q) => InfluxValue::String(q.clone()),
        }
    }
}

impl View for InfluxValue {
    type V = ValueView;

    open spec fn view(&self) -> ValueView {
        match self {
            InfluxValue::Float(f) => ValueView::Float(f@),
            InfluxValue::Integer(n) => ValueView::Integer(n.0),
            InfluxValue::UInteger(n) => ValueView::UInteger(n.0),
            InfluxValue::Boolean(b) => ValueView::Boolean(b.0),
            InfluxValue::String(q) => ValueView::String(q@),
        }
    }
}

/// What parsing a field value yields: the first of float, integer,
/// unsigned integer, boolean and quoted string to accept the input, in
/// that fixed order.
pub open spec fn value_parse(s: Seq<char>) -> Result<ValueView, InfluxLineError> {
    if is_float_literal(s) {
        Ok(ValueView::Float(float_normalize(s)))
    } else if integer_parse(s) is Ok {
        Ok(ValueView::Integer(integer_parse(s).unwrap()))
    } else if uinteger_parse(s) is Ok {
        Ok(ValueView::UInteger(uinteger_parse(s).unwrap()))
    } else if boolean_parse(s) is Ok {
        Ok(ValueView::Boolean(boolean_parse(s).unwrap()))
    } else if quoted_string_parse(s) is Ok {
        Ok(ValueView::String(quoted_string_parse(s).unwrap()))
    } else {
        Err(InfluxLineError::BadValue)
    }
}

/// The wire spelling of a field value.
pub open spec fn value_wire(v: ValueView) -> Seq<char> {
    match v {
        ValueView::Float(c) => c,
        ValueView::Integer(n) => integer_wire(n),
        ValueView::UInteger(n) => uinteger_wire(n),
        ValueView::Boolean(b) => boolean_wire(b),
        ValueView::String(w) => quoted_string_wire(w),
    }
}

/// The invariant every constructed field value meets: float text is in the
/// float grammar and carries its decimal point.
pub open spec fn value_view_wf(v: ValueView) -> bool {
    match v {
        ValueView::Float(c) => float_pointed(c),
        _ => true,
    }
}

impl InfluxValue {
    /// The invariant every constructed field value meets.
    pub open spec fn wf(self) -> bool {
        value_view_wf(self@)
    }

    /// Parses a field value from a range of wire characters, attempting
    /// the value types in their fixed order.
    pub fn parse_chars(v: &Vec<char>, from: usize, to: usize) -> (r: Result<
        InfluxValue,
        InfluxLineError,
    >)
        requires
            from <= to <= v@.len(),
        ensures
            match value_parse(v@.subrange(from as int, to as int)) {
                Ok(w) => r is Ok && r.unwrap()@ == w && r.unwrap().wf(),
                Err(e) => r == Err::<InfluxValue, InfluxLineError>(e),
            },
    {
        match FloatValue::parse_chars(v, from, to) {
            Ok(f) => {
                return Ok(InfluxValue::Float(f));
            },
            Err(_) => {},
        }
        match InfluxInteger::parse_chars(v, from, to) {
            Ok(n) => {
                return Ok(InfluxValue::Integer(n));
            },
            Err(_) => {},
        }
        match InfluxUInteger::parse_chars(v, from, to) {
            Ok(n) => {
                return Ok(InfluxValue::UInteger(n));
            },
            Err(_) => {},
        }
        match Boolean::parse_chars(v, from, to) {
            Ok(b) => {
                return Ok(InfluxValue::Boolean(b));
            },
            Err(_) => {},
        }
        match QuotedString::parse_chars(v, from, to) {
            Ok(q) => {
                return Ok(InfluxValue::String(q));
            },
            Err(_) => {},
        }
        Err(InfluxLineError::BadValue)
    }

    /// Parses a field value from its wire spelling.
    pub fn from_str(s: &str) -> (r: Result<InfluxValue, InfluxLineError>)
        ensures
            match value_parse(s@) {
                Ok(w) => r is Ok && r.unwrap()@ == w && r.unwrap().wf(),
                Err(e) => r == Err::<InfluxValue, InfluxLineError>(e),
            },
    {
        let chars = str_to_chars(s);
        let n = chars.len();
        proof {
            assert(chars@.subrange(0, n as int) =~= s@);
        }
        InfluxValue::parse_chars(&chars, 0, n)
    }

    /// The wire spelling of this value.
    pub fn wire_chars(&self) -> (r: Vec<char>)
        ensures
            r@ == value_wire(self@),
    {
        match self {
            InfluxValue::Float(f) => f.wire_chars(),
            InfluxValue::Integer(n) => n.wire_chars(),
            InfluxValue::UInteger(n) => n.wire_chars(),
            InfluxValue::Boolean(b) => b.wire_chars(),
            InfluxValue::String(q) => q.wire_chars(),
        }
    }

    /// The wire spelling as text.
    pub fn to_line_protocol(&self) -> (r: String)
        ensures
            r@ == value_wire(self@),
    {
        chars_to_string(&self.wire_chars())
    }
}

/// Round trip: the wire spelling of a field value parses back to exactly
/// that value. The fixed attempt order cannot confuse the types: a float
/// spelling never ends in a type suffix, and only a string spelling begins
/// with a double quote.
pub proof fn lemma_value_round_trip(v: ValueView)
    requires
        value_view_wf(v),
    ensures
        value_parse(value_wire(v)) == Ok::<ValueView, InfluxLineError>(v),
{
    match v {
        ValueView::Float(c) => {
            lemma_float_normalize(c);
        },
        ValueView::Integer(n) => {
            let w = integer_wire(n);
            assert(w.last() == 'i');
            if is_float_literal(w) {
                lemma_float_literal_last(w);
                assert(to_lower('i') == 'i');
                assert(false);
            }
            lemma_integer_round_trip(n);
        },
        ValueView::UInteger(n) => {
            let w = uinteger_wire(n);
            assert(w.last() == 'u');
            if is_float_literal(w) {
                lemma_float_literal_last(w);
                assert(to_lower('u') == 'u');
                assert(false);
            }
            lemma_uinteger_round_trip(n);
        },
        ValueView::Boolean(b) => {
            let w = boolean_wire(b);
            assert(w.last() == 'e');
            if is_float_literal(w) {
                lemma_float_literal_last(w);
                assert(to_lower('e') == 'e');
                assert(false);
            }
            lemma_boolean_round_trip(b);
        },
        ValueView::String(t) => {
            let w = quoted_string_wire(t);
            assert(w.len() >= 2);
            assert(w[0] == '"');
            assert(w.last() == '"');
            if is_float_literal(w) {
                lemma_float_literal_last(w);
                assert(to_lower('"') == '"');
                assert(false);
            }
            assert(!(integer_parse(w) is Ok));
            assert(!(uinteger_parse(w) is Ok));
            assert(!is_true_literal(w)) by {
                assert(w[0] == '"');
            }
            assert(!(boolean_parse(w) is Ok)) by {
                assert(w[0] == '"');
            }
            lemma_quoted_string_round_trip(t);
        },
    }
}


/// Suffix exclusivity: for any signed value the `i`-suffixed spelling
/// parses as Integer, for any unsigned value the `u`-suffixed spelling
/// parses as UInteger, and neither spelling is in the float grammar.
pub proof fn lemma_suffix_exclusivity(n: i64, m: u64)
    ensures
        value_parse(integer_wire(n)) == Ok::<ValueView, InfluxLineError>(ValueView::Integer(n)),
        value_parse(uinteger_wire(m)) == Ok::<ValueView, InfluxLineError>(ValueView::UInteger(m)),
        !is_float_literal(integer_wire(n)),
        !is_float_literal(uinteger_wire(m)),
{
    lemma_value_round_trip(ValueView::Integer(n));
    lemma_value_round_trip(ValueView::UInteger(m));
    if is_float_literal(integer_wire(n)) {
        lemma_float_literal_last(integer_wire(n));
        assert(integer_wire(n).last() == 'i');
        assert(to_lower('i') == 'i');
        assert(false);
    }
    if is_float_literal(uinteger_wire(m)) {
        lemma_float_literal_last(uinteger_wire(m));
        assert(uinteger_wire(m).last() == 'u');
        assert(to_lower('u') == 'u');
        assert(false);
    }
}

} // verus!
