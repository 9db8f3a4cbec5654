//! Integer field values: signed values carry the mandatory wire suffix `i`,
//! unsigned values the suffix `u`.

use vstd::prelude::*;

use crate::error::InfluxLineError;
use crate::types::chars::chars_to_string;
use crate::types::chars::str_to_chars;
use crate::types::decimal::i64_from_chars;
use crate::types::decimal::i64_parse;
use crate::types::decimal::i64_to_chars;
use crate::types::decimal::int_dec_rep;
use crate::types::decimal::dec_rep;
use crate::types::decimal::lemma_i64_parse_int_dec_rep;
use crate::types::decimal::lemma_u64_parse_dec_rep;
use crate::types::decimal::u64_from_chars;
use crate::types::decimal::u64_parse;
use crate::types::decimal::u64_to_chars;

verus! {

/// What parsing an `i`-suffixed integer field value yields: the last
/// character must be the suffix and the rest a signed 64-bit number.
pub open spec fn integer_parse(s: Seq<char>) -> Result<i64, InfluxLineError> {
    if s.len() > 0 && s.last() == 'i' {
        match i64_parse(s.drop_last()) {
            Some(n) => Ok(n),
            None => Err(InfluxLineError::IntegerNotParsed),
        }
    } else {
        Err(InfluxLineError::IntegerNotParsed)
    }
}

/// The wire spelling of an integer field value.
pub open spec fn integer_wire(n: i64) -> Seq<char> {
    int_dec_rep(n as int).push('i')
}

/// What parsing a `u`-suffixed unsigned field value yields.
pub open spec fn uinteger_parse(s: Seq<char>) -> Result<u64, InfluxLineError> {
    if s.len() > 0 && s.last() == 'u' {
        match u64_parse(s.drop_last()) {
            Some(n) => Ok(n),
            None => Err(InfluxLineError::UIntegerNotParsed),
        }
    } else {
        Err(InfluxLineError::UIntegerNotParsed)
    }
}

/// The wire spelling of an unsigned field value.
pub open spec fn uinteger_wire(n: u64) -> Seq<char> {
    dec_rep(n as int).push('u')
}

/// A signed 64-bit integer field value.
#[derive(Debug, Clone, Copy, PartialEq, Eq, Hash, Structural)]
pub struct InfluxInteger(pub i64);

impl InfluxInteger {
    /// Wraps a value.
    pub fn new(value: i64) -> (r: InfluxInteger)
        ensures
            r.0 == value,
    {
        InfluxInteger(value)
    }

    /// The wrapped value.
    pub fn value(self) -> (r: i64)
        ensures
            r == self.0,
    {
        self.0
    }

    /// Parses an integer field value from a range of wire characters.
    pub fn parse_chars(v: &Vec<char>, from: usize, to: usize) -> (r: Result<
        InfluxInteger,
        InfluxLineError,
    >)
        requires
            from <= to <= v@.len(),
        ensures
            match integer_parse(v@.subrange(from as int, to as int)) {
                Ok(n) => r is Ok && r.unwrap().0 == n,
                Err(e) => r == Err::<InfluxInteger, InfluxLineError>(e),
            },
    {
        let ghost s = v@.subrange(from as int, to as int);
        if to == from || v[to - 1] != 'i' {
            return Err(InfluxLineError::IntegerNotParsed);
        }
        proof {
            assert(s.last() == 'i');
            assert(v@.subrange(from as int, to - 1) =~= s.drop_last());
        }
        match i64_from_chars(v, from, to - 1) {
            Some(n) => Ok(InfluxInteger(n)),
            None => Err(InfluxLineError::IntegerNotParsed),
        }
    }

    /// Parses an integer field value from its wire spelling.
    pub fn from_str(s: &str) -> (r: Result<InfluxInteger, InfluxLineError>)
        ensures
            match integer_parse(s@) {
                Ok(n) => r is Ok && r.unwrap().0 == n,
                Err(e) => r == Err::<InfluxInteger, InfluxLineError>(e),
            },
    {
        let chars = str_to_chars(s);
        let n = chars.len();
        proof {
            assert(chars@.subrange(0, n as int) =~= s@);
        }
        InfluxInteger::parse_chars(&chars, 0, n)
    }

    /// The wire spelling: the decimal value followed by `i`.
    pub fn wire_chars(&self) -> (r: Vec<char>)
        ensures
            r@ == integer_wire(self.0),
    {
        let mut v = i64_to_chars(self.0);
        v.push('i');
        v
    }

    /// The wire spelling as text.
    pub fn to_line_protocol(&self) -> (r: String)
        ensures
            r@ == integer_wire(self.0),
    {
        chars_to_string(&self.wire_chars())
    }
}

/// An unsigned 64-bit integer field value.
#[derive(Debug, Clone, Copy, PartialEq, Eq, Hash, Structural)]
pub struct InfluxUInteger(pub u64);

impl InfluxUInteger {
    /// Wraps a value.
    pub fn new(value: u64) -> (r: InfluxUInteger)
        ensures
            r.0 == value,
    {
        InfluxUInteger(value)
    }

    /// The wrapped value.
    pub fn value(self) -> (r: u64)
        ensures
            r == self.0,
    {
        self.0
    }

    /// Parses an unsigned field value from a range of wire characters.
    pub fn parse_chars(v: &Vec<char>, from: usize, to: usize) -> (r: Result<
        InfluxUInteger,
        InfluxLineError,
    >)
        requires
            from <= to <= v@.len(),
        ensures
            match uinteger_parse(v@.subrange(from as int, to as int)) {
                Ok(n) => r is Ok && r.unwrap().0 == n,
                Err(e) => r == Err::<InfluxUInteger, InfluxLineError>(e),
            },
    {
        let ghost s = v@.subrange(from as int, to as int);
        if to == from || v[to - 1] != 'u' {
            return Err(InfluxLineError::UIntegerNotParsed);
        }
        proof {
            assert(s.last() == 'u');
            assert(v@.subrange(from as int, to - 1) =~= s.drop_last());
        }
        match u64_from_chars(v, from, to - 1) {
            Some(n) => Ok(InfluxUInteger(n)),
            None => Err(InfluxLineError::UIntegerNotParsed),
        }
    }

    /// Parses an unsigned field value from its wire spelling.
    pub fn from_str(s: &str) -> (r: Result<InfluxUInteger, InfluxLineError>)
        ensures
            match uinteger_parse(s@) {
                Ok(n) => r is Ok && r.unwrap().0 == n,
                Err(e) => r == Err::<InfluxUInteger, InfluxLineError>(e),
            },
    {
        let chars = str_to_chars(s);
        let n = chars.len();
        proof {
            assert(chars@.subrange(0, n as int) =~= s@);
        }
        InfluxUInteger::parse_chars(&chars, 0, n)
    }

    /// The wire spelling: the decimal value followed by `u`.
    pub fn wire_chars(&self) -> (r: Vec<char>)
        ensures
            r@ == uinteger_wire(self.0),
    {
        let mut v = u64_to_chars(self.0);
        v.push('u');
        v
    }

    /// The wire spelling as text.
    pub fn to_line_protocol(&self) -> (r: String)
        ensures
            r@ == uinteger_wire(self.0),
    {
        chars_to_string(&self.wire_chars())
    }
}

/// Round trip: the wire spelling of an integer field value parses back to
/// the same value.
pub proof fn lemma_integer_round_trip(n: i64)
    ensures
        integer_parse(integer_wire(n)) == Ok::<i64, InfluxLineError>(n),
{
    let w = integer_wire(n);
    assert(w.last() == 'i');
    assert(w.drop_last() =~= int_dec_rep(n as int));
    lemma_i64_parse_int_dec_rep(n);
}

/// Round trip: the wire spelling of an unsigned field value parses back to
/// the same value.
pub proof fn lemma_uinteger_round_trip(n: u64)
    ensures
        uinteger_parse(uinteger_wire(n)) == Ok::<u64, InfluxLineError>(n),
{
    let w = uinteger_wire(n);
    assert(w.last() == 'u');
    assert(w.drop_last() =~= dec_rep(n as int));
    lemma_u64_parse_dec_rep(n);
}

} // verus!
