//! The inverse escaper: produces the wire spelling of a decoded string by
//! prefixing every special character with the escape character.

use vstd::prelude::*;

use crate::types::chars::contains_char;
use crate::types::chars::str_to_chars;
use crate::types::parser::escape_encode;
use crate::types::parser::lemma_encode_push;

verus! {

/// Escapes the characters of `v`, as `escape_encode` says.
pub fn encode_chars(v: &Vec<char>, special_characters: &Vec<char>, escape_character: char) -> (r:
    Vec<char>)
    ensures
        r@ == escape_encode(v@, special_characters@, escape_character),
{
    let mut out: Vec<char> = Vec::new();
    let n = v.len();
    let mut i: usize = 0;
    while i < n
        invariant
            i <= n,
            n == v@.len(),
            out@ == escape_encode(v@.take(i as int), special_characters@, escape_character),
        decreases n - i,
    {
        let c = v[i];
        if contains_char(special_characters, c) {
            out.push(escape_character);
            out.push(c);
        } else {
            out.push(c);
        }
        proof {
            lemma_encode_push(v@.take(i as int), c, special_characters@, escape_character);
            assert(v@.take(i + 1) =~= v@.take(i as int).push(c));
            assert(out@ =~= escape_encode(v@.take(i + 1), special_characters@, escape_character));
        }
        i = i + 1;
    }
    proof {
        assert(v@.take(n as int) =~= v@);
    }
    out
}

/// Walks a string and escapes all of its special symbols.
#[derive(Debug)]
pub struct LinearFormatter {
    pub special_characters: Vec<char>,
    pub escape_character: char,
}

impl LinearFormatter {
    pub fn new(special_characters: Vec<char>, escape_character: char) -> (r: Self)
        ensures
            r.special_characters == special_characters,
            r.escape_character == escape_character,
    {
        Self { special_characters, escape_character }
    }

    /// The characters of the wire spelling of `original`.
    pub fn chars(&self, original: &str) -> (r: Vec<char>)
        ensures
            r@ == escape_encode(original@, self.special_characters@, self.escape_character),
    {
        let v = str_to_chars(original);
        encode_chars(&v, &self.special_characters, self.escape_character)
    }
}

} // verus!
