//! The key scanner: a tag or field key ends at the first unescaped equals
//! sign; an unescaped comma or space before it is an error.

use vstd::prelude::*;

use crate::error::InfluxLineError;
use crate::line::parsing::Escaped;

verus! {

/// Where the key segment of `s` ends when scanned from `i` in escape state
/// `escaped`: the index of the unescaped equals sign, or the error met
/// first. A character after a backslash is never a delimiter, and the
/// escape state always clears after one character.
pub open spec fn key_scan(s: Seq<char>, i: int, escaped: bool) -> Result<int, InfluxLineError>
    decreases s.len() - i,
    when 0 <= i <= s.len()
{
    if i >= s.len() {
        Err(InfluxLineError::NoValue)
    } else {
        let c = s[i];
        if !escaped && c == '\\' {
            key_scan(s, i + 1, true)
        } else if !escaped && (c == ' ' || c == ',') {
            Err(InfluxLineError::UnescapedSpecialCharacter)
        } else if !escaped && c == '=' {
            Ok(i)
        } else {
            key_scan(s, i + 1, false)
        }
    }
}

/// A successful key scan ends inside the input, at or after its start.
pub proof fn lemma_key_scan_range(s: Seq<char>, i: int, escaped: bool)
    requires
        0 <= i <= s.len(),
    ensures
        match key_scan(s, i, escaped) {
            Ok(e) => i <= e < s.len(),
            Err(_) => true,
        },
    decreases s.len() - i,
{
    if i < s.len() {
        lemma_key_scan_range(s, i + 1, true);
        lemma_key_scan_range(s, i + 1, false);
    }
}

/// The executable key scanner.
#[derive(Debug)]
pub struct KeyParser {
    pub escaped: Escaped,
}

impl KeyParser {
    pub fn new() -> (r: KeyParser)
        ensures
            r.escaped == Escaped::No,
    {
        KeyParser { escaped: Escaped::No }
    }

    /// Scans the key segment of `line` beginning at `from`, returning the
    /// index of the equals sign that ends it, as `key_scan` says.
    pub fn process(self, line: &Vec<char>, from: usize) -> (r: Result<usize, InfluxLineError>)
        requires
            self.escaped == Escaped::No,
            from <= line@.len(),
        ensures
            match key_scan(line@, from as int, false) {
                Ok(e) => r matches Ok(end) && end as int == e,
                Err(er) => r == Err::<usize, InfluxLineError>(er),
            },
    {
        let n = line.len();
        let mut escaped = self.escaped;
        let mut i: usize = from;
        while i < n
            invariant
                from <= i <= n,
                n == line@.len(),
                key_scan(line@, from as int, false) == key_scan(
                    line@,
                    i as int,
                    escaped == Escaped::Yes,
                ),
            decreases n - i,
        {
            let c = line[i];
            match (escaped, c) {
                (Escaped::No, '\\') => {
                    escaped = Escaped::Yes;
                },
                (Escaped::No, ' ') => {
                    return Err(InfluxLineError::UnescapedSpecialCharacter);
                },
                (Escaped::No, ',') => {
                    return Err(InfluxLineError::UnescapedSpecialCharacter);
                },
                (Escaped::No, '=') => {
                    return Ok(i);
                },
                (Escaped::No, _) => {},
                (Escaped::Yes, _) => {
                    escaped = Escaped::No;
                },
            }
            i = i + 1;
        }
        Err(InfluxLineError::NoValue)
    }
}

} // verus!
