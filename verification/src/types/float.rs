//! Float field values. Verified code holds no floating-point numbers: a
//! float value is carried as its wire spelling, validated against the
//! grammar std documents for reading a 64-bit float and normalized so that
//! a number always carries a decimal point. Code that holds the value
//! itself renders it with the standard debug formatting and hands the text
//! in.

use vstd::prelude::*;

use crate::error::InfluxLineError;
use crate::types::chars::str_to_chars;
use crate::types::decimal::all_dec_digits;
use crate::types::decimal::is_dec_digit;

verus! {

/// ASCII lowercasing of one character.
pub open spec fn to_lower(c: char) -> char {
    if 'A' <= c && c <= 'Z' {
        ((c as int) + 32) as char
    } else {
        c
    }
}

/// Equality of two character sequences up to ASCII case.
pub open spec fn eq_ignore_ascii_case(a: Seq<char>, b: Seq<char>) -> bool {
    a.len() == b.len() && (forall|i: int|
        0 <= i < a.len() ==> to_lower(#[trigger] a[i]) == to_lower(b[i]))
}

/// The input without one leading sign character, if any.
pub open spec fn strip_sign(s: Seq<char>) -> Seq<char> {
    if s.len() > 0 && (s[0] == '+' || s[0] == '-') {
        s.drop_first()
    } else {
        s
    }
}

/// How many decimal digits the input begins with.
pub open spec fn leading_digits(s: Seq<char>) -> int
    decreases s.len(),
{
    if s.len() > 0 && is_dec_digit(s[0]) {
        1 + leading_digits(s.drop_first())
    } else {
        0
    }
}

/// What may follow the exponent letter: an optional sign, then at least
/// one digit.
pub open spec fn is_exponent_body(s: Seq<char>) -> bool {
    let b = strip_sign(s);
    b.len() > 0 && all_dec_digits(b)
}

/// An unsigned floating-point number: digits with an optional fraction
/// (at least one digit on one side of the point), then an optional
/// exponent.
pub open spec fn is_float_number(s: Seq<char>) -> bool {
    let d1 = leading_digits(s);
    let r1 = s.skip(d1);
    if r1.len() > 0 && r1[0] == '.' {
        let frac = r1.drop_first();
        let d2 = leading_digits(frac);
        let r2 = frac.skip(d2);
        d1 + d2 > 0 && (r2.len() == 0 || ((r2[0] == 'e' || r2[0] == 'E') && is_exponent_body(
            r2.drop_first(),
        )))
    } else {
        d1 > 0 && (r1.len() == 0 || ((r1[0] == 'e' || r1[0] == 'E') && is_exponent_body(
            r1.drop_first(),
        )))
    }
}

/// The spelling of the infinite value.
pub open spec fn inf_chars() -> Seq<char> {
    seq!['i', 'n', 'f']
}

/// The long spelling of the infinite value.
pub open spec fn infinity_chars() -> Seq<char> {
    seq!['i', 'n', 'f', 'i', 'n', 'i', 't', 'y']
}

/// The spelling of the not-a-number value.
pub open spec fn nan_chars() -> Seq<char> {
    seq!['n', 'a', 'n']
}

/// True when the unsigned part spells one of the special words,
/// case-insensitively.
pub open spec fn is_float_word(b: Seq<char>) -> bool {
    eq_ignore_ascii_case(b, inf_chars()) || eq_ignore_ascii_case(b, infinity_chars())
        || eq_ignore_ascii_case(b, nan_chars())
}

/// The grammar std documents for reading a 64-bit float: an optional sign,
/// then one of the special words (case-insensitively) or a number.
pub open spec fn is_float_literal(s: Seq<char>) -> bool {
    let b = strip_sign(s);
    is_float_word(b) || is_float_number(b)
}

/// The characters a float spelling can be made of: digits, signs, the
/// point, and the letters of the exponent and of the special words.
pub open spec fn plain_float_char(c: char) -> bool {
    is_dec_digit(c) || c == '+' || c == '-' || c == '.' || to_lower(c) == 'e' || to_lower(c)
        == 'i' || to_lower(c) == 'n' || to_lower(c) == 'f' || to_lower(c) == 't' || to_lower(c)
        == 'y' || to_lower(c) == 'a'
}

/// The leading digits are digits, lie within the input, and end before a
/// non-digit.
pub proof fn lemma_leading_digits(s: Seq<char>)
    ensures
        0 <= leading_digits(s) <= s.len(),
        forall|i: int| 0 <= i < leading_digits(s) ==> is_dec_digit(#[trigger] s[i]),
        leading_digits(s) < s.len() ==> !is_dec_digit(s[leading_digits(s)]),
    decreases s.len(),
{
    if s.len() > 0 && is_dec_digit(s[0]) {
        lemma_leading_digits(s.drop_first());
        let ld = leading_digits(s);
        assert(ld == 1 + leading_digits(s.drop_first()));
        assert forall|i: int| 0 <= i < ld implies is_dec_digit(#[trigger] s[i]) by {
            if i > 0 {
                assert(s.drop_first()[i - 1] == s[i]);
                assert(is_dec_digit(s.drop_first()[i - 1]));
            }
        }
        if ld < s.len() {
            assert(s.drop_first()[ld - 1] == s[ld]);
        }
    }
}

/// A float spelling is non-empty, and its last character is a digit, the
/// point, or a letter of one of the special words.
pub proof fn lemma_float_literal_last(s: Seq<char>)
    requires
        is_float_literal(s),
    ensures
        s.len() > 0,
        is_dec_digit(s.last()) || s.last() == '.' || to_lower(s.last()) == 'f' || to_lower(
            s.last(),
        ) == 'y' || to_lower(s.last()) == 'n',
{
    let b = strip_sign(s);
    assert(b.len() > 0) by {
        if eq_ignore_ascii_case(b, inf_chars()) || eq_ignore_ascii_case(b, infinity_chars())
            || eq_ignore_ascii_case(b, nan_chars()) {
        } else {
            lemma_leading_digits(b);
            let d1 = leading_digits(b);
            let r1 = b.skip(d1);
            if r1.len() > 0 && r1[0] == '.' {
            } else {
                assert(d1 > 0);
            }
        }
    }
    assert(s.len() > 0);
    assert(b.last() == s.last());
    if eq_ignore_ascii_case(b, inf_chars()) {
        assert(to_lower(b[2]) == to_lower(inf_chars()[2]));
        assert(to_lower(s.last()) == 'f');
    } else if eq_ignore_ascii_case(b, infinity_chars()) {
        assert(to_lower(b[7]) == to_lower(infinity_chars()[7]));
        assert(to_lower(s.last()) == 'y');
    } else if eq_ignore_ascii_case(b, nan_chars()) {
        assert(to_lower(b[2]) == to_lower(nan_chars()[2]));
        assert(to_lower(s.last()) == 'n');
    } else {
        lemma_leading_digits(b);
        let d1 = leading_digits(b);
        let r1 = b.skip(d1);
        if r1.len() > 0 && r1[0] == '.' {
            let frac = r1.drop_first();
            assert(frac =~= b.skip(d1 + 1));
            lemma_leading_digits(frac);
            let d2 = leading_digits(frac);
            let r2 = frac.skip(d2);
            if r2.len() == 0 {
                if d2 > 0 {
                    assert(frac.len() == d2);
                    assert(b.last() == frac[d2 - 1]);
                    assert(is_dec_digit(frac[d2 - 1]));
                } else {
                    assert(frac.len() == 0);
                    assert(b.last() == r1[0]);
                }
            } else {
                let body = r2.drop_first();
                assert(body =~= b.skip(d1 + 1 + d2 + 1));
                let eb = strip_sign(body);
                assert(eb.len() > 0 && all_dec_digits(eb));
                assert(eb.last() == b.last()) by {
                    if body.len() > 0 && (body[0] == '+' || body[0] == '-') {
                        assert(eb =~= b.skip(d1 + 1 + d2 + 2));
                    }
                }
                assert(is_dec_digit(b.last()));
            }
        } else {
            assert(d1 > 0);
            if r1.len() == 0 {
                assert(b.len() == d1);
                assert(is_dec_digit(b[d1 - 1]));
                assert(b.last() == b[d1 - 1]);
            } else {
                let body = r1.drop_first();
                assert(body =~= b.skip(d1 + 1));
                let eb = strip_sign(body);
                assert(eb.len() > 0 && all_dec_digits(eb));
                assert(eb.last() == b.last()) by {
                    if body.len() > 0 && (body[0] == '+' || body[0] == '-') {
                        assert(eb =~= b.skip(d1 + 2));
                    }
                }
                assert(is_dec_digit(b.last()));
            }
        }
    }
}

/// Every character of a float spelling is one of the grammar's characters.
#[verifier::rlimit(100)]
pub proof fn lemma_float_literal_chars(s: Seq<char>)
    requires
        is_float_literal(s),
    ensures
        forall|i: int| 0 <= i < s.len() ==> plain_float_char(#[trigger] s[i]),
{
    let b = strip_sign(s);
    let off: int = if s.len() > 0 && (s[0] == '+' || s[0] == '-') {
        1int
    } else {
        0int
    };
    assert(b =~= s.skip(off));
    assert forall|j: int| 0 <= j < b.len() implies plain_float_char(#[trigger] b[j]) by {
        if eq_ignore_ascii_case(b, inf_chars()) {
            assert(to_lower(b[j]) == to_lower(inf_chars()[j]));
            assert(plain_float_char(b[j]));
        } else if eq_ignore_ascii_case(b, infinity_chars()) {
            assert(to_lower(b[j]) == to_lower(infinity_chars()[j]));
            assert(plain_float_char(b[j]));
        } else if eq_ignore_ascii_case(b, nan_chars()) {
            assert(to_lower(b[j]) == to_lower(nan_chars()[j]));
            assert(plain_float_char(b[j]));
        } else {
            lemma_leading_digits(b);
            let d1 = leading_digits(b);
            let r1 = b.skip(d1);
            if r1.len() > 0 && r1[0] == '.' {
                let frac = r1.drop_first();
                assert(frac =~= b.skip(d1 + 1));
                lemma_leading_digits(frac);
                let d2 = leading_digits(frac);
                let r2 = frac.skip(d2);
                if j < d1 {
                    assert(is_dec_digit(b[j]));
                } else if j == d1 {
                    assert(b[j] == '.');
                } else if j < d1 + 1 + d2 {
                    assert(frac[j - d1 - 1] == b[j]);
                    assert(is_dec_digit(frac[j - d1 - 1]));
                } else {
                    assert(r2.len() > 0);
                    assert(r2 =~= b.skip(d1 + 1 + d2));
                    if j == d1 + 1 + d2 {
                        assert(b[j] == r2[0]);
                        assert(to_lower(b[j]) == 'e');
                    } else {
                        let body = r2.drop_first();
                        assert(body =~= b.skip(d1 + 1 + d2 + 1));
                        let eb = strip_sign(body);
                        if body.len() > 0 && (body[0] == '+' || body[0] == '-') {
                            assert(eb =~= b.skip(d1 + 1 + d2 + 2));
                            if j == d1 + 1 + d2 + 1 {
                                assert(b[j] == body[0]);
                            } else {
                                assert(eb[j - d1 - d2 - 3] == b[j]);
                                assert(is_dec_digit(eb[j - d1 - d2 - 3]));
                            }
                        } else {
                            assert(eb[j - d1 - d2 - 2] == b[j]);
                            assert(is_dec_digit(eb[j - d1 - d2 - 2]));
                        }
                    }
                }
            } else {
                if j < d1 {
                    assert(is_dec_digit(b[j]));
                } else {
                    assert(r1.len() > 0);
                    if j == d1 {
                        assert(b[j] == r1[0]);
                        assert(to_lower(b[j]) == 'e');
                    } else {
                        let body = r1.drop_first();
                        assert(body =~= b.skip(d1 + 1));
                        let eb = strip_sign(body);
                        if body.len() > 0 && (body[0] == '+' || body[0] == '-') {
                            assert(eb =~= b.skip(d1 + 2));
                            if j == d1 + 1 {
                                assert(b[j] == body[0]);
                            } else {
                                assert(eb[j - d1 - 2] == b[j]);
                                assert(is_dec_digit(eb[j - d1 - 2]));
                            }
                        } else {
                            assert(eb[j - d1 - 1] == b[j]);
                            assert(is_dec_digit(eb[j - d1 - 1]));
                        }
                    }
                }
            }
        }
    }
    assert forall|i: int| 0 <= i < s.len() implies plain_float_char(#[trigger] s[i]) by {
        if i < off {
            assert(s[i] == '+' || s[i] == '-');
        } else {
            assert(b[i - off] == s[i]);
        }
    }
}

/// A digit run of known extent pins down `leading_digits`.
pub proof fn lemma_leading_digits_is(s: Seq<char>, k: int)
    requires
        0 <= k <= s.len(),
        forall|i: int| 0 <= i < k ==> is_dec_digit(#[trigger] s[i]),
        k < s.len() ==> !is_dec_digit(s[k]),
    ensures
        leading_digits(s) == k,
    decreases s.len(),
{
    if s.len() > 0 && is_dec_digit(s[0]) {
        assert(k > 0);
        let t = s.drop_first();
        assert(forall|i: int| 0 <= i < k - 1 ==> t[i] == #[trigger] s[i + 1]);
        assert(k - 1 < t.len() ==> !is_dec_digit(t[k - 1]));
        lemma_leading_digits_is(t, k - 1);
    } else {
        assert(k == 0);
    }
}

/// Counts the decimal digits a character range begins with.
pub fn count_digits(v: &Vec<char>, from: usize, to: usize) -> (r: usize)
    requires
        from <= to <= v@.len(),
    ensures
        r == leading_digits(v@.subrange(from as int, to as int)),
        from + r <= to,
{
    let ghost s = v@.subrange(from as int, to as int);
    let mut i: usize = from;
    while i < to && v[i] >= '0' && v[i] <= '9'
        invariant
            from <= i <= to <= v@.len(),
            s == v@.subrange(from as int, to as int),
            forall|j: int| 0 <= j < i - from ==> is_dec_digit(#[trigger] s[j]),
        decreases to - i,
    {
        i = i + 1;
    }
    proof {
        assert(i < to ==> !is_dec_digit(s[i - from]));
        lemma_leading_digits_is(s, i - from);
    }
    i - from
}

/// True when the whole character range is decimal digits.
pub fn all_digits_chars(v: &Vec<char>, from: usize, to: usize) -> (r: bool)
    requires
        from <= to <= v@.len(),
    ensures
        r == all_dec_digits(v@.subrange(from as int, to as int)),
{
    let ghost s = v@.subrange(from as int, to as int);
    let mut i: usize = from;
    while i < to
        invariant
            from <= i <= to <= v@.len(),
            s == v@.subrange(from as int, to as int),
            forall|j: int| 0 <= j < i - from ==> is_dec_digit(#[trigger] s[j]),
        decreases to - i,
    {
        if v[i] < '0' || v[i] > '9' {
            assert(!is_dec_digit(s[i - from]));
            return false;
        }
        i = i + 1;
    }
    true
}

/// True when the range is an exponent body: an optional sign, then at
/// least one digit and nothing else.
pub fn is_exponent_chars(v: &Vec<char>, from: usize, to: usize) -> (r: bool)
    requires
        from <= to <= v@.len(),
    ensures
        r == is_exponent_body(v@.subrange(from as int, to as int)),
{
    let ghost s = v@.subrange(from as int, to as int);
    let start: usize = if from < to && (v[from] == '+' || v[from] == '-') {
        from + 1
    } else {
        from
    };
    proof {
        assert(strip_sign(s) =~= v@.subrange(start as int, to as int));
    }
    if start == to {
        return false;
    }
    all_digits_chars(v, start, to)
}

/// True when the range spells an unsigned floating-point number.
pub fn is_float_number_chars(v: &Vec<char>, from: usize, to: usize) -> (r: bool)
    requires
        from <= to <= v@.len(),
    ensures
        r == is_float_number(v@.subrange(from as int, to as int)),
{
    let ghost s = v@.subrange(from as int, to as int);
    let d1 = count_digits(v, from, to);
    let p = from + d1;
    proof {
        assert(s.skip(d1 as int) =~= v@.subrange(p as int, to as int));
    }
    if p < to && v[p] == '.' {
        proof {
            assert(s.skip(d1 as int).drop_first() =~= v@.subrange(p + 1, to as int));
        }
        let d2 = count_digits(v, p + 1, to);
        let q = p + 1 + d2;
        proof {
            assert(v@.subrange(p + 1, to as int).skip(d2 as int) =~= v@.subrange(
                q as int,
                to as int,
            ));
        }
        if d1 + d2 == 0 {
            return false;
        }
        if q == to {
            return true;
        }
        if v[q] != 'e' && v[q] != 'E' {
            return false;
        }
        proof {
            assert(v@.subrange(q as int, to as int).drop_first() =~= v@.subrange(
                q + 1,
                to as int,
            ));
        }
        is_exponent_chars(v, q + 1, to)
    } else {
        if d1 == 0 {
            return false;
        }
        if p == to {
            return true;
        }
        if v[p] != 'e' && v[p] != 'E' {
            return false;
        }
        proof {
            assert(v@.subrange(p as int, to as int).drop_first() =~= v@.subrange(
                p + 1,
                to as int,
            ));
        }
        is_exponent_chars(v, p + 1, to)
    }
}

/// True when the range matches `word` up to ASCII case; `word` is given in
/// lower case.
fn eq_word_chars(v: &Vec<char>, from: usize, to: usize, word: &Vec<char>) -> (r: bool)
    requires
        from <= to <= v@.len(),
        forall|i: int| 0 <= i < word@.len() ==> to_lower(#[trigger] word@[i]) == word@[i],
    ensures
        r == eq_ignore_ascii_case(v@.subrange(from as int, to as int), word@),
{
    let ghost s = v@.subrange(from as int, to as int);
    if to - from != word.len() {
        return false;
    }
    let n = word.len();
    let mut i: usize = 0;
    while i < n
        invariant
            i <= n,
            n == word@.len(),
            from + n <= to <= v@.len(),
            to - from == n,
            s == v@.subrange(from as int, to as int),
            forall|j: int| 0 <= j < word@.len() ==> to_lower(#[trigger] word@[j]) == word@[j],
            forall|j: int| 0 <= j < i ==> to_lower(#[trigger] s[j]) == to_lower(word@[j]),
        decreases n - i,
    {
        let c = v[from + i];
        let w = word[i];
        assert(s[i as int] == c);
        let lowered: char = if c >= 'A' && c <= 'Z' {
            ((c as u8) + 32) as char
        } else {
            c
        };
        assert(lowered == to_lower(c));
        assert(w == word@[i as int]);
        assert(to_lower(w) == w);
        if lowered != w {
            return false;
        }
        i = i + 1;
    }
    true
}

/// True when the range spells one of the special words.
fn is_word_chars(v: &Vec<char>, from: usize, to: usize) -> (r: bool)
    requires
        from <= to <= v@.len(),
    ensures
        r == is_float_word(v@.subrange(from as int, to as int)),
{
    let inf: Vec<char> = vec!['i', 'n', 'f'];
    let infinity: Vec<char> = vec!['i', 'n', 'f', 'i', 'n', 'i', 't', 'y'];
    let nan: Vec<char> = vec!['n', 'a', 'n'];
    proof {
        assert(inf@ =~= inf_chars());
        assert(infinity@ =~= infinity_chars());
        assert(nan@ =~= nan_chars());
    }
    eq_word_chars(v, from, to, &inf) || eq_word_chars(v, from, to, &infinity) || eq_word_chars(
        v,
        from,
        to,
        &nan,
    )
}

/// True when the range holds a decimal point.
fn has_point_chars(v: &Vec<char>, from: usize, to: usize) -> (r: bool)
    requires
        from <= to <= v@.len(),
    ensures
        r == v@.subrange(from as int, to as int).contains('.'),
{
    let ghost s = v@.subrange(from as int, to as int);
    let mut i: usize = from;
    while i < to
        invariant
            from <= i <= to <= v@.len(),
            s == v@.subrange(from as int, to as int),
            forall|j: int| 0 <= j < i - from ==> #[trigger] s[j] != '.',
        decreases to - i,
    {
        if v[i] == '.' {
            proof {
                assert(s[i - from] == '.');
                assert(s.contains('.'));
            }
            return true;
        }
        i = i + 1;
    }
    proof {
        if s.contains('.') {
            let j = choose|j: int| 0 <= j < s.len() && s[j] == '.';
            assert(false);
        }
    }
    false
}

/// True when the range spells a float, as `is_float_literal` says.
pub fn is_float_chars(v: &Vec<char>, from: usize, to: usize) -> (r: bool)
    requires
        from <= to <= v@.len(),
    ensures
        r == is_float_literal(v@.subrange(from as int, to as int)),
{
    let ghost s = v@.subrange(from as int, to as int);
    let start: usize = if from < to && (v[from] == '+' || v[from] == '-') {
        from + 1
    } else {
        from
    };
    proof {
        assert(strip_sign(s) =~= v@.subrange(start as int, to as int));
    }
    if is_word_chars(v, start, to) {
        return true;
    }
    is_float_number_chars(v, start, to)
}

/// A float spelling that already carries its decimal point: one of the
/// special words, or a number with a point in it.
pub open spec fn float_pointed(s: Seq<char>) -> bool {
    is_float_literal(s) && (is_float_word(strip_sign(s)) || strip_sign(s).contains('.'))
}

/// Where the decimal point goes when a number spelling lacks one: right
/// after the integer digits of the unsigned part.
pub open spec fn float_point_position(s: Seq<char>) -> int {
    (if s.len() > 0 && (s[0] == '+' || s[0] == '-') {
        1int
    } else {
        0int
    }) + leading_digits(strip_sign(s))
}

/// The spelling with its decimal point made explicit: a number without a
/// point gains `.0` after its integer digits, before any exponent; every
/// other accepted spelling is kept as written. Formatting always renders a
/// number with a decimal point.
pub open spec fn float_normalize(s: Seq<char>) -> Seq<char> {
    if is_float_literal(s) && !is_float_word(strip_sign(s)) && !strip_sign(s).contains('.') {
        let p = float_point_position(s);
        s.take(p) + seq!['.', '0'] + s.skip(p)
    } else {
        s
    }
}

/// Normalizing an accepted spelling stays in the grammar, carries a
/// decimal point or spells a special word, and is a fixed point.
#[verifier::rlimit(100)]
pub proof fn lemma_float_normalize(s: Seq<char>)
    requires
        is_float_literal(s),
    ensures
        is_float_literal(float_normalize(s)),
        float_pointed(float_normalize(s)),
        float_normalize(float_normalize(s)) == float_normalize(s),
        float_pointed(s) ==> float_normalize(s) == s,
{
    let b = strip_sign(s);
    if is_float_word(b) || b.contains('.') {
        assert(float_normalize(s) == s);
        assert(float_pointed(s));
    } else {
        let off: int = if s.len() > 0 && (s[0] == '+' || s[0] == '-') {
            1int
        } else {
            0int
        };
        assert(b =~= s.skip(off));
        lemma_leading_digits(b);
        let d1 = leading_digits(b);
        let r1 = b.skip(d1);
        assert forall|j: int| 0 <= j < b.len() implies #[trigger] b[j] != '.' by {
            if b[j] == '.' {
                assert(b.contains('.'));
            }
        }
        if r1.len() > 0 && r1[0] == '.' {
            assert(r1[0] == b[d1]);
            assert(false);
        }
        assert(d1 > 0);
        let p = off + d1;
        let n = s.take(p) + seq!['.', '0'] + s.skip(p);
        assert(float_normalize(s) == n);
        assert(n.len() == s.len() + 2);
        let nb = strip_sign(n);
        assert(n[0] == s[0]);
        assert(nb =~= n.skip(off));
        assert(nb.len() == b.len() + 2);
        assert forall|j: int| 0 <= j < d1 implies nb[j] == b[j] && is_dec_digit(#[trigger] nb[j])
            by {
            assert(n[off + j] == s[off + j]);
        }
        assert(nb[d1] == '.');
        assert(nb[d1 + 1] == '0');
        assert forall|j: int| d1 + 2 <= j < nb.len() implies #[trigger] nb[j] == b[j - 2] by {
            assert(n[off + j] == s.skip(p)[off + j - p - 2]);
        }
        // The normalized unsigned part is a number again.
        lemma_leading_digits_is(nb, d1);
        assert(leading_digits(nb) == d1);
        let r1n = nb.skip(d1 as int);
        assert(r1n.len() > 0);
        assert(r1n[0] == nb[d1]);
        assert(r1n[0] == '.');
        let frac = r1n.drop_first();
        assert(frac =~= nb.skip(d1 + 1));
        assert(frac[0] == nb[d1 + 1]);
        assert(frac[0] == '0');
        assert(is_dec_digit('0'));
        if frac.len() > 1 {
            assert(frac[1] == nb[d1 + 2]);
            assert(nb[d1 + 2] == b[d1]);
            assert(b[d1] == r1[0]);
            assert(r1.len() > 0);
            assert(r1[0] == 'e' || r1[0] == 'E');
            assert(!is_dec_digit(frac[1]));
        }
        lemma_leading_digits_is(frac, 1);
        assert(leading_digits(frac) == 1);
        let r2 = frac.skip(1);
        assert(r2 =~= r1) by {
            assert forall|j: int| 0 <= j < r2.len() implies r2[j] == r1[j] by {
                assert(r2[j] == nb[d1 + 2 + j]);
                assert(nb[d1 + 2 + j] == b[d1 + j]);
                assert(r1[j] == b[d1 + j]);
            }
        }
        assert(r2 == r1);
        if r1.len() == 0 {
            assert(is_float_number(nb));
        } else {
            assert(r1[0] == 'e' || r1[0] == 'E');
            assert(is_exponent_body(r1.drop_first()));
            assert(r2.drop_first() == r1.drop_first());
            assert(is_float_number(nb));
        }
        assert(is_float_literal(n));
        // The result carries its point and is not a special word.
        assert(nb.contains('.')) by {
            assert(nb[d1] == '.');
        }
        assert(!is_float_word(nb)) by {
            assert(to_lower('.') == '.');
            if eq_ignore_ascii_case(nb, inf_chars()) {
                assert(to_lower(nb[d1]) == to_lower(inf_chars()[d1]));
                assert(false);
            }
            if eq_ignore_ascii_case(nb, infinity_chars()) {
                assert(to_lower(nb[d1]) == to_lower(infinity_chars()[d1]));
                assert(false);
            }
            if eq_ignore_ascii_case(nb, nan_chars()) {
                assert(to_lower(nb[d1]) == to_lower(nan_chars()[d1]));
                assert(false);
            }
        }
        assert(float_pointed(n));
        assert(float_normalize(n) == n);
    }
}

/// What parsing a float field value yields: any spelling the grammar
/// accepts, with its decimal point made explicit.
pub open spec fn float_value_parse(s: Seq<char>) -> Result<Seq<char>, InfluxLineError> {
    if is_float_literal(s) {
        Ok(float_normalize(s))
    } else {
        Err(InfluxLineError::BadValue)
    }
}

/// A float field value, held as its wire text.
#[derive(Debug, PartialEq, Eq, Hash)]
pub struct FloatValue {
    text: String,
}

impl Clone for FloatValue {
    /// Clones the value; the copy has the same view.
    fn clone(&self) -> (r: Self)
        ensures
            r@ == self@,
    {
        FloatValue { text: self.text.clone() }
    }
}

impl View for FloatValue {
    type V = Seq<char>;

    closed spec fn view(&self) -> Seq<char> {
        self.text@
    }
}

impl FloatValue {
    /// The invariant every constructed float value meets: its text is in
    /// the grammar and carries a decimal point unless it spells one of the
    /// special words.
    pub open spec fn wf(self) -> bool {
        float_pointed(self@)
    }

    /// Parses a float field value, making the decimal point explicit.
    pub fn from_str(s: &str) -> (r: Result<FloatValue, InfluxLineError>)
        ensures
            match float_value_parse(s@) {
                Ok(c) => r is Ok && r.unwrap()@ == c && r.unwrap().wf(),
                Err(e) => r == Err::<FloatValue, InfluxLineError>(e),
            },
    {
        let chars = str_to_chars(s);
        let n = chars.len();
        proof {
            assert(chars@.subrange(0, n as int) =~= s@);
        }
        FloatValue::parse_chars(&chars, 0, n)
    }

    /// Parses a float field value from a range of wire characters.
    pub fn parse_chars(v: &Vec<char>, from: usize, to: usize) -> (r: Result<
        FloatValue,
        InfluxLineError,
    >)
        requires
            from <= to <= v@.len(),
        ensures
            match float_value_parse(v@.subrange(from as int, to as int)) {
                Ok(c) => r is Ok && r.unwrap()@ == c && r.unwrap().wf(),
                Err(e) => r == Err::<FloatValue, InfluxLineError>(e),
            },
    {
        let ghost sub = v@.subrange(from as int, to as int);
        if !is_float_chars(v, from, to) {
            return Err(InfluxLineError::BadValue);
        }
        proof {
            lemma_float_normalize(sub);
        }
        let start: usize = if from < to && (v[from] == '+' || v[from] == '-') {
            from + 1
        } else {
            from
        };
        proof {
            assert(strip_sign(sub) =~= v@.subrange(start as int, to as int));
        }
        if is_word_chars(v, start, to) || has_point_chars(v, start, to) {
            proof {
                assert(float_pointed(sub));
                assert(float_normalize(sub) == sub);
            }
            let seg = crate::types::chars::subchars(v, from, to);
            return Ok(FloatValue { text: crate::types::chars::chars_to_string(&seg) });
        }
        let d1 = count_digits(v, start, to);
        let p = start + d1;
        let mut out = crate::types::chars::subchars(v, from, p);
        out.push('.');
        out.push('0');
        let mut tail = crate::types::chars::subchars(v, p, to);
        out.append(&mut tail);
        proof {
            assert(float_point_position(sub) == p - from);
            assert(sub.take(p - from) =~= v@.subrange(from as int, p as int));
            assert(sub.skip(p - from) =~= v@.subrange(p as int, to as int));
            assert(out@ =~= float_normalize(sub));
        }
        Ok(FloatValue { text: crate::types::chars::chars_to_string(&out) })
    }

    /// The canonical wire text.
    pub fn as_str(&self) -> (r: &str)
        ensures
            r@ == self@,
    {
        self.text.as_str()
    }

    /// The wire spelling: the canonical text itself.
    pub fn wire_chars(&self) -> (r: Vec<char>)
        ensures
            r@ == self@,
    {
        str_to_chars(self.text.as_str())
    }
}

} // verus!
