//! Verified decimal reading and writing of 64-bit integers, shared by the
//! integer field values and the timestamp.

use vstd::prelude::*;
use vstd::arithmetic::div_mod::lemma_fundamental_div_mod;

use crate::error::InfluxLineError;

verus! {

/// True for the ten decimal digit characters.
pub open spec fn is_dec_digit(c: char) -> bool {
    '0' <= c && c <= '9'
}

/// The numeric value of a digit character.
pub open spec fn digit_val(c: char) -> int {
    c as int - 48
}

/// True when every character of `s` is a decimal digit.
pub open spec fn all_dec_digits(s: Seq<char>) -> bool {
    forall|i: int| 0 <= i < s.len() ==> is_dec_digit(#[trigger] s[i])
}

/// The numeric value of a digit string, most significant digit first.
pub open spec fn digits_val(s: Seq<char>) -> int
    decreases s.len(),
{
    if s.len() == 0 {
        0
    } else {
        digits_val(s.drop_last()) * 10 + digit_val(s.last())
    }
}

/// The digit character of a value below ten.
pub open spec fn digit_char(d: int) -> char {
    (d + 48) as char
}

/// The decimal spelling of a non-negative number.
pub open spec fn dec_rep(n: int) -> Seq<char>
    decreases n,
    when n >= 0
{
    if n < 10 {
        seq![digit_char(n)]
    } else {
        dec_rep(n / 10).push(digit_char(n % 10))
    }
}

/// The decimal spelling of a signed number: a minus sign before the
/// magnitude for negative values.
pub open spec fn int_dec_rep(n: int) -> Seq<char> {
    if n < 0 {
        seq!['-'] + dec_rep(-n)
    } else {
        dec_rep(n)
    }
}

/// What parsing an unsigned 64-bit number accepts: an optional plus sign,
/// then one or more decimal digits whose value fits.
pub open spec fn u64_parse(s: Seq<char>) -> Option<u64> {
    let b = if s.len() > 0 && s[0] == '+' {
        s.drop_first()
    } else {
        s
    };
    if b.len() > 0 && all_dec_digits(b) && digits_val(b) <= u64::MAX {
        Some(digits_val(b) as u64)
    } else {
        None
    }
}

/// What parsing a signed 64-bit number accepts: an optional sign, then one
/// or more decimal digits whose value fits.
pub open spec fn i64_parse(s: Seq<char>) -> Option<i64> {
    if s.len() > 0 && s[0] == '-' {
        let b = s.drop_first();
        if b.len() > 0 && all_dec_digits(b) && digits_val(b) <= 0x8000000000000000 {
            Some((-digits_val(b)) as i64)
        } else {
            None
        }
    } else {
        let b = if s.len() > 0 && s[0] == '+' {
            s.drop_first()
        } else {
            s
        };
        if b.len() > 0 && all_dec_digits(b) && digits_val(b) <= i64::MAX {
            Some(digits_val(b) as i64)
        } else {
            None
        }
    }
}

/// The value of a digit string is never negative.
pub proof fn lemma_digits_val_nonneg(s: Seq<char>)
    requires
        all_dec_digits(s),
    ensures
        digits_val(s) >= 0,
    decreases s.len(),
{
    if s.len() > 0 {
        assert(all_dec_digits(s.drop_last())) by {
            assert(forall|i: int|
                0 <= i < s.drop_last().len() ==> s.drop_last()[i] == #[trigger] s[i]);
        }
        lemma_digits_val_nonneg(s.drop_last());
        assert(is_dec_digit(s.last()));
    }
}

/// A digit string is worth at least any of its prefixes.
pub proof fn lemma_digits_val_monotone(s: Seq<char>, k: int)
    requires
        all_dec_digits(s),
        0 <= k <= s.len(),
    ensures
        digits_val(s.take(k)) <= digits_val(s),
    decreases s.len() - k,
{
    if k == s.len() {
        assert(s.take(k) =~= s);
    } else {
        let t = s.take(k + 1);
        assert(t.drop_last() =~= s.take(k));
        assert(t.last() == s[k]);
        assert(all_dec_digits(s.take(k))) by {
            assert(forall|i: int| 0 <= i < k ==> s.take(k)[i] == #[trigger] s[i]);
        }
        lemma_digits_val_nonneg(s.take(k));
        assert(digits_val(t) == digits_val(s.take(k)) * 10 + digit_val(s[k]));
        assert(digits_val(s.take(k)) * 10 >= digits_val(s.take(k)));
        assert(is_dec_digit(s[k]));
        lemma_digits_val_monotone(s, k + 1);
    }
}

/// The decimal spelling of a non-negative number is one or more digits
/// worth exactly that number.
pub proof fn lemma_dec_rep_digits(n: int)
    requires
        n >= 0,
    ensures
        all_dec_digits(dec_rep(n)),
        dec_rep(n).len() >= 1,
        digits_val(dec_rep(n)) == n,
    decreases n,
{
    if n < 10 {
        let c = digit_char(n);
        assert(c as int == n + 48);
        assert(is_dec_digit(c));
        assert(dec_rep(n) =~= seq![c]);
        assert(dec_rep(n).drop_last() =~= Seq::<char>::empty());
        assert(digits_val(Seq::<char>::empty()) == 0);
        assert(dec_rep(n).last() == c);
        assert(digit_val(c) == n);
        assert(digits_val(dec_rep(n)) == digits_val(dec_rep(n).drop_last()) * 10 + digit_val(
            dec_rep(n).last(),
        ));
        assert(digits_val(dec_rep(n)) == n);
    } else {
        assert(n / 10 < n && n / 10 >= 0) by (nonlinear_arith)
            requires
                n >= 10,
        ;
        lemma_dec_rep_digits(n / 10);
        lemma_fundamental_div_mod(n, 10);
        let d = n % 10;
        assert(0 <= d < 10);
        let c = digit_char(d);
        assert(c as int == d + 48);
        assert(is_dec_digit(c));
        let r = dec_rep(n);
        assert(r == dec_rep(n / 10).push(c));
        assert(r.drop_last() =~= dec_rep(n / 10));
        assert(r.last() == c);
        assert(digits_val(r) == (n / 10) * 10 + d);
        assert(forall|i: int|
            0 <= i < r.len() ==> is_dec_digit(#[trigger] r[i])) by {
            assert(forall|i: int|
                0 <= i < r.len() - 1 ==> r[i] == #[trigger] dec_rep(n / 10)[i]);
        }
    }
}

/// Reading back the decimal spelling of an unsigned number gives the
/// number.
pub proof fn lemma_u64_parse_dec_rep(n: u64)
    ensures
        u64_parse(dec_rep(n as int)) == Some(n),
{
    lemma_dec_rep_digits(n as int);
    let s = dec_rep(n as int);
    assert(is_dec_digit(s[0]));
    assert(s[0] != '+');
}

/// Reading back the decimal spelling of a signed number gives the number.
pub proof fn lemma_i64_parse_int_dec_rep(n: i64)
    ensures
        i64_parse(int_dec_rep(n as int)) == Some(n),
{
    if n >= 0 {
        lemma_dec_rep_digits(n as int);
        let s = int_dec_rep(n as int);
        assert(is_dec_digit(s[0]));
        assert(s[0] != '+' && s[0] != '-');
    } else {
        let m = -(n as int);
        lemma_dec_rep_digits(m);
        let s = int_dec_rep(n as int);
        assert(s[0] == '-');
        assert(s.drop_first() =~= dec_rep(m));
        assert(digits_val(dec_rep(m)) == m <= 0x8000000000000000);
    }
}

/// Reads a run of decimal digits into a number of at most `bound`.
pub fn parse_digits_bounded(v: &Vec<char>, from: usize, to: usize, bound: u64) -> (r: Option<u64>)
    requires
        from <= to <= v@.len(),
    ensures
        ({
            let b = v@.subrange(from as int, to as int);
            match r {
                Some(n) => b.len() > 0 && all_dec_digits(b) && digits_val(b) == n && n <= bound,
                None => !(b.len() > 0 && all_dec_digits(b) && digits_val(b) <= bound),
            }
        }),
{
    let ghost b = v@.subrange(from as int, to as int);
    if from == to {
        return None;
    }
    let mut val: u64 = 0;
    let mut i: usize = from;
    while i < to
        invariant
            from <= i <= to <= v@.len(),
            from < to,
            b == v@.subrange(from as int, to as int),
            all_dec_digits(b.take(i - from)),
            digits_val(b.take(i - from)) == val,
            val <= bound,
        decreases to - i,
    {
        let c = v[i];
        assert(b[i - from] == c);
        if c < '0' || c > '9' {
            assert(!is_dec_digit(b[i - from]));
            return None;
        }
        let d: u64 = (c as u32 - 48) as u64;
        assert(d as int == digit_val(c));
        assert(d <= 9);
        let ghost prefix = b.take(i - from);
        let ghost next = b.take(i + 1 - from);
        proof {
            assert(next.drop_last() =~= prefix);
            assert(next.last() == c);
            assert(digits_val(next) == digits_val(prefix) * 10 + digit_val(c));
            assert(all_dec_digits(next)) by {
                assert(forall|j: int|
                    0 <= j < next.len() - 1 ==> next[j] == #[trigger] prefix[j]);
            }
        }
        if val > bound / 10 || (val == bound / 10 && d > bound % 10) {
            proof {
                lemma_fundamental_div_mod(bound as int, 10);
                assert(digits_val(next) > bound) by (nonlinear_arith)
                    requires
                        digits_val(next) == (val as int) * 10 + d as int,
                        val as int > (bound as int) / 10 || (val as int == (bound as int) / 10
                            && d as int > (bound as int) % 10),
                        bound as int == 10 * ((bound as int) / 10) + (bound as int) % 10,
                        0 <= (bound as int) % 10 < 10,
                        d <= 9,
                ;
                if all_dec_digits(b) {
                    lemma_digits_val_monotone(b, i + 1 - from);
                }
            }
            return None;
        }
        proof {
            lemma_fundamental_div_mod(bound as int, 10);
            assert((val as int) * 10 + d as int <= bound) by (nonlinear_arith)
                requires
                    val as int <= (bound as int) / 10,
                    !(val as int > (bound as int) / 10 || (val as int == (bound as int) / 10
                        && d as int > (bound as int) % 10)),
                    bound as int == 10 * ((bound as int) / 10) + (bound as int) % 10,
                    0 <= (bound as int) % 10 < 10,
                    d <= 9,
            ;
        }
        val = val * 10 + d;
        i = i + 1;
    }
    proof {
        assert(b.take(to - from) =~= b);
    }
    Some(val)
}

/// Reads an unsigned 64-bit number, as `u64_parse` says.
pub fn u64_from_chars(v: &Vec<char>, from: usize, to: usize) -> (r: Option<u64>)
    requires
        from <= to <= v@.len(),
    ensures
        r == u64_parse(v@.subrange(from as int, to as int)),
{
    let ghost s = v@.subrange(from as int, to as int);
    if from == to {
        return None;
    }
    if v[from] == '+' {
        proof {
            assert(s[0] == '+');
            assert(v@.subrange(from + 1, to as int) =~= s.drop_first());
        }
        parse_digits_bounded(v, from + 1, to, u64::MAX)
    } else {
        proof {
            assert(s[0] != '+');
        }
        parse_digits_bounded(v, from, to, u64::MAX)
    }
}

/// Reads a signed 64-bit number, as `i64_parse` says.
pub fn i64_from_chars(v: &Vec<char>, from: usize, to: usize) -> (r: Option<i64>)
    requires
        from <= to <= v@.len(),
    ensures
        r == i64_parse(v@.subrange(from as int, to as int)),
{
    let ghost s = v@.subrange(from as int, to as int);
    if from == to {
        return None;
    }
    let first = v[from];
    assert(s[0] == first);
    if first == '-' {
        proof {
            assert(v@.subrange(from + 1, to as int) =~= s.drop_first());
        }
        match parse_digits_bounded(v, from + 1, to, 0x8000000000000000u64) {
            Some(mag) => {
                if mag == 0x8000000000000000u64 {
                    Some(i64::MIN)
                } else {
                    Some(-(mag as i64))
                }
            },
            None => None,
        }
    } else if first == '+' {
        proof {
            assert(v@.subrange(from + 1, to as int) =~= s.drop_first());
        }
        match parse_digits_bounded(v, from + 1, to, i64::MAX as u64) {
            Some(mag) => Some(mag as i64),
            None => None,
        }
    } else {
        match parse_digits_bounded(v, from, to, i64::MAX as u64) {
            Some(mag) => Some(mag as i64),
            None => None,
        }
    }
}

/// Writes the decimal spelling of an unsigned number.
pub fn u64_to_chars(n: u64) -> (r: Vec<char>)
    ensures
        r@ == dec_rep(n as int),
    decreases n,
{
    if n < 10 {
        let c = ((48 + n) as u8) as char;
        proof {
            assert(c == digit_char(n as int));
        }
        let mut v: Vec<char> = Vec::new();
        v.push(c);
        proof {
            assert(v@ =~= dec_rep(n as int));
        }
        v
    } else {
        let mut v = u64_to_chars(n / 10);
        let d = n % 10;
        let c = ((48 + d) as u8) as char;
        proof {
            assert(c == digit_char(d as int));
            assert(n as int / 10 == (n / 10) as int);
            assert(n as int % 10 == d as int);
        }
        v.push(c);
        v
    }
}

/// Writes the decimal spelling of a signed number.
pub fn i64_to_chars(n: i64) -> (r: Vec<char>)
    ensures
        r@ == int_dec_rep(n as int),
{
    if n >= 0 {
        u64_to_chars(n as u64)
    } else {
        let mag: u64 = if n == i64::MIN {
            0x8000000000000000u64
        } else {
            (-n) as u64
        };
        proof {
            assert(mag as int == -(n as int));
        }
        let mut digits = u64_to_chars(mag);
        let mut v: Vec<char> = Vec::new();
        v.push('-');
        v.append(&mut digits);
        proof {
            assert(v@ =~= int_dec_rep(n as int));
        }
        v
    }
}

/// The error the whole-number reading of a timestamp gives.
pub open spec fn timestamp_parse(s: Seq<char>) -> Result<i64, InfluxLineError> {
    match i64_parse(s) {
        Some(n) => Ok(n),
        None => Err(InfluxLineError::TimestampNotParsed),
    }
}

} // verus!
