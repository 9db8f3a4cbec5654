//! The parse/format round trip: formatting a well-formed record and parsing
//! the result yields the record back. The lemmas here walk the tokenizer's
//! scanners over freshly escaped text, then the decoders over each segment.

use vstd::prelude::*;

use crate::error::InfluxLineError;
use crate::line::field::simple_value_scan;
use crate::line::field::string_value_scan;
use crate::line::field::ParserState;
use crate::line::key::key_scan;
use crate::line::parsing::fields_scan;
use crate::line::parsing::lemma_fields_scan_step;
use crate::line::parsing::tags_scan;
use crate::line::parsing::FieldParserTail;
use crate::line::tag::tag_pair_scan;
use crate::line::field::field_pair_scan;
use crate::line::field::field_value_scan;
use crate::line::decode_fields;
use crate::line::decode_tags;
use crate::line::field_pair_wire;
use crate::line::fields_wire;
use crate::line::hash_like::assoc_unique;
use crate::line::hash_like::lemma_assoc_find;
use crate::line::line_decode;
use crate::line::line_parse;
use crate::line::line_wire;
use crate::line::line_view_wf;
use crate::line::upsert_all;
use crate::line::LineView;
use crate::line::parsing::line_tokenize;
use crate::types::key::lemma_key_name_round_trip;
use crate::types::key::key_name_round_trippable;
use crate::types::key::valid_name;
use crate::types::measurement::lemma_measurement_name_round_trip;
use crate::types::measurement::measurement_name_round_trippable;
use crate::types::timestamp::lemma_timestamp_round_trip;
use crate::types::timestamp::timestamp_wire;
use crate::types::value::lemma_value_round_trip;
use crate::line::measurement::measurement_scan;
use crate::line::parsing::ScanNext;
use crate::line::tag::tag_value_scan;
use crate::types::key::escape_char;
use crate::types::key::key_name_wire;
use crate::types::key::key_special_chars;
use crate::types::measurement::measurement_name_wire;
use crate::types::measurement::measurement_special_chars;
use crate::types::quoted::quoted_string_wire;
use crate::types::quoted::string_special_chars;
use crate::types::decimal::dec_rep;
use crate::types::decimal::int_dec_rep;
use crate::types::decimal::is_dec_digit;
use crate::types::decimal::lemma_dec_rep_digits;
use crate::types::float::lemma_float_literal_chars;
use crate::types::float::lemma_float_literal_last;
use crate::types::float::plain_float_char;
use crate::types::float::to_lower;
use crate::types::value::value_view_wf;
use crate::types::value::value_wire;
use crate::types::value::ValueView;
use crate::types::parser::encode_round_trippable;
use crate::types::parser::escape_encode;
use crate::types::parser::escaped_char;
use crate::types::parser::is_special;

verus! {

/// Pointwise reading of a subrange equality.
pub proof fn lemma_subrange_index(s: Seq<char>, i: int, t: Seq<char>)
    requires
        0 <= i,
        i + t.len() <= s.len(),
        s.subrange(i, i + t.len() as int) == t,
    ensures
        forall|j: int| 0 <= j < t.len() ==> s[i + j] == #[trigger] t[j],
{
    assert forall|j: int| 0 <= j < t.len() implies s[i + j] == #[trigger] t[j] by {
        assert(t[j] == s.subrange(i, i + t.len() as int)[j]);
    }
}

/// Splitting a subrange equality at a concatenation.
pub proof fn lemma_subrange_concat(s: Seq<char>, i: int, a: Seq<char>, u: Seq<char>)
    requires
        0 <= i,
        i + a.len() + u.len() <= s.len(),
        s.subrange(i, i + a.len() + u.len()) == a + u,
    ensures
        s.subrange(i, i + a.len() as int) == a,
        s.subrange(i + a.len() as int, i + a.len() + u.len()) == u,
{
    lemma_subrange_index(s, i, a + u);
    assert forall|j: int| 0 <= j < a.len() implies s.subrange(i, i + a.len() as int)[j] == a[j]
        by {
        assert((a + u)[j] == a[j]);
        assert(s[i + j] == (a + u)[j]);
    }
    assert(s.subrange(i, i + a.len() as int) =~= a);
    assert forall|j: int|
        0 <= j < u.len() implies s.subrange(i + a.len() as int, i + a.len() + u.len())[j] == u[j]
        by {
        assert((a + u)[a.len() + j] == u[j]);
        assert(s[i + (a.len() + j)] == (a + u)[a.len() + j]);
    }
    assert(s.subrange(i + a.len() as int, i + a.len() + u.len()) =~= u);
}

/// Reading the one character of a singleton subrange equality.
pub proof fn lemma_char_at(s: Seq<char>, i: int, c: char)
    requires
        0 <= i,
        i + 1 <= s.len(),
        s.subrange(i, i + 1) == seq![c],
    ensures
        s[i] == c,
{
    assert(seq![c][0] == c);
    assert(s.subrange(i, i + 1)[0] == s[i]);
}

/// The measurement scanner walks over the wire spelling of a
/// round-trippable name and stops exactly at the delimiter after it.
pub proof fn lemma_measurement_scan_encoded(s: Seq<char>, i: int, w: Seq<char>)
    requires
        0 <= i,
        encode_round_trippable(w, measurement_special_chars(), escape_char()),
        i + measurement_name_wire(w).len() < s.len(),
        s.subrange(i, i + measurement_name_wire(w).len() as int) == measurement_name_wire(w),
        s[i + measurement_name_wire(w).len()] == ',' || s[i + measurement_name_wire(w).len()]
            == ' ',
        i > 0 || w.len() > 0,
    ensures
        measurement_scan(s, i, false) == Ok::<(int, ScanNext), InfluxLineError>(
            (
                i + measurement_name_wire(w).len(),
                if s[i + measurement_name_wire(w).len()] == ',' {
                    ScanNext::Tags
                } else {
                    ScanNext::Fields
                },
            ),
        ),
    decreases w.len(),
{
    let sp = measurement_special_chars();
    let esc = escape_char();
    let enc = measurement_name_wire(w);
    lemma_subrange_index(s, i, enc);
    if w.len() == 0 {
        assert(enc.len() == 0);
        assert(i > 0);
    } else {
        let c = w[0];
        let rest = w.drop_first();
        let enc_rest = escape_encode(rest, sp, esc);
        assert(enc == escaped_char(c, sp, esc) + enc_rest);
        crate::types::parser::lemma_round_trippable_drop_first(w, sp, esc);
        if is_special(c, sp) {
            assert(escaped_char(c, sp, esc) =~= seq![esc, c]);
            assert(enc.len() == 2 + enc_rest.len());
            assert(enc[0] == esc);
            assert(enc[1] == c);
            assert(s[i] == '\\');
            assert(s[i + 1] == c);
            assert(c != '\\');
            assert(s.subrange(i, i + 2 + enc_rest.len()) == seq![esc, c] + enc_rest);
            lemma_subrange_concat(s, i, seq![esc, c], enc_rest);
            assert(s.subrange(i + 2, i + 2 + enc_rest.len()) == enc_rest);
            lemma_measurement_scan_encoded(s, i + 2, rest);
            assert(measurement_scan(s, i, false) == measurement_scan(s, i + 1, true));
            assert(measurement_scan(s, i + 1, true) == measurement_scan(s, i + 2, false));
        } else if c == esc {
            assert(rest.len() >= 1);
            let d = w[1];
            assert(!is_special(d, sp) && d != esc);
            let rest2 = rest.drop_first();
            crate::types::parser::lemma_round_trippable_drop_first(rest, sp, esc);
            let enc_rest2 = escape_encode(rest2, sp, esc);
            assert(escaped_char(c, sp, esc) =~= seq![esc]);
            assert(escaped_char(d, sp, esc) =~= seq![d]);
            assert(enc_rest == escaped_char(d, sp, esc) + enc_rest2);
            assert(enc =~= seq![esc, d] + enc_rest2);
            assert(enc.len() == 2 + enc_rest2.len());
            assert(enc[0] == esc);
            assert(enc[1] == d);
            assert(s[i] == '\\');
            assert(s[i + 1] == d);
            assert(d != '\\');
            assert(s.subrange(i, i + 2 + enc_rest2.len()) == seq![esc, d] + enc_rest2);
            lemma_subrange_concat(s, i, seq![esc, d], enc_rest2);
            assert(s.subrange(i + 2, i + 2 + enc_rest2.len()) == enc_rest2);
            lemma_measurement_scan_encoded(s, i + 2, rest2);
            assert(measurement_scan(s, i, false) == measurement_scan(s, i + 1, true));
            assert(measurement_scan(s, i + 1, true) == measurement_scan(s, i + 2, false));
        } else {
            assert(escaped_char(c, sp, esc) =~= seq![c]);
            assert(enc.len() == 1 + enc_rest.len());
            assert(enc[0] == c);
            assert(s[i] == c);
            assert(c != ',' && c != ' ' && c != '\\');
            assert(s.subrange(i, i + 1 + enc_rest.len()) == seq![c] + enc_rest);
            lemma_subrange_concat(s, i, seq![c], enc_rest);
            assert(s.subrange(i + 1, i + 1 + enc_rest.len()) == enc_rest);
            lemma_measurement_scan_encoded(s, i + 1, rest);
            assert(measurement_scan(s, i, false) == measurement_scan(s, i + 1, false));
        }
    }
}

/// The key scanner walks over the wire spelling of a round-trippable key
/// name and stops exactly at the equals sign after it.
pub proof fn lemma_key_scan_encoded(s: Seq<char>, i: int, w: Seq<char>)
    requires
        0 <= i,
        encode_round_trippable(w, key_special_chars(), escape_char()),
        i + key_name_wire(w).len() < s.len(),
        s.subrange(i, i + key_name_wire(w).len() as int) == key_name_wire(w),
        s[i + key_name_wire(w).len()] == '=',
    ensures
        key_scan(s, i, false) == Ok::<int, InfluxLineError>(i + key_name_wire(w).len()),
    decreases w.len(),
{
    let sp = key_special_chars();
    let esc = escape_char();
    let enc = key_name_wire(w);
    lemma_subrange_index(s, i, enc);
    if w.len() == 0 {
    } else {
        let c = w[0];
        let rest = w.drop_first();
        let enc_rest = escape_encode(rest, sp, esc);
        assert(enc == escaped_char(c, sp, esc) + enc_rest);
        crate::types::parser::lemma_round_trippable_drop_first(w, sp, esc);
        if is_special(c, sp) {
            assert(escaped_char(c, sp, esc) =~= seq![esc, c]);
            assert(enc.len() == 2 + enc_rest.len());
            assert(enc[0] == esc);
            assert(enc[1] == c);
            assert(s[i] == '\\');
            assert(s[i + 1] == c);
            assert(s.subrange(i, i + 2 + enc_rest.len()) == seq![esc, c] + enc_rest);
            lemma_subrange_concat(s, i, seq![esc, c], enc_rest);
            assert(s.subrange(i + 2, i + 2 + enc_rest.len()) == enc_rest);
            lemma_key_scan_encoded(s, i + 2, rest);
            assert(key_scan(s, i, false) == key_scan(s, i + 1, true));
            assert(key_scan(s, i + 1, true) == key_scan(s, i + 2, false));
        } else if c == esc {
            assert(rest.len() >= 1);
            let d = w[1];
            assert(!is_special(d, sp) && d != esc);
            let rest2 = rest.drop_first();
            crate::types::parser::lemma_round_trippable_drop_first(rest, sp, esc);
            let enc_rest2 = escape_encode(rest2, sp, esc);
            assert(escaped_char(c, sp, esc) =~= seq![esc]);
            assert(escaped_char(d, sp, esc) =~= seq![d]);
            assert(enc_rest == escaped_char(d, sp, esc) + enc_rest2);
            assert(enc =~= seq![esc, d] + enc_rest2);
            assert(enc.len() == 2 + enc_rest2.len());
            assert(enc[0] == esc);
            assert(enc[1] == d);
            assert(s[i] == '\\');
            assert(s[i + 1] == d);
            assert(s.subrange(i, i + 2 + enc_rest2.len()) == seq![esc, d] + enc_rest2);
            lemma_subrange_concat(s, i, seq![esc, d], enc_rest2);
            assert(s.subrange(i + 2, i + 2 + enc_rest2.len()) == enc_rest2);
            lemma_key_scan_encoded(s, i + 2, rest2);
            assert(key_scan(s, i, false) == key_scan(s, i + 1, true));
            assert(key_scan(s, i + 1, true) == key_scan(s, i + 2, false));
        } else {
            assert(escaped_char(c, sp, esc) =~= seq![c]);
            assert(enc.len() == 1 + enc_rest.len());
            assert(enc[0] == c);
            assert(s[i] == c);
            assert(c != ',' && c != ' ' && c != '=' && c != '\\');
            assert(s.subrange(i, i + 1 + enc_rest.len()) == seq![c] + enc_rest);
            lemma_subrange_concat(s, i, seq![c], enc_rest);
            assert(s.subrange(i + 1, i + 1 + enc_rest.len()) == enc_rest);
            lemma_key_scan_encoded(s, i + 1, rest);
            assert(key_scan(s, i, false) == key_scan(s, i + 1, false));
        }
    }
}

/// The tag value scanner walks over the wire spelling of a round-trippable
/// tag value and stops exactly at the delimiter after it.
pub proof fn lemma_tag_value_scan_encoded(s: Seq<char>, start: int, i: int, w: Seq<char>)
    requires
        0 <= start <= i,
        encode_round_trippable(w, key_special_chars(), escape_char()),
        i + key_name_wire(w).len() < s.len(),
        s.subrange(i, i + key_name_wire(w).len() as int) == key_name_wire(w),
        s[i + key_name_wire(w).len()] == ',' || s[i + key_name_wire(w).len()] == ' ',
        i > start || w.len() > 0,
    ensures
        tag_value_scan(s, start, i, false) == Ok::<(int, ScanNext), InfluxLineError>(
            (
                i + key_name_wire(w).len(),
                if s[i + key_name_wire(w).len()] == ',' {
                    ScanNext::Tags
                } else {
                    ScanNext::Fields
                },
            ),
        ),
    decreases w.len(),
{
    let sp = key_special_chars();
    let esc = escape_char();
    let enc = key_name_wire(w);
    lemma_subrange_index(s, i, enc);
    if w.len() == 0 {
        assert(i > start);
    } else {
        let c = w[0];
        let rest = w.drop_first();
        let enc_rest = escape_encode(rest, sp, esc);
        assert(enc == escaped_char(c, sp, esc) + enc_rest);
        crate::types::parser::lemma_round_trippable_drop_first(w, sp, esc);
        if is_special(c, sp) {
            assert(escaped_char(c, sp, esc) =~= seq![esc, c]);
            assert(enc.len() == 2 + enc_rest.len());
            assert(enc[0] == esc);
            assert(enc[1] == c);
            assert(s[i] == '\\');
            assert(s[i + 1] == c);
            assert(c != '\\');
            assert(s.subrange(i, i + 2 + enc_rest.len()) == seq![esc, c] + enc_rest);
            lemma_subrange_concat(s, i, seq![esc, c], enc_rest);
            assert(s.subrange(i + 2, i + 2 + enc_rest.len()) == enc_rest);
            lemma_tag_value_scan_encoded(s, start, i + 2, rest);
            assert(tag_value_scan(s, start, i, false) == tag_value_scan(s, start, i + 1, true));
            assert(tag_value_scan(s, start, i + 1, true) == tag_value_scan(
                s,
                start,
                i + 2,
                false,
            ));
        } else if c == esc {
            assert(rest.len() >= 1);
            let d = w[1];
            assert(!is_special(d, sp) && d != esc);
            let rest2 = rest.drop_first();
            crate::types::parser::lemma_round_trippable_drop_first(rest, sp, esc);
            let enc_rest2 = escape_encode(rest2, sp, esc);
            assert(escaped_char(c, sp, esc) =~= seq![esc]);
            assert(escaped_char(d, sp, esc) =~= seq![d]);
            assert(enc_rest == escaped_char(d, sp, esc) + enc_rest2);
            assert(enc =~= seq![esc, d] + enc_rest2);
            assert(enc.len() == 2 + enc_rest2.len());
            assert(enc[0] == esc);
            assert(enc[1] == d);
            assert(s[i] == '\\');
            assert(s[i + 1] == d);
            assert(d != '\\');
            assert(s.subrange(i, i + 2 + enc_rest2.len()) == seq![esc, d] + enc_rest2);
            lemma_subrange_concat(s, i, seq![esc, d], enc_rest2);
            assert(s.subrange(i + 2, i + 2 + enc_rest2.len()) == enc_rest2);
            lemma_tag_value_scan_encoded(s, start, i + 2, rest2);
            assert(tag_value_scan(s, start, i, false) == tag_value_scan(s, start, i + 1, true));
            assert(tag_value_scan(s, start, i + 1, true) == tag_value_scan(
                s,
                start,
                i + 2,
                false,
            ));
        } else {
            assert(escaped_char(c, sp, esc) =~= seq![c]);
            assert(enc.len() == 1 + enc_rest.len());
            assert(enc[0] == c);
            assert(s[i] == c);
            assert(c != ',' && c != ' ' && c != '\\');
            assert(s.subrange(i, i + 1 + enc_rest.len()) == seq![c] + enc_rest);
            lemma_subrange_concat(s, i, seq![c], enc_rest);
            assert(s.subrange(i + 1, i + 1 + enc_rest.len()) == enc_rest);
            lemma_tag_value_scan_encoded(s, start, i + 1, rest);
            assert(tag_value_scan(s, start, i, false) == tag_value_scan(
                s,
                start,
                i + 1,
                false,
            ));
        }
    }
}


/// A character a bare field value may contain: anything but the escape
/// character and the three characters that end or cut the value.
pub open spec fn plain_value_char(c: char) -> bool {
    c != '\\' && c != ',' && c != ' ' && c != '\n'
}

/// The bare value scanner passes over plain characters and stops exactly at
/// the delimiter or the end of the input.
pub proof fn lemma_simple_scan_plain(s: Seq<char>, start: int, i: int, e: int)
    requires
        0 <= start <= i <= e <= s.len(),
        forall|j: int| i <= j < e ==> plain_value_char(#[trigger] s[j]),
        e == s.len() || ((s[e] == ',' || s[e] == ' ') && e > start),
    ensures
        simple_value_scan(s, start, i) == Ok::<(int, FieldParserTail), InfluxLineError>(
            (
                e,
                if e == s.len() {
                    FieldParserTail::End
                } else if s[e] == ' ' {
                    FieldParserTail::Timestamp
                } else {
                    FieldParserTail::Field
                },
            ),
        ),
    decreases e - i,
{
    if i < e {
        assert(plain_value_char(s[i]));
        lemma_simple_scan_plain(s, start, i + 1, e);
    }
}

/// The quoted value sub-scanner passes over the escaped interior of a
/// string without leaving the content state.
pub proof fn lemma_string_scan_content(s: Seq<char>, i: int, w: Seq<char>)
    requires
        0 <= i,
        i + escape_encode(w, string_special_chars(), escape_char()).len() <= s.len(),
        s.subrange(
            i,
            i + escape_encode(w, string_special_chars(), escape_char()).len() as int,
        ) == escape_encode(w, string_special_chars(), escape_char()),
    ensures
        string_value_scan(s, i, ParserState::StringContent, false) == string_value_scan(
            s,
            i + escape_encode(w, string_special_chars(), escape_char()).len() as int,
            ParserState::StringContent,
            false,
        ),
    decreases w.len(),
{
    let sp = string_special_chars();
    let esc = escape_char();
    let enc = escape_encode(w, sp, esc);
    lemma_subrange_index(s, i, enc);
    if w.len() > 0 {
        let c = w[0];
        let rest = w.drop_first();
        let enc_rest = escape_encode(rest, sp, esc);
        assert(enc == escaped_char(c, sp, esc) + enc_rest);
        if is_special(c, sp) {
            assert(escaped_char(c, sp, esc) =~= seq![esc, c]);
            assert(enc.len() == 2 + enc_rest.len());
            assert(enc[0] == esc);
            assert(enc[1] == c);
            assert(s[i] == '\\');
            assert(s[i + 1] == c);
            assert(c == '"' || c == '\\');
            assert(s.subrange(i, i + 2 + enc_rest.len()) == seq![esc, c] + enc_rest);
            lemma_subrange_concat(s, i, seq![esc, c], enc_rest);
            lemma_string_scan_content(s, i + 2, rest);
            assert(string_value_scan(s, i, ParserState::StringContent, false)
                == string_value_scan(s, i + 1, ParserState::StringContent, true));
            assert(string_value_scan(s, i + 1, ParserState::StringContent, true)
                == string_value_scan(s, i + 2, ParserState::StringContent, false));
        } else {
            assert(c != '"' && c != '\\');
            assert(escaped_char(c, sp, esc) =~= seq![c]);
            assert(enc.len() == 1 + enc_rest.len());
            assert(enc[0] == c);
            assert(s[i] == c);
            assert(s.subrange(i, i + 1 + enc_rest.len()) == seq![c] + enc_rest);
            lemma_subrange_concat(s, i, seq![c], enc_rest);
            lemma_string_scan_content(s, i + 1, rest);
            assert(string_value_scan(s, i, ParserState::StringContent, false)
                == string_value_scan(s, i + 1, ParserState::StringContent, false));
        }
    }
}

/// The quoted value scanner accepts exactly the wire spelling of a string
/// value and stops at the delimiter or end after its closing quote.
pub proof fn lemma_string_value_scan_quoted(s: Seq<char>, start: int, w: Seq<char>)
    requires
        0 <= start,
        start + quoted_string_wire(w).len() <= s.len(),
        s.subrange(start, start + quoted_string_wire(w).len() as int) == quoted_string_wire(w),
        start + quoted_string_wire(w).len() == s.len() || s[start + quoted_string_wire(
            w,
        ).len()] == ',' || s[start + quoted_string_wire(w).len()] == ' ',
    ensures
        string_value_scan(s, start, ParserState::Start, false) == Ok::<
            (int, FieldParserTail),
            InfluxLineError,
        >(
            (
                start + quoted_string_wire(w).len(),
                if start + quoted_string_wire(w).len() == s.len() {
                    FieldParserTail::End
                } else if s[start + quoted_string_wire(w).len()] == ' ' {
                    FieldParserTail::Timestamp
                } else {
                    FieldParserTail::Field
                },
            ),
        ),
{
    let sp = string_special_chars();
    let esc = escape_char();
    let enc = escape_encode(w, sp, esc);
    let wq = quoted_string_wire(w);
    let ll = enc.len() as int;
    assert(wq =~= seq!['"'] + (enc + seq!['"']));
    assert(wq.len() == ll + 2);
    lemma_subrange_index(s, start, wq);
    assert(wq[0] == '"');
    assert(s[start] == '"');
    lemma_subrange_concat(s, start, seq!['"'], enc + seq!['"']);
    lemma_subrange_concat(s, start + 1, enc, seq!['"']);
    assert(s.subrange(start + 1, start + 1 + ll) == enc);
    lemma_subrange_index(s, start + 1 + ll, seq!['"']);
    assert(s[start + 1 + ll] == '"');
    assert(string_value_scan(s, start, ParserState::Start, false) == string_value_scan(
        s,
        start + 1,
        ParserState::StringLeftQuote,
        false,
    ));
    if w.len() == 0 {
        assert(ll == 0);
        assert(string_value_scan(s, start + 1, ParserState::StringLeftQuote, false)
            == string_value_scan(s, start + 2, ParserState::StringRightQuote, false));
    } else {
        let c = w[0];
        let rest = w.drop_first();
        let enc_rest = escape_encode(rest, sp, esc);
        assert(enc == escaped_char(c, sp, esc) + enc_rest);
        lemma_subrange_index(s, start + 1, enc);
        if is_special(c, sp) {
            assert(escaped_char(c, sp, esc) =~= seq![esc, c]);
            assert(enc.len() == 2 + enc_rest.len());
            assert(enc[0] == esc);
            assert(enc[1] == c);
            assert(s[start + 1] == '\\');
            assert(s[start + 2] == c);
            assert(c == '"' || c == '\\');
            assert(s.subrange(start + 1, start + 1 + 2 + enc_rest.len()) == seq![esc, c]
                + enc_rest);
            lemma_subrange_concat(s, start + 1, seq![esc, c], enc_rest);
            lemma_string_scan_content(s, start + 3, rest);
            assert(string_value_scan(s, start + 1, ParserState::StringLeftQuote, false)
                == string_value_scan(s, start + 2, ParserState::StringContent, true));
            assert(string_value_scan(s, start + 2, ParserState::StringContent, true)
                == string_value_scan(s, start + 3, ParserState::StringContent, false));
            assert(string_value_scan(s, start + 3, ParserState::StringContent, false)
                == string_value_scan(s, start + 1 + ll, ParserState::StringContent, false));
        } else {
            assert(c != '"' && c != '\\');
            assert(escaped_char(c, sp, esc) =~= seq![c]);
            assert(enc.len() == 1 + enc_rest.len());
            assert(enc[0] == c);
            assert(s[start + 1] == c);
            assert(s.subrange(start + 1, start + 1 + 1 + enc_rest.len()) == seq![c] + enc_rest);
            lemma_subrange_concat(s, start + 1, seq![c], enc_rest);
            lemma_string_scan_content(s, start + 2, rest);
            assert(string_value_scan(s, start + 1, ParserState::StringLeftQuote, false)
                == string_value_scan(s, start + 2, ParserState::StringContent, false));
            assert(string_value_scan(s, start + 2, ParserState::StringContent, false)
                == string_value_scan(s, start + 1 + ll, ParserState::StringContent, false));
        }
        assert(string_value_scan(s, start + 1 + ll, ParserState::StringContent, false)
            == string_value_scan(s, start + 2 + ll, ParserState::StringRightQuote, false));
    }
}

/// A non-string field value is spelled with plain characters only and does
/// not begin with a double quote.
pub proof fn lemma_value_wire_plain(v: ValueView)
    requires
        value_view_wf(v),
        !(v is String),
    ensures
        value_wire(v).len() > 0,
        value_wire(v)[0] != '"',
        forall|j: int|
            0 <= j < value_wire(v).len() ==> plain_value_char(#[trigger] value_wire(v)[j]),
{
    let t = value_wire(v);
    match v {
        ValueView::Float(c) => {
            lemma_float_literal_last(c);
            lemma_float_literal_chars(c);
            assert forall|j: int| 0 <= j < t.len() implies plain_value_char(#[trigger] t[j]) by {
                assert(plain_float_char(t[j]));
                assert(to_lower(',') == ',');
                assert(to_lower(' ') == ' ');
                assert(to_lower('\\') == '\\');
                assert(to_lower('\n') == '\n');
            }
            assert(plain_float_char(t[0]));
            assert(to_lower('"') == '"');
        },
        ValueView::Integer(n) => {
            let d = int_dec_rep(n as int);
            if n >= 0 {
                lemma_dec_rep_digits(n as int);
            } else {
                lemma_dec_rep_digits(-(n as int));
                assert(d == seq!['-'] + dec_rep(-(n as int)));
            }
            assert(t == d.push('i'));
            assert forall|j: int| 0 <= j < t.len() implies plain_value_char(#[trigger] t[j]) by {
                if j == t.len() - 1 {
                    assert(t[j] == 'i');
                } else if n >= 0 {
                    assert(t[j] == dec_rep(n as int)[j]);
                    assert(is_dec_digit(t[j]));
                } else if j == 0 {
                    assert(t[j] == '-');
                } else {
                    assert(t[j] == dec_rep(-(n as int))[j - 1]);
                    assert(is_dec_digit(t[j]));
                }
            }
            if n >= 0 {
                assert(is_dec_digit(t[0]));
            } else {
                assert(t[0] == '-');
            }
        },
        ValueView::UInteger(n) => {
            lemma_dec_rep_digits(n as int);
            let d = dec_rep(n as int);
            assert(t == d.push('u'));
            assert forall|j: int| 0 <= j < t.len() implies plain_value_char(#[trigger] t[j]) by {
                if j == t.len() - 1 {
                    assert(t[j] == 'u');
                } else {
                    assert(t[j] == d[j]);
                    assert(is_dec_digit(t[j]));
                }
            }
            assert(is_dec_digit(t[0]));
        },
        ValueView::Boolean(b) => {
            if b {
                assert(t =~= seq!['t', 'r', 'u', 'e']);
            } else {
                assert(t =~= seq!['f', 'a', 'l', 's', 'e']);
            }
        },
        ValueView::String(_) => {},
    }
}


/// The wire text of one tag pair without its leading comma.
pub open spec fn tag_pair_wire(p: (Seq<char>, Seq<char>)) -> Seq<char> {
    key_name_wire(p.0) + seq!['='] + key_name_wire(p.1)
}

/// The tag pairs joined by commas, without the leading comma.
pub open spec fn tags_join(tags: Seq<(Seq<char>, Seq<char>)>) -> Seq<char>
    decreases tags.len(),
{
    if tags.len() == 0 {
        Seq::empty()
    } else if tags.len() == 1 {
        tag_pair_wire(tags[0])
    } else {
        tag_pair_wire(tags[0]) + seq![','] + tags_join(tags.drop_first())
    }
}

/// Appending a pair appends its wire text after a comma.
pub proof fn lemma_tags_join_push(t: Seq<(Seq<char>, Seq<char>)>, p: (Seq<char>, Seq<char>))
    requires
        t.len() > 0,
    ensures
        tags_join(t.push(p)) == tags_join(t) + seq![','] + tag_pair_wire(p),
    decreases t.len(),
{
    if t.len() == 1 {
        assert(t.push(p).drop_first() =~= seq![p]);
        assert(tags_join(seq![p]) == tag_pair_wire(p));
        assert(tags_join(t.push(p)) =~= tags_join(t) + seq![','] + tag_pair_wire(p));
    } else {
        assert(t.push(p)[0] == t[0]);
        assert(t.push(p).drop_first() =~= t.drop_first().push(p));
        lemma_tags_join_push(t.drop_first(), p);
        assert(tags_join(t.push(p)) =~= tags_join(t) + seq![','] + tag_pair_wire(p));
    }
}

/// The tag section of the wire text is a comma followed by the joined
/// pairs.
pub proof fn lemma_tags_wire_join(t: Seq<(Seq<char>, Seq<char>)>)
    requires
        t.len() > 0,
    ensures
        crate::line::tags_wire(t) == seq![','] + tags_join(t),
    decreases t.len(),
{
    if t.len() == 1 {
        assert(t.drop_last() =~= Seq::<(Seq<char>, Seq<char>)>::empty());
        assert(crate::line::tags_wire(t) =~= seq![','] + tags_join(t));
    } else {
        lemma_tags_wire_join(t.drop_last());
        assert(t.drop_last().push(t.last()) =~= t);
        lemma_tags_join_push(t.drop_last(), t.last());
        assert(crate::line::tags_wire(t) == crate::line::tags_wire(t.drop_last()) + seq![',']
            + key_name_wire(t.last().0) + seq!['='] + key_name_wire(t.last().1));
        assert(tags_join(t) == tags_join(t.drop_last()) + seq![','] + tag_pair_wire(t.last()));
        assert(tag_pair_wire(t.last()) == key_name_wire(t.last().0) + seq!['='] + key_name_wire(
            t.last().1,
        ));
        assert(crate::line::tags_wire(t) =~= seq![','] + tags_join(t));
    }
}

/// The field section's wire text decomposes at its first pair.
pub proof fn lemma_fields_wire_left(f: Seq<(Seq<char>, crate::types::value::ValueView)>)
    requires
        f.len() >= 2,
    ensures
        crate::line::fields_wire(f) == crate::line::field_pair_wire(f[0]) + seq![',']
            + crate::line::fields_wire(f.drop_first()),
    decreases f.len(),
{
    let dl = f.drop_last();
    if f.len() == 2 {
        assert(dl =~= seq![f[0]]);
        assert(f.drop_first() =~= seq![f[1]]);
        assert(crate::line::fields_wire(dl) == crate::line::field_pair_wire(f[0]));
        assert(crate::line::fields_wire(f) == crate::line::fields_wire(dl) + seq![',']
            + crate::line::field_pair_wire(f.last()));
        assert(crate::line::fields_wire(f.drop_first()) == crate::line::field_pair_wire(f[1]));
        assert(f.last() == f[1]);
        assert(crate::line::fields_wire(f) =~= crate::line::field_pair_wire(f[0]) + seq![',']
            + crate::line::fields_wire(f.drop_first()));
    } else {
        lemma_fields_wire_left(dl);
        assert(dl[0] == f[0]);
        assert(f.drop_first().drop_last() =~= dl.drop_first());
        assert(f.drop_first().len() >= 2);
        assert(f.drop_first().last() == f.last());
        assert(crate::line::fields_wire(f.drop_first()) == crate::line::fields_wire(
            dl.drop_first(),
        ) + seq![','] + crate::line::field_pair_wire(f.last()));
        assert(crate::line::fields_wire(f) =~= crate::line::field_pair_wire(f[0]) + seq![',']
            + crate::line::fields_wire(f.drop_first()));
    }
}

/// One definitional step of `tags_scan`, spelled out.
pub proof fn lemma_tags_scan_step(
    s: Seq<char>,
    i: int,
    pair: (Seq<char>, Seq<char>),
    v_end: int,
    next: ScanNext,
)
    requires
        0 <= i <= s.len(),
        tag_pair_scan(s, i) == Ok::<((Seq<char>, Seq<char>), (int, ScanNext)), InfluxLineError>(
            (pair, (v_end, next)),
        ),
        next == ScanNext::Tags ==> 0 <= v_end + 1 <= s.len(),
    ensures
        tags_scan(s, i) == (match next {
            ScanNext::Fields => Ok::<(Seq<(Seq<char>, Seq<char>)>, int), InfluxLineError>(
                (seq![pair], v_end + 1),
            ),
            ScanNext::Tags => match tags_scan(s, v_end + 1) {
                Err(e) => Err(e),
                Ok((rest, f)) => Ok((seq![pair] + rest, f)),
            },
        }),
{
}

/// Validity and round-trippability of one tag pair.
pub open spec fn tag_pair_ok(p: (Seq<char>, Seq<char>)) -> bool {
    &&& crate::types::key::valid_name(p.0)
    &&& crate::types::key::valid_name(p.1)
    &&& encode_round_trippable(p.0, key_special_chars(), escape_char())
    &&& encode_round_trippable(p.1, key_special_chars(), escape_char())
}

/// The tag scanner applied to the joined wire text of the tag pairs yields
/// exactly their still-escaped slices, and stops after the closing space.
pub proof fn lemma_tags_scan_section(s: Seq<char>, i: int, tags: Seq<(Seq<char>, Seq<char>)>)
    requires
        0 <= i,
        tags.len() >= 1,
        forall|j: int| 0 <= j < tags.len() ==> tag_pair_ok(#[trigger] tags[j]),
        i + tags_join(tags).len() < s.len(),
        s.subrange(i, i + tags_join(tags).len() as int) == tags_join(tags),
        s[i + tags_join(tags).len()] == ' ',
    ensures
        tags_scan(s, i) == Ok::<(Seq<(Seq<char>, Seq<char>)>, int), InfluxLineError>(
            (
                tags.map(
                    |j: int, p: (Seq<char>, Seq<char>)| (key_name_wire(p.0), key_name_wire(p.1)),
                ),
                i + tags_join(tags).len() + 1,
            ),
        ),
    decreases tags.len(),
{
    let mapper = |j: int, p: (Seq<char>, Seq<char>)| (key_name_wire(p.0), key_name_wire(p.1));
    let p0 = tags[0];
    let kw = key_name_wire(p0.0);
    let vw = key_name_wire(p0.1);
    let lk = kw.len() as int;
    let lv = vw.len() as int;
    let tj = tags_join(tags);
    let jj = tj.len() as int;
    assert(tag_pair_ok(p0));
    if tags.len() == 1 {
        assert(tj == tag_pair_wire(p0));
        assert(tj =~= kw + (seq!['='] + vw));
        assert(s.subrange(i, i + lk + (1 + lv)) == kw + (seq!['='] + vw));
        lemma_subrange_concat(s, i, kw, seq!['='] + vw);
        lemma_subrange_concat(s, i + lk, seq!['='], vw);
        lemma_char_at(s, i + lk, '=');
        assert(s[i + lk] == '=');
        lemma_key_scan_encoded(s, i, p0.0);
        assert(key_scan(s, i, false) == Ok::<int, InfluxLineError>(i + lk));
        lemma_tag_value_scan_encoded(s, i + lk + 1, i + lk + 1, p0.1);
        assert(s[i + lk + 1 + lv] == ' ');
        assert(tag_value_scan(s, i + lk + 1, i + lk + 1, false) == Ok::<
            (int, ScanNext),
            InfluxLineError,
        >((i + jj, ScanNext::Fields)));
        assert(tag_pair_scan(s, i) == Ok::<
            ((Seq<char>, Seq<char>), (int, ScanNext)),
            InfluxLineError,
        >(((kw, vw), (i + jj, ScanNext::Fields))));
        lemma_tags_scan_step(s, i, (kw, vw), i + jj, ScanNext::Fields);
        assert(tags.map(mapper) =~= seq![(kw, vw)]);
    } else {
        let rest = tags.drop_first();
        assert(tj == tag_pair_wire(p0) + seq![','] + tags_join(rest));
        assert(tj =~= kw + (seq!['='] + (vw + (seq![','] + tags_join(rest)))));
        assert(s.subrange(i, i + jj) == kw + (seq!['='] + (vw + (seq![','] + tags_join(
            rest,
        )))));
        lemma_subrange_concat(s, i, kw, seq!['='] + (vw + (seq![','] + tags_join(rest))));
        lemma_subrange_concat(s, i + lk, seq!['='], vw + (seq![','] + tags_join(rest)));
        lemma_char_at(s, i + lk, '=');
        assert(s[i + lk] == '=');
        lemma_subrange_concat(s, i + lk + 1, vw, seq![','] + tags_join(rest));
        lemma_subrange_concat(s, i + lk + 1 + lv, seq![','], tags_join(rest));
        lemma_char_at(s, i + lk + 1 + lv, ',');
        assert(s[i + lk + 1 + lv] == ',');
        lemma_key_scan_encoded(s, i, p0.0);
        lemma_tag_value_scan_encoded(s, i + lk + 1, i + lk + 1, p0.1);
        assert(tag_value_scan(s, i + lk + 1, i + lk + 1, false) == Ok::<
            (int, ScanNext),
            InfluxLineError,
        >((i + lk + 1 + lv, ScanNext::Tags)));
        assert(tag_pair_scan(s, i) == Ok::<
            ((Seq<char>, Seq<char>), (int, ScanNext)),
            InfluxLineError,
        >(((kw, vw), (i + lk + 1 + lv, ScanNext::Tags))));
        lemma_tags_scan_step(s, i, (kw, vw), i + lk + 1 + lv, ScanNext::Tags);
        lemma_tags_scan_section(s, i + lk + 1 + lv + 1, rest);
        assert(tags.map(mapper) =~= seq![(kw, vw)] + rest.map(mapper));
        assert(i + lk + 1 + lv + 1 + tags_join(rest).len() == i + jj);
    }
}


/// Validity and round-trippability of one field pair.
pub open spec fn field_pair_ok(p: (Seq<char>, ValueView)) -> bool {
    &&& valid_name(p.0)
    &&& encode_round_trippable(p.0, key_special_chars(), escape_char())
    &&& value_view_wf(p.1)
}

/// The still-escaped slices of the field pairs.
pub open spec fn fields_raw(fields: Seq<(Seq<char>, ValueView)>) -> Seq<(Seq<char>, Seq<char>)> {
    fields.map(|j: int, p: (Seq<char>, ValueView)| (key_name_wire(p.0), value_wire(p.1)))
}

/// The field scanner applied to the wire text of the field pairs yields
/// exactly their still-escaped slices, and a timestamp section when a space
/// follows.
pub proof fn lemma_fields_scan_section(s: Seq<char>, i: int, fields: Seq<(Seq<char>, ValueView)>)
    requires
        0 <= i,
        fields.len() >= 1,
        forall|j: int| 0 <= j < fields.len() ==> field_pair_ok(#[trigger] fields[j]),
        i + fields_wire(fields).len() <= s.len(),
        s.subrange(i, i + fields_wire(fields).len() as int) == fields_wire(fields),
        i + fields_wire(fields).len() == s.len() || s[i + fields_wire(fields).len()] == ' ',
    ensures
        fields_scan(s, i) == Ok::<(Seq<(Seq<char>, Seq<char>)>, Option<int>), InfluxLineError>(
            (
                fields_raw(fields),
                if i + fields_wire(fields).len() == s.len() {
                    None
                } else {
                    Some(i + fields_wire(fields).len() + 1)
                },
            ),
        ),
    decreases fields.len(),
{
    let p0 = fields[0];
    let kw = key_name_wire(p0.0);
    let vw = value_wire(p0.1);
    let lk = kw.len() as int;
    let lv = vw.len() as int;
    let fw = fields_wire(fields);
    let jj = fw.len() as int;
    assert(field_pair_ok(p0));
    let single = fields.len() == 1;
    if single {
        assert(fw == field_pair_wire(p0));
    } else {
        lemma_fields_wire_left(fields);
        assert(fw == field_pair_wire(p0) + seq![','] + fields_wire(fields.drop_first()));
    }
    // Split off the key, the equals sign and the value of the first pair.
    let tail: Seq<char> = if single {
        Seq::empty()
    } else {
        seq![','] + fields_wire(fields.drop_first())
    };
    assert(fw =~= kw + (seq!['='] + (vw + tail)));
    assert(s.subrange(i, i + jj) == kw + (seq!['='] + (vw + tail)));
    lemma_subrange_concat(s, i, kw, seq!['='] + (vw + tail));
    lemma_subrange_concat(s, i + lk, seq!['='], vw + tail);
    lemma_char_at(s, i + lk, '=');
    lemma_subrange_concat(s, i + lk + 1, vw, tail);
    lemma_key_scan_encoded(s, i, p0.0);
    assert(key_scan(s, i, false) == Ok::<int, InfluxLineError>(i + lk));
    let vstart = i + lk + 1;
    let vend = vstart + lv;
    assert(s.subrange(vstart, vend) == vw);
    // What ends the first value: a comma, a space, or the end of the input.
    let ends_line = single && i + jj == s.len();
    if single {
        assert(vend == i + jj);
        if !ends_line {
            assert(s[vend] == ' ');
        }
    } else {
        lemma_subrange_concat(s, vend, seq![','], fields_wire(fields.drop_first()));
        lemma_char_at(s, vend, ',');
        assert(s[vend] == ',');
    }
    let kind = if ends_line {
        FieldParserTail::End
    } else if single {
        FieldParserTail::Timestamp
    } else {
        FieldParserTail::Field
    };
    // The value scanner stops exactly at `vend`.
    lemma_value_wire_plain_or_quoted(s, vstart, p0.1);
    assert(field_value_scan(s, vstart) == Ok::<(int, FieldParserTail), InfluxLineError>((vend, kind)));
    assert(field_pair_scan(s, i) == Ok::<
        ((Seq<char>, Seq<char>), (int, FieldParserTail)),
        InfluxLineError,
    >(((kw, vw), (vend, kind))));
    lemma_fields_scan_step(s, i, (kw, vw), vend, kind);
    if single {
        assert(fields_raw(fields) =~= seq![(kw, vw)]);
    } else {
        lemma_fields_scan_section(s, vend + 1, fields.drop_first());
        assert(fields_raw(fields) =~= seq![(kw, vw)] + fields_raw(fields.drop_first()));
        assert(vend + 1 + fields_wire(fields.drop_first()).len() == i + jj);
    }
}

/// The value scanner applied at the start of one value's wire text stops at
/// the delimiter or end just after it.
pub proof fn lemma_value_wire_plain_or_quoted(s: Seq<char>, vstart: int, v: ValueView)
    requires
        0 <= vstart,
        value_view_wf(v),
        vstart + value_wire(v).len() <= s.len(),
        s.subrange(vstart, vstart + value_wire(v).len() as int) == value_wire(v),
        vstart + value_wire(v).len() == s.len() || s[vstart + value_wire(v).len()] == ','
            || s[vstart + value_wire(v).len()] == ' ',
    ensures
        field_value_scan(s, vstart) == Ok::<(int, FieldParserTail), InfluxLineError>(
            (
                vstart + value_wire(v).len(),
                if vstart + value_wire(v).len() == s.len() {
                    FieldParserTail::End
                } else if s[vstart + value_wire(v).len()] == ' ' {
                    FieldParserTail::Timestamp
                } else {
                    FieldParserTail::Field
                },
            ),
        ),
{
    let vw = value_wire(v);
    let lv = vw.len() as int;
    let vend = vstart + lv;
    lemma_subrange_index(s, vstart, vw);
    match v {
        ValueView::String(w) => {
            assert(vw == quoted_string_wire(w));
            assert(vw[0] == '"');
            assert(s[vstart] == '"');
            assert(vstart < s.len());
            lemma_string_value_scan_quoted(s, vstart, w);
        },
        _ => {
            lemma_value_wire_plain(v);
            assert(s[vstart] == vw[0]);
            assert(vw[0] != '"');
            assert(vstart < s.len());
            assert forall|j: int| vstart <= j < vend implies plain_value_char(
                #[trigger] s[j],
            ) by {
                assert(s[j] == vw[j - vstart]);
                assert(plain_value_char(vw[j - vstart]));
            }
            lemma_simple_scan_plain(s, vstart, vstart, vend);
        },
    }
}

/// Decoding the still-escaped slices of valid, round-trippable tag pairs
/// gives the pairs back.
pub proof fn lemma_decode_tags_encoded(tags: Seq<(Seq<char>, Seq<char>)>)
    requires
        forall|j: int| 0 <= j < tags.len() ==> tag_pair_ok(#[trigger] tags[j]),
    ensures
        decode_tags(
            tags.map(|j: int, p: (Seq<char>, Seq<char>)| (key_name_wire(p.0), key_name_wire(p.1))),
        ) == Ok::<Seq<(Seq<char>, Seq<char>)>, InfluxLineError>(tags),
    decreases tags.len(),
{
    let mapper = |j: int, p: (Seq<char>, Seq<char>)| (key_name_wire(p.0), key_name_wire(p.1));
    let m = tags.map(mapper);
    if tags.len() == 0 {
        assert(m =~= Seq::<(Seq<char>, Seq<char>)>::empty());
        assert(tags =~= Seq::<(Seq<char>, Seq<char>)>::empty());
    } else {
        let last = tags.last();
        assert(tag_pair_ok(last));
        assert(m.drop_last() =~= tags.drop_last().map(mapper));
        assert(forall|j: int|
            0 <= j < tags.drop_last().len() ==> tags.drop_last()[j] == #[trigger] tags[j]);
        lemma_decode_tags_encoded(tags.drop_last());
        lemma_key_name_round_trip(last.0);
        lemma_key_name_round_trip(last.1);
        assert(m.last() == (key_name_wire(last.0), key_name_wire(last.1)));
        assert(tags.drop_last().push(last) =~= tags);
    }
}

/// Decoding the still-escaped slices of valid field pairs gives the pairs
/// back.
pub proof fn lemma_decode_fields_encoded(fields: Seq<(Seq<char>, ValueView)>)
    requires
        forall|j: int| 0 <= j < fields.len() ==> field_pair_ok(#[trigger] fields[j]),
    ensures
        decode_fields(fields_raw(fields)) == Ok::<Seq<(Seq<char>, ValueView)>, InfluxLineError>(
            fields,
        ),
    decreases fields.len(),
{
    let m = fields_raw(fields);
    if fields.len() == 0 {
        assert(m =~= Seq::<(Seq<char>, Seq<char>)>::empty());
        assert(fields =~= Seq::<(Seq<char>, ValueView)>::empty());
    } else {
        let last = fields.last();
        assert(field_pair_ok(last));
        assert(m.drop_last() =~= fields_raw(fields.drop_last()));
        assert(forall|j: int|
            0 <= j < fields.drop_last().len() ==> fields.drop_last()[j] == #[trigger] fields[j]);
        lemma_decode_fields_encoded(fields.drop_last());
        lemma_key_name_round_trip(last.0);
        lemma_value_round_trip(last.1);
        assert(m.last() == (key_name_wire(last.0), value_wire(last.1)));
        assert(fields.drop_last().push(last) =~= fields);
    }
}

/// Storing pairs with unique keys by upsert changes nothing.
pub proof fn lemma_upsert_all_unique_id<T>(p: Seq<(Seq<char>, T)>)
    requires
        assoc_unique(p),
    ensures
        upsert_all(p) == p,
    decreases p.len(),
{
    if p.len() > 0 {
        let dl = p.drop_last();
        assert(forall|j: int| 0 <= j < dl.len() ==> dl[j] == #[trigger] p[j]);
        assert(assoc_unique(dl));
        lemma_upsert_all_unique_id(dl);
        lemma_assoc_find(dl, p.last().0);
        if crate::line::hash_like::assoc_find(dl, p.last().0) >= 0 {
            let f = crate::line::hash_like::assoc_find(dl, p.last().0);
            assert(p[f] == dl[f]);
            assert(p[f].0 == p[p.len() - 1].0);
            assert(false);
        }
        assert(dl.push(p.last()) =~= p);
    }
}


/// The names of a record whose wire spelling parses back to the same text:
/// every literal escape character in a name is followed by an ordinary
/// character. String field values need no such condition.
pub open spec fn line_view_round_trippable(v: LineView) -> bool {
    &&& measurement_name_round_trippable(v.measurement)
    &&& (forall|i: int|
        0 <= i < v.tags.len() ==> key_name_round_trippable((#[trigger] v.tags[i]).0)
            && key_name_round_trippable(v.tags[i].1))
    &&& (forall|i: int|
        0 <= i < v.fields.len() ==> key_name_round_trippable((#[trigger] v.fields[i]).0))
}

/// Round trip: parsing the wire text of a well-formed, round-trippable
/// record yields exactly that record.
#[verifier::rlimit(100)]
pub proof fn lemma_line_round_trip(v: LineView)
    requires
        line_view_wf(v),
        line_view_round_trippable(v),
    ensures
        line_parse(line_wire(v)) == Ok::<LineView, InfluxLineError>(v),
{
    let s = line_wire(v);
    let mw = measurement_name_wire(v.measurement);
    let m_end = mw.len() as int;
    let fw = fields_wire(v.fields);
    let lf = fw.len() as int;
    let tsw: Seq<char> = match v.timestamp {
        None => Seq::empty(),
        Some(n) => seq![' '] + timestamp_wire(n),
    };
    assert forall|j: int| 0 <= j < v.tags.len() implies tag_pair_ok(#[trigger] v.tags[j]) by {
        assert(valid_name(v.tags[j].0) && valid_name(v.tags[j].1));
    }
    assert forall|j: int| 0 <= j < v.fields.len() implies field_pair_ok(
        #[trigger] v.fields[j],
    ) by {
        assert(valid_name(v.fields[j].0) && value_view_wf(v.fields[j].1));
    }
    assert(s.subrange(0, s.len() as int) =~= s);
    let f_start: int = if v.tags.len() == 0 {
        assert(crate::line::tags_wire(v.tags) =~= Seq::<char>::empty());
        assert(s =~= mw + (seq![' '] + (fw + tsw)));
        assert(s.subrange(0, s.len() as int) == mw + (seq![' '] + (fw + tsw)));
        lemma_subrange_concat(s, 0, mw, seq![' '] + (fw + tsw));
        lemma_subrange_concat(s, m_end, seq![' '], fw + tsw);
        lemma_char_at(s, m_end, ' ');
        lemma_subrange_concat(s, m_end + 1, fw, tsw);
        lemma_measurement_scan_encoded(s, 0, v.measurement);
        assert(measurement_scan(s, 0, false) == Ok::<(int, ScanNext), InfluxLineError>(
            (m_end, ScanNext::Fields),
        ));
        m_end + 1
    } else {
        lemma_tags_wire_join(v.tags);
        let tj = tags_join(v.tags);
        let lt = tj.len() as int;
        assert(s =~= mw + (seq![','] + (tj + (seq![' '] + (fw + tsw)))));
        assert(s.subrange(0, s.len() as int) == mw + (seq![','] + (tj + (seq![' '] + (fw
            + tsw)))));
        lemma_subrange_concat(s, 0, mw, seq![','] + (tj + (seq![' '] + (fw + tsw))));
        lemma_subrange_concat(s, m_end, seq![','], tj + (seq![' '] + (fw + tsw)));
        lemma_char_at(s, m_end, ',');
        lemma_subrange_concat(s, m_end + 1, tj, seq![' '] + (fw + tsw));
        lemma_subrange_concat(s, m_end + 1 + lt, seq![' '], fw + tsw);
        lemma_char_at(s, m_end + 1 + lt, ' ');
        lemma_subrange_concat(s, m_end + 2 + lt, fw, tsw);
        lemma_measurement_scan_encoded(s, 0, v.measurement);
        assert(measurement_scan(s, 0, false) == Ok::<(int, ScanNext), InfluxLineError>(
            (m_end, ScanNext::Tags),
        ));
        lemma_tags_scan_section(s, m_end + 1, v.tags);
        m_end + 2 + lt
    };
    assert(s.subrange(f_start, f_start + lf) == fw);
    let f_end = f_start + lf;
    match v.timestamp {
        None => {
            assert(tsw.len() == 0);
            assert(f_end == s.len());
        },
        Some(n) => {
            assert(tsw =~= seq![' '] + timestamp_wire(n));
            assert(s.subrange(f_end, s.len() as int) == seq![' '] + timestamp_wire(n));
            lemma_subrange_concat(s, f_end, seq![' '], timestamp_wire(n));
            lemma_char_at(s, f_end, ' ');
        },
    }
    lemma_fields_scan_section(s, f_start, v.fields);
    let raw = line_tokenize(s).unwrap();
    assert(line_tokenize(s) is Ok);
    assert(raw.measurement == mw) by {
        assert(s.subrange(0, m_end) == mw);
    }
    assert(raw.tags == v.tags.map(
        |j: int, p: (Seq<char>, Seq<char>)| (key_name_wire(p.0), key_name_wire(p.1)),
    )) by {
        if v.tags.len() == 0 {
            assert(v.tags.map(
                |j: int, p: (Seq<char>, Seq<char>)| (key_name_wire(p.0), key_name_wire(p.1)),
            ) =~= Seq::<(Seq<char>, Seq<char>)>::empty());
        }
    }
    assert(raw.fields == fields_raw(v.fields));
    assert(raw.timestamp == (match v.timestamp {
        None => None::<Seq<char>>,
        Some(n) => Some(timestamp_wire(n)),
    }));
    lemma_measurement_name_round_trip(v.measurement);
    lemma_decode_tags_encoded(v.tags);
    lemma_decode_fields_encoded(v.fields);
    match v.timestamp {
        None => {},
        Some(n) => {
            lemma_timestamp_round_trip(n);
        },
    }
    lemma_upsert_all_unique_id(v.tags);
    lemma_upsert_all_unique_id(v.fields);
    assert(line_decode(raw) == Ok::<LineView, InfluxLineError>(
        LineView {
            measurement: v.measurement,
            tags: upsert_all(v.tags),
            fields: upsert_all(v.fields),
            timestamp: v.timestamp,
        },
    ));
    assert(LineView {
        measurement: v.measurement,
        tags: upsert_all(v.tags),
        fields: upsert_all(v.fields),
        timestamp: v.timestamp,
    } == v);
}

/// The wire text of a well-formed record never ends with a newline, so the
/// newline stripping of parsing leaves it unchanged.
pub proof fn lemma_line_wire_unstripped(v: LineView)
    requires
        line_view_wf(v),
    ensures
        crate::line::strip_trailing_newline(line_wire(v)) == line_wire(v),
{
    let s = line_wire(v);
    let fw = fields_wire(v.fields);
    match v.timestamp {
        Some(n) => {
            let tw = timestamp_wire(n);
            assert(tw == int_dec_rep(n as int));
            if n >= 0 {
                lemma_dec_rep_digits(n as int);
            } else {
                lemma_dec_rep_digits(-(n as int));
                assert(tw == seq!['-'] + dec_rep(-(n as int)));
                assert(tw.last() == dec_rep(-(n as int)).last());
            }
            assert(is_dec_digit(tw.last()));
            assert(s.last() == tw.last());
            assert(s.last() != '\n');
        },
        None => {
            assert(v.fields.len() >= 1);
            let last_pair = v.fields.last();
            assert(value_view_wf(last_pair.1));
            let vw = value_wire(last_pair.1);
            match last_pair.1 {
                ValueView::String(w) => {
                    assert(vw == quoted_string_wire(w));
                    assert(vw.last() == '"');
                },
                _ => {
                    lemma_value_wire_plain(last_pair.1);
                    assert(plain_value_char(vw.last()));
                },
            }
            assert(vw.last() != '\n');
            lemma_fields_wire_last(v.fields);
            assert(s.last() == vw.last());
            assert(s.last() != '\n');
        },
    }
}

/// The field section ends with the last character of its last value.
pub proof fn lemma_fields_wire_last(fields: Seq<(Seq<char>, ValueView)>)
    requires
        fields.len() >= 1,
        value_wire(fields.last().1).len() >= 1,
    ensures
        fields_wire(fields).len() >= 1,
        fields_wire(fields).last() == value_wire(fields.last().1).last(),
{
    let fw = fields_wire(fields);
    let p = fields.last();
    let pw = field_pair_wire(p);
    assert(pw == key_name_wire(p.0) + seq!['='] + value_wire(p.1));
    assert(pw.len() >= 1);
    assert(pw.last() == value_wire(p.1).last());
    if fields.len() == 1 {
        assert(fields[0] == p);
        assert(fw == pw);
    } else {
        assert(fw == fields_wire(fields.drop_last()) + seq![','] + pw);
        assert(fw.last() == pw.last());
    }
}

/// Round trip at the text level: the wire text of a well-formed,
/// round-trippable record, handed back to the parser with its newline
/// tolerance, yields the record.
pub proof fn lemma_parse_format_round_trip(v: LineView)
    requires
        line_view_wf(v),
        line_view_round_trippable(v),
    ensures
        line_parse(crate::line::strip_trailing_newline(line_wire(v))) == Ok::<
            LineView,
            InfluxLineError,
        >(v),
{
    lemma_line_wire_unstripped(v);
    lemma_line_round_trip(v);
}

/// Idempotent formatting: parsing a formatted record and formatting the
/// result gives the same text again.
pub proof fn lemma_format_idempotent(v: LineView)
    requires
        line_view_wf(v),
        line_view_round_trippable(v),
    ensures
        line_parse(line_wire(v)) matches Ok(v2) && line_wire(v2) == line_wire(v),
{
    lemma_line_round_trip(v);
}

} // verus!
