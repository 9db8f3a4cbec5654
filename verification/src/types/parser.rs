//! The escape engine: a character-by-character state machine that decodes
//! backslash-escaped text for a configurable set of special characters, with
//! two policies for an escape character that does not precede a special one.

use vstd::prelude::*;

use crate::error::InfluxLineError;
use crate::types::chars::chars_to_string;
use crate::types::chars::contains_char;

verus! {

/// True when `c` is one of the special characters in `specials`.
pub open spec fn is_special(c: char, specials: Seq<char>) -> bool {
    specials.contains(c)
}

/// What one character contributes to the wire spelling: a special character
/// is prefixed by the escape character, any other character stands alone.
pub open spec fn escaped_char(c: char, specials: Seq<char>, escape: char) -> Seq<char> {
    if is_special(c, specials) {
        seq![escape, c]
    } else {
        seq![c]
    }
}

/// The wire spelling of `s`: every special character prefixed by the escape
/// character, nothing else altered.
pub open spec fn escape_encode(s: Seq<char>, specials: Seq<char>, escape: char) -> Seq<char>
    decreases s.len(),
{
    if s.len() == 0 {
        Seq::empty()
    } else {
        escaped_char(s[0], specials, escape) + escape_encode(s.drop_first(), specials, escape)
    }
}

/// One step of the decoding state machine. The state is the decoded output
/// so far (`acc`) and whether the previous character was an unconsumed
/// escape character (`escaped`). `tolerate` keeps a stray escape character
/// literally; otherwise a stray escape is an error.
pub open spec fn decode_step(
    acc: Seq<char>,
    escaped: bool,
    c: char,
    specials: Seq<char>,
    escape: char,
    tolerate: bool,
) -> Result<(Seq<char>, bool), InfluxLineError> {
    if escaped {
        if is_special(c, specials) || c == escape {
            Ok((acc.push(c), false))
        } else if tolerate {
            Ok((acc.push(escape).push(c), false))
        } else {
            Err(InfluxLineError::UnexpectedEscapeSymbol)
        }
    } else {
        if c == escape {
            Ok((acc, true))
        } else if is_special(c, specials) {
            Err(InfluxLineError::UnescapedSpecialCharacter)
        } else {
            Ok((acc.push(c), false))
        }
    }
}

/// Runs the decoding state machine over all of `s` from the given state.
pub open spec fn decode_run(
    s: Seq<char>,
    acc: Seq<char>,
    escaped: bool,
    specials: Seq<char>,
    escape: char,
    tolerate: bool,
) -> Result<(Seq<char>, bool), InfluxLineError>
    decreases s.len(),
{
    if s.len() == 0 {
        Ok((acc, escaped))
    } else {
        match decode_step(acc, escaped, s[0], specials, escape, tolerate) {
            Ok((acc2, escaped2)) => decode_run(
                s.drop_first(),
                acc2,
                escaped2,
                specials,
                escape,
                tolerate,
            ),
            Err(e) => Err(e),
        }
    }
}

/// The decoded value of a raw, still-escaped character sequence. A trailing
/// unconsumed escape character is an error under either policy.
pub open spec fn escape_decode(
    s: Seq<char>,
    specials: Seq<char>,
    escape: char,
    tolerate: bool,
) -> Result<Seq<char>, InfluxLineError> {
    match decode_run(s, Seq::empty(), false, specials, escape, tolerate) {
        Ok((acc, escaped)) => if escaped {
            Err(InfluxLineError::UnexpectedEscapeSymbol)
        } else {
            Ok(acc)
        },
        Err(e) => Err(e),
    }
}

/// Running the machine over a concatenation is running it over the first
/// part and continuing over the second from the state reached.
pub proof fn lemma_decode_run_concat(
    a: Seq<char>,
    b: Seq<char>,
    acc: Seq<char>,
    escaped: bool,
    specials: Seq<char>,
    escape: char,
    tolerate: bool,
)
    ensures
        decode_run(a + b, acc, escaped, specials, escape, tolerate) == (match decode_run(
            a,
            acc,
            escaped,
            specials,
            escape,
            tolerate,
        ) {
            Ok((acc2, escaped2)) => decode_run(b, acc2, escaped2, specials, escape, tolerate),
            Err(e) => Err(e),
        }),
    decreases a.len(),
{
    if a.len() == 0 {
        assert(a + b =~= b);
    } else {
        assert((a + b)[0] == a[0]);
        match decode_step(acc, escaped, a[0], specials, escape, tolerate) {
            Ok((acc2, escaped2)) => {
                assert((a + b).drop_first() =~= a.drop_first() + b);
                lemma_decode_run_concat(
                    a.drop_first(),
                    b,
                    acc2,
                    escaped2,
                    specials,
                    escape,
                    tolerate,
                );
            },
            Err(e) => {},
        }
    }
}

/// Encoding one more character appends its wire spelling.
pub proof fn lemma_encode_push(s: Seq<char>, c: char, specials: Seq<char>, escape: char)
    ensures
        escape_encode(s.push(c), specials, escape) == escape_encode(s, specials, escape)
            + escaped_char(c, specials, escape),
    decreases s.len(),
{
    let t = s.push(c);
    assert(t.len() == s.len() + 1);
    if s.len() == 0 {
        assert(t[0] == c);
        assert(t.drop_first() =~= Seq::<char>::empty());
        assert(escape_encode(t.drop_first(), specials, escape) == Seq::<char>::empty());
        assert(escape_encode(t, specials, escape) == escaped_char(c, specials, escape)
            + escape_encode(t.drop_first(), specials, escape));
        assert(escape_encode(t, specials, escape) =~= escape_encode(s, specials, escape)
            + escaped_char(c, specials, escape));
    } else {
        assert(t[0] == s[0]);
        assert(t.drop_first() =~= s.drop_first().push(c));
        lemma_encode_push(s.drop_first(), c, specials, escape);
        assert(escape_encode(t, specials, escape) == escaped_char(s[0], specials, escape)
            + escape_encode(t.drop_first(), specials, escape));
        assert(escape_encode(t.drop_first(), specials, escape) == escape_encode(
            s.drop_first(),
            specials,
            escape,
        ) + escaped_char(c, specials, escape));
        assert(escape_encode(s, specials, escape) == escaped_char(s[0], specials, escape)
            + escape_encode(s.drop_first(), specials, escape));
        assert(escape_encode(t, specials, escape) =~= escape_encode(s, specials, escape)
            + escaped_char(c, specials, escape));
    }
}

/// The condition under which a decoded value re-parses from its wire
/// spelling: when the escape character is itself special it is always
/// re-escaped, and otherwise every literal escape character must be followed
/// by an ordinary character, so that decoding keeps the pair literally.
pub open spec fn encode_round_trippable(w: Seq<char>, specials: Seq<char>, escape: char) -> bool {
    specials.contains(escape) || (forall|i: int|
        0 <= i < w.len() && #[trigger] w[i] == escape ==> i + 1 < w.len() && !is_special(
            w[i + 1],
            specials,
        ) && w[i + 1] != escape)
}

/// Round-trippability is kept when characters are dropped from the front.
pub proof fn lemma_round_trippable_drop_first(w: Seq<char>, specials: Seq<char>, escape: char)
    requires
        w.len() > 0,
        encode_round_trippable(w, specials, escape),
    ensures
        encode_round_trippable(w.drop_first(), specials, escape),
{
    if !specials.contains(escape) {
        assert forall|i: int|
            0 <= i < w.drop_first().len() && #[trigger] w.drop_first()[i] == escape implies i + 1
            < w.drop_first().len() && !is_special(w.drop_first()[i + 1], specials)
            && w.drop_first()[i + 1] != escape by {
            assert(w[i + 1] == escape);
        }
    }
}

/// Running the decoder over the wire spelling of `w` appends exactly `w`
/// to the accumulator and consumes every escape.
pub proof fn lemma_decode_run_of_encode(
    w: Seq<char>,
    acc: Seq<char>,
    specials: Seq<char>,
    escape: char,
    tolerate: bool,
)
    requires
        encode_round_trippable(w, specials, escape),
        tolerate || specials.contains(escape),
    ensures
        decode_run(
            escape_encode(w, specials, escape),
            acc,
            false,
            specials,
            escape,
            tolerate,
        ) == Ok::<(Seq<char>, bool), InfluxLineError>((acc + w, false)),
    decreases w.len(),
{
    let enc = escape_encode(w, specials, escape);
    if w.len() == 0 {
        assert(acc + w =~= acc);
    } else {
        let c = w[0];
        let rest = w.drop_first();
        let enc_rest = escape_encode(rest, specials, escape);
        lemma_round_trippable_drop_first(w, specials, escape);
        assert(enc == escaped_char(c, specials, escape) + enc_rest);
        if is_special(c, specials) {
            // A special character, escaped on the wire: two steps consume
            // the pair and append the character.
            assert(enc =~= seq![escape, c] + enc_rest);
            assert(enc[0] == escape);
            assert(enc.drop_first()[0] == c);
            assert(enc.drop_first().drop_first() =~= enc_rest);
            assert(decode_step(acc, false, escape, specials, escape, tolerate) == Ok::<
                (Seq<char>, bool),
                InfluxLineError,
            >((acc, true)));
            assert(decode_step(acc, true, c, specials, escape, tolerate) == Ok::<
                (Seq<char>, bool),
                InfluxLineError,
            >((acc.push(c), false)));
            assert(decode_run(enc, acc, false, specials, escape, tolerate) == decode_run(
                enc.drop_first(),
                acc,
                true,
                specials,
                escape,
                tolerate,
            ));
            assert(decode_run(enc.drop_first(), acc, true, specials, escape, tolerate)
                == decode_run(enc_rest, acc.push(c), false, specials, escape, tolerate));
            lemma_decode_run_of_encode(rest, acc.push(c), specials, escape, tolerate);
            assert(acc.push(c) + rest =~= acc + w);
        } else if c == escape {
            // A literal escape character: round-trippability gives the next
            // character, which decoding keeps together with it.
            assert(rest.len() >= 1);
            let d = w[1];
            assert(rest[0] == d);
            assert(!is_special(d, specials) && d != escape);
            assert(tolerate);
            let rest2 = rest.drop_first();
            lemma_round_trippable_drop_first(rest, specials, escape);
            let enc_rest2 = escape_encode(rest2, specials, escape);
            assert(enc_rest == escaped_char(d, specials, escape) + enc_rest2);
            assert(enc =~= seq![escape, d] + enc_rest2);
            assert(enc[0] == escape);
            assert(enc.drop_first()[0] == d);
            assert(enc.drop_first().drop_first() =~= enc_rest2);
            assert(decode_step(acc, false, escape, specials, escape, tolerate) == Ok::<
                (Seq<char>, bool),
                InfluxLineError,
            >((acc, true)));
            assert(decode_step(acc, true, d, specials, escape, tolerate) == Ok::<
                (Seq<char>, bool),
                InfluxLineError,
            >((acc.push(escape).push(d), false)));
            assert(decode_run(enc, acc, false, specials, escape, tolerate) == decode_run(
                enc.drop_first(),
                acc,
                true,
                specials,
                escape,
                tolerate,
            ));
            assert(decode_run(enc.drop_first(), acc, true, specials, escape, tolerate)
                == decode_run(
                enc_rest2,
                acc.push(escape).push(d),
                false,
                specials,
                escape,
                tolerate,
            ));
            lemma_decode_run_of_encode(
                rest2,
                acc.push(escape).push(d),
                specials,
                escape,
                tolerate,
            );
            assert(acc.push(escape).push(d) + rest2 =~= acc + w);
        } else {
            // An ordinary character stands alone on the wire.
            assert(enc =~= seq![c] + enc_rest);
            assert(enc[0] == c);
            assert(enc.drop_first() =~= enc_rest);
            assert(decode_step(acc, false, c, specials, escape, tolerate) == Ok::<
                (Seq<char>, bool),
                InfluxLineError,
            >((acc.push(c), false)));
            assert(decode_run(enc, acc, false, specials, escape, tolerate) == decode_run(
                enc_rest,
                acc.push(c),
                false,
                specials,
                escape,
                tolerate,
            ));
            lemma_decode_run_of_encode(rest, acc.push(c), specials, escape, tolerate);
            assert(acc.push(c) + rest =~= acc + w);
        }
    }
}

/// Extends a successful partial run by one successfully decoded character.
pub proof fn lemma_decode_run_step_ok(
    s: Seq<char>,
    i: int,
    buffer: Seq<char>,
    escaped: bool,
    acc2: Seq<char>,
    escaped2: bool,
    specials: Seq<char>,
    escape: char,
    tolerate: bool,
)
    requires
        0 <= i < s.len(),
        decode_run(s.take(i), Seq::<char>::empty(), false, specials, escape, tolerate) == Ok::<
            (Seq<char>, bool),
            InfluxLineError,
        >((buffer, escaped)),
        decode_step(buffer, escaped, s[i], specials, escape, tolerate) == Ok::<
            (Seq<char>, bool),
            InfluxLineError,
        >((acc2, escaped2)),
    ensures
        decode_run(s.take(i + 1), Seq::<char>::empty(), false, specials, escape, tolerate) == Ok::<
            (Seq<char>, bool),
            InfluxLineError,
        >((acc2, escaped2)),
{
    let x = s[i];
    lemma_decode_run_concat(
        s.take(i),
        seq![x],
        Seq::<char>::empty(),
        false,
        specials,
        escape,
        tolerate,
    );
    assert(seq![x][0] == x);
    assert(seq![x].drop_first() =~= Seq::<char>::empty());
    assert(decode_run(Seq::<char>::empty(), acc2, escaped2, specials, escape, tolerate) == Ok::<
        (Seq<char>, bool),
        InfluxLineError,
    >((acc2, escaped2)));
    assert(decode_run(seq![x], buffer, escaped, specials, escape, tolerate) == Ok::<
        (Seq<char>, bool),
        InfluxLineError,
    >((acc2, escaped2)));
    assert(s.take(i + 1) =~= s.take(i) + seq![x]);
}

/// A failing step pins down the decoding result of the whole sequence.
pub proof fn lemma_decode_error_at(
    s: Seq<char>,
    i: int,
    buffer: Seq<char>,
    escaped: bool,
    e: InfluxLineError,
    specials: Seq<char>,
    escape: char,
    tolerate: bool,
)
    requires
        0 <= i < s.len(),
        decode_run(s.take(i), Seq::<char>::empty(), false, specials, escape, tolerate) == Ok::<
            (Seq<char>, bool),
            InfluxLineError,
        >((buffer, escaped)),
        decode_step(buffer, escaped, s[i], specials, escape, tolerate) == Err::<
            (Seq<char>, bool),
            InfluxLineError,
        >(e),
    ensures
        escape_decode(s, specials, escape, tolerate) == Err::<Seq<char>, InfluxLineError>(e),
{
    assert(s =~= s.take(i) + s.skip(i));
    lemma_decode_run_concat(
        s.take(i),
        s.skip(i),
        Seq::<char>::empty(),
        false,
        specials,
        escape,
        tolerate,
    );
    assert(s.skip(i).len() > 0);
    assert(s.skip(i)[0] == s[i]);
    assert(decode_run(s.skip(i), buffer, escaped, specials, escape, tolerate) == Err::<
        (Seq<char>, bool),
        InfluxLineError,
    >(e));
}

/// Decoding is a left inverse of encoding on round-trippable values.
pub proof fn lemma_decode_of_encode(
    w: Seq<char>,
    specials: Seq<char>,
    escape: char,
    tolerate: bool,
)
    requires
        encode_round_trippable(w, specials, escape),
        tolerate || specials.contains(escape),
    ensures
        escape_decode(escape_encode(w, specials, escape), specials, escape, tolerate) == Ok::<
            Seq<char>,
            InfluxLineError,
        >(w),
{
    lemma_decode_run_of_encode(w, Seq::empty(), specials, escape, tolerate);
    assert(Seq::<char>::empty() + w =~= w);
}

/// Whether an escape character that does not precede a special character is
/// kept literally (`Allow`) or refused (`Forbid`).
#[derive(Debug, Clone, Copy, PartialEq, Eq, Structural)]
pub enum StrayEscapes {
    Allow,
    Forbid,
}

/// How one character is classified against a special-character set.
#[derive(Debug, Clone, Copy, PartialEq, Eq, Structural)]
pub enum CharacterType {
    Normal,
    Special,
    Escape,
}

/// The classification applied by the decoder: the escape character first,
/// then the special set, then everything else.
pub open spec fn spec_character_type(c: char, specials: Seq<char>, escape: char) -> CharacterType {
    if c == escape {
        CharacterType::Escape
    } else if is_special(c, specials) {
        CharacterType::Special
    } else {
        CharacterType::Normal
    }
}

/// The executable escape decoder: feed it one character at a time, then
/// extract the decoded text.
#[derive(Debug, Clone)]
pub struct LinearParser {
    pub buffer: Vec<char>,
    pub escaped: bool,
    pub stray_escapes: StrayEscapes,
    pub special_characters: Vec<char>,
    pub escape_character: char,
}

impl LinearParser {
    /// The stray-escape policy as the `tolerate` flag of the spec machine.
    pub open spec fn tolerate(self) -> bool {
        self.stray_escapes == StrayEscapes::Allow
    }

    pub fn new(
        special_characters: Vec<char>,
        escape_character: char,
        stray_escapes: StrayEscapes,
    ) -> (r: Self)
        ensures
            r.buffer@ == Seq::<char>::empty(),
            !r.escaped,
            r.stray_escapes == stray_escapes,
            r.special_characters == special_characters,
            r.escape_character == escape_character,
    {
        Self { buffer: Vec::new(), escaped: false, stray_escapes, special_characters, escape_character }
    }

    /// Advances the state machine by one character, as `decode_step` says.
    pub fn process_char(&mut self, character: char) -> (r: Result<(), InfluxLineError>)
        ensures
            final(self).stray_escapes == old(self).stray_escapes,
            final(self).special_characters == old(self).special_characters,
            final(self).escape_character == old(self).escape_character,
            match decode_step(
                old(self).buffer@,
                old(self).escaped,
                character,
                old(self).special_characters@,
                old(self).escape_character,
                old(self).tolerate(),
            ) {
                Ok((acc, escaped)) => r is Ok && final(self).buffer@ == acc && final(self).escaped
                    == escaped,
                Err(e) => r == Err::<(), InfluxLineError>(e) && final(self).buffer@ == old(
                    self,
                ).buffer@ && final(self).escaped == old(self).escaped,
            },
    {
        match (self.escaped, self.character_type(character)) {
            (true, CharacterType::Normal) => {
                if self.stray_escapes == StrayEscapes::Allow {
                    self.buffer.push(self.escape_character);
                    self.buffer.push(character);
                    self.escaped = false;
                    Ok(())
                } else {
                    Err(InfluxLineError::UnexpectedEscapeSymbol)
                }
            },
            (true, _) => {
                self.buffer.push(character);
                self.escaped = false;
                Ok(())
            },
            (false, CharacterType::Normal) => {
                self.buffer.push(character);
                Ok(())
            },
            (false, CharacterType::Special) => Err(InfluxLineError::UnescapedSpecialCharacter),
            (false, CharacterType::Escape) => {
                self.escaped = true;
                Ok(())
            },
        }
    }

    /// Takes the decoded text out; a pending escape character is an error.
    pub fn extract(self) -> (r: Result<String, InfluxLineError>)
        ensures
            self.escaped ==> r == Err::<String, InfluxLineError>(
                InfluxLineError::UnexpectedEscapeSymbol,
            ),
            !self.escaped ==> r is Ok && r.unwrap()@ == self.buffer@,
    {
        if self.escaped {
            return Err(InfluxLineError::UnexpectedEscapeSymbol);
        }
        Ok(chars_to_string(&self.buffer))
    }

    /// Classifies one character against this parser's special set.
    pub fn character_type(&self, character: char) -> (t: CharacterType)
        ensures
            t == spec_character_type(
                character,
                self.special_characters@,
                self.escape_character,
            ),
    {
        if character == self.escape_character {
            CharacterType::Escape
        } else if contains_char(&self.special_characters, character) {
            CharacterType::Special
        } else {
            CharacterType::Normal
        }
    }
}

/// Decodes the characters of `v` between `from` and `to`, as
/// `escape_decode` says.
#[verifier::rlimit(50)]
pub fn decode_chars(
    v: &Vec<char>,
    from: usize,
    to: usize,
    special_characters: &Vec<char>,
    escape_character: char,
    stray_escapes: StrayEscapes,
) -> (r: Result<Vec<char>, InfluxLineError>)
    requires
        from <= to <= v@.len(),
    ensures
        match escape_decode(
            v@.subrange(from as int, to as int),
            special_characters@,
            escape_character,
            stray_escapes == StrayEscapes::Allow,
        ) {
            Ok(w) => r is Ok && r.unwrap()@ == w,
            Err(e) => r == Err::<Vec<char>, InfluxLineError>(e),
        },
{
    let ghost s = v@.subrange(from as int, to as int);
    let ghost specials = special_characters@;
    let ghost tolerate = stray_escapes == StrayEscapes::Allow;
    let specials_copy = crate::types::chars::subchars(
        special_characters,
        0,
        special_characters.len(),
    );
    proof {
        assert(specials_copy@ =~= special_characters@);
    }
    let mut parser = LinearParser::new(specials_copy, escape_character, stray_escapes);
    let mut i: usize = from;
    while i < to
        invariant
            from <= i <= to <= v@.len(),
            s == v@.subrange(from as int, to as int),
            specials == special_characters@,
            tolerate == (stray_escapes == StrayEscapes::Allow),
            specials == parser.special_characters@,
            parser.escape_character == escape_character,
            parser.stray_escapes == stray_escapes,
            tolerate == parser.tolerate(),
            decode_run(
                s.take(i - from),
                Seq::<char>::empty(),
                false,
                specials,
                escape_character,
                tolerate,
            ) == Ok::<(Seq<char>, bool), InfluxLineError>((parser.buffer@, parser.escaped)),
        decreases to - i,
    {
        let ghost old_buffer = parser.buffer@;
        let ghost old_escaped = parser.escaped;
        let ghost x = s[i - from];
        assert(v@[i as int] == x);
        let step = parser.process_char(v[i]);
        match step {
            Ok(()) => {
                proof {
                    lemma_decode_run_step_ok(
                        s,
                        i - from,
                        old_buffer,
                        old_escaped,
                        parser.buffer@,
                        parser.escaped,
                        specials,
                        escape_character,
                        tolerate,
                    );
                }
            },
            Err(e) => {
                proof {
                    lemma_decode_error_at(
                        s,
                        i - from,
                        old_buffer,
                        old_escaped,
                        e,
                        specials,
                        escape_character,
                        tolerate,
                    );
                }
                return Err(e);
            },
        }
        i = i + 1;
    }
    proof {
        assert(s.take(to - from) =~= s);
    }
    if parser.escaped {
        return Err(InfluxLineError::UnexpectedEscapeSymbol);
    }
    Ok(parser.buffer)
}

} // verus!
