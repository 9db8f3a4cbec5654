pub mod field;
pub mod hash_like;
pub mod key;
pub mod measurement;
pub mod parsing;
pub mod roundtrip;
pub mod tag;

use vstd::prelude::*;

use crate::error::InfluxLineError;
use crate::line::hash_like::assoc_get;
use crate::line::hash_like::assoc_upsert;
use crate::line::hash_like::KeyValuePair;
use crate::line::hash_like::KeyValueStorage;
use crate::line::parsing::line_tokenize;
use crate::line::parsing::LinearLineParser;
use crate::line::parsing::RawLineView;
use crate::types::chars::chars_to_string;
use crate::types::chars::str_to_chars;
use crate::types::key::key_name_parse;
use crate::types::key::key_name_wire;
use crate::types::key::valid_name;
use crate::types::key::KeyName;
use crate::types::measurement::measurement_name_parse;
use crate::types::measurement::measurement_name_wire;
use crate::types::measurement::MeasurementName;
use crate::types::timestamp::Timestamp;
use crate::types::timestamp::timestamp_wire;
use crate::types::timestamp::UtcDateTime;
use crate::types::decimal::timestamp_parse;
use crate::types::value::value_parse;
use crate::types::value::value_view_wf;
use crate::types::value::value_wire;
use crate::types::value::InfluxValue;
use crate::types::value::ValueView;

verus! {

/// The mathematical value of a record: a measurement name, ordered tag and
/// field sets, and an optional nanosecond timestamp.
pub struct LineView {
    pub measurement: Seq<char>,
    pub tags: Seq<(Seq<char>, Seq<char>)>,
    pub fields: Seq<(Seq<char>, ValueView)>,
    pub timestamp: Option<i64>,
}

/// The invariant of a record: a valid measurement name, valid and unique
/// tag and field keys, valid tag values and field values, and at least one
/// field.
pub open spec fn line_view_wf(v: LineView) -> bool {
    &&& valid_name(v.measurement)
    &&& v.fields.len() >= 1
    &&& crate::line::hash_like::assoc_unique(v.tags)
    &&& crate::line::hash_like::assoc_unique(v.fields)
    &&& (forall|i: int|
        0 <= i < v.tags.len() ==> valid_name((#[trigger] v.tags[i]).0) && valid_name(v.tags[i].1))
    &&& (forall|i: int|
        0 <= i < v.fields.len() ==> valid_name((#[trigger] v.fields[i]).0) && value_view_wf(
            v.fields[i].1,
        ))
}

/// Decoded tag pairs, in order; the leftmost decoding error wins.
pub open spec fn decode_tags(raw: Seq<(Seq<char>, Seq<char>)>) -> Result<
    Seq<(Seq<char>, Seq<char>)>,
    InfluxLineError,
>
    decreases raw.len(),
{
    if raw.len() == 0 {
        Ok(Seq::empty())
    } else {
        match decode_tags(raw.drop_last()) {
            Err(e) => Err(e),
            Ok(rest) => match key_name_parse(raw.last().0) {
                Err(e) => Err(e),
                Ok(k) => match key_name_parse(raw.last().1) {
                    Err(e) => Err(e),
                    Ok(v) => Ok(rest.push((k, v))),
                },
            },
        }
    }
}

/// Decoded field pairs, in order; the leftmost decoding error wins.
pub open spec fn decode_fields(raw: Seq<(Seq<char>, Seq<char>)>) -> Result<
    Seq<(Seq<char>, ValueView)>,
    InfluxLineError,
>
    decreases raw.len(),
{
    if raw.len() == 0 {
        Ok(Seq::empty())
    } else {
        match decode_fields(raw.drop_last()) {
            Err(e) => Err(e),
            Ok(rest) => match key_name_parse(raw.last().0) {
                Err(e) => Err(e),
                Ok(k) => match value_parse(raw.last().1) {
                    Err(e) => Err(e),
                    Ok(v) => Ok(rest.push((k, v))),
                },
            },
        }
    }
}

/// All pairs stored in order with upsert semantics.
pub open spec fn upsert_all<T>(pairs: Seq<(Seq<char>, T)>) -> Seq<(Seq<char>, T)>
    decreases pairs.len(),
{
    if pairs.len() == 0 {
        Seq::empty()
    } else {
        assoc_upsert(upsert_all(pairs.drop_last()), pairs.last().0, pairs.last().1)
    }
}

/// A decoding error in a prefix of the pairs decides the whole decoding.
pub proof fn lemma_decode_tags_prefix_err(raw: Seq<(Seq<char>, Seq<char>)>, j: int)
    requires
        0 <= j <= raw.len(),
        decode_tags(raw.take(j)) is Err,
    ensures
        decode_tags(raw) == decode_tags(raw.take(j)),
    decreases raw.len(),
{
    if j < raw.len() {
        assert(raw.drop_last().take(j) =~= raw.take(j));
        lemma_decode_tags_prefix_err(raw.drop_last(), j);
        assert(raw.take(raw.len() as int - 1) =~= raw.drop_last());
    } else {
        assert(raw.take(j) =~= raw);
    }
}

/// A decoding error in a prefix of the pairs decides the whole decoding.
pub proof fn lemma_decode_fields_prefix_err(raw: Seq<(Seq<char>, Seq<char>)>, j: int)
    requires
        0 <= j <= raw.len(),
        decode_fields(raw.take(j)) is Err,
    ensures
        decode_fields(raw) == decode_fields(raw.take(j)),
    decreases raw.len(),
{
    if j < raw.len() {
        assert(raw.drop_last().take(j) =~= raw.take(j));
        lemma_decode_fields_prefix_err(raw.drop_last(), j);
        assert(raw.take(raw.len() as int - 1) =~= raw.drop_last());
    } else {
        assert(raw.take(j) =~= raw);
    }
}

/// The record assembled from decoded parts: tag and field pairs are stored
/// with upsert semantics, and an empty field set is rejected.
pub open spec fn line_from_parts(
    measurement: Seq<char>,
    tags: Seq<(Seq<char>, Seq<char>)>,
    fields: Seq<(Seq<char>, ValueView)>,
    timestamp: Option<i64>,
) -> Result<LineView, InfluxLineError> {
    if fields.len() == 0 {
        Err(InfluxLineError::NoFields)
    } else {
        Ok(
            LineView {
                measurement,
                tags: upsert_all(tags),
                fields: upsert_all(fields),
                timestamp,
            },
        )
    }
}

/// The record a tokenized raw line decodes to: measurement first, then
/// tags, then fields, then the timestamp.
pub open spec fn line_decode(raw: RawLineView) -> Result<LineView, InfluxLineError> {
    match measurement_name_parse(raw.measurement) {
        Err(e) => Err(e),
        Ok(m) => match decode_tags(raw.tags) {
            Err(e) => Err(e),
            Ok(tags) => match decode_fields(raw.fields) {
                Err(e) => Err(e),
                Ok(fields) => match raw.timestamp {
                    None => line_from_parts(m, tags, fields, None),
                    Some(t) => match timestamp_parse(t) {
                        Err(e) => Err(e),
                        Ok(n) => line_from_parts(m, tags, fields, Some(n)),
                    },
                },
            },
        },
    }
}

/// What parsing one line of wire text yields: tokenize, then decode.
pub open spec fn line_parse(s: Seq<char>) -> Result<LineView, InfluxLineError> {
    match line_tokenize(s) {
        Err(e) => Err(e),
        Ok(raw) => line_decode(raw),
    }
}

/// One trailing newline is tolerated and ignored.
pub open spec fn strip_trailing_newline(s: Seq<char>) -> Seq<char> {
    if s.len() > 0 && s.last() == '\n' {
        s.drop_last()
    } else {
        s
    }
}

/// The wire text of the tag section: each pair as `,key=value`.
pub open spec fn tags_wire(tags: Seq<(Seq<char>, Seq<char>)>) -> Seq<char>
    decreases tags.len(),
{
    if tags.len() == 0 {
        Seq::empty()
    } else {
        tags_wire(tags.drop_last()) + seq![','] + key_name_wire(tags.last().0) + seq!['=']
            + key_name_wire(tags.last().1)
    }
}

/// The wire text of one field pair: `key=value`.
pub open spec fn field_pair_wire(pair: (Seq<char>, ValueView)) -> Seq<char> {
    key_name_wire(pair.0) + seq!['='] + value_wire(pair.1)
}

/// The wire text of the field section: the pairs joined by commas.
pub open spec fn fields_wire(fields: Seq<(Seq<char>, ValueView)>) -> Seq<char>
    decreases fields.len(),
{
    if fields.len() == 0 {
        Seq::empty()
    } else if fields.len() == 1 {
        field_pair_wire(fields[0])
    } else {
        fields_wire(fields.drop_last()) + seq![','] + field_pair_wire(fields.last())
    }
}

/// The wire text of the whole record: measurement, tags, a space, fields,
/// and the optional timestamp after one more space. No newline is emitted.
pub open spec fn line_wire(v: LineView) -> Seq<char> {
    measurement_name_wire(v.measurement) + tags_wire(v.tags) + seq![' '] + fields_wire(v.fields)
        + (match v.timestamp {
        None => Seq::<char>::empty(),
        Some(n) => seq![' '] + timestamp_wire(n),
    })
}

/// One record of the line protocol: a measurement, ordered unique tag and
/// field sets, and an optional timestamp.
#[derive(Debug, Clone, PartialEq)]
pub struct InfluxLine {
    measurement: MeasurementName,
    tags: KeyValueStorage<KeyName>,
    fields: KeyValueStorage<InfluxValue>,
    timestamp: Option<Timestamp>,
}

impl View for InfluxLine {
    type V = LineView;

    closed spec fn view(&self) -> LineView {
        LineView {
            measurement: self.measurement@,
            tags: self.tags@,
            fields: self.fields@,
            timestamp: match self.timestamp {
                Some(t) => Some(t.0),
                None => None,
            },
        }
    }
}

impl InfluxLine {
    /// Creates a record from all of its components; an empty field set is
    /// rejected. Tag and field pairs are stored in order with upsert
    /// semantics.
    pub fn full(
        measurement: MeasurementName,
        tags: Vec<(KeyName, KeyName)>,
        fields: Vec<(KeyName, InfluxValue)>,
        timestamp: Option<Timestamp>,
    ) -> (r: Result<InfluxLine, InfluxLineError>)
        ensures
            match line_from_parts(
                measurement@,
                tags@.map(|i: int, p: (KeyName, KeyName)| (p.0@, p.1@)),
                fields@.map(|i: int, p: (KeyName, InfluxValue)| (p.0@, p.1@)),
                match timestamp {
                    Some(t) => Some(t.0),
                    None => None,
                },
            ) {
                Ok(v) => r is Ok && r.unwrap()@ == v,
                Err(e) => r == Err::<InfluxLine, InfluxLineError>(e),
            },
    {
        let ghost tags_v = tags@.map(|i: int, p: (KeyName, KeyName)| (p.0@, p.1@));
        let ghost fields_v = fields@.map(|i: int, p: (KeyName, InfluxValue)| (p.0@, p.1@));
        if fields.len() == 0 {
            return Err(InfluxLineError::NoFields);
        }
        let mut tag_store: KeyValueStorage<KeyName> = KeyValueStorage::new();
        let tn = tags.len();
        let mut i: usize = 0;
        proof {
            assert(tags_v.take(0) =~= Seq::<(Seq<char>, Seq<char>)>::empty());
        }
        while i < tn
            invariant
                i <= tn,
                tn == tags@.len(),
                tags_v == tags@.map(|j: int, p: (KeyName, KeyName)| (p.0@, p.1@)),
                tag_store@ == upsert_all(tags_v.take(i as int)),
            decreases tn - i,
        {
            let k = tags[i].0.clone();
            let v = tags[i].1.clone();
            proof {
                assert(tags_v[i as int] == (k@, v@));
            }
            tag_store.put(k, v);
            proof {
                assert(tags_v.take(i + 1).drop_last() =~= tags_v.take(i as int));
                assert(tags_v.take(i + 1).last() == tags_v[i as int]);
            }
            i = i + 1;
        }
        proof {
            assert(tags_v.take(tn as int) =~= tags_v);
        }
        let mut field_store: KeyValueStorage<InfluxValue> = KeyValueStorage::new();
        let fnn = fields.len();
        let mut j: usize = 0;
        proof {
            assert(fields_v.take(0) =~= Seq::<(Seq<char>, ValueView)>::empty());
        }
        while j < fnn
            invariant
                j <= fnn,
                fnn == fields@.len(),
                fields_v == fields@.map(|jj: int, p: (KeyName, InfluxValue)| (p.0@, p.1@)),
                field_store@ == upsert_all(fields_v.take(j as int)),
            decreases fnn - j,
        {
            let k = fields[j].0.clone();
            let v = fields[j].1.clone();
            proof {
                assert(fields_v[j as int] == (k@, v@));
            }
            field_store.put(k, v);
            proof {
                assert(fields_v.take(j + 1).drop_last() =~= fields_v.take(j as int));
                assert(fields_v.take(j + 1).last() == fields_v[j as int]);
            }
            j = j + 1;
        }
        proof {
            assert(fields_v.take(fnn as int) =~= fields_v);
        }
        Ok(InfluxLine { measurement, tags: tag_store, fields: field_store, timestamp })
    }

    /// Creates a minimal record: one measurement and one field.
    pub fn new(measurement: MeasurementName, field: KeyName, value: InfluxValue) -> (r: InfluxLine)
        ensures
            r@.measurement == measurement@,
            r@.tags == Seq::<(Seq<char>, Seq<char>)>::empty(),
            r@.fields == seq![(field@, value@)],
            r@.timestamp is None,
    {
        let mut fields: KeyValueStorage<InfluxValue> = KeyValueStorage::new();
        fields.put(field, value);
        proof {
            assert(fields@ =~= seq![(field@, value@)]);
        }
        InfluxLine { measurement, tags: KeyValueStorage::new(), fields, timestamp: None }
    }

    /// Creates a minimal record from raw text, validating the names.
    pub fn try_new(measurement: &str, field: &str, value: InfluxValue) -> (r: Result<
        InfluxLine,
        InfluxLineError,
    >)
        ensures
            valid_name(measurement@) && valid_name(field@) ==> r is Ok && r.unwrap()@.measurement
                == measurement@ && r.unwrap()@.tags == Seq::<(Seq<char>, Seq<char>)>::empty()
                && r.unwrap()@.fields == seq![(field@, value@)] && r.unwrap()@.timestamp is None,
            !(valid_name(measurement@) && valid_name(field@)) ==> r == Err::<
                InfluxLine,
                InfluxLineError,
            >(InfluxLineError::NameRestriction),
    {
        let m = match MeasurementName::new(String::from_str(measurement)) {
            Ok(m) => m,
            Err(e) => {
                return Err(e);
            },
        };
        let f = match KeyName::new(String::from_str(field)) {
            Ok(f) => f,
            Err(e) => {
                return Err(e);
            },
        };
        Ok(InfluxLine::new(m, f, value))
    }

    /// The measurement name.
    pub fn measurement(&self) -> (r: &MeasurementName)
        ensures
            r@ == self@.measurement,
    {
        &self.measurement
    }

    /// The tag value stored under a tag key, if any.
    pub fn tag(&self, name: &str) -> (r: Option<&KeyName>)
        ensures
            match assoc_get(self@.tags, name@) {
                Some(w) => r is Some && r.unwrap()@ == w,
                None => r is None,
            },
    {
        self.tags.get(name)
    }

    /// The tag pairs, in insertion order.
    pub fn tags(&self) -> (r: &Vec<KeyValuePair<KeyName>>)
        ensures
            r@.len() == self@.tags.len(),
            forall|i: int|
                0 <= i < self@.tags.len() ==> ((#[trigger] r@[i]).key@, r@[i].value@)
                    == self@.tags[i],
    {
        self.tags.iter()
    }

    /// The field value stored under a field key, if any.
    pub fn field(&self, name: &str) -> (r: Option<&InfluxValue>)
        ensures
            match assoc_get(self@.fields, name@) {
                Some(w) => r is Some && r.unwrap()@ == w,
                None => r is None,
            },
    {
        self.fields.get(name)
    }

    /// The field pairs, in insertion order.
    pub fn fields(&self) -> (r: &Vec<KeyValuePair<InfluxValue>>)
        ensures
            r@.len() == self@.fields.len(),
            forall|i: int|
                0 <= i < self@.fields.len() ==> ((#[trigger] r@[i]).key@, r@[i].value@)
                    == self@.fields[i],
    {
        self.fields.iter()
    }

    /// The timestamp, if one is set.
    pub fn timestamp(&self) -> (r: Option<Timestamp>)
        ensures
            match self@.timestamp {
                Some(n) => r matches Some(t) && t.0 == n,
                None => r is None,
            },
    {
        self.timestamp
    }

    /// Sets the timestamp, replacing any previous value.
    pub fn with_timestamp(self, timestamp: Timestamp) -> (r: InfluxLine)
        ensures
            r@.measurement == self@.measurement,
            r@.tags == self@.tags,
            r@.fields == self@.fields,
            r@.timestamp == Some(timestamp.0),
    {
        InfluxLine { timestamp: Some(timestamp), ..self }
    }

    /// Sets the timestamp from a calendar instant; an instant outside the
    /// representable nanosecond range is rejected.
    pub fn try_with_timestamp(self, datetime: &UtcDateTime) -> (r: Result<
        InfluxLine,
        InfluxLineError,
    >)
        ensures
            r is Err ==> r == Err::<InfluxLine, InfluxLineError>(
                InfluxLineError::DateTimeOutOfRange,
            ),
            r matches Ok(line) ==> (line@.measurement == self@.measurement && line@.tags
                == self@.tags && line@.fields == self@.fields && line@.timestamp is Some),
    {
        match Timestamp::from_datetime(datetime) {
            Ok(t) => Ok(self.with_timestamp(t)),
            Err(e) => Err(e),
        }
    }

    /// Adds a tag: a present key has its value replaced without moving,
    /// an absent key is appended.
    pub fn with_tag(self, tag: KeyName, value: KeyName) -> (r: InfluxLine)
        ensures
            r@.measurement == self@.measurement,
            r@.tags == assoc_upsert(self@.tags, tag@, value@),
            r@.fields == self@.fields,
            r@.timestamp == self@.timestamp,
    {
        let mut tags = self.tags;
        tags.put(tag, value);
        InfluxLine { tags, ..self }
    }

    /// Adds a tag from raw text, validating both names.
    pub fn try_with_tag(self, tag: &str, value: &str) -> (r: Result<InfluxLine, InfluxLineError>)
        ensures
            valid_name(tag@) && valid_name(value@) ==> (r matches Ok(line) && line@.measurement
                == self@.measurement && line@.tags == assoc_upsert(self@.tags, tag@, value@)
                && line@.fields == self@.fields && line@.timestamp == self@.timestamp),
            !(valid_name(tag@) && valid_name(value@)) ==> r == Err::<InfluxLine, InfluxLineError>(
                InfluxLineError::NameRestriction,
            ),
    {
        let t = match KeyName::new(String::from_str(tag)) {
            Ok(t) => t,
            Err(e) => {
                return Err(e);
            },
        };
        let v = match KeyName::new(String::from_str(value)) {
            Ok(v) => v,
            Err(e) => {
                return Err(e);
            },
        };
        Ok(self.with_tag(t, v))
    }

    /// Adds a field: a present key has its value replaced without moving,
    /// an absent key is appended.
    pub fn with_field(self, field: KeyName, value: InfluxValue) -> (r: InfluxLine)
        ensures
            r@.measurement == self@.measurement,
            r@.tags == self@.tags,
            r@.fields == assoc_upsert(self@.fields, field@, value@),
            r@.timestamp == self@.timestamp,
    {
        let mut fields = self.fields;
        fields.put(field, value);
        InfluxLine { fields, ..self }
    }

    /// Adds a field from raw text, validating the key.
    pub fn try_with_field(self, field: &str, value: InfluxValue) -> (r: Result<
        InfluxLine,
        InfluxLineError,
    >)
        ensures
            valid_name(field@) ==> (r matches Ok(line) && line@.measurement == self@.measurement
                && line@.tags == self@.tags && line@.fields == assoc_upsert(
                self@.fields,
                field@,
                value@,
            ) && line@.timestamp == self@.timestamp),
            !valid_name(field@) ==> r == Err::<InfluxLine, InfluxLineError>(
                InfluxLineError::NameRestriction,
            ),
    {
        let f = match KeyName::new(String::from_str(field)) {
            Ok(f) => f,
            Err(e) => {
                return Err(e);
            },
        };
        Ok(self.with_field(f, value))
    }

    /// Parses one record from its wire text, as `line_parse` says; one
    /// trailing newline is tolerated.
    pub fn from_str(s: &str) -> (r: Result<InfluxLine, InfluxLineError>)
        ensures
            match line_parse(strip_trailing_newline(s@)) {
                Ok(v) => r is Ok && r.unwrap()@ == v,
                Err(e) => r == Err::<InfluxLine, InfluxLineError>(e),
            },
    {
        let mut chars = str_to_chars(s);
        let n0 = chars.len();
        if n0 > 0 && chars[n0 - 1] == '\n' {
            chars.pop();
            proof {
                assert(chars@ =~= strip_trailing_newline(s@));
            }
        }
        let ghost stripped = strip_trailing_newline(s@);
        assert(chars@ == stripped);
        let raw = match (LinearLineParser).process_chars(&chars) {
            Ok(rl) => rl,
            Err(e) => {
                return Err(e);
            },
        };
        let ghost rawv = line_tokenize(stripped).unwrap();
        assert(raw@ == rawv);
        let measurement = match MeasurementName::from_str(raw.measurement.as_str()) {
            Ok(m) => m,
            Err(e) => {
                return Err(e);
            },
        };
        let ghost tag_map = |k: int, p: (KeyName, KeyName)| (p.0@, p.1@);
        let mut tags: Vec<(KeyName, KeyName)> = Vec::new();
        let tn = raw.tags.len();
        let mut i: usize = 0;
        proof {
            assert(rawv.tags.take(0) =~= Seq::<(Seq<char>, Seq<char>)>::empty());
            assert(tags@.map(tag_map) =~= Seq::<(Seq<char>, Seq<char>)>::empty());
        }
        while i < tn
            invariant
                i <= tn,
                tn == raw.tags@.len(),
                rawv == raw@,
                rawv.tags.len() == tn,
                stripped == strip_trailing_newline(s@),
                line_tokenize(stripped) == Ok::<RawLineView, InfluxLineError>(rawv),
                measurement_name_parse(rawv.measurement) == Ok::<Seq<char>, InfluxLineError>(
                    measurement@,
                ),
                tag_map == (|k: int, p: (KeyName, KeyName)| (p.0@, p.1@)),
                decode_tags(rawv.tags.take(i as int)) == Ok::<
                    Seq<(Seq<char>, Seq<char>)>,
                    InfluxLineError,
                >(tags@.map(tag_map)),
            decreases tn - i,
        {
            let ghost prefix = rawv.tags.take(i as int);
            proof {
                assert(rawv.tags[i as int] == (raw.tags@[i as int].key@,
                    raw.tags@[i as int].value@));
                assert(rawv.tags.take(i + 1).drop_last() =~= prefix);
                assert(rawv.tags.take(i + 1).last() == rawv.tags[i as int]);
            }
            let k = match KeyName::from_str(raw.tags[i].key.as_str()) {
                Ok(k) => k,
                Err(e) => {
                    proof {
                        assert(decode_tags(rawv.tags.take(i + 1)) == Err::<
                            Seq<(Seq<char>, Seq<char>)>,
                            InfluxLineError,
                        >(e));
                        lemma_decode_tags_prefix_err(rawv.tags, i + 1);
                        assert(rawv.tags.take(tn as int) =~= rawv.tags);
                    }
                    return Err(e);
                },
            };
            let v = match KeyName::from_str(raw.tags[i].value.as_str()) {
                Ok(v) => v,
                Err(e) => {
                    proof {
                        assert(decode_tags(rawv.tags.take(i + 1)) == Err::<
                            Seq<(Seq<char>, Seq<char>)>,
                            InfluxLineError,
                        >(e));
                        lemma_decode_tags_prefix_err(rawv.tags, i + 1);
                        assert(rawv.tags.take(tn as int) =~= rawv.tags);
                    }
                    return Err(e);
                },
            };
            let ghost old_tags = tags@;
            tags.push((k, v));
            proof {
                assert(tags@.map(tag_map) =~= old_tags.map(tag_map).push((k@, v@)));
                assert(decode_tags(rawv.tags.take(i + 1)) == Ok::<
                    Seq<(Seq<char>, Seq<char>)>,
                    InfluxLineError,
                >(tags@.map(tag_map)));
            }
            i = i + 1;
        }
        proof {
            assert(rawv.tags.take(tn as int) =~= rawv.tags);
        }
        let ghost dtags = tags@.map(tag_map);
        let ghost field_map = |k: int, p: (KeyName, InfluxValue)| (p.0@, p.1@);
        let mut fields: Vec<(KeyName, InfluxValue)> = Vec::new();
        let fnn = raw.fields.len();
        let mut j: usize = 0;
        proof {
            assert(rawv.fields.take(0) =~= Seq::<(Seq<char>, Seq<char>)>::empty());
            assert(fields@.map(field_map) =~= Seq::<(Seq<char>, ValueView)>::empty());
        }
        while j < fnn
            invariant
                j <= fnn,
                fnn == raw.fields@.len(),
                rawv == raw@,
                rawv.fields.len() == fnn,
                stripped == strip_trailing_newline(s@),
                line_tokenize(stripped) == Ok::<RawLineView, InfluxLineError>(rawv),
                measurement_name_parse(rawv.measurement) == Ok::<Seq<char>, InfluxLineError>(
                    measurement@,
                ),
                decode_tags(rawv.tags) == Ok::<Seq<(Seq<char>, Seq<char>)>, InfluxLineError>(
                    dtags,
                ),
                field_map == (|k: int, p: (KeyName, InfluxValue)| (p.0@, p.1@)),
                decode_fields(rawv.fields.take(j as int)) == Ok::<
                    Seq<(Seq<char>, ValueView)>,
                    InfluxLineError,
                >(fields@.map(field_map)),
            decreases fnn - j,
        {
            let ghost prefix = rawv.fields.take(j as int);
            proof {
                assert(rawv.fields[j as int] == (raw.fields@[j as int].key@,
                    raw.fields@[j as int].value@));
                assert(rawv.fields.take(j + 1).drop_last() =~= prefix);
                assert(rawv.fields.take(j + 1).last() == rawv.fields[j as int]);
            }
            let k = match KeyName::from_str(raw.fields[j].key.as_str()) {
                Ok(k) => k,
                Err(e) => {
                    proof {
                        assert(decode_fields(rawv.fields.take(j + 1)) == Err::<
                            Seq<(Seq<char>, ValueView)>,
                            InfluxLineError,
                        >(e));
                        lemma_decode_fields_prefix_err(rawv.fields, j + 1);
                        assert(rawv.fields.take(fnn as int) =~= rawv.fields);
                    }
                    return Err(e);
                },
            };
            let v = match InfluxValue::from_str(raw.fields[j].value.as_str()) {
                Ok(v) => v,
                Err(e) => {
                    proof {
                        assert(decode_fields(rawv.fields.take(j + 1)) == Err::<
                            Seq<(Seq<char>, ValueView)>,
                            InfluxLineError,
                        >(e));
                        lemma_decode_fields_prefix_err(rawv.fields, j + 1);
                        assert(rawv.fields.take(fnn as int) =~= rawv.fields);
                    }
                    return Err(e);
                },
            };
            let ghost old_fields = fields@;
            fields.push((k, v));
            proof {
                assert(fields@.map(field_map) =~= old_fields.map(field_map).push((k@, v@)));
                assert(decode_fields(rawv.fields.take(j + 1)) == Ok::<
                    Seq<(Seq<char>, ValueView)>,
                    InfluxLineError,
                >(fields@.map(field_map)));
            }
            j = j + 1;
        }
        proof {
            assert(rawv.fields.take(fnn as int) =~= rawv.fields);
        }
        let ghost dfields = fields@.map(field_map);
        let timestamp = match &raw.timestamp {
            Some(ts) => match Timestamp::from_str(ts.as_str()) {
                Ok(t) => Some(t),
                Err(e) => {
                    return Err(e);
                },
            },
            None => None,
        };
        proof {
            assert(line_decode(rawv) == line_from_parts(
                measurement@,
                dtags,
                dfields,
                match timestamp {
                    Some(t) => Some(t.0),
                    None => None,
                },
            ));
        }
        InfluxLine::full(measurement, tags, fields, timestamp)
    }

    /// The wire text of this record, as `line_wire` says.
    pub fn to_line_protocol(&self) -> (r: String)
        ensures
            r@ == line_wire(self@),
    {
        let mut out: Vec<char> = self.measurement.wire_chars();
        let tags = self.tags.iter();
        let tn = tags.len();
        let mut i: usize = 0;
        proof {
            assert(self@.tags.take(0) =~= Seq::<(Seq<char>, Seq<char>)>::empty());
            assert(out@ =~= measurement_name_wire(self@.measurement) + tags_wire(
                self@.tags.take(0),
            ));
        }
        while i < tn
            invariant
                i <= tn,
                tn == self@.tags.len(),
                tags@.len() == tn,
                forall|k: int|
                    0 <= k < tn ==> ((#[trigger] tags@[k]).key@, tags@[k].value@)
                        == self@.tags[k],
                out@ == measurement_name_wire(self@.measurement) + tags_wire(
                    self@.tags.take(i as int),
                ),
            decreases tn - i,
        {
            out.push(',');
            let mut kw = tags[i].key.wire_chars();
            out.append(&mut kw);
            out.push('=');
            let mut vw = tags[i].value.wire_chars();
            out.append(&mut vw);
            proof {
                assert(self@.tags.take(i + 1).drop_last() =~= self@.tags.take(i as int));
                assert(self@.tags.take(i + 1).last() == self@.tags[i as int]);
                assert(out@ =~= measurement_name_wire(self@.measurement) + tags_wire(
                    self@.tags.take(i + 1),
                ));
            }
            i = i + 1;
        }
        proof {
            assert(self@.tags.take(tn as int) =~= self@.tags);
        }
        out.push(' ');
        let ghost head = measurement_name_wire(self@.measurement) + tags_wire(self@.tags)
            + seq![' '];
        proof {
            assert(self@.fields.take(0) =~= Seq::<(Seq<char>, ValueView)>::empty());
            assert(out@ =~= head + fields_wire(self@.fields.take(0)));
        }
        let fields = self.fields.iter();
        let fnn = fields.len();
        let mut j: usize = 0;
        while j < fnn
            invariant
                j <= fnn,
                fnn == self@.fields.len(),
                fields@.len() == fnn,
                head == measurement_name_wire(self@.measurement) + tags_wire(self@.tags)
                    + seq![' '],
                forall|k: int|
                    0 <= k < fnn ==> ((#[trigger] fields@[k]).key@, fields@[k].value@)
                        == self@.fields[k],
                out@ == head + fields_wire(self@.fields.take(j as int)),
            decreases fnn - j,
        {
            if j > 0 {
                out.push(',');
            }
            let mut kw = fields[j].key.wire_chars();
            out.append(&mut kw);
            out.push('=');
            let mut vw = fields[j].value.wire_chars();
            out.append(&mut vw);
            proof {
                assert(self@.fields.take(j + 1).drop_last() =~= self@.fields.take(j as int));
                assert(self@.fields.take(j + 1).last() == self@.fields[j as int]);
                if j == 0 {
                    assert(self@.fields.take(1).len() == 1);
                    assert(self@.fields.take(1)[0] == self@.fields[0]);
                    assert(fields_wire(self@.fields.take(1)) == field_pair_wire(
                        self@.fields[0],
                    ));
                }
                assert(out@ =~= head + fields_wire(self@.fields.take(j + 1)));
            }
            j = j + 1;
        }
        proof {
            assert(self@.fields.take(fnn as int) =~= self@.fields);
        }
        match &self.timestamp {
            Some(t) => {
                out.push(' ');
                let mut tw = t.wire_chars();
                out.append(&mut tw);
                proof {
                    assert(out@ =~= line_wire(self@));
                }
            },
            None => {
                proof {
                    assert(out@ =~= line_wire(self@));
                }
            },
        }
        chars_to_string(&out)
    }
}


/// Storing pairs with upsert semantics keeps at least one pair when there
/// was one, and never grows past the input.
pub proof fn lemma_upsert_all_len<T>(pairs: Seq<(Seq<char>, T)>)
    ensures
        pairs.len() >= 1 ==> upsert_all(pairs).len() >= 1,
        upsert_all(pairs).len() <= pairs.len(),
    decreases pairs.len(),
{
    if pairs.len() > 0 {
        lemma_upsert_all_len(pairs.drop_last());
        crate::line::hash_like::lemma_assoc_find(
            upsert_all(pairs.drop_last()),
            pairs.last().0,
        );
    }
}

/// Field-set non-emptiness: a parsed record always has at least one field,
/// and the direct constructor rejects an empty field set (as the ensures
/// of `InfluxLine::full` state through `line_from_parts`).
pub proof fn lemma_parse_rejects_empty_fields(s: Seq<char>)
    ensures
        line_parse(s) matches Ok(v) ==> v.fields.len() >= 1,
{
    if line_parse(s) is Ok {
        let raw = line_tokenize(s).unwrap();
        let fields = match measurement_name_parse(raw.measurement) {
            Ok(_) => match decode_tags(raw.tags) {
                Ok(_) => match decode_fields(raw.fields) {
                    Ok(f) => f,
                    Err(_) => Seq::empty(),
                },
                Err(_) => Seq::empty(),
            },
            Err(_) => Seq::empty(),
        };
        lemma_upsert_all_len(fields);
    }
}

/// Reserved prefix: no parsed name, measurement or key, is empty or begins
/// with the reserved prefix; the direct constructors reject such names, as
/// the ensures of `MeasurementName::new` and `KeyName::new` state.
pub proof fn lemma_reserved_prefix(s: Seq<char>)
    ensures
        key_name_parse(s) matches Ok(w) ==> w.len() > 0 && w[0] != '_',
        measurement_name_parse(s) matches Ok(w) ==> w.len() > 0 && w[0] != '_',
{
}


/// Every key of pairs stored by upsert is a key of the input, and values
/// come from the input as well, so pairwise properties carry over.
pub proof fn lemma_upsert_all_tags_valid(p: Seq<(Seq<char>, Seq<char>)>)
    requires
        forall|i: int|
            0 <= i < p.len() ==> valid_name((#[trigger] p[i]).0) && valid_name(p[i].1),
    ensures
        forall|i: int|
            0 <= i < upsert_all(p).len() ==> valid_name((#[trigger] upsert_all(p)[i]).0)
                && valid_name(upsert_all(p)[i].1),
    decreases p.len(),
{
    if p.len() > 0 {
        let dl = p.drop_last();
        assert(forall|i: int| 0 <= i < dl.len() ==> dl[i] == #[trigger] p[i]);
        lemma_upsert_all_tags_valid(dl);
        let u = upsert_all(dl);
        crate::line::hash_like::lemma_assoc_find(u, p.last().0);
        assert(valid_name(p.last().0) && valid_name(p.last().1));
        assert forall|i: int|
            0 <= i < upsert_all(p).len() implies valid_name((#[trigger] upsert_all(p)[i]).0)
            && valid_name(upsert_all(p)[i].1) by {
            if crate::line::hash_like::assoc_find(u, p.last().0) >= 0 {
                if i != crate::line::hash_like::assoc_find(u, p.last().0) {
                    assert(upsert_all(p)[i] == u[i]);
                }
            } else {
                if i < u.len() {
                    assert(upsert_all(p)[i] == u[i]);
                }
            }
        }
    }
}

/// The same carrying-over of pairwise properties, for field pairs.
pub proof fn lemma_upsert_all_fields_valid(p: Seq<(Seq<char>, ValueView)>)
    requires
        forall|i: int|
            0 <= i < p.len() ==> valid_name((#[trigger] p[i]).0) && value_view_wf(p[i].1),
    ensures
        forall|i: int|
            0 <= i < upsert_all(p).len() ==> valid_name((#[trigger] upsert_all(p)[i]).0)
                && value_view_wf(upsert_all(p)[i].1),
    decreases p.len(),
{
    if p.len() > 0 {
        let dl = p.drop_last();
        assert(forall|i: int| 0 <= i < dl.len() ==> dl[i] == #[trigger] p[i]);
        lemma_upsert_all_fields_valid(dl);
        let u = upsert_all(dl);
        crate::line::hash_like::lemma_assoc_find(u, p.last().0);
        assert(valid_name(p.last().0) && value_view_wf(p.last().1));
        assert forall|i: int|
            0 <= i < upsert_all(p).len() implies valid_name((#[trigger] upsert_all(p)[i]).0)
            && value_view_wf(upsert_all(p)[i].1) by {
            if crate::line::hash_like::assoc_find(u, p.last().0) >= 0 {
                if i != crate::line::hash_like::assoc_find(u, p.last().0) {
                    assert(upsert_all(p)[i] == u[i]);
                }
            } else {
                if i < u.len() {
                    assert(upsert_all(p)[i] == u[i]);
                }
            }
        }
    }
}

/// Pairs stored by upsert always have unique keys.
pub proof fn lemma_upsert_all_unique<T>(p: Seq<(Seq<char>, T)>)
    ensures
        crate::line::hash_like::assoc_unique(upsert_all(p)),
    decreases p.len(),
{
    if p.len() == 0 {
        assert(crate::line::hash_like::assoc_unique(upsert_all(p)));
    } else {
        lemma_upsert_all_unique(p.drop_last());
        crate::line::hash_like::lemma_assoc_upsert_unique(
            upsert_all(p.drop_last()),
            p.last().0,
            p.last().1,
        );
    }
}

/// Decoded tag pairs are valid names on both sides.
pub proof fn lemma_decode_tags_valid(raw: Seq<(Seq<char>, Seq<char>)>)
    ensures
        decode_tags(raw) matches Ok(t) ==> forall|i: int|
            0 <= i < t.len() ==> valid_name((#[trigger] t[i]).0) && valid_name(t[i].1),
    decreases raw.len(),
{
    if raw.len() > 0 {
        lemma_decode_tags_valid(raw.drop_last());
    }
}

/// Decoded field pairs have valid keys and well-formed values.
pub proof fn lemma_decode_fields_valid(raw: Seq<(Seq<char>, Seq<char>)>)
    ensures
        decode_fields(raw) matches Ok(t) ==> forall|i: int|
            0 <= i < t.len() ==> valid_name((#[trigger] t[i]).0) && value_view_wf(t[i].1),
    decreases raw.len(),
{
    if raw.len() > 0 {
        lemma_decode_fields_valid(raw.drop_last());
        if crate::types::float::is_float_literal(raw.last().1) {
            crate::types::float::lemma_float_normalize(raw.last().1);
        }
    }
}

/// Every record that parsing yields is well-formed: valid names, unique
/// keys, well-formed values, and at least one field.
pub proof fn lemma_line_parse_wf(s: Seq<char>)
    ensures
        line_parse(s) matches Ok(v) ==> line_view_wf(v),
{
    if line_parse(s) is Ok {
        let raw = line_tokenize(s).unwrap();
        let tags = decode_tags(raw.tags).unwrap();
        let fields = decode_fields(raw.fields).unwrap();
        lemma_decode_tags_valid(raw.tags);
        lemma_decode_fields_valid(raw.fields);
        lemma_upsert_all_tags_valid(tags);
        lemma_upsert_all_fields_valid(fields);
        lemma_upsert_all_unique(tags);
        lemma_upsert_all_unique(fields);
        lemma_upsert_all_len(fields);
    }
}

} // verus!
