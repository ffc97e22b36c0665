//! The well-known messages of protobuf, which have JSON forms of their own:
//! timestamps and durations as text, wrappers as their bare value, field
//! masks as joined paths, and `Struct`, `ListValue` and `Value` as the JSON
//! they stand for.
use vstd::prelude::*;

use crate::decode::{dec_scalar, decoded, deserialize_scalar, scalar_wire_type, stuck, Error, ErrorKind};
use crate::decode_buf::{follows, lemma_advance, lemma_follows_refl, lemma_follows_remaining, lemma_follows_trans, BufView, DecodeBuf};
use crate::format::{
    all_digits, decimal, decimal_padded9, digits_value, int_decimal, lemma_leading_zeros, lemma_nat_digits_spell, pad_left,
};
use crate::json::{double_json, double_to_json, json_view, lemma_array_view, lemma_object_view, JsonEntry, JsonSpec, JsonValue};
use crate::text::{push_char, push_str};
use crate::ty::Scalar;
use crate::wire::{lemma_prefix_len, lemma_prefix_within, read_key, skip_field, spec_key, spec_skip, WireType};

verus! {

/// The well-known messages.
#[derive(Debug, Clone, Copy, PartialEq, Eq, Structural)]
pub enum WellKnown {
    Timestamp,
    Duration,
    Struct,
    ListValue,
    Value,
    FieldMask,
    Empty,
    /// A wrapper message around one value of the scalar type.
    Wrapper(Scalar),
}

/// The well-known message with the given full name, if it is one.
pub open spec fn well_known_of(name: Seq<char>) -> Option<WellKnown> {
    if name == ".google.protobuf.Timestamp"@ {
        Some(WellKnown::Timestamp)
    } else if name == ".google.protobuf.Duration"@ {
        Some(WellKnown::Duration)
    } else if name == ".google.protobuf.Struct"@ {
        Some(WellKnown::Struct)
    } else if name == ".google.protobuf.FloatValue"@ {
        Some(WellKnown::Wrapper(Scalar::Float))
    } else if name == ".google.protobuf.DoubleValue"@ {
        Some(WellKnown::Wrapper(Scalar::Double))
    } else if name == ".google.protobuf.Int32Value"@ {
        Some(WellKnown::Wrapper(Scalar::Int32))
    } else if name == ".google.protobuf.Int64Value"@ {
        Some(WellKnown::Wrapper(Scalar::Int64))
    } else if name == ".google.protobuf.UInt32Value"@ {
        Some(WellKnown::Wrapper(Scalar::Uint32))
    } else if name == ".google.protobuf.UInt64Value"@ {
        Some(WellKnown::Wrapper(Scalar::Uint64))
    } else if name == ".google.protobuf.BoolValue"@ {
        Some(WellKnown::Wrapper(Scalar::Bool))
    } else if name == ".google.protobuf.StringValue"@ {
        Some(WellKnown::Wrapper(Scalar::String))
    } else if name == ".google.protobuf.BytesValue"@ {
        Some(WellKnown::Wrapper(Scalar::Bytes))
    } else if name == ".google.protobuf.FieldMask"@ {
        Some(WellKnown::FieldMask)
    } else if name == ".google.protobuf.ListValue"@ {
        Some(WellKnown::ListValue)
    } else if name == ".google.protobuf.Value"@ {
        Some(WellKnown::Value)
    } else if name == ".google.protobuf.Empty"@ {
        Some(WellKnown::Empty)
    } else {
        None
    }
}

fn name_is(name: &String, full_name: &str) -> (res: bool)
    ensures
        res == (name@ == full_name@),
{
    *name == full_name.to_owned()
}

/// Which well-known message, if any, has the given full name.
pub fn well_known_kind(name: &String) -> (res: Option<WellKnown>)
    ensures
        res == well_known_of(name@),
{
    if name_is(name, ".google.protobuf.Timestamp") {
        Some(WellKnown::Timestamp)
    } else if name_is(name, ".google.protobuf.Duration") {
        Some(WellKnown::Duration)
    } else if name_is(name, ".google.protobuf.Struct") {
        Some(WellKnown::Struct)
    } else if name_is(name, ".google.protobuf.FloatValue") {
        Some(WellKnown::Wrapper(Scalar::Float))
    } else if name_is(name, ".google.protobuf.DoubleValue") {
        Some(WellKnown::Wrapper(Scalar::Double))
    } else if name_is(name, ".google.protobuf.Int32Value") {
        Some(WellKnown::Wrapper(Scalar::Int32))
    } else if name_is(name, ".google.protobuf.Int64Value") {
        Some(WellKnown::Wrapper(Scalar::Int64))
    } else if name_is(name, ".google.protobuf.UInt32Value") {
        Some(WellKnown::Wrapper(Scalar::Uint32))
    } else if name_is(name, ".google.protobuf.UInt64Value") {
        Some(WellKnown::Wrapper(Scalar::Uint64))
    } else if name_is(name, ".google.protobuf.BoolValue") {
        Some(WellKnown::Wrapper(Scalar::Bool))
    } else if name_is(name, ".google.protobuf.StringValue") {
        Some(WellKnown::Wrapper(Scalar::String))
    } else if name_is(name, ".google.protobuf.BytesValue") {
        Some(WellKnown::Wrapper(Scalar::Bytes))
    } else if name_is(name, ".google.protobuf.FieldMask") {
        Some(WellKnown::FieldMask)
    } else if name_is(name, ".google.protobuf.ListValue") {
        Some(WellKnown::ListValue)
    } else if name_is(name, ".google.protobuf.Value") {
        Some(WellKnown::Value)
    } else if name_is(name, ".google.protobuf.Empty") {
        Some(WellKnown::Empty)
    } else {
        None
    }
}

// ---------------------------------------------------------------------------
// Timestamps and durations

/// The seconds and nanoseconds that prost decodes a `Timestamp` message from
/// `w` into, or `None` where it fails.
pub uninterp spec fn prost_timestamp(w: Seq<u8>) -> Option<(i64, i32)>;

/// The seconds and nanoseconds that prost decodes a `Duration` message from
/// `w` into, or `None` where it fails.
pub uninterp spec fn prost_duration(w: Seq<u8>) -> Option<(i64, i32)>;

/// The RFC 3339 text chrono gives the UTC time `secs` and `nanos` after the
/// epoch, with as many fraction digits as needed and `Z` for the zone, or
/// `None` where chrono has no single such time.
pub uninterp spec fn chrono_rfc3339(secs: i64, nanos: u32) -> Option<Seq<char>>;

/// Decodes a `prost_types::Timestamp` from `w` with `prost::Message::decode`.
/// Claims only that the seconds and nanoseconds are the named result
/// `prost_timestamp` of the bytes.
#[verifier::external_body]
fn decode_timestamp(w: &[u8]) -> (res: Result<(i64, i32), prost::DecodeError>)
    ensures
        match res {
            Ok(p) => prost_timestamp(w@) == Some(p),
            Err(_) => prost_timestamp(w@) is None,
        },
{
    let t = <prost_types::Timestamp as prost::Message>::decode(w)?;
    Ok((t.seconds, t.nanos))
}

/// Decodes a `prost_types::Duration` from `w` with `prost::Message::decode`.
/// Claims only that the seconds and nanoseconds are the named result
/// `prost_duration` of the bytes.
#[verifier::external_body]
fn decode_duration(w: &[u8]) -> (res: Result<(i64, i32), prost::DecodeError>)
    ensures
        match res {
            Ok(p) => prost_duration(w@) == Some(p),
            Err(_) => prost_duration(w@) is None,
        },
{
    let d = <prost_types::Duration as prost::Message>::decode(w)?;
    Ok((d.seconds, d.nanos))
}

/// Formats a UTC time with chrono: `Utc.timestamp_opt(secs, nanos).single()`,
/// then `to_rfc3339_opts(SecondsFormat::AutoSi, true)`. Claims only that the
/// result is the named result `chrono_rfc3339` of the two numbers.
#[verifier::external_body]
fn rfc3339(secs: i64, nanos: u32) -> (res: Option<String>)
    ensures
        match res {
            Some(t) => chrono_rfc3339(secs, nanos) == Some(t@),
            None => chrono_rfc3339(secs, nanos) is None,
        },
{
    let dt = chrono::TimeZone::timestamp_opt(&chrono::Utc, secs, nanos).single()?;
    Some(dt.to_rfc3339_opts(chrono::SecondsFormat::AutoSi, true))
}

/// The JSON text of a duration: the seconds and `s`, with the nanoseconds
/// padded to nine places after a point where they are not zero.
pub open spec fn duration_text(secs: i64, nanos: i32) -> Seq<char> {
    if nanos == 0 {
        int_decimal(secs as int) + "s"@
    } else {
        int_decimal(secs as int) + "."@ + pad_left(int_decimal(nanos as int), 9, '0') + "s"@
    }
}

/// The JSON text of a duration.
pub fn format_duration(secs: i64, nanos: i32) -> (res: String)
    ensures
        res@ == duration_text(secs, nanos),
{
    let mut s = decimal(secs as i128);
    if nanos != 0 {
        push_str(&mut s, ".");
        let fraction = decimal_padded9(nanos as i128);
        push_str(&mut s, fraction.as_str());
    }
    push_str(&mut s, "s");
    s
}

// ---------------------------------------------------------------------------
// Field masks

/// The paths that prost decodes a `FieldMask` message from `w` into, or
/// `None` where it fails.
pub uninterp spec fn prost_field_mask(w: Seq<u8>) -> Option<Seq<Seq<char>>>;

/// The lower camel case form heck gives a text.
pub uninterp spec fn heck_lower_camel(s: Seq<char>) -> Seq<char>;

/// Decodes a `prost_types::FieldMask` from `w` with `prost::Message::decode`.
/// Claims only that its paths are the named result `prost_field_mask` of the
/// bytes.
#[verifier::external_body]
fn decode_field_mask(w: &[u8]) -> (res: Result<Vec<String>, prost::DecodeError>)
    ensures
        match res {
            Ok(paths) => prost_field_mask(w@) matches Some(p) && paths@.len() == p.len() && forall|i: int|
                0 <= i < p.len() ==> #[trigger] paths@[i]@ == p[i],
            Err(_) => prost_field_mask(w@) is None,
        },
{
    let m = <prost_types::FieldMask as prost::Message>::decode(w)?;
    Ok(m.paths)
}

/// Writes `heck::AsLowerCamelCase(s)`. Claims only that the text is the
/// named result `heck_lower_camel` of `s`.
#[verifier::external_body]
fn lower_camel(s: &str) -> (res: String)
    ensures
        res@ == heck_lower_camel(s@),
{
    format!("{}", heck::AsLowerCamelCase(s))
}

/// The pieces of `s` between the separators `sep`; at least one, maybe
/// empty.
pub open spec fn split(s: Seq<char>, sep: char) -> Seq<Seq<char>>
    decreases s.len(),
{
    if s.len() == 0 {
        seq![Seq::empty()]
    } else {
        let init = split(s.drop_last(), sep);
        if s.last() == sep {
            init.push(Seq::empty())
        } else {
            init.update(init.len() - 1, init.last().push(s.last()))
        }
    }
}

/// The pieces joined with `sep` between them.
pub open spec fn join(parts: Seq<Seq<char>>, sep: char) -> Seq<char>
    decreases parts.len(),
{
    if parts.len() == 0 {
        Seq::empty()
    } else if parts.len() == 1 {
        parts[0]
    } else {
        join(parts.drop_last(), sep).push(sep) + parts.last()
    }
}

/// A path with each dotted part in lower camel case.
pub open spec fn camel_path(path: Seq<char>) -> Seq<char> {
    join(split(path, '.').map_values(|p: Seq<char>| heck_lower_camel(p)), '.')
}

/// The JSON text of a field mask: its paths in camel case, joined by commas.
pub open spec fn field_mask_text(paths: Seq<Seq<char>>) -> Seq<char> {
    join(paths.map_values(|p: Seq<char>| camel_path(p)), ',')
}

proof fn lemma_split_len(s: Seq<char>, sep: char)
    ensures
        split(s, sep).len() >= 1,
    decreases s.len(),
{
    if s.len() > 0 {
        lemma_split_len(s.drop_last(), sep);
    }
}

/// The pieces of `s` between dots.
fn split_dots(s: &str) -> (res: Vec<String>)
    ensures
        res@.len() == split(s@, '.').len(),
        forall|i: int| 0 <= i < res@.len() ==> #[trigger] res@[i]@ == split(s@, '.')[i],
{
    let n = s.unicode_len();
    let mut parts: Vec<String> = Vec::new();
    parts.push(String::new());
    let mut i: usize = 0;
    while i < n
        invariant
            n == s@.len(),
            i <= n,
            parts@.len() == split(s@.take(i as int), '.').len(),
            forall|j: int| 0 <= j < parts@.len() ==> #[trigger] parts@[j]@ == split(s@.take(i as int), '.')[j],
        decreases n - i,
    {
        let c = s.get_char(i);
        proof {
            assert(s@.take(i + 1).drop_last() == s@.take(i as int));
            assert(s@.take(i + 1).last() == c);
            lemma_split_len(s@.take(i as int), '.');
        }
        if c == '.' {
            parts.push(String::new());
        } else {
            let last = parts.len() - 1;
            let mut piece = parts.remove(last);
            push_char(&mut piece, c);
            parts.push(piece);
        }
        i = i + 1;
        proof {
            let sp = split(s@.take(i as int), '.');
            assert(parts@.len() == sp.len());
            assert forall|j: int| 0 <= j < parts@.len() implies #[trigger] parts@[j]@ == sp[j] by {}
        }
    }
    proof {
        assert(s@.take(n as int) == s@);
    }
    parts
}

fn camel_case_path(path: &str) -> (res: String)
    ensures
        res@ == camel_path(path@),
{
    let parts = split_dots(path);
    let ghost pieces = split(path@, '.');
    let ghost camel = pieces.map_values(|p: Seq<char>| heck_lower_camel(p));
    let mut s = String::new();
    let mut i: usize = 0;
    proof {
        lemma_split_len(path@, '.');
    }
    while i < parts.len()
        invariant
            parts@.len() == pieces.len(),
            pieces.len() >= 1,
            camel.len() == pieces.len(),
            forall|j: int| 0 <= j < parts@.len() ==> #[trigger] parts@[j]@ == pieces[j],
            forall|j: int| 0 <= j < pieces.len() ==> #[trigger] camel[j] == heck_lower_camel(pieces[j]),
            i <= parts@.len(),
            s@ == join(camel.take(i as int), '.'),
        decreases parts@.len() - i,
    {
        if i > 0 {
            push_char(&mut s, '.');
        }
        let part = lower_camel(parts[i].as_str());
        push_str(&mut s, part.as_str());
        proof {
            let t = camel.take(i + 1);
            assert(t.drop_last() == camel.take(i as int));
            assert(t.last() == camel[i as int]);
            if i == 0 {
                assert(t.len() == 1);
            }
        }
        i = i + 1;
    }
    proof {
        assert(camel.take(parts@.len() as int) == camel);
    }
    s
}

/// The JSON text of a field mask with the given paths.
fn field_mask_json(paths: &Vec<String>) -> (res: String)
    ensures
        res@ == field_mask_text(paths@.map_values(|p: String| p@)),
{
    let ghost ps = paths@.map_values(|p: String| p@);
    let ghost camel = ps.map_values(|p: Seq<char>| camel_path(p));
    let mut s = String::new();
    let mut i: usize = 0;
    while i < paths.len()
        invariant
            ps.len() == paths@.len(),
            camel.len() == ps.len(),
            forall|j: int| 0 <= j < ps.len() ==> #[trigger] ps[j] == paths@[j]@,
            forall|j: int| 0 <= j < ps.len() ==> #[trigger] camel[j] == camel_path(ps[j]),
            i <= paths@.len(),
            s@ == join(camel.take(i as int), ','),
        decreases paths@.len() - i,
    {
        if i > 0 {
            push_char(&mut s, ',');
        }
        let part = camel_case_path(paths[i].as_str());
        push_str(&mut s, part.as_str());
        proof {
            let t = camel.take(i + 1);
            assert(t.drop_last() == camel.take(i as int));
            assert(t.last() == camel[i as int]);
            if i == 0 {
                assert(t.len() == 1);
            }
        }
        i = i + 1;
    }
    proof {
        assert(camel.take(paths@.len() as int) == camel);
    }
    s
}

// ---------------------------------------------------------------------------
// Struct, ListValue and Value

/// A `google.protobuf.Value` as plain values: numbers by their bits.
#[derive(Debug)]
pub enum ProtoValue {
    Null,
    Number(u64),
    Str(String),
    Bool(bool),
    Struct(Vec<(String, ProtoValue)>),
    List(Vec<ProtoValue>),
}

/// The mathematical value of a `ProtoValue`.
pub enum ProtoSpec {
    Null,
    Number(u64),
    Str(Seq<char>),
    Bool(bool),
    Struct(Seq<(Seq<char>, ProtoSpec)>),
    List(Seq<ProtoSpec>),
}

pub open spec fn proto_view(v: ProtoValue) -> ProtoSpec
    decreases v,
{
    match v {
        ProtoValue::Null => ProtoSpec::Null,
        ProtoValue::Number(b) => ProtoSpec::Number(b),
        ProtoValue::Str(s) => ProtoSpec::Str(s@),
        ProtoValue::Bool(b) => ProtoSpec::Bool(b),
        ProtoValue::Struct(f) => ProtoSpec::Struct(
            Seq::new(
                f@.len(),
                |i: int|
                    if 0 <= i < f@.len() {
                        (f@[i].0@, proto_view(f@[i].1))
                    } else {
                        (Seq::empty(), ProtoSpec::Null)
                    },
            ),
        ),
        ProtoValue::List(l) => ProtoSpec::List(
            Seq::new(
                l@.len(),
                |i: int|
                    if 0 <= i < l@.len() {
                        proto_view(l@[i])
                    } else {
                        ProtoSpec::Null
                    },
            ),
        ),
    }
}

/// The JSON a `Value` stands for; numbers as doubles.
pub open spec fn value_json(v: ProtoSpec) -> JsonSpec
    decreases v,
{
    match v {
        ProtoSpec::Null => JsonSpec::Null,
        ProtoSpec::Number(b) => double_json(b),
        ProtoSpec::Str(s) => JsonSpec::Str(s),
        ProtoSpec::Bool(b) => JsonSpec::Bool(b),
        ProtoSpec::Struct(f) => JsonSpec::Object(
            Seq::new(
                f.len(),
                |i: int|
                    if 0 <= i < f.len() {
                        (f[i].0, value_json(f[i].1))
                    } else {
                        (Seq::empty(), JsonSpec::Null)
                    },
            ),
        ),
        ProtoSpec::List(l) => JsonSpec::Array(
            Seq::new(
                l.len(),
                |i: int|
                    if 0 <= i < l.len() {
                        value_json(l[i])
                    } else {
                        JsonSpec::Null
                    },
            ),
        ),
    }
}

/// The fields of a `Struct` that prost decodes from `w`, in the order of its
/// map, or `None` where it fails.
pub uninterp spec fn prost_struct(w: Seq<u8>) -> Option<ProtoSpec>;

/// The values of a `ListValue` that prost decodes from `w`, or `None` where
/// it fails.
pub uninterp spec fn prost_list_value(w: Seq<u8>) -> Option<ProtoSpec>;

/// The `Value` that prost decodes from `w`, or `None` where it fails.
pub uninterp spec fn prost_value(w: Seq<u8>) -> Option<ProtoSpec>;

/// prost's `google.protobuf.Value` message type.
#[verifier::external_type_specification]
#[verifier::external_body]
pub struct ExProstValue(prost_types::Value);

/// prost's `google.protobuf.Struct` message type.
#[verifier::external_type_specification]
#[verifier::external_body]
pub struct ExProstStruct(prost_types::Struct);

/// prost's `google.protobuf.ListValue` message type.
#[verifier::external_type_specification]
#[verifier::external_body]
pub struct ExProstListValue(prost_types::ListValue);

/// A decoded `prost_types::Value` as a `ProtoValue`: one variant for each
/// kind, a missing kind as `Null`.
#[verifier::external_body]
fn from_prost_value(v: prost_types::Value) -> ProtoValue {
    match v.kind {
        Some(prost_types::value::Kind::NullValue(_)) | None => ProtoValue::Null,
        Some(prost_types::value::Kind::NumberValue(n)) => ProtoValue::Number(n.to_bits()),
        Some(prost_types::value::Kind::StringValue(s)) => ProtoValue::Str(s),
        Some(prost_types::value::Kind::BoolValue(b)) => ProtoValue::Bool(b),
        Some(prost_types::value::Kind::StructValue(s)) => from_prost_struct(s),
        Some(prost_types::value::Kind::ListValue(l)) => from_prost_list(l),
    }
}

/// A decoded `prost_types::Struct` as a `ProtoValue`, fields in map order.
#[verifier::external_body]
fn from_prost_struct(s: prost_types::Struct) -> ProtoValue {
    ProtoValue::Struct(s.fields.into_iter().map(|(k, v)| (k, from_prost_value(v))).collect())
}

/// A decoded `prost_types::ListValue` as a `ProtoValue`.
#[verifier::external_body]
fn from_prost_list(l: prost_types::ListValue) -> ProtoValue {
    ProtoValue::List(l.values.into_iter().map(from_prost_value).collect())
}

/// Decodes a `prost_types::Struct` from `w` with `prost::Message::decode`.
/// Claims only that the result is the named result `prost_struct` of the
/// bytes.
#[verifier::external_body]
fn decode_struct(w: &[u8]) -> (res: Result<ProtoValue, prost::DecodeError>)
    ensures
        match res {
            Ok(v) => prost_struct(w@) == Some(proto_view(v)),
            Err(_) => prost_struct(w@) is None,
        },
{
    Ok(from_prost_struct(<prost_types::Struct as prost::Message>::decode(w)?))
}

/// Decodes a `prost_types::ListValue` from `w` with `prost::Message::decode`.
/// Claims only that the result is the named result `prost_list_value` of the
/// bytes.
#[verifier::external_body]
fn decode_list_value(w: &[u8]) -> (res: Result<ProtoValue, prost::DecodeError>)
    ensures
        match res {
            Ok(v) => prost_list_value(w@) == Some(proto_view(v)),
            Err(_) => prost_list_value(w@) is None,
        },
{
    Ok(from_prost_list(<prost_types::ListValue as prost::Message>::decode(w)?))
}

/// Decodes a `prost_types::Value` from `w` with `prost::Message::decode`.
/// Claims only that the result is the named result `prost_value` of the
/// bytes.
#[verifier::external_body]
fn decode_value(w: &[u8]) -> (res: Result<ProtoValue, prost::DecodeError>)
    ensures
        match res {
            Ok(v) => prost_value(w@) == Some(proto_view(v)),
            Err(_) => prost_value(w@) is None,
        },
{
    Ok(from_prost_value(<prost_types::Value as prost::Message>::decode(w)?))
}

proof fn lemma_proto_struct(fields: Vec<(String, ProtoValue)>)
    ensures
        proto_view(ProtoValue::Struct(fields)) == ProtoSpec::Struct(
            Seq::new(fields@.len(), |i: int| (fields@[i].0@, proto_view(fields@[i].1))),
        ),
{
    match proto_view(ProtoValue::Struct(fields)) {
        ProtoSpec::Struct(f) => {
            assert(f =~= Seq::new(fields@.len(), |i: int| (fields@[i].0@, proto_view(fields@[i].1))));
        },
        _ => {},
    }
}

proof fn lemma_proto_list(values: Vec<ProtoValue>)
    ensures
        proto_view(ProtoValue::List(values)) == ProtoSpec::List(Seq::new(values@.len(), |i: int| proto_view(values@[i]))),
{
    match proto_view(ProtoValue::List(values)) {
        ProtoSpec::List(l) => {
            assert(l =~= Seq::new(values@.len(), |i: int| proto_view(values@[i])));
        },
        _ => {},
    }
}

proof fn lemma_value_json_struct(f: Seq<(Seq<char>, ProtoSpec)>)
    ensures
        value_json(ProtoSpec::Struct(f)) == JsonSpec::Object(Seq::new(f.len(), |i: int| (f[i].0, value_json(f[i].1)))),
{
    match value_json(ProtoSpec::Struct(f)) {
        JsonSpec::Object(o) => {
            assert(o =~= Seq::new(f.len(), |i: int| (f[i].0, value_json(f[i].1))));
        },
        _ => {},
    }
}

proof fn lemma_value_json_list(l: Seq<ProtoSpec>)
    ensures
        value_json(ProtoSpec::List(l)) == JsonSpec::Array(Seq::new(l.len(), |i: int| value_json(l[i]))),
{
    match value_json(ProtoSpec::List(l)) {
        JsonSpec::Array(a) => {
            assert(a =~= Seq::new(l.len(), |i: int| value_json(l[i])));
        },
        _ => {},
    }
}

/// The JSON a decoded `Value` stands for.
pub fn value_to_json(v: ProtoValue) -> (res: JsonValue)
    ensures
        json_view(res) == value_json(proto_view(v)),
    decreases v,
{
    match v {
        ProtoValue::Null => JsonValue::Null,
        ProtoValue::Number(b) => double_to_json(b),
        ProtoValue::Str(s) => JsonValue::String(s),
        ProtoValue::Bool(b) => JsonValue::Bool(b),
        ProtoValue::Struct(fields) => {
            let ghost whole = fields;
            let ghost fv = fields@;
            proof {
                lemma_proto_struct(whole);
            }
            let mut fields = fields;
            let mut entries: Vec<JsonEntry> = Vec::new();
            let mut i: usize = 0;
            let n = fields.len();
            while i < n
                invariant
                    v == ProtoValue::Struct(whole),
                    whole@ == fv,
                    n == fv.len(),
                    i <= n,
                    fields@.len() == n - i,
                    forall|j: int| 0 <= j < fields@.len() ==> #[trigger] fields@[j] == fv[i + j],
                    entries@.len() == i,
                    forall|j: int| 0 <= j < i ==> (#[trigger] entries@[j]).key@ == fv[j].0@ && json_view(entries@[j].value)
                        == value_json(proto_view(fv[j].1)),
                decreases n - i,
            {
                assert(fields@[0] == fv[i as int]);
                proof {
                    vstd::std_specs::vec::axiom_vec_index_decreases(whole, i as int);
                    assert(decreases_to!(v => v->Struct_0));
                    assert(decreases_to!(whole[i as int] => whole[i as int].1));
                    assert(decreases_to!(v => whole[i as int].1));
                }
                let (k, val) = fields.remove(0);
                let j = value_to_json(val);
                entries.push(JsonEntry { key: k, value: j });
                i = i + 1;
            }
            proof {
                lemma_object_view(entries);
                let pf = Seq::new(fv.len(), |i: int| (fv[i].0@, proto_view(fv[i].1)));
                lemma_value_json_struct(pf);
                assert(crate::json::entries_view(entries@) =~= Seq::new(pf.len(), |i: int| (pf[i].0, value_json(pf[i].1))));
            }
            JsonValue::Object(entries)
        },
        ProtoValue::List(values) => {
            let ghost whole = values;
            let ghost lv = values@;
            proof {
                lemma_proto_list(whole);
            }
            let mut values = values;
            let mut items: Vec<JsonValue> = Vec::new();
            let mut i: usize = 0;
            let n = values.len();
            while i < n
                invariant
                    v == ProtoValue::List(whole),
                    whole@ == lv,
                    n == lv.len(),
                    i <= n,
                    values@.len() == n - i,
                    forall|j: int| 0 <= j < values@.len() ==> #[trigger] values@[j] == lv[i + j],
                    items@.len() == i,
                    forall|j: int| 0 <= j < i ==> json_view(#[trigger] items@[j]) == value_json(proto_view(lv[j])),
                decreases n - i,
            {
                assert(values@[0] == lv[i as int]);
                proof {
                    vstd::std_specs::vec::axiom_vec_index_decreases(whole, i as int);
                    assert(decreases_to!(v => v->List_0));
                    assert(decreases_to!(v => whole[i as int]));
                }
                let val = values.remove(0);
                let j = value_to_json(val);
                items.push(j);
                i = i + 1;
            }
            proof {
                lemma_array_view(items);
                let pl = Seq::new(lv.len(), |i: int| proto_view(lv[i]));
                lemma_value_json_list(pl);
                assert(crate::json::items_view(items@) =~= Seq::new(pl.len(), |i: int| value_json(pl[i])));
            }
            JsonValue::Array(items)
        },
    }
}

// ---------------------------------------------------------------------------
// Wrappers and Empty, which prost decodes field by field

/// The JSON of a wrapper whose value field is absent: the scalar's zero.
pub open spec fn zero_json(s: Scalar) -> JsonSpec {
    match s {
        Scalar::Double => double_json(0),
        Scalar::Float => JsonSpec::Float(0),
        Scalar::Int64 | Scalar::Uint64 | Scalar::Sint64 | Scalar::Fixed64 | Scalar::Sfixed64 => JsonSpec::Str(int_decimal(0)),
        Scalar::Bool => JsonSpec::Bool(false),
        Scalar::String | Scalar::Bytes => JsonSpec::Str(Seq::empty()),
        _ => JsonSpec::Number(0),
    }
}

/// Reading a wrapper message's fields to the end of the window: the value
/// field (tag 1) must have the scalar's wire type and the last one wins;
/// other fields are skipped.
pub open spec fn dec_wrapper(s: Scalar, b: BufView, acc: JsonSpec) -> Result<(JsonSpec, BufView), ErrorKind>
    decreases b.remaining(),
{
    if b.remaining() == 0 {
        Ok((acc, b))
    } else {
        match spec_key(b.window()) {
            None => Err(ErrorKind::Wire),
            Some((tag, wt, n)) => {
                let b1 = b.advance(n);
                if tag == 1 {
                    if wt != scalar_wire_type(s) {
                        Err(ErrorKind::WireTypeMismatch)
                    } else {
                        match dec_scalar(s, b1) {
                            Ok((v, b2)) => if b2.remaining() < b.remaining() {
                                dec_wrapper(s, b2, v)
                            } else {
                                stuck()
                            },
                            Err(e) => Err(e),
                        }
                    }
                } else {
                    match spec_skip(wt, tag, b1.window()) {
                        Some(k) => if k <= b1.remaining() && b1.advance(k).remaining() < b.remaining() {
                            dec_wrapper(s, b1.advance(k), acc)
                        } else {
                            stuck()
                        },
                        None => Err(ErrorKind::Wire),
                    }
                }
            },
        }
    }
}

/// Reading an `Empty` message: every field is skipped.
pub open spec fn dec_empty(b: BufView) -> Result<(JsonSpec, BufView), ErrorKind>
    decreases b.remaining(),
{
    if b.remaining() == 0 {
        Ok((JsonSpec::Object(Seq::empty()), b))
    } else {
        match spec_key(b.window()) {
            None => Err(ErrorKind::Wire),
            Some((tag, wt, n)) => {
                let b1 = b.advance(n);
                match spec_skip(wt, tag, b1.window()) {
                    Some(k) => if k <= b1.remaining() && b1.advance(k).remaining() < b.remaining() {
                        dec_empty(b1.advance(k))
                    } else {
                        stuck()
                    },
                    None => Err(ErrorKind::Wire),
                }
            },
        }
    }
}

/// Reading a well-known message from the window. Those prost decodes whole
/// take the whole window.
#[verifier::opaque]
pub open spec fn dec_well_known(k: WellKnown, b: BufView) -> Result<(JsonSpec, BufView), ErrorKind> {
    let w = b.window();
    let done = b.advance(b.remaining());
    match k {
        WellKnown::Timestamp => match prost_timestamp(w) {
            None => Err(ErrorKind::Wire),
            Some((secs, nanos)) => if nanos < 0 {
                Err(ErrorKind::InvalidTimestamp)
            } else {
                match chrono_rfc3339(secs, nanos as u32) {
                    Some(t) => Ok((JsonSpec::Str(t), done)),
                    None => Err(ErrorKind::InvalidTimestamp),
                }
            },
        },
        WellKnown::Duration => match prost_duration(w) {
            None => Err(ErrorKind::Wire),
            Some((secs, nanos)) => Ok((JsonSpec::Str(duration_text(secs, nanos)), done)),
        },
        WellKnown::Struct => match prost_struct(w) {
            None => Err(ErrorKind::Wire),
            Some(v) => Ok((value_json(v), done)),
        },
        WellKnown::ListValue => match prost_list_value(w) {
            None => Err(ErrorKind::Wire),
            Some(v) => Ok((value_json(v), done)),
        },
        WellKnown::Value => match prost_value(w) {
            None => Err(ErrorKind::Wire),
            Some(v) => Ok((value_json(v), done)),
        },
        WellKnown::FieldMask => match prost_field_mask(w) {
            None => Err(ErrorKind::Wire),
            Some(paths) => Ok((JsonSpec::Str(field_mask_text(paths)), done)),
        },
        WellKnown::Empty => dec_empty(b),
        WellKnown::Wrapper(s) => dec_wrapper(s, b, zero_json(s)),
    }
}

/// Reads the fields of a wrapper message to the end of the window.
fn deserialize_wrapper(buf: &mut DecodeBuf, s: Scalar) -> (res: Result<JsonValue, Error>)
    requires
        old(buf).wf(),
    ensures
        final(buf).wf(),
        decoded(res, final(buf)@, dec_wrapper(s, old(buf)@, zero_json(s))),
        res is Ok ==> follows(final(buf)@, old(buf)@),
{
    let mut acc = zero_value(s);
    let ghost b0 = buf@;
    proof {
        lemma_follows_refl(b0);
    }
    while buf.has_remaining()
        invariant
            buf.wf(),
            b0 == old(buf)@,
            follows(buf@, b0),
            dec_wrapper(s, buf@, json_view(acc)) == dec_wrapper(s, b0, zero_json(s)),
        decreases buf@.remaining(),
    {
        let ghost b = buf@;
        let ghost old_acc = acc;
        let w = buf.chunk();
        let len = w.len();
        let (tag, wt, rest) = match read_key(w) {
            Ok(k) => k,
            Err(e) => return Err(Error::wire(e)),
        };
        proof {
            lemma_prefix_len(w@);
        }
        buf.advance(len - rest);
        let ghost b1 = buf@;
        if tag == 1 {
            if wt != wire_type_of_scalar(s) {
                return Err(Error::of(ErrorKind::WireTypeMismatch));
            }
            acc = match deserialize_scalar(buf, s) {
                Ok(v) => v,
                Err(e) => return Err(e),
            };
            proof {
                lemma_follows_remaining(buf@, b1);
                lemma_follows_trans(buf@, b1, b);
                assert(dec_wrapper(s, b, json_view(old_acc)) == dec_wrapper(s, buf@, json_view(acc)));
            }
        } else {
            let w2 = buf.chunk();
            let len2 = w2.len();
            match skip_field(wt, tag, w2) {
                Ok(rest2) => buf.advance(len2 - rest2),
                Err(e) => return Err(Error::wire(e)),
            }
            proof {
                lemma_follows_trans(buf@, b1, b);
            }
        }
        proof {
            lemma_follows_trans(buf@, b, b0);
        }
    }
    Ok(acc)
}

/// Reads an `Empty` message, skipping every field.
fn deserialize_empty(buf: &mut DecodeBuf) -> (res: Result<JsonValue, Error>)
    requires
        old(buf).wf(),
    ensures
        final(buf).wf(),
        decoded(res, final(buf)@, dec_empty(old(buf)@)),
        res is Ok ==> follows(final(buf)@, old(buf)@),
{
    let ghost b0 = buf@;
    proof {
        lemma_follows_refl(b0);
    }
    while buf.has_remaining()
        invariant
            buf.wf(),
            b0 == old(buf)@,
            follows(buf@, b0),
            dec_empty(buf@) == dec_empty(b0),
        decreases buf@.remaining(),
    {
        let ghost b = buf@;
        let w = buf.chunk();
        let len = w.len();
        let (tag, wt, rest) = match read_key(w) {
            Ok(k) => k,
            Err(e) => return Err(Error::wire(e)),
        };
        proof {
            lemma_prefix_len(w@);
        }
        buf.advance(len - rest);
        let ghost b1 = buf@;
        let w2 = buf.chunk();
        let len2 = w2.len();
        match skip_field(wt, tag, w2) {
            Ok(rest2) => buf.advance(len2 - rest2),
            Err(e) => return Err(Error::wire(e)),
        }
        proof {
            lemma_follows_trans(buf@, b1, b);
            lemma_follows_trans(buf@, b, b0);
        }
    }
    let members: Vec<JsonEntry> = Vec::new();
    proof {
        lemma_object_view(members);
        assert(crate::json::entries_view(members@) =~= Seq::empty());
    }
    Ok(JsonValue::Object(members))
}

fn wire_type_of_scalar(s: Scalar) -> (res: WireType)
    ensures
        res == scalar_wire_type(s),
{
    match s {
        Scalar::Double | Scalar::Fixed64 | Scalar::Sfixed64 => WireType::SixtyFourBit,
        Scalar::Float | Scalar::Fixed32 | Scalar::Sfixed32 => WireType::ThirtyTwoBit,
        Scalar::String | Scalar::Bytes => WireType::LengthDelimited,
        _ => WireType::Varint,
    }
}

fn zero_value(s: Scalar) -> (res: JsonValue)
    ensures
        json_view(res) == zero_json(s),
{
    match s {
        Scalar::Double => double_to_json(0),
        Scalar::Float => JsonValue::Float(0),
        Scalar::Int64 | Scalar::Uint64 | Scalar::Sint64 | Scalar::Fixed64 | Scalar::Sfixed64 => JsonValue::String(decimal(0)),
        Scalar::Bool => JsonValue::Bool(false),
        Scalar::String | Scalar::Bytes => JsonValue::String(String::new()),
        _ => JsonValue::Number(0),
    }
}

/// Reads a well-known message from the window.
pub fn deserialize_well_known(buf: &mut DecodeBuf, k: WellKnown) -> (res: Result<JsonValue, Error>)
    requires
        old(buf).wf(),
    ensures
        final(buf).wf(),
        decoded(res, final(buf)@, dec_well_known(k, old(buf)@)),
        res is Ok ==> follows(final(buf)@, old(buf)@),
{
    reveal(dec_well_known);
    match k {
        WellKnown::Empty => return deserialize_empty(buf),
        WellKnown::Wrapper(s) => return deserialize_wrapper(buf, s),
        _ => {},
    }
    let w = buf.chunk();
    let len = w.len();
    let value = match k {
        WellKnown::Timestamp => match decode_timestamp(w) {
            Err(e) => return Err(Error::wire(e)),
            Ok((secs, nanos)) => {
                if nanos < 0 {
                    return Err(Error::of(ErrorKind::InvalidTimestamp));
                }
                match rfc3339(secs, nanos as u32) {
                    Some(t) => JsonValue::String(t),
                    None => return Err(Error::of(ErrorKind::InvalidTimestamp)),
                }
            },
        },
        WellKnown::Duration => match decode_duration(w) {
            Err(e) => return Err(Error::wire(e)),
            Ok((secs, nanos)) => JsonValue::String(format_duration(secs, nanos)),
        },
        WellKnown::Struct => match decode_struct(w) {
            Err(e) => return Err(Error::wire(e)),
            Ok(v) => value_to_json(v),
        },
        WellKnown::ListValue => match decode_list_value(w) {
            Err(e) => return Err(Error::wire(e)),
            Ok(v) => value_to_json(v),
        },
        WellKnown::Value => match decode_value(w) {
            Err(e) => return Err(Error::wire(e)),
            Ok(v) => value_to_json(v),
        },
        _ => match decode_field_mask(w) {
            Err(e) => return Err(Error::wire(e)),
            Ok(paths) => {
                let text = field_mask_json(&paths);
                proof {
                    assert(paths@.map_values(|p: String| p@) =~= prost_field_mask(w@).unwrap());
                }
                JsonValue::String(text)
            },
        },
    };
    buf.advance(len);
    Ok(value)
}

/// A wrapper message with no value field, whose encoding is empty, decodes
/// to its scalar type's default: `false` for `BoolValue`, the empty string
/// for `StringValue` and `BytesValue`, the string "0" for the 64-bit
/// integers, and zero for the 32-bit integers, `FloatValue` and
/// `DoubleValue`. It reads nothing.
pub proof fn law_absent_wrapper_value(s: Scalar, b: BufView)
    requires
        b.remaining() == 0,
    ensures
        s is Bool ==> dec_well_known(WellKnown::Wrapper(s), b) == Ok::<(JsonSpec, BufView), ErrorKind>((JsonSpec::Bool(false), b)),
        (s is String || s is Bytes) ==> dec_well_known(WellKnown::Wrapper(s), b) == Ok::<(JsonSpec, BufView), ErrorKind>(
            (JsonSpec::Str(Seq::empty()), b),
        ),
        (s is Int64 || s is Uint64 || s is Sint64 || s is Fixed64 || s is Sfixed64) ==> dec_well_known(WellKnown::Wrapper(s), b)
            == Ok::<(JsonSpec, BufView), ErrorKind>((JsonSpec::Str(seq!['0']), b)),
        (s is Int32 || s is Uint32 || s is Sint32 || s is Fixed32 || s is Sfixed32) ==> dec_well_known(WellKnown::Wrapper(s), b)
            == Ok::<(JsonSpec, BufView), ErrorKind>((JsonSpec::Number(0), b)),
        s is Float ==> dec_well_known(WellKnown::Wrapper(s), b) == Ok::<(JsonSpec, BufView), ErrorKind>((JsonSpec::Float(0), b)),
        s is Double ==> dec_well_known(WellKnown::Wrapper(s), b) == Ok::<(JsonSpec, BufView), ErrorKind>((JsonSpec::Double(0), b)),
{
    reveal(dec_well_known);
    assert(int_decimal(0) =~= seq!['0']);
}

/// A duration is written as its seconds in decimal and an `s`; where it has
/// between one and 999,999,999 nanoseconds, a dot and exactly nine digits
/// spelling them stand between, so that 1.5 seconds is `1.500000000s`.
pub proof fn law_duration_text(secs: i64, nanos: i32)
    ensures
        nanos == 0 ==> duration_text(secs, nanos) == int_decimal(secs as int) + seq!['s'],
        0 < nanos < 1_000_000_000 ==> {
            let t = duration_text(secs, nanos);
            let l = int_decimal(secs as int).len() as int;
            &&& t.len() == l + 11
            &&& t.subrange(0, l) == int_decimal(secs as int)
            &&& t[l] == '.'
            &&& all_digits(t.subrange(l + 1, l + 10))
            &&& digits_value(t.subrange(l + 1, l + 10)) == nanos
            &&& t[l + 10] == 's'
        },
{
    reveal_strlit("s");
    reveal_strlit(".");
    if 0 < nanos < 1_000_000_000 {
        let n = nanos as nat;
        vstd::arithmetic::power::lemma_pow_positive(10, 9);
        assert(vstd::arithmetic::power::pow(10, 9) == 1_000_000_000) by {
            reveal_with_fuel(vstd::arithmetic::power::pow, 10);
        }
        lemma_nat_digits_spell(n, 9, 1_000_000_000);
        let d = int_decimal(nanos as int);
        let f = pad_left(d, 9, '0');
        let z = (9 - d.len()) as nat;
        if d.len() < 9 {
            lemma_leading_zeros(z, d);
            assert forall|i: int| 0 <= i < f.len() implies '0' <= #[trigger] f[i] <= '9' by {
                if i >= z {
                    assert(f[i] == d[i - z]);
                }
            }
        }
        let t = duration_text(secs, nanos);
        let l = int_decimal(secs as int).len() as int;
        assert(t.subrange(l + 1, l + 10) =~= f);
        assert(t.subrange(0, l) =~= int_decimal(secs as int));
    }
}

/// A wrapper message that holds just its value field, number 1 with the
/// scalar's wire type, decodes to that value read as the scalar.
pub proof fn law_wrapper_holds_its_value(s: Scalar, b: BufView)
    requires
        spec_key(b.window()) matches Some((tag, wt, n)) && tag == 1 && wt == scalar_wire_type(s),
    ensures
        ({
            let n = spec_key(b.window())->Some_0.2;
            match dec_scalar(s, b.advance(n)) {
                Ok((v, b2)) => b2.remaining() == 0 ==> dec_well_known(WellKnown::Wrapper(s), b) == Ok::<
                    (JsonSpec, BufView),
                    ErrorKind,
                >((v, b2)),
                Err(_) => true,
            }
        }),
{
    reveal(dec_well_known);
    let w = b.window();
    lemma_prefix_len(w);
    lemma_prefix_within(w);
    let n = spec_key(w)->Some_0.2;
    assert(w.len() == b.remaining());
    if let Ok((v, b2)) = dec_scalar(s, b.advance(n)) {
        if b2.remaining() == 0 {
            assert(dec_wrapper(s, b2, v) == Ok::<(JsonSpec, BufView), ErrorKind>((v, b2)));
            assert(dec_wrapper(s, b, zero_json(s)) == dec_wrapper(s, b2, v));
        }
    }
}

} // verus!
