//! Decoding of protobuf messages into JSON values, by the types of a
//! `TypeMap`: the JSON mapping of protobuf, with 64-bit integers as strings,
//! bytes as base64, enums by name, and maps as objects.
use vstd::prelude::*;
use vstd::slice::slice_to_vec;
use vstd::utf8::{decode_utf8, valid_utf8};

use crate::decode_buf::{follows, lemma_advance, lemma_follows_refl, lemma_follows_remaining, lemma_follows_trans, lemma_push_pop, BufView, DecodeBuf};
use crate::format::{base64_encode, base64_standard, decimal, int_decimal};
use crate::json::{
    double_json, double_to_json, entries_view, float_json, float_to_json, items_view, json_view,
    lemma_array_view, lemma_obj_find, lemma_object_view, obj_find, obj_get, obj_set, object_find, JsonEntry,
    JsonSpec, JsonValue,
};
use crate::ty::{field_view, slab_fields, spec_is_numeric, Enum, EnumValue, Message, Scalar, Ty, TypeId, TypeMap};
use crate::well_known::{dec_well_known, deserialize_well_known, well_known_kind, well_known_of};
use crate::wire::{
    le32, le64, lemma_prefix_len, lemma_prefix_within, read_bool, read_bytes, read_double, read_fixed32,
    read_fixed64, read_float, read_int32, read_int64, read_key, read_length_delimiter, read_sfixed32,
    read_sfixed64, read_sint32, read_sint64, read_string, read_uint32, read_uint64, read_varint, skip_field,
    spec_delimited, spec_key, spec_length_delimiter, spec_skip, spec_varint, zigzag32, zigzag64, WireType,
};

verus! {

/// Why a decode failed.
#[derive(Debug, Clone, Copy, PartialEq, Eq, Structural)]
pub enum ErrorKind {
    /// prost could not read a key, a number or length-delimited data.
    Wire,
    /// A field of a well-known message came with another wire type than its
    /// type has.
    WireTypeMismatch,
    /// A length prefix exceeds the bytes its enclosing message has left.
    LimitTooLarge,
    /// A message field did not come length-delimited.
    InvalidWireTypeForMessage,
    /// The type asked for at the top is not a message.
    TopLevelNotMessage,
    /// A map entry is not an object, or its key is not a string, a boolean or
    /// an integer.
    InvalidMapEntry,
    /// A map entry lacks its key or its value.
    MissingMapEntryField,
    /// A timestamp with negative nanoseconds or out of range.
    InvalidTimestamp,
    /// Groups are not decoded.
    UnsupportedGroup,
    /// Two fields with one JSON name but types of different shapes met.
    UnexpectedShape,
}

impl ErrorKind {
    /// The message the error is shown with.
    pub fn message(&self) -> (res: &'static str)
        ensures
            res@ == error_message(*self),
    {
        match self {
            ErrorKind::Wire => "failed to decode Protobuf message",
            ErrorKind::WireTypeMismatch => "invalid wire type",
            ErrorKind::LimitTooLarge => "limit too large",
            ErrorKind::InvalidWireTypeForMessage => "invalid wire type for message",
            ErrorKind::TopLevelNotMessage => "expected top-level type to be a message",
            ErrorKind::InvalidMapEntry => "invalid type for map entry",
            ErrorKind::MissingMapEntryField => "no key found for map entry",
            ErrorKind::InvalidTimestamp => "invalid timestamp",
            ErrorKind::UnsupportedGroup => "groups are not supported",
            ErrorKind::UnexpectedShape => "unexpected value type",
        }
    }
}

/// The message of each kind of error.
pub open spec fn error_message(k: ErrorKind) -> Seq<char> {
    match k {
        ErrorKind::Wire => "failed to decode Protobuf message"@,
        ErrorKind::WireTypeMismatch => "invalid wire type"@,
        ErrorKind::LimitTooLarge => "limit too large"@,
        ErrorKind::InvalidWireTypeForMessage => "invalid wire type for message"@,
        ErrorKind::TopLevelNotMessage => "expected top-level type to be a message"@,
        ErrorKind::InvalidMapEntry => "invalid type for map entry"@,
        ErrorKind::MissingMapEntryField => "no key found for map entry"@,
        ErrorKind::InvalidTimestamp => "invalid timestamp"@,
        ErrorKind::UnsupportedGroup => "groups are not supported"@,
        ErrorKind::UnexpectedShape => "unexpected value type"@,
    }
}

/// A failed decode: its kind, and prost's error where prost failed.
#[derive(Debug)]
pub struct Error {
    pub kind: ErrorKind,
    pub source: Option<prost::DecodeError>,
}

impl Error {
    pub(crate) fn wire(e: prost::DecodeError) -> (res: Error)
        ensures
            res.kind == ErrorKind::Wire,
            res.source == Some(e),
    {
        Error { kind: ErrorKind::Wire, source: Some(e) }
    }

    pub(crate) fn of(kind: ErrorKind) -> (res: Error)
        ensures
            res.kind == kind,
    {
        Error { kind, source: None }
    }
}

/// The outcome of the branches that the reads of a well-formed type map
/// never reach: a type index out of range or pointing upwards, or a read
/// that does not move the buffer on. The definitions below are total, and
/// these branches end them with an error.
pub open spec fn stuck() -> Result<(JsonSpec, BufView), ErrorKind> {
    Err(ErrorKind::UnexpectedShape)
}

/// Closing a length-delimited frame after its contents are read: the frame
/// must have been read to its end, so that a length prefix reaching past the
/// bytes there are is an error; then its limit is dropped.
pub open spec fn close_frame(r: Result<(JsonSpec, BufView), ErrorKind>) -> Result<(JsonSpec, BufView), ErrorKind> {
    match r {
        Ok((v, b)) => if b.limits.len() > 0 && b.limits.last() == 0 {
            Ok((v, b.pop_limit()))
        } else {
            Err(ErrorKind::Wire)
        },
        Err(e) => Err(e),
    }
}

/// A decode result against the spec: the value and the buffer state after it,
/// or the kind of error.
pub open spec fn decoded(
    res: Result<JsonValue, Error>,
    after: BufView,
    spec: Result<(JsonSpec, BufView), ErrorKind>,
) -> bool {
    match res {
        Ok(v) => spec == Ok::<(JsonSpec, BufView), ErrorKind>((json_view(v), after)),
        Err(e) => spec == Err::<(JsonSpec, BufView), ErrorKind>(e.kind),
    }
}

/// The wire type that a field of the scalar type comes with.
pub open spec fn scalar_wire_type(s: Scalar) -> WireType {
    match s {
        Scalar::Double | Scalar::Fixed64 | Scalar::Sfixed64 => WireType::SixtyFourBit,
        Scalar::Float | Scalar::Fixed32 | Scalar::Sfixed32 => WireType::ThirtyTwoBit,
        Scalar::String | Scalar::Bytes => WireType::LengthDelimited,
        _ => WireType::Varint,
    }
}

/// The JSON form of a scalar read as a varint `x`: 32-bit numbers as
/// numbers, 64-bit numbers as decimal strings, booleans as booleans.
pub open spec fn varint_json(s: Scalar, x: u64) -> JsonSpec {
    match s {
        Scalar::Int32 => JsonSpec::Number((x as i32) as int),
        Scalar::Int64 => JsonSpec::Str(int_decimal((x as i64) as int)),
        Scalar::Uint32 => JsonSpec::Number((x as u32) as int),
        Scalar::Uint64 => JsonSpec::Str(int_decimal(x as int)),
        Scalar::Sint32 => JsonSpec::Number(zigzag32(x as u32) as int),
        Scalar::Sint64 => JsonSpec::Str(int_decimal(zigzag64(x) as int)),
        _ => JsonSpec::Bool(x != 0),
    }
}

/// Reading a value of a scalar type from the window of `b`.
pub open spec fn dec_scalar(s: Scalar, b: BufView) -> Result<(JsonSpec, BufView), ErrorKind> {
    let w = b.window();
    match s {
        Scalar::Double => if w.len() >= 8 {
            Ok((double_json(le64(w)), b.advance(8)))
        } else {
            Err(ErrorKind::Wire)
        },
        Scalar::Float => if w.len() >= 4 {
            Ok((float_json(le32(w)), b.advance(4)))
        } else {
            Err(ErrorKind::Wire)
        },
        Scalar::Fixed32 => if w.len() >= 4 {
            Ok((JsonSpec::Number(le32(w) as int), b.advance(4)))
        } else {
            Err(ErrorKind::Wire)
        },
        Scalar::Fixed64 => if w.len() >= 8 {
            Ok((JsonSpec::Str(int_decimal(le64(w) as int)), b.advance(8)))
        } else {
            Err(ErrorKind::Wire)
        },
        Scalar::Sfixed32 => if w.len() >= 4 {
            Ok((JsonSpec::Number((le32(w) as i32) as int), b.advance(4)))
        } else {
            Err(ErrorKind::Wire)
        },
        Scalar::Sfixed64 => if w.len() >= 8 {
            Ok((JsonSpec::Str(int_decimal((le64(w) as i64) as int)), b.advance(8)))
        } else {
            Err(ErrorKind::Wire)
        },
        Scalar::String => match spec_delimited(w) {
            Some((data, n)) => if valid_utf8(data) {
                Ok((JsonSpec::Str(decode_utf8(data)), b.advance(n)))
            } else {
                Err(ErrorKind::Wire)
            },
            None => Err(ErrorKind::Wire),
        },
        Scalar::Bytes => match spec_delimited(w) {
            Some((data, n)) => Ok((JsonSpec::Str(base64_standard(data)), b.advance(n))),
            None => Err(ErrorKind::Wire),
        },
        _ => match spec_varint(w) {
            Some((x, n)) => Ok((varint_json(s, x), b.advance(n))),
            None => Err(ErrorKind::Wire),
        },
    }
}

/// The full name of the enum whose values decode to JSON `null`.
pub open spec fn null_value_name() -> Seq<char> {
    ".google.protobuf.NullValue"@
}

/// The index of the first value with the given number, compared as Rust
/// compares `number as u64` with it.
pub open spec fn enum_index(values: Seq<EnumValue>, v: u64) -> Option<int>
    decreases values.len(),
{
    if values.len() == 0 {
        None
    } else if values[0].number as u64 == v {
        Some(0)
    } else {
        match enum_index(values.skip(1), v) {
            Some(i) => Some(i + 1),
            None => None,
        }
    }
}

/// Reading a value of an enum type: its name where a value has its number,
/// else the number; `null` for the well-known `NullValue`.
pub open spec fn dec_enum(e: Enum, b: BufView) -> Result<(JsonSpec, BufView), ErrorKind> {
    match spec_varint(b.window()) {
        Some((x, n)) => {
            let v = if e.name@ == null_value_name() {
                JsonSpec::Null
            } else {
                match enum_index(e.values@, x) {
                    Some(i) => JsonSpec::Str(e.values@[i].name@),
                    None => JsonSpec::Number(x as int),
                }
            };
            Ok((v, b.advance(n)))
        },
        None => Err(ErrorKind::Wire),
    }
}

/// The value a field starts from before it is read: empty objects for
/// messages and maps, an empty array for lists, the first value numbered
/// zero for enums (else `null`), and zero, `false` or the empty string for
/// scalars.
pub open spec fn default_json(t: Ty) -> JsonSpec {
    match t {
        Ty::Message(_) => JsonSpec::Object(Seq::empty()),
        Ty::Mapping(_) => JsonSpec::Object(Seq::empty()),
        Ty::Group(_) => JsonSpec::Object(Seq::empty()),
        Ty::List(_) => JsonSpec::Array(Seq::empty()),
        Ty::Enum(e) => match enum_index(e.values@, 0) {
            Some(i) => JsonSpec::Str(e.values@[i].name@),
            None => JsonSpec::Null,
        },
        Ty::Scalar(s) => match s {
            Scalar::Bool => JsonSpec::Bool(false),
            Scalar::String | Scalar::Bytes => JsonSpec::Str(Seq::empty()),
            _ => JsonSpec::Number(0),
        },
    }
}

/// The default value of the type with index `ty`.
pub open spec fn default_of(map: TypeMap, ty: nat) -> JsonSpec {
    default_json(map.types()[ty as int])
}

/// Types whose repeated fields may come packed: numeric scalars and enums.
pub open spec fn is_packable(t: Ty) -> bool {
    match t {
        Ty::Scalar(s) => spec_is_numeric(s),
        Ty::Enum(_) => true,
        _ => false,
    }
}

/// Types read by a single prost read.
pub open spec fn is_leaf(t: Ty) -> bool {
    t is Scalar || t is Enum
}

/// Reading a field of the type with index `ty` into its current value `cur`.
pub open spec fn dec_any(map: TypeMap, b: BufView, wt: WireType, ty: nat, cur: JsonSpec) -> Result<(JsonSpec, BufView), ErrorKind>
    decreases b.remaining(), ty, 5nat,
{
    if ty >= map.types().len() {
        stuck()
    } else {
        match map.types()[ty as int] {
            Ty::Message(_) => dec_len_message(map, b, wt, ty, cur),
            Ty::Enum(e) => dec_enum(e, b),
            Ty::Scalar(s) => dec_scalar(s, b),
            Ty::List(t) => if (t.0 as nat) < ty {
                dec_list(map, b, wt, ty, t.0 as nat, cur)
            } else {
                stuck()
            },
            Ty::Mapping(t) => if (t.0 as nat) < ty {
                dec_map(map, b, wt, ty, t.0 as nat, cur)
            } else {
                stuck()
            },
            Ty::Group(_) => Err(ErrorKind::UnsupportedGroup),
        }
    }
}

/// Reading a length-delimited message field: the length is pushed as a
/// limit for the message's fields and dropped after them.
pub open spec fn dec_len_message(map: TypeMap, b: BufView, wt: WireType, ty: nat, cur: JsonSpec) -> Result<(JsonSpec, BufView), ErrorKind>
    decreases b.remaining(), ty, 4nat,
{
    if wt != WireType::LengthDelimited {
        Err(ErrorKind::InvalidWireTypeForMessage)
    } else {
        match spec_length_delimiter(b.window()) {
            None => Err(ErrorKind::Wire),
            Some((len, n)) => match b.advance(n).push_limit(len) {
                None => Err(ErrorKind::LimitTooLarge),
                Some(b2) => if b2.remaining() < b.remaining() {
                    close_frame(dec_message_body(map, b2, ty, cur))
                } else {
                    stuck()
                },
            },
        }
    }
}

/// Reading the fields of a message to the end of the window into `cur`;
/// well-known messages have their own JSON forms.
pub open spec fn dec_message_body(map: TypeMap, b: BufView, ty: nat, cur: JsonSpec) -> Result<(JsonSpec, BufView), ErrorKind>
    decreases b.remaining(), ty, 2nat,
{
    if ty >= map.types().len() {
        stuck()
    } else {
        match map.types()[ty as int] {
            Ty::Message(m) => match well_known_of(m.name@) {
                Some(k) => dec_well_known(k, b),
                None => match cur {
                    JsonSpec::Object(o) => dec_fields(map, b, ty, o),
                    _ => Err(ErrorKind::UnexpectedShape),
                },
            },
            _ => stuck(),
        }
    }
}

/// Reading fields until the window is empty: a known field is read into the
/// member named by its JSON name, starting from the member's value or the
/// type's default; an unknown one is skipped.
pub open spec fn dec_fields(map: TypeMap, b: BufView, ty: nat, o: Seq<(Seq<char>, JsonSpec)>) -> Result<(JsonSpec, BufView), ErrorKind>
    decreases b.remaining(), ty, 1nat,
{
    if ty >= map.types().len() {
        stuck()
    } else if b.remaining() == 0 {
        Ok((JsonSpec::Object(o), b))
    } else {
        match map.types()[ty as int] {
            Ty::Message(m) => match spec_key(b.window()) {
                None => Err(ErrorKind::Wire),
                Some((tag, wt, n)) => {
                    let b1 = b.advance(n);
                    if slab_fields(m.fields).contains_key(tag as usize) {
                        let f = slab_fields(m.fields)[tag as usize];
                        let cur = match obj_get(o, f.1) {
                            Some(v) => v,
                            None => default_of(map, f.3 as nat),
                        };
                        if b1.remaining() < b.remaining() && (f.3 as nat) < ty {
                            match dec_any(map, b1, wt, f.3 as nat, cur) {
                                Ok((v, b2)) => if b2.remaining() < b.remaining() {
                                    dec_fields(map, b2, ty, obj_set(o, f.1, v))
                                } else {
                                    stuck()
                                },
                                Err(e) => Err(e),
                            }
                        } else {
                            stuck()
                        }
                    } else {
                        match spec_skip(wt, tag, b1.window()) {
                            Some(k) => if k <= b1.remaining() && b1.advance(k).remaining() < b.remaining() {
                                dec_fields(map, b1.advance(k), ty, o)
                            } else {
                                stuck()
                            },
                            None => Err(ErrorKind::Wire),
                        }
                    }
                },
            },
            _ => stuck(),
        }
    }
}

/// Reading into a list of the element type with index `inner`: a packed
/// run of numbers or enums where the field comes length-delimited and the
/// element type allows it, else one element.
pub open spec fn dec_list(map: TypeMap, b: BufView, wt: WireType, outer: nat, inner: nat, cur: JsonSpec) -> Result<(JsonSpec, BufView), ErrorKind>
    decreases b.remaining(), outer, 3nat,
{
    match cur {
        JsonSpec::Array(items) => if inner >= map.types().len() {
            stuck()
        } else if wt == WireType::LengthDelimited && is_packable(map.types()[inner as int]) {
            match spec_length_delimiter(b.window()) {
                None => Err(ErrorKind::Wire),
                Some((len, n)) => match b.advance(n).push_limit(len) {
                    None => Err(ErrorKind::LimitTooLarge),
                    Some(b2) => if b2.remaining() < b.remaining() {
                        close_frame(dec_packed(map, b2, inner, items))
                    } else {
                        stuck()
                    },
                },
            }
        } else if inner < outer {
            match dec_any(map, b, wt, inner, default_of(map, inner)) {
                Ok((v, b2)) => Ok((JsonSpec::Array(items.push(v)), b2)),
                Err(e) => Err(e),
            }
        } else {
            stuck()
        },
        _ => Err(ErrorKind::UnexpectedShape),
    }
}

/// Reading packed elements until the window is empty.
pub open spec fn dec_packed(map: TypeMap, b: BufView, inner: nat, items: Seq<JsonSpec>) -> Result<(JsonSpec, BufView), ErrorKind>
    decreases b.remaining(), inner, 6nat,
{
    if b.remaining() == 0 {
        Ok((JsonSpec::Array(items), b))
    } else {
        match dec_any(map, b, WireType::LengthDelimited, inner, default_of(map, inner)) {
            Ok((v, b2)) => if b2.remaining() < b.remaining() {
                dec_packed(map, b2, inner, items.push(v))
            } else {
                stuck()
            },
            Err(e) => Err(e),
        }
    }
}

/// The text a map key becomes: strings as they are, booleans and integers
/// in their text form.
pub open spec fn key_text(k: JsonSpec) -> Option<Seq<char>> {
    match k {
        JsonSpec::Str(s) => Some(s),
        JsonSpec::Bool(b) => Some(if b { "true"@ } else { "false"@ }),
        JsonSpec::Number(n) => Some(int_decimal(n)),
        _ => None,
    }
}

/// The key and value of a decoded map entry.
pub open spec fn map_entry(e: JsonSpec) -> Result<(Seq<char>, JsonSpec), ErrorKind> {
    match e {
        JsonSpec::Object(fields) => match obj_get(fields, "key"@) {
            None => Err(ErrorKind::MissingMapEntryField),
            Some(k) => match key_text(k) {
                None => Err(ErrorKind::InvalidMapEntry),
                Some(key) => match obj_get(fields, "value"@) {
                    Some(v) => Ok((key, v)),
                    None => Err(ErrorKind::MissingMapEntryField),
                },
            },
        },
        _ => Err(ErrorKind::InvalidMapEntry),
    }
}

/// The object with the decoded entries set in order, a later entry
/// replacing an earlier one with the same key.
pub open spec fn map_entries(o: Seq<(Seq<char>, JsonSpec)>, entries: Seq<JsonSpec>) -> Result<Seq<(Seq<char>, JsonSpec)>, ErrorKind>
    decreases entries.len(),
{
    if entries.len() == 0 {
        Ok(o)
    } else {
        match map_entry(entries[0]) {
            Ok((k, v)) => map_entries(obj_set(o, k, v), entries.skip(1)),
            Err(e) => Err(e),
        }
    }
}

/// Reading into a map: the entries are read as a list of entry messages and
/// then set into the object.
pub open spec fn dec_map(map: TypeMap, b: BufView, wt: WireType, outer: nat, inner: nat, cur: JsonSpec) -> Result<(JsonSpec, BufView), ErrorKind>
    decreases b.remaining(), outer, 4nat,
{
    match dec_list(map, b, wt, outer, inner, JsonSpec::Array(Seq::empty())) {
        Ok((list, b2)) => match list {
            JsonSpec::Array(entries) => match cur {
                JsonSpec::Object(o) => match map_entries(o, entries) {
                    Ok(o2) => Ok((JsonSpec::Object(o2), b2)),
                    Err(e) => Err(e),
                },
                _ => Err(ErrorKind::UnexpectedShape),
            },
            _ => stuck(),
        },
        Err(e) => Err(e),
    }
}

/// Decoding `bytes` as a message of the type with index `ty`, from an empty
/// object.
pub open spec fn dec_top(map: TypeMap, ty: nat, bytes: Seq<u8>) -> Result<JsonSpec, ErrorKind> {
    match map.types()[ty as int] {
        Ty::Message(_) => match dec_message_body(
            map,
            BufView { rest: bytes, limits: Seq::empty() },
            ty,
            JsonSpec::Object(Seq::empty()),
        ) {
            Ok((v, _)) => Ok(v),
            Err(e) => Err(e),
        },
        _ => Err(ErrorKind::TopLevelNotMessage),
    }
}

pub(crate) proof fn lemma_enum_index(values: Seq<EnumValue>, v: u64)
    ensures
        match enum_index(values, v) {
            Some(i) => 0 <= i < values.len() && values[i].number as u64 == v && forall|j: int|
                0 <= j < i ==> #[trigger] values[j].number as u64 != v,
            None => forall|j: int| 0 <= j < values.len() ==> #[trigger] values[j].number as u64 != v,
        },
    decreases values.len(),
{
    if values.len() > 0 {
        let tail = values.skip(1);
        lemma_enum_index(tail, v);
        assert forall|j: int| 1 <= j < values.len() implies values[j] == #[trigger] tail[j - 1] by {}
        if values[0].number as u64 != v {
            match enum_index(tail, v) {
                Some(i) => {
                    assert(values[i + 1] == tail[i]);
                    assert forall|j: int| 0 <= j < i + 1 implies #[trigger] values[j].number as u64 != v by {
                        if j > 0 {
                            assert(values[j] == tail[j - 1]);
                        }
                    }
                },
                None => {
                    assert forall|j: int| 0 <= j < values.len() implies #[trigger] values[j].number as u64 != v by {
                        if j > 0 {
                            assert(values[j] == tail[j - 1]);
                        }
                    }
                },
            }
        }
    }
}

/// The index of the first value of `values` with number `v`.
fn find_enum_value(values: &Vec<EnumValue>, v: u64) -> (res: Option<usize>)
    ensures
        match res {
            Some(i) => enum_index(values@, v) == Some(i as int),
            None => enum_index(values@, v) is None,
        },
{
    let mut i: usize = 0;
    while i < values.len()
        invariant
            i <= values@.len(),
            forall|j: int| 0 <= j < i ==> #[trigger] values@[j].number as u64 != v,
        decreases values@.len() - i,
    {
        if values[i].number as u64 == v {
            proof {
                lemma_enum_index(values@, v);
                match enum_index(values@, v) {
                    Some(k) => {
                        if k < i {
                            assert(values@[k].number as u64 != v);
                        } else if k > i {
                            assert(values@[i as int].number as u64 == v);
                        }
                    },
                    None => {
                        assert(values@[i as int].number as u64 == v);
                    },
                }
            }
            return Some(i);
        }
        i = i + 1;
    }
    proof {
        lemma_enum_index(values@, v);
        match enum_index(values@, v) {
            Some(k) => {
                assert(values@[k].number as u64 != v);
            },
            None => {},
        }
    }
    None
}

fn is_null_value(name: &String) -> (res: bool)
    ensures
        res == (name@ == null_value_name()),
{
    *name == ".google.protobuf.NullValue".to_owned()
}

/// The default value of a type.
pub fn default_value(ty: &Ty) -> (res: JsonValue)
    ensures
        json_view(res) == default_json(*ty),
{
    match ty {
        Ty::Enum(e) => {
            proof {
                lemma_enum_index(e.values@, 0);
            }
            match find_enum_value(&e.values, 0) {
                Some(i) => JsonValue::String(e.values[i].name.clone()),
                None => JsonValue::Null,
            }
        },
        Ty::Scalar(s) => match s {
            Scalar::Bool => JsonValue::Bool(false),
            Scalar::String | Scalar::Bytes => JsonValue::String(String::new()),
            _ => JsonValue::Number(0),
        },
        Ty::List(_) => {
            let items: Vec<JsonValue> = Vec::new();
            proof {
                lemma_array_view(items);
                assert(items_view(items@) =~= Seq::empty());
            }
            JsonValue::Array(items)
        },
        _ => {
            let members: Vec<JsonEntry> = Vec::new();
            proof {
                lemma_object_view(members);
                assert(entries_view(members@) =~= Seq::empty());
            }
            JsonValue::Object(members)
        },
    }
}

/// Whether repeated fields of the type may come packed.
pub fn packable(ty: &Ty) -> (res: bool)
    ensures
        res == is_packable(*ty),
{
    match ty {
        Ty::Scalar(s) => s.is_numeric(),
        Ty::Enum(_) => true,
        _ => false,
    }
}

/// Reads a value of a scalar type.
pub fn deserialize_scalar(buf: &mut DecodeBuf, scalar: Scalar) -> (res: Result<JsonValue, Error>)
    requires
        old(buf).wf(),
    ensures
        final(buf).wf(),
        decoded(res, final(buf)@, dec_scalar(scalar, old(buf)@)),
        res is Ok ==> follows(final(buf)@, old(buf)@) && final(buf)@.rest.len() < old(buf)@.rest.len(),
{
    let w = buf.chunk();
    let len = w.len();
    match scalar {
        Scalar::Double => match read_double(w) {
            Ok((v, rest)) => {
                buf.advance(len - rest);
                Ok(double_to_json(v))
            },
            Err(e) => Err(Error::wire(e)),
        },
        Scalar::Float => match read_float(w) {
            Ok((v, rest)) => {
                buf.advance(len - rest);
                Ok(float_to_json(v))
            },
            Err(e) => Err(Error::wire(e)),
        },
        Scalar::Int32 => match read_int32(w) {
            Ok((v, rest)) => {
                buf.advance(len - rest);
                Ok(JsonValue::Number(v as i128))
            },
            Err(e) => Err(Error::wire(e)),
        },
        Scalar::Int64 => match read_int64(w) {
            Ok((v, rest)) => {
                buf.advance(len - rest);
                Ok(JsonValue::String(decimal(v as i128)))
            },
            Err(e) => Err(Error::wire(e)),
        },
        Scalar::Uint32 => match read_uint32(w) {
            Ok((v, rest)) => {
                buf.advance(len - rest);
                Ok(JsonValue::Number(v as i128))
            },
            Err(e) => Err(Error::wire(e)),
        },
        Scalar::Uint64 => match read_uint64(w) {
            Ok((v, rest)) => {
                buf.advance(len - rest);
                Ok(JsonValue::String(decimal(v as i128)))
            },
            Err(e) => Err(Error::wire(e)),
        },
        Scalar::Sint32 => match read_sint32(w) {
            Ok((v, rest)) => {
                buf.advance(len - rest);
                Ok(JsonValue::Number(v as i128))
            },
            Err(e) => Err(Error::wire(e)),
        },
        Scalar::Sint64 => match read_sint64(w) {
            Ok((v, rest)) => {
                buf.advance(len - rest);
                Ok(JsonValue::String(decimal(v as i128)))
            },
            Err(e) => Err(Error::wire(e)),
        },
        Scalar::Fixed32 => match read_fixed32(w) {
            Ok((v, rest)) => {
                buf.advance(len - rest);
                Ok(JsonValue::Number(v as i128))
            },
            Err(e) => Err(Error::wire(e)),
        },
        Scalar::Fixed64 => match read_fixed64(w) {
            Ok((v, rest)) => {
                buf.advance(len - rest);
                Ok(JsonValue::String(decimal(v as i128)))
            },
            Err(e) => Err(Error::wire(e)),
        },
        Scalar::Sfixed32 => match read_sfixed32(w) {
            Ok((v, rest)) => {
                buf.advance(len - rest);
                Ok(JsonValue::Number(v as i128))
            },
            Err(e) => Err(Error::wire(e)),
        },
        Scalar::Sfixed64 => match read_sfixed64(w) {
            Ok((v, rest)) => {
                buf.advance(len - rest);
                Ok(JsonValue::String(decimal(v as i128)))
            },
            Err(e) => Err(Error::wire(e)),
        },
        Scalar::Bool => match read_bool(w) {
            Ok((v, rest)) => {
                buf.advance(len - rest);
                Ok(JsonValue::Bool(v))
            },
            Err(e) => Err(Error::wire(e)),
        },
        Scalar::String => match read_string(w) {
            Ok((v, rest)) => {
                buf.advance(len - rest);
                Ok(JsonValue::String(v))
            },
            Err(e) => Err(Error::wire(e)),
        },
        Scalar::Bytes => match read_bytes(w) {
            Ok((v, rest)) => {
                buf.advance(len - rest);
                Ok(JsonValue::String(base64_encode(v.as_slice())))
            },
            Err(e) => Err(Error::wire(e)),
        },
    }
}

/// Reads a value of an enum type.
pub fn deserialize_enum(buf: &mut DecodeBuf, enum_ty: &Enum) -> (res: Result<JsonValue, Error>)
    requires
        old(buf).wf(),
    ensures
        final(buf).wf(),
        decoded(res, final(buf)@, dec_enum(*enum_ty, old(buf)@)),
        res is Ok ==> follows(final(buf)@, old(buf)@) && final(buf)@.rest.len() < old(buf)@.rest.len(),
{
    let is_null = is_null_value(&enum_ty.name);
    proof {
        lemma_enum_index(enum_ty.values@, 0);
    }
    let w = buf.chunk();
    let len = w.len();
    match read_varint(w) {
        Ok((v, rest)) => {
            buf.advance(len - rest);
            proof {
                lemma_enum_index(enum_ty.values@, v);
            }
            if is_null {
                Ok(JsonValue::Null)
            } else {
                match find_enum_value(&enum_ty.values, v) {
                    Some(i) => Ok(JsonValue::String(enum_ty.values[i].name.clone())),
                    None => Ok(JsonValue::Number(v as i128)),
                }
            }
        },
        Err(e) => Err(Error::wire(e)),
    }
}

/// Reads a field of the type `ty` into its current value.
pub fn deserialize(buf: &mut DecodeBuf, value: JsonValue, map: &TypeMap, wire_type: WireType, ty: TypeId) -> (res: Result<JsonValue, Error>)
    requires
        old(buf).wf(),
        map.wf(),
        ty.0 < map.types().len(),
    ensures
        final(buf).wf(),
        decoded(res, final(buf)@, dec_any(*map, old(buf)@, wire_type, ty.0 as nat, json_view(value))),
        res is Ok ==> follows(final(buf)@, old(buf)@),
        res is Ok && is_leaf(map.types()[ty.0 as int]) ==> final(buf)@.rest.len() < old(buf)@.rest.len(),
    decreases old(buf)@.remaining(), ty.0, 5nat,
{
    proof {
        map.lemma_wf();
    }
    match map.get(ty) {
        Ty::Message(_) => deserialize_message_length_delimited(buf, value, map, wire_type, ty),
        Ty::Enum(e) => deserialize_enum(buf, e),
        Ty::Scalar(s) => deserialize_scalar(buf, *s),
        Ty::List(inner) => deserialize_list(buf, value, wire_type, map, ty, *inner),
        Ty::Mapping(inner) => deserialize_map(buf, value, wire_type, map, ty, *inner),
        Ty::Group(_) => Err(Error::of(ErrorKind::UnsupportedGroup)),
    }
}

/// Reads a length-delimited message field: its fields are read with the
/// length pushed as a limit.
fn deserialize_message_length_delimited(buf: &mut DecodeBuf, value: JsonValue, map: &TypeMap, wire_type: WireType, ty: TypeId) -> (res: Result<JsonValue, Error>)
    requires
        old(buf).wf(),
        map.wf(),
        ty.0 < map.types().len(),
        map.types()[ty.0 as int] is Message,
    ensures
        final(buf).wf(),
        decoded(res, final(buf)@, dec_len_message(*map, old(buf)@, wire_type, ty.0 as nat, json_view(value))),
        res is Ok ==> follows(final(buf)@, old(buf)@),
        wire_type != WireType::LengthDelimited ==> final(buf)@ == old(buf)@,
    decreases old(buf)@.remaining(), ty.0, 4nat,
{
    if wire_type != WireType::LengthDelimited {
        return Err(Error::of(ErrorKind::InvalidWireTypeForMessage));
    }
    let ghost b = buf@;
    let w = buf.chunk();
    let len = w.len();
    let (limit, rest) = match read_length_delimiter(w) {
        Ok(p) => p,
        Err(e) => return Err(Error::wire(e)),
    };
    buf.advance(len - rest);
    let ghost b1 = buf@;
    match buf.push_limit(limit) {
        Ok(()) => {},
        Err(_) => return Err(Error::of(ErrorKind::LimitTooLarge)),
    }
    let ghost b2 = buf@;
    proof {
        lemma_follows_refl(b2);
        lemma_push_pop(b1, limit, b2);
    }
    let v = match deserialize_message(buf, value, map, ty) {
        Ok(v) => v,
        Err(e) => return Err(e),
    };
    proof {
        lemma_push_pop(b1, limit, buf@);
    }
    if !buf.limit_reached() {
        return Err(Error::of(ErrorKind::Wire));
    }
    buf.pop_limit();
    proof {
        lemma_follows_trans(buf@, b1, b);
    }
    Ok(v)
}

/// Reads the fields of a message, of the type `ty`, to the end of the window
/// into its current value.
pub fn deserialize_message(buf: &mut DecodeBuf, value: JsonValue, map: &TypeMap, ty: TypeId) -> (res: Result<JsonValue, Error>)
    requires
        old(buf).wf(),
        map.wf(),
        ty.0 < map.types().len(),
        map.types()[ty.0 as int] is Message,
    ensures
        final(buf).wf(),
        decoded(res, final(buf)@, dec_message_body(*map, old(buf)@, ty.0 as nat, json_view(value))),
        res is Ok ==> follows(final(buf)@, old(buf)@),
    decreases old(buf)@.remaining(), ty.0, 2nat,
{
    let message = match map.get(ty) {
        Ty::Message(m) => m,
        _ => return Err(Error::of(ErrorKind::UnexpectedShape)),
    };
    match well_known_kind(&message.name) {
        Some(k) => deserialize_well_known(buf, k),
        None => match value {
            JsonValue::Object(entries) => {
                proof {
                    lemma_object_view(entries);
                }
                deserialize_fields(buf, entries, map, ty, message)
            },
            _ => Err(Error::of(ErrorKind::UnexpectedShape)),
        },
    }
}

/// Reads fields to the end of the window into the members `entries`.
#[verifier::rlimit(40)]
fn deserialize_fields(buf: &mut DecodeBuf, members: Vec<JsonEntry>, map: &TypeMap, ty: TypeId, message: &Message) -> (res: Result<JsonValue, Error>)
    requires
        old(buf).wf(),
        map.wf(),
        ty.0 < map.types().len(),
        map.types()[ty.0 as int] == Ty::Message(*message),
    ensures
        final(buf).wf(),
        decoded(res, final(buf)@, dec_fields(*map, old(buf)@, ty.0 as nat, entries_view(members@))),
        res is Ok ==> follows(final(buf)@, old(buf)@),
    decreases old(buf)@.remaining(), ty.0, 1nat,
{
    proof {
        map.lemma_wf();
    }
    let ghost b0 = buf@;
    let ghost o0 = entries_view(members@);
    let mut entries = members;
    proof {
        lemma_follows_refl(b0);
    }
    while buf.has_remaining()
        invariant
            buf.wf(),
            map.wf(),
            ty.0 < map.types().len(),
            map.types()[ty.0 as int] == Ty::Message(*message),
            forall|i: int| 0 <= i < map.types().len() ==> crate::ty::refs_below(#[trigger] map.types()[i], i as nat),
            b0 == old(buf)@,
            o0 == entries_view(members@),
            follows(buf@, b0),
            dec_fields(*map, buf@, ty.0 as nat, entries_view(entries@)) == dec_fields(*map, b0, ty.0 as nat, o0),
        decreases buf@.remaining(),
    {
        let ghost b = buf@;
        let ghost o = entries_view(entries@);
        let w = buf.chunk();
        let len = w.len();
        let (tag, wt, rest) = match read_key(w) {
            Ok(k) => k,
            Err(e) => return Err(Error::wire(e)),
        };
        proof {
            lemma_prefix_len(w@);
        }
        buf.advance(len - rest);
        let ghost b1 = buf@;
        proof {
            assert(b1.remaining() < b.remaining());
        }
        match message.field(tag as usize) {
            Some(field) => {
                let ghost f = slab_fields(message.fields)[tag as usize];
                proof {
                    assert(crate::ty::refs_below(map.types()[ty.0 as int], ty.0 as nat));
                    assert(slab_fields(message.fields).contains_key(tag as usize));
                    assert(field.ty.0 < ty.0);
                }
                let key = field.json_name.clone();
                let found = object_find(&entries, key.as_str());
                proof {
                    lemma_obj_find(o, key@);
                }
                let ghost spec_cur = match obj_get(o, f.1) {
                    Some(x) => x,
                    None => default_of(*map, f.3 as nat),
                };
                let cur = match found {
                    Some(i) => entries.remove(i).value,
                    None => default_value(map.get(field.ty)),
                };
                proof {
                    assert(json_view(cur) == spec_cur);
                }
                let v = match deserialize(buf, cur, map, wt, field.ty) {
                    Ok(v) => v,
                    Err(e) => {
                        proof {
                            assert(dec_fields(*map, b, ty.0 as nat, o) == Err::<(JsonSpec, BufView), ErrorKind>(e.kind));
                        }
                        return Err(e);
                    },
                };
                proof {
                    lemma_follows_remaining(buf@, b1);
                    lemma_follows_trans(buf@, b1, b);
                }
                let ghost jv = json_view(v);
                proof {
                    assert(dec_any(*map, b1, wt, f.3 as nat, spec_cur) == Ok::<(JsonSpec, BufView), ErrorKind>((jv, buf@)));
                    assert(dec_fields(*map, b, ty.0 as nat, o) == dec_fields(*map, buf@, ty.0 as nat, obj_set(o, f.1, jv)));
                }
                match found {
                    Some(i) => {
                        entries.insert(i, JsonEntry { key, value: v });
                        proof {
                            assert(entries_view(entries@) =~= o.update(i as int, (field.json_name@, jv)));
                        }
                    },
                    None => {
                        entries.push(JsonEntry { key, value: v });
                        proof {
                            assert(entries_view(entries@) =~= o.push((field.json_name@, jv)));
                        }
                    },
                }
                proof {
                    assert(entries_view(entries@) == obj_set(o, f.1, jv));
                }
            },
            None => {
                let w2 = buf.chunk();
                let len2 = w2.len();
                match skip_field(wt, tag, w2) {
                    Ok(rest2) => buf.advance(len2 - rest2),
                    Err(e) => return Err(Error::wire(e)),
                }
                proof {
                    lemma_follows_trans(buf@, b1, b);
                }
            },
        }
        proof {
            lemma_follows_trans(buf@, b, b0);
        }
    }
    proof {
        lemma_object_view(entries);
    }
    Ok(JsonValue::Object(entries))
}

/// Reads into a list whose elements have the type `inner`.
fn deserialize_list(buf: &mut DecodeBuf, value: JsonValue, wire_type: WireType, map: &TypeMap, outer: TypeId, inner: TypeId) -> (res: Result<JsonValue, Error>)
    requires
        old(buf).wf(),
        map.wf(),
        inner.0 < outer.0 < map.types().len(),
    ensures
        final(buf).wf(),
        decoded(res, final(buf)@, dec_list(*map, old(buf)@, wire_type, outer.0 as nat, inner.0 as nat, json_view(value))),
        res is Ok ==> follows(final(buf)@, old(buf)@),
        res matches Ok(v) ==> v is Array,
    decreases old(buf)@.remaining(), outer.0, 3nat,
{
    let ghost jv = json_view(value);
    let mut items = match value {
        JsonValue::Array(items) => items,
        _ => return Err(Error::of(ErrorKind::UnexpectedShape)),
    };
    proof {
        lemma_array_view(items);
    }
    let inner_ty = map.get(inner);
    if wire_type == WireType::LengthDelimited && packable(inner_ty) {
        let ghost b = buf@;
        let w = buf.chunk();
        let len = w.len();
        let (limit, rest) = match read_length_delimiter(w) {
            Ok(p) => p,
            Err(e) => return Err(Error::wire(e)),
        };
        buf.advance(len - rest);
        let ghost b1 = buf@;
        match buf.push_limit(limit) {
            Ok(()) => {},
            Err(_) => return Err(Error::of(ErrorKind::LimitTooLarge)),
        }
        let ghost b2 = buf@;
        let ghost items0 = items_view(items@);
        proof {
            lemma_follows_refl(b2);
            lemma_push_pop(b1, limit, b2);
            assert(jv == JsonSpec::Array(items0));
        }
        while buf.has_remaining()
            invariant
                buf.wf(),
                map.wf(),
                inner.0 < map.types().len(),
                is_packable(map.types()[inner.0 as int]),
                follows(buf@, b2),
                b2.remaining() < b.remaining(),
                b.remaining() == old(buf)@.remaining(),
                dec_list(*map, old(buf)@, wire_type, outer.0 as nat, inner.0 as nat, jv) == close_frame(
                    dec_packed(*map, b2, inner.0 as nat, items0),
                ),
                jv == json_view(value),
                dec_packed(*map, buf@, inner.0 as nat, items_view(items@)) == dec_packed(*map, b2, inner.0 as nat, items0),
            decreases buf@.remaining(),
        {
            let ghost bi = buf@;
            proof {
                lemma_follows_remaining(bi, b2);
            }
            let dv = default_value(map.get(inner));
            let v = match deserialize(buf, dv, map, WireType::LengthDelimited, inner) {
                Ok(v) => v,
                Err(e) => return Err(e),
            };
            proof {
                lemma_follows_remaining(buf@, bi);
                lemma_follows_trans(buf@, bi, b2);
            }
            let ghost before = items@;
            items.push(v);
            proof {
                assert(items_view(items@) =~= items_view(before).push(json_view(v)));
            }
        }
        proof {
            lemma_push_pop(b1, limit, buf@);
            lemma_array_view(items);
        }
        if !buf.limit_reached() {
            return Err(Error::of(ErrorKind::Wire));
        }
        buf.pop_limit();
        proof {
            lemma_follows_trans(buf@, b1, b);
        }
        Ok(JsonValue::Array(items))
    } else {
        let dv = default_value(inner_ty);
        let v = match deserialize(buf, dv, map, wire_type, inner) {
            Ok(v) => v,
            Err(e) => return Err(e),
        };
        let ghost before = items@;
        items.push(v);
        proof {
            assert(items_view(items@) =~= items_view(before).push(json_view(v)));
            lemma_array_view(items);
        }
        Ok(JsonValue::Array(items))
    }
}

/// Reads into a map whose entries have the message type `inner`.
fn deserialize_map(buf: &mut DecodeBuf, value: JsonValue, wire_type: WireType, map: &TypeMap, outer: TypeId, inner: TypeId) -> (res: Result<JsonValue, Error>)
    requires
        old(buf).wf(),
        map.wf(),
        inner.0 < outer.0 < map.types().len(),
    ensures
        final(buf).wf(),
        decoded(res, final(buf)@, dec_map(*map, old(buf)@, wire_type, outer.0 as nat, inner.0 as nat, json_view(value))),
        res is Ok ==> follows(final(buf)@, old(buf)@),
    decreases old(buf)@.remaining(), outer.0, 4nat,
{
    let ghost jv = json_view(value);
    let empty: Vec<JsonValue> = Vec::new();
    proof {
        lemma_array_view(empty);
        assert(items_view(empty@) =~= Seq::empty());
    }
    let list = match deserialize_list(buf, JsonValue::Array(empty), wire_type, map, outer, inner) {
        Ok(l) => l,
        Err(e) => return Err(e),
    };
    let entries = match list {
        JsonValue::Array(entries) => entries,
        _ => return Err(Error::of(ErrorKind::UnexpectedShape)),
    };
    proof {
        lemma_array_view(entries);
    }
    match value {
        JsonValue::Object(obj) => {
            proof {
                lemma_object_view(obj);
            }
            match insert_map_entries(obj, entries) {
                Ok(o) => {
                    proof {
                        lemma_object_view(o);
                    }
                    Ok(JsonValue::Object(o))
                },
                Err(e) => Err(e),
            }
        },
        _ => Err(Error::of(ErrorKind::UnexpectedShape)),
    }
}

/// The text of a map key.
fn map_key_text(k: JsonValue) -> (res: Option<String>)
    ensures
        match res {
            Some(s) => key_text(json_view(k)) == Some(s@),
            None => key_text(json_view(k)) is None,
        },
{
    match k {
        JsonValue::String(s) => Some(s),
        JsonValue::Bool(b) => Some(if b { "true".to_owned() } else { "false".to_owned() }),
        JsonValue::Number(n) => Some(decimal(n)),
        _ => None,
    }
}

/// The key and value of a decoded map entry.
fn map_entry_parts(entry: JsonValue) -> (res: Result<(String, JsonValue), Error>)
    ensures
        match res {
            Ok((k, v)) => map_entry(json_view(entry)) == Ok::<(Seq<char>, JsonSpec), ErrorKind>((k@, json_view(v))),
            Err(e) => map_entry(json_view(entry)) == Err::<(Seq<char>, JsonSpec), ErrorKind>(e.kind),
        },
{
    match entry {
        JsonValue::Object(fields) => {
            proof {
                lemma_object_view(fields);
            }
            let ghost fv = entries_view(fields@);
            let mut fields = fields;
            let key_name = "key";
            let value_name = "value";
            let ki = object_find(&fields, key_name);
            let vi = object_find(&fields, value_name);
            proof {
                lemma_obj_find(fv, key_name@);
                lemma_obj_find(fv, value_name@);
            }
            let ki = match ki {
                Some(i) => i,
                None => return Err(Error::of(ErrorKind::MissingMapEntryField)),
            };
            let k = fields.remove(ki);
            let key = match map_key_text(k.value) {
                Some(t) => t,
                None => return Err(Error::of(ErrorKind::InvalidMapEntry)),
            };
            let vi = match vi {
                Some(i) => i,
                None => return Err(Error::of(ErrorKind::MissingMapEntryField)),
            };
            proof {
                reveal_strlit("key");
                reveal_strlit("value");
                assert("key"@.len() == 3);
                assert("value"@.len() == 5);
                assert(fv[ki as int].0 == key_name@);
                assert(fv[vi as int].0 == value_name@);
                assert(ki != vi);
            }
            let vi = if vi > ki { vi - 1 } else { vi };
            let v = fields.remove(vi);
            Ok((key, v.value))
        },
        _ => Err(Error::of(ErrorKind::InvalidMapEntry)),
    }
}

/// Sets the decoded map entries into the members `obj`, in order.
fn insert_map_entries(members: Vec<JsonEntry>, decoded_entries: Vec<JsonValue>) -> (res: Result<Vec<JsonEntry>, Error>)
    ensures
        match res {
            Ok(o) => map_entries(entries_view(members@), items_view(decoded_entries@)) == Ok::<Seq<(Seq<char>, JsonSpec)>, ErrorKind>(entries_view(o@)),
            Err(e) => map_entries(entries_view(members@), items_view(decoded_entries@)) == Err::<Seq<(Seq<char>, JsonSpec)>, ErrorKind>(e.kind),
        },
{
    let ghost target = map_entries(entries_view(members@), items_view(decoded_entries@));
    let mut obj = members;
    let mut entries = decoded_entries;
    while entries.len() > 0
        invariant
            target == map_entries(entries_view(members@), items_view(decoded_entries@)),
            map_entries(entries_view(obj@), items_view(entries@)) == target,
        decreases entries@.len(),
    {
        let ghost ev = items_view(entries@);
        let entry = entries.remove(0);
        proof {
            assert(items_view(entries@) =~= ev.skip(1));
            assert(ev[0] == json_view(entry));
        }
        match map_entry_parts(entry) {
            Ok((k, v)) => crate::json::object_set(&mut obj, k, v),
            Err(e) => {
                proof {
                    assert(map_entries(entries_view(obj@), ev) == Err::<Seq<(Seq<char>, JsonSpec)>, ErrorKind>(e.kind));
                }
                return Err(e);
            },
        }
    }
    Ok(obj)
}

impl TypeMap {
    /// Decodes `bytes` as a message of the type `ty` into a JSON value.
    pub fn decode(&self, ty: TypeId, bytes: &[u8]) -> (res: Result<JsonValue, Error>)
        requires
            self.wf(),
            ty.0 < self.types().len(),
        ensures
            match res {
                Ok(v) => dec_top(*self, ty.0 as nat, bytes@) == Ok::<JsonSpec, ErrorKind>(json_view(v)),
                Err(e) => dec_top(*self, ty.0 as nat, bytes@) == Err::<JsonSpec, ErrorKind>(e.kind),
            },
    {
        match self.get(ty) {
            Ty::Message(_) => {},
            _ => return Err(Error::of(ErrorKind::TopLevelNotMessage)),
        }
        let mut buf = DecodeBuf::new(slice_to_vec(bytes));
        let empty: Vec<JsonEntry> = Vec::new();
        proof {
            lemma_object_view(empty);
            assert(entries_view(empty@) =~= Seq::empty());
            assert(buf@ == BufView { rest: bytes@, limits: Seq::empty() });
        }
        deserialize_message(&mut buf, JsonValue::Object(empty), self, ty)
    }
}

/// A field that the message does not declare, sent as a varint, is skipped:
/// the fields after it are read as if it were not there.
pub proof fn law_unknown_varint_field_skipped(
    map: TypeMap,
    b: BufView,
    ty: nat,
    o: Seq<(Seq<char>, JsonSpec)>,
    tag: u32,
    n: nat,
    value: u64,
    k: nat,
)
    requires
        ty < map.types().len(),
        map.types()[ty as int] is Message,
        b.remaining() > 0,
        spec_key(b.window()) == Some((tag, WireType::Varint, n)),
        !slab_fields(map.types()[ty as int]->Message_0.fields).contains_key(tag as usize),
        spec_varint(b.advance(n).window()) == Some((value, k)),
    ensures
        dec_fields(map, b, ty, o) == dec_fields(map, b.advance(n).advance(k), ty, o),
{
    lemma_prefix_within(b.window());
    lemma_prefix_len(b.window());
    assert(b.window().len() == b.remaining());
    lemma_advance(b, n);
    let b1 = b.advance(n);
    lemma_prefix_within(b1.window());
    assert(b1.window().len() == b1.remaining());
    lemma_advance(b1, k);
}

} // verus!
