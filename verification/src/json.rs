use vstd::prelude::*;

use crate::text::push_str;

verus! {

/// A JSON value as the decoder builds it. Numbers keep their exact integer
/// value; floating-point numbers keep their IEEE 754 bits.
#[derive(Debug)]
pub enum JsonValue {
    Null,
    Bool(bool),
    Number(i128),
    Float(u32),
    Double(u64),
    String(String),
    Array(Vec<JsonValue>),
    Object(Vec<JsonEntry>),
}

/// One member of a JSON object.
#[derive(Debug)]
pub struct JsonEntry {
    pub key: String,
    pub value: JsonValue,
}

/// The mathematical value of a `JsonValue`.
pub enum JsonSpec {
    Null,
    Bool(bool),
    Number(int),
    Float(u32),
    Double(u64),
    Str(Seq<char>),
    Array(Seq<JsonSpec>),
    Object(Seq<(Seq<char>, JsonSpec)>),
}

pub open spec fn json_view(v: JsonValue) -> JsonSpec
    decreases v,
{
    match v {
        JsonValue::Null => JsonSpec::Null,
        JsonValue::Bool(b) => JsonSpec::Bool(b),
        JsonValue::Number(n) => JsonSpec::Number(n as int),
        JsonValue::Float(b) => JsonSpec::Float(b),
        JsonValue::Double(b) => JsonSpec::Double(b),
        JsonValue::String(s) => JsonSpec::Str(s@),
        JsonValue::Array(a) => JsonSpec::Array(
            Seq::new(
                a@.len(),
                |i: int|
                    if 0 <= i < a@.len() {
                        json_view(a@[i])
                    } else {
                        JsonSpec::Null
                    },
            ),
        ),
        JsonValue::Object(o) => JsonSpec::Object(
            Seq::new(
                o@.len(),
                |i: int|
                    if 0 <= i < o@.len() {
                        (o@[i].key@, json_view(o@[i].value))
                    } else {
                        (Seq::empty(), JsonSpec::Null)
                    },
            ),
        ),
    }
}

/// The members of an object as pairs of key and value.
pub open spec fn entries_view(o: Seq<JsonEntry>) -> Seq<(Seq<char>, JsonSpec)> {
    Seq::new(o.len(), |i: int| (o[i].key@, json_view(o[i].value)))
}

/// The elements of an array.
pub open spec fn items_view(a: Seq<JsonValue>) -> Seq<JsonSpec> {
    Seq::new(a.len(), |i: int| json_view(a[i]))
}

pub proof fn lemma_object_view(o: Vec<JsonEntry>)
    ensures
        json_view(JsonValue::Object(o)) == JsonSpec::Object(entries_view(o@)),
{
    match json_view(JsonValue::Object(o)) {
        JsonSpec::Object(e) => {
            assert(e =~= entries_view(o@));
        },
        _ => {},
    }
}

pub proof fn lemma_array_view(a: Vec<JsonValue>)
    ensures
        json_view(JsonValue::Array(a)) == JsonSpec::Array(items_view(a@)),
{
    match json_view(JsonValue::Array(a)) {
        JsonSpec::Array(e) => {
            assert(e =~= items_view(a@));
        },
        _ => {},
    }
}

/// The index of the last member with the given key.
pub open spec fn obj_find(o: Seq<(Seq<char>, JsonSpec)>, key: Seq<char>) -> Option<int>
    decreases o.len(),
{
    if o.len() == 0 {
        None
    } else if o.last().0 == key {
        Some(o.len() - 1)
    } else {
        obj_find(o.drop_last(), key)
    }
}

/// The object with the member `key` set to `value`: in place where the key
/// is there, appended where it is not.
pub open spec fn obj_set(o: Seq<(Seq<char>, JsonSpec)>, key: Seq<char>, value: JsonSpec) -> Seq<(Seq<char>, JsonSpec)> {
    match obj_find(o, key) {
        Some(i) => o.update(i, (key, value)),
        None => o.push((key, value)),
    }
}

/// The value of the member `key`, if there is one.
pub open spec fn obj_get(o: Seq<(Seq<char>, JsonSpec)>, key: Seq<char>) -> Option<JsonSpec> {
    match obj_find(o, key) {
        Some(i) => Some(o[i].1),
        None => None,
    }
}

pub proof fn lemma_obj_find(o: Seq<(Seq<char>, JsonSpec)>, key: Seq<char>)
    ensures
        match obj_find(o, key) {
            Some(i) => 0 <= i < o.len() && o[i].0 == key && forall|j: int| i < j < o.len() ==> #[trigger] o[j].0 != key,
            None => forall|j: int| 0 <= j < o.len() ==> #[trigger] o[j].0 != key,
        },
    decreases o.len(),
{
    if o.len() > 0 {
        let init = o.drop_last();
        lemma_obj_find(init, key);
        assert(o.last() == o[o.len() - 1]);
        if o.last().0 != key {
            match obj_find(init, key) {
                Some(i) => {
                    assert(init[i] == o[i]);
                    assert forall|j: int| i < j < o.len() implies #[trigger] o[j].0 != key by {
                        if j < o.len() - 1 {
                            assert(init[j] == o[j]);
                        }
                    }
                },
                None => {
                    assert forall|j: int| 0 <= j < o.len() implies #[trigger] o[j].0 != key by {
                        if j < o.len() - 1 {
                            assert(init[j] == o[j]);
                        }
                    }
                },
            }
        }
    }
}

/// Setting a member and reading it back gives the value set, and leaves the
/// other members as they were.
pub proof fn law_obj_set_get(o: Seq<(Seq<char>, JsonSpec)>, key: Seq<char>, value: JsonSpec, other: Seq<char>)
    ensures
        obj_get(obj_set(o, key, value), key) == Some(value),
        other != key ==> obj_get(obj_set(o, key, value), other) == obj_get(o, other),
{
    lemma_obj_find(o, key);
    let s = obj_set(o, key, value);
    lemma_obj_find(s, key);
    lemma_obj_find(o, other);
    lemma_obj_find(s, other);
    match obj_find(s, key) {
        Some(i) => {
            match obj_find(o, key) {
                Some(j) => {
                    assert(s[j].0 == key);
                    if i != j {
                        assert(o[i] == s[i]);
                    }
                },
                None => {
                    if i < o.len() {
                        assert(o[i] == s[i]);
                    }
                },
            }
        },
        None => {
            match obj_find(o, key) {
                Some(j) => {
                    assert(s[j].0 == key);
                },
                None => {
                    assert(s[o.len() as int].0 == key);
                },
            }
        },
    }
    if other != key {
        match obj_find(o, other) {
            Some(j) => {
                assert(s[j] == o[j]);
                match obj_find(s, other) {
                    Some(i) => {
                        if i != j {
                            if i < o.len() {
                                assert(s[i] == o[i]);
                            }
                        }
                    },
                    None => {},
                }
            },
            None => {
                match obj_find(s, other) {
                    Some(i) => {
                        if i < o.len() {
                            assert(s[i] == o[i]);
                        }
                    },
                    None => {},
                }
            },
        }
    }
}

/// The index of the last member of `entries` whose key is `key`.
pub fn object_find(entries: &Vec<JsonEntry>, key: &str) -> (res: Option<usize>)
    ensures
        match res {
            Some(i) => obj_find(entries_view(entries@), key@) == Some(i as int),
            None => obj_find(entries_view(entries@), key@) is None,
        },
{
    let target = key.to_owned();
    let mut i: usize = entries.len();
    proof {
        lemma_obj_find(entries_view(entries@), key@);
    }
    while i > 0
        invariant
            i <= entries@.len(),
            target@ == key@,
            forall|j: int| i <= j < entries@.len() ==> #[trigger] entries@[j].key@ != key@,
        decreases i,
    {
        if entries[i - 1].key == target {
            proof {
                let v = entries_view(entries@);
                lemma_obj_find(v, key@);
                assert(v[i - 1].0 == key@);
                assert forall|j: int| i - 1 < j < v.len() implies #[trigger] v[j].0 != key@ by {
                    assert(v[j].0 == entries@[j].key@);
                }
            }
            return Some(i - 1);
        }
        i = i - 1;
    }
    proof {
        let v = entries_view(entries@);
        lemma_obj_find(v, key@);
        assert forall|j: int| 0 <= j < v.len() implies #[trigger] v[j].0 != key@ by {
            assert(v[j].0 == entries@[j].key@);
        }
    }
    None
}

/// Sets the member `key` of `entries` to `value`.
pub fn object_set(entries: &mut Vec<JsonEntry>, key: String, value: JsonValue)
    ensures
        entries_view(final(entries)@) == obj_set(entries_view(old(entries)@), key@, json_view(value)),
{
    proof {
        lemma_obj_find(entries_view(entries@), key@);
    }
    match object_find(entries, key.as_str()) {
        Some(i) => {
            let ghost k = key@;
            let ghost v = json_view(value);
            entries.set(i, JsonEntry { key, value });
            proof {
                assert(entries_view(entries@) =~= entries_view(old(entries)@).update(i as int, (k, v)));
                assert(obj_find(entries_view(old(entries)@), k) == Some(i as int));
            }
        },
        None => {
            let ghost k = key@;
            let ghost v = json_view(value);
            entries.push(JsonEntry { key, value });
            proof {
                assert(entries_view(entries@) =~= entries_view(old(entries)@).push((k, v)));
                assert(obj_find(entries_view(old(entries)@), k) is None);
            }
        },
    }
}

/// The JSON form of an IEEE 754 double with the given bits: the number
/// where it is finite, and the strings `Infinity`, `-Infinity` and `NaN`
/// otherwise.
pub open spec fn double_json(bits: u64) -> JsonSpec {
    if (bits / 0x10_0000_0000_0000) % 0x800 == 0x7ff {
        if bits % 0x10_0000_0000_0000 == 0 {
            if bits >= 0x8000_0000_0000_0000 {
                JsonSpec::Str("-Infinity"@)
            } else {
                JsonSpec::Str("Infinity"@)
            }
        } else {
            JsonSpec::Str("NaN"@)
        }
    } else {
        JsonSpec::Double(bits)
    }
}

/// The JSON form of an IEEE 754 single with the given bits, as for doubles.
pub open spec fn float_json(bits: u32) -> JsonSpec {
    if (bits / 0x80_0000) % 0x100 == 0xff {
        if bits % 0x80_0000 == 0 {
            if bits >= 0x8000_0000 {
                JsonSpec::Str("-Infinity"@)
            } else {
                JsonSpec::Str("Infinity"@)
            }
        } else {
            JsonSpec::Str("NaN"@)
        }
    } else {
        JsonSpec::Float(bits)
    }
}

fn text(s: &str) -> (res: JsonValue)
    ensures
        json_view(res) == JsonSpec::Str(s@),
{
    let mut t = String::new();
    push_str(&mut t, s);
    JsonValue::String(t)
}

/// The JSON form of the double with the given bits.
pub fn double_to_json(bits: u64) -> (res: JsonValue)
    ensures
        json_view(res) == double_json(bits),
{
    if (bits / 0x10_0000_0000_0000) % 0x800 == 0x7ff {
        if bits % 0x10_0000_0000_0000 == 0 {
            if bits >= 0x8000_0000_0000_0000 {
                text("-Infinity")
            } else {
                text("Infinity")
            }
        } else {
            text("NaN")
        }
    } else {
        JsonValue::Double(bits)
    }
}

/// The JSON form of the float with the given bits.
pub fn float_to_json(bits: u32) -> (res: JsonValue)
    ensures
        json_view(res) == float_json(bits),
{
    if (bits / 0x80_0000) % 0x100 == 0xff {
        if bits % 0x80_0000 == 0 {
            if bits >= 0x8000_0000 {
                text("-Infinity")
            } else {
                text("Infinity")
            }
        } else {
            text("NaN")
        }
    } else {
        JsonValue::Float(bits)
    }
}

} // verus!
