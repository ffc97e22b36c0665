//! The types that messages are decoded by: scalars, enums, messages and the
//! containers built from them, kept in a `TypeMap` indexed by `TypeId`.
use vstd::prelude::*;

use slab::Slab;

verus! {

/// The `Slab` collection of the slab crate, opaque to Verus.
#[verifier::external_type_specification]
#[verifier::external_body]
#[verifier::reject_recursive_types(T)]
pub struct ExSlab<T>(Slab<T>);

/// The index of a type in a `TypeMap`.
#[derive(Debug, Clone, Copy, PartialEq, Eq, Structural)]
pub struct TypeId(pub usize);

/// The scalar types of protobuf.
#[derive(Debug, Clone, Copy, PartialEq, Eq, Structural)]
pub enum Scalar {
    Double,
    Float,
    Int32,
    Int64,
    Uint32,
    Uint64,
    Sint32,
    Sint64,
    Fixed32,
    Fixed64,
    Sfixed32,
    Sfixed64,
    Bool,
    String,
    Bytes,
}

/// The number of scalar types; they take the first type ids of a map.
pub const SCALAR_COUNT: usize = 15;

/// The position of a scalar in the declaration order above.
pub open spec fn scalar_index(s: Scalar) -> nat {
    match s {
        Scalar::Double => 0,
        Scalar::Float => 1,
        Scalar::Int32 => 2,
        Scalar::Int64 => 3,
        Scalar::Uint32 => 4,
        Scalar::Uint64 => 5,
        Scalar::Sint32 => 6,
        Scalar::Sint64 => 7,
        Scalar::Fixed32 => 8,
        Scalar::Fixed64 => 9,
        Scalar::Sfixed32 => 10,
        Scalar::Sfixed64 => 11,
        Scalar::Bool => 12,
        Scalar::String => 13,
        Scalar::Bytes => 14,
    }
}

/// The scalar at position `i` of the declaration order.
pub open spec fn scalar_at(i: int) -> Scalar {
    if i == 0 {
        Scalar::Double
    } else if i == 1 {
        Scalar::Float
    } else if i == 2 {
        Scalar::Int32
    } else if i == 3 {
        Scalar::Int64
    } else if i == 4 {
        Scalar::Uint32
    } else if i == 5 {
        Scalar::Uint64
    } else if i == 6 {
        Scalar::Sint32
    } else if i == 7 {
        Scalar::Sint64
    } else if i == 8 {
        Scalar::Fixed32
    } else if i == 9 {
        Scalar::Fixed64
    } else if i == 10 {
        Scalar::Sfixed32
    } else if i == 11 {
        Scalar::Sfixed64
    } else if i == 12 {
        Scalar::Bool
    } else if i == 13 {
        Scalar::String
    } else {
        Scalar::Bytes
    }
}

/// Every scalar but strings and bytes is numeric, and may be packed.
pub open spec fn spec_is_numeric(s: Scalar) -> bool {
    !(s is String || s is Bytes)
}

impl Scalar {
    /// Whether values of this scalar are numbers (and booleans), which a
    /// repeated field may pack.
    pub fn is_numeric(&self) -> (res: bool)
        ensures
            res == spec_is_numeric(*self),
    {
        match *self {
            Scalar::String | Scalar::Bytes => false,
            _ => true,
        }
    }
}

/// A field of a message: its name, its JSON name, whether it is a group,
/// and its type.
#[derive(Debug)]
pub struct MessageField {
    pub name: String,
    pub json_name: String,
    pub is_group: bool,
    pub ty: TypeId,
}

/// A field as plain values: name, JSON name, group flag and type index.
pub open spec fn field_view(f: MessageField) -> (Seq<char>, Seq<char>, bool, usize) {
    (f.name@, f.json_name@, f.is_group, f.ty.0)
}

/// The fields that a `Slab` of fields holds, by key.
pub uninterp spec fn slab_fields(s: Slab<MessageField>) -> Map<usize, (Seq<char>, Seq<char>, bool, usize)>;

/// The fields of `(tag, field)` pairs, a later pair replacing an earlier one
/// with the same tag.
pub open spec fn pairs_map(pairs: Seq<(usize, MessageField)>) -> Map<usize, (Seq<char>, Seq<char>, bool, usize)>
    decreases pairs.len(),
{
    if pairs.len() == 0 {
        Map::empty()
    } else {
        pairs_map(pairs.drop_last()).insert(pairs.last().0, field_view(pairs.last().1))
    }
}

/// Collects `(tag, field)` pairs into a `Slab` through its `FromIterator`
/// impl. Claims what the slab source and documentation show: each tag of a
/// pair holds the field of the last pair with that tag, and no other key is
/// occupied.
#[verifier::external_body]
fn slab_from_pairs(pairs: Vec<(usize, MessageField)>) -> (s: Slab<MessageField>)
    ensures
        slab_fields(s) == pairs_map(pairs@),
{
    pairs.into_iter().collect()
}

/// Looks a key up with `Slab::get`. Claims: the field at an occupied key, and
/// `None` at a vacant one.
#[verifier::external_body]
fn slab_get(s: &Slab<MessageField>, key: usize) -> (res: Option<&MessageField>)
    ensures
        match res {
            Some(f) => slab_fields(*s).contains_key(key) && field_view(*f) == slab_fields(*s)[key],
            None => !slab_fields(*s).contains_key(key),
        },
{
    s.get(key)
}

/// A message type: its full name and its fields by tag.
#[derive(Debug)]
pub struct Message {
    pub name: String,
    pub fields: Slab<MessageField>,
}

impl Message {
    /// A message with the fields of `(tag, field)` pairs; a later pair
    /// replaces an earlier one with the same tag.
    pub fn new(name: String, fields: Vec<(usize, MessageField)>) -> (res: Message)
        ensures
            res.name@ == name@,
            slab_fields(res.fields) == pairs_map(fields@),
    {
        Message { name, fields: slab_from_pairs(fields) }
    }

    /// The field with the given tag.
    pub fn field(&self, tag: usize) -> (res: Option<&MessageField>)
        ensures
            match res {
                Some(f) => slab_fields(self.fields).contains_key(tag) && field_view(*f)
                    == slab_fields(self.fields)[tag],
                None => !slab_fields(self.fields).contains_key(tag),
            },
    {
        slab_get(&self.fields, tag)
    }
}

/// A value of an enum type.
#[derive(Debug)]
pub struct EnumValue {
    pub name: String,
    pub number: i32,
}

/// An enum type: its full name and its values in declaration order.
#[derive(Debug)]
pub struct Enum {
    pub name: String,
    pub values: Vec<EnumValue>,
}

/// A type of a `TypeMap`.
#[derive(Debug)]
pub enum Ty {
    Message(Message),
    Enum(Enum),
    Scalar(Scalar),
    List(TypeId),
    Mapping(TypeId),
    Group(TypeId),
}

/// Every type that `ty` refers to has an index below `bound`.
pub open spec fn refs_below(ty: Ty, bound: nat) -> bool {
    match ty {
        Ty::Message(m) => forall|k: usize| #[trigger]
            slab_fields(m.fields).contains_key(k) ==> slab_fields(m.fields)[k].3 < bound,
        Ty::List(t) => t.0 < bound,
        Ty::Mapping(t) => t.0 < bound,
        Ty::Group(t) => t.0 < bound,
        _ => true,
    }
}

/// The entries of a name table as a map; a later entry wins.
pub open spec fn names_map(entries: Seq<(String, TypeId)>) -> Map<Seq<char>, TypeId>
    decreases entries.len(),
{
    if entries.len() == 0 {
        Map::empty()
    } else {
        names_map(entries.drop_last()).insert(entries.last().0@, entries.last().1)
    }
}

/// A type as plain values: messages by name and fields, enums by name and
/// values, containers by the index of their element type.
pub enum TySpec {
    Message(Seq<char>, Map<usize, (Seq<char>, Seq<char>, bool, usize)>),
    Enum(Seq<char>, Seq<(Seq<char>, i32)>),
    Scalar(Scalar),
    List(usize),
    Mapping(usize),
    Group(usize),
}

/// The plain values of an enum's values.
pub open spec fn enum_values_view(values: Seq<EnumValue>) -> Seq<(Seq<char>, i32)> {
    values.map_values(|v: EnumValue| (v.name@, v.number))
}

/// A type as plain values.
pub open spec fn ty_model(t: Ty) -> TySpec {
    match t {
        Ty::Message(m) => TySpec::Message(m.name@, slab_fields(m.fields)),
        Ty::Enum(e) => TySpec::Enum(e.name@, enum_values_view(e.values@)),
        Ty::Scalar(s) => TySpec::Scalar(s),
        Ty::List(t) => TySpec::List(t.0),
        Ty::Mapping(t) => TySpec::Mapping(t.0),
        Ty::Group(t) => TySpec::Group(t.0),
    }
}

/// A type map as plain values: the types by index and the named ones.
pub struct MapModel {
    pub types: Seq<TySpec>,
    pub names: Map<Seq<char>, usize>,
}

impl MapModel {
    /// The map with a type appended.
    pub open spec fn add(self, t: TySpec) -> MapModel {
        MapModel { types: self.types.push(t), names: self.names }
    }

    /// The map with a type appended under a name.
    pub open spec fn add_named(self, name: Seq<char>, t: TySpec) -> MapModel {
        MapModel { types: self.types.push(t), names: self.names.insert(name, self.types.len() as usize) }
    }
}

/// All types of a file set, scalars first, with the named ones findable by
/// full name.
#[derive(Debug)]
pub struct TypeMap {
    named_types: Vec<(String, TypeId)>,
    storage: Vec<Ty>,
}

impl TypeMap {
    /// The types, by index.
    pub closed spec fn types(&self) -> Seq<Ty> {
        self.storage@
    }

    /// The named types, by full name.
    pub closed spec fn names(&self) -> Map<Seq<char>, TypeId> {
        names_map(self.named_types@)
    }

    /// The map as plain values.
    pub open spec fn model(&self) -> MapModel {
        MapModel {
            types: self.types().map_values(|t: Ty| ty_model(t)),
            names: self.names().map_values(|id: TypeId| id.0),
        }
    }

    /// Well-formed: the scalars come first in declaration order, every type
    /// refers only to types before it, and names lead to types of the map.
    pub closed spec fn wf(&self) -> bool {
        &&& self.storage@.len() >= SCALAR_COUNT
        &&& forall|i: int| 0 <= i < SCALAR_COUNT ==> #[trigger] self.storage@[i] == Ty::Scalar(scalar_at(i))
        &&& forall|i: int| 0 <= i < self.storage@.len() ==> refs_below(#[trigger] self.storage@[i], i as nat)
        &&& forall|i: int, j: int|
            0 <= i < j < self.named_types@.len() ==> #[trigger] self.named_types@[i].0@
                != #[trigger] self.named_types@[j].0@
        &&& forall|i: int| 0 <= i < self.named_types@.len() ==> #[trigger] self.named_types@[i].1.0 < self.storage@.len()
    }

    /// The facts of `wf` that users of the map rely on.
    pub proof fn lemma_wf(&self)
        requires
            self.wf(),
        ensures
            self.types().len() >= SCALAR_COUNT,
            forall|i: int| 0 <= i < SCALAR_COUNT ==> #[trigger] self.types()[i] == Ty::Scalar(scalar_at(i)),
            forall|i: int| 0 <= i < self.types().len() ==> refs_below(#[trigger] self.types()[i], i as nat),
            forall|n: Seq<char>| #[trigger] self.names().contains_key(n) ==> self.names()[n].0 < self.types().len(),
    {
        assert forall|n: Seq<char>| #[trigger] self.names().contains_key(n) implies self.names()[n].0 < self.types().len() by {
            lemma_names_map_bound(self.named_types@, n, self.storage@.len());
        }
    }

    /// Each scalar's id, as `get_scalar` gives it, is that of the scalar's
    /// type in a well-formed map.
    pub proof fn law_scalar_ids(&self, s: Scalar)
        requires
            self.wf(),
        ensures
            scalar_index(s) < self.types().len(),
            self.types()[scalar_index(s) as int] == Ty::Scalar(s),
    {
        assert(scalar_at(scalar_index(s) as int) == s);
    }

    /// A map of the scalar types alone.
    pub fn new() -> (res: TypeMap)
        ensures
            res.wf(),
            res.types().len() == SCALAR_COUNT,
            res.names() == Map::<Seq<char>, TypeId>::empty(),
    {
        let mut result = TypeMap { named_types: Vec::new(), storage: Vec::new() };
        result.add_scalars();
        proof {
            assert(result.names() == Map::<Seq<char>, TypeId>::empty());
        }
        result
    }

    fn add_scalars(&mut self)
        requires
            old(self).storage@.len() == 0,
            old(self).named_types@.len() == 0,
        ensures
            final(self).wf(),
            final(self).storage@.len() == SCALAR_COUNT,
            final(self).named_types@.len() == 0,
    {
        self.storage.push(Ty::Scalar(Scalar::Double));
        self.storage.push(Ty::Scalar(Scalar::Float));
        self.storage.push(Ty::Scalar(Scalar::Int32));
        self.storage.push(Ty::Scalar(Scalar::Int64));
        self.storage.push(Ty::Scalar(Scalar::Uint32));
        self.storage.push(Ty::Scalar(Scalar::Uint64));
        self.storage.push(Ty::Scalar(Scalar::Sint32));
        self.storage.push(Ty::Scalar(Scalar::Sint64));
        self.storage.push(Ty::Scalar(Scalar::Fixed32));
        self.storage.push(Ty::Scalar(Scalar::Fixed64));
        self.storage.push(Ty::Scalar(Scalar::Sfixed32));
        self.storage.push(Ty::Scalar(Scalar::Sfixed64));
        self.storage.push(Ty::Scalar(Scalar::Bool));
        self.storage.push(Ty::Scalar(Scalar::String));
        self.storage.push(Ty::Scalar(Scalar::Bytes));
        proof {
            assert forall|i: int| 0 <= i < self.storage@.len() implies refs_below(#[trigger] self.storage@[i], i as nat) by {
                assert(self.storage@[i] == Ty::Scalar(scalar_at(i)));
            }
        }
    }

    /// The id of a scalar type.
    pub fn get_scalar(&self, scalar: Scalar) -> (res: TypeId)
        ensures
            res.0 == scalar_index(scalar),
    {
        match scalar {
            Scalar::Double => TypeId(0),
            Scalar::Float => TypeId(1),
            Scalar::Int32 => TypeId(2),
            Scalar::Int64 => TypeId(3),
            Scalar::Uint32 => TypeId(4),
            Scalar::Uint64 => TypeId(5),
            Scalar::Sint32 => TypeId(6),
            Scalar::Sint64 => TypeId(7),
            Scalar::Fixed32 => TypeId(8),
            Scalar::Fixed64 => TypeId(9),
            Scalar::Sfixed32 => TypeId(10),
            Scalar::Sfixed64 => TypeId(11),
            Scalar::Bool => TypeId(12),
            Scalar::String => TypeId(13),
            Scalar::Bytes => TypeId(14),
        }
    }

    /// The number of types.
    pub fn len(&self) -> (res: usize)
        ensures
            res == self.types().len(),
    {
        self.storage.len()
    }

    /// The type with the given id.
    pub fn get(&self, id: TypeId) -> (res: &Ty)
        requires
            id.0 < self.types().len(),
        ensures
            *res == self.types()[id.0 as int],
    {
        &self.storage[id.0]
    }

    /// Appends a type and gives its id, the number of types before it.
    pub fn add(&mut self, ty: Ty) -> (res: TypeId)
        requires
            old(self).wf(),
            refs_below(ty, old(self).types().len()),
        ensures
            final(self).wf(),
            res.0 == old(self).types().len(),
            final(self).types() == old(self).types().push(ty),
            final(self).names() == old(self).names(),
            final(self).model() == old(self).model().add(ty_model(ty)),
    {
        proof {
            assert(old(self).types().push(ty).map_values(|t: Ty| ty_model(t)) =~= old(self).types().map_values(
                |t: Ty| ty_model(t),
            ).push(ty_model(ty)));
        }
        let index = self.storage.len();
        self.storage.push(ty);
        proof {
            assert forall|i: int| 0 <= i < self.storage@.len() implies refs_below(#[trigger] self.storage@[i], i as nat) by {
                if i < index {
                    assert(self.storage@[i] == old(self).storage@[i]);
                    lemma_refs_below_mono(self.storage@[i], i as nat, i as nat);
                }
            }
            assert forall|i: int| 0 <= i < SCALAR_COUNT implies #[trigger] self.storage@[i] == Ty::Scalar(scalar_at(i)) by {
                assert(self.storage@[i] == old(self).storage@[i]);
            }
        }
        TypeId(index)
    }

    /// Appends a type under a full name, which from now on leads to it.
    pub fn add_with_name(&mut self, name: String, ty: Ty) -> (res: TypeId)
        requires
            old(self).wf(),
            refs_below(ty, old(self).types().len()),
        ensures
            final(self).wf(),
            res.0 == old(self).types().len(),
            final(self).types() == old(self).types().push(ty),
            final(self).names() == old(self).names().insert(name@, res),
            final(self).model() == old(self).model().add_named(name@, ty_model(ty)),
    {
        proof {
            lemma_model_named(old(self).types(), old(self).names(), ty, name@);
        }
        let id = self.add(ty);
        let ghost storage_after = self.storage@;
        let ghost names_before = self.named_types@;
        let mut i: usize = 0;
        while i < self.named_types.len()
            invariant
                self.wf(),
                self.storage@ == storage_after,
                self.named_types@ == names_before,
                storage_after == old(self).storage@.push(ty),
                names_map(names_before) == old(self).names(),
                id.0 == old(self).storage@.len(),
                id.0 < self.storage@.len(),
                i <= self.named_types@.len(),
                forall|j: int| 0 <= j < i ==> #[trigger] self.named_types@[j].0@ != name@,
            decreases self.named_types@.len() - i,
        {
            if self.named_types[i].0 == name {
                let ghost before = self.named_types@;
                self.named_types.set(i, (name, id));
                proof {
                    lemma_names_map_update(before, i as int, name@, id);
                    lemma_model_named(old(self).types(), old(self).names(), ty, name@);
                    assert forall|a: int, b: int|
                        0 <= a < b < self.named_types@.len() implies #[trigger] self.named_types@[a].0@
                            != #[trigger] self.named_types@[b].0@ by {
                        assert(before[a].0@ != before[b].0@);
                    }
                    assert forall|a: int| 0 <= a < self.named_types@.len() implies #[trigger] self.named_types@[a].1.0
                        < self.storage@.len() by {
                        assert(a != i ==> self.named_types@[a] == before[a]);
                    }
                }
                return id;
            }
            i = i + 1;
        }
        let ghost before = self.named_types@;
        self.named_types.push((name, id));
        proof {
            assert(self.named_types@.drop_last() == before);
            assert forall|a: int, b: int|
                0 <= a < b < self.named_types@.len() implies #[trigger] self.named_types@[a].0@
                    != #[trigger] self.named_types@[b].0@ by {
                if b < before.len() {
                    assert(before[a].0@ != before[b].0@);
                } else {
                    assert(self.named_types@[a] == before[a]);
                }
            }
            assert forall|a: int| 0 <= a < self.named_types@.len() implies #[trigger] self.named_types@[a].1.0
                < self.storage@.len() by {
                if a < before.len() {
                    assert(self.named_types@[a] == before[a]);
                }
            }
        }
        id
    }

    /// The id of the type with the given full name, if there is one.
    pub fn try_get_by_name(&self, name: &str) -> (res: Option<TypeId>)
        requires
            self.wf(),
        ensures
            match res {
                Some(id) => self.names().contains_key(name@) && self.names()[name@] == id,
                None => !self.names().contains_key(name@),
            },
    {
        let target = name.to_owned();
        let mut i: usize = 0;
        while i < self.named_types.len()
            invariant
                self.wf(),
                target@ == name@,
                i <= self.named_types@.len(),
                forall|j: int| 0 <= j < i ==> #[trigger] self.named_types@[j].0@ != name@,
            decreases self.named_types@.len() - i,
        {
            if self.named_types[i].0 == target {
                proof {
                    lemma_names_map_unique(self.named_types@, i as int);
                }
                return Some(self.named_types[i].1);
            }
            i = i + 1;
        }
        proof {
            lemma_names_map_absent(self.named_types@, name@);
        }
        None
    }

    /// The id of the type with the given full name, or an error naming it.
    pub fn get_by_name(&self, name: &str) -> (res: Result<TypeId, TypeNotFound>)
        requires
            self.wf(),
        ensures
            match res {
                Ok(id) => self.names().contains_key(name@) && self.names()[name@] == id,
                Err(e) => !self.names().contains_key(name@) && e.name@ == name@,
            },
    {
        match self.try_get_by_name(name) {
            Some(id) => Ok(id),
            None => Err(TypeNotFound { name: name.to_owned() }),
        }
    }
}

/// No type of the map has the full name given.
#[derive(Debug)]
pub struct TypeNotFound {
    pub name: String,
}

impl TypeNotFound {
    /// The error's message.
    pub fn message(&self) -> (res: String)
        ensures
            res@ == "type "@ + self.name@ + " not found"@,
    {
        let mut s = "type ".to_owned();
        crate::text::push_str(&mut s, self.name.as_str());
        crate::text::push_str(&mut s, " not found");
        s
    }
}

proof fn lemma_model_named(types: Seq<Ty>, names: Map<Seq<char>, TypeId>, ty: Ty, name: Seq<char>)
    ensures
        types.push(ty).map_values(|t: Ty| ty_model(t)) == types.map_values(|t: Ty| ty_model(t)).push(ty_model(ty)),
        names.insert(name, TypeId(types.len() as usize)).map_values(|id: TypeId| id.0) == names.map_values(
            |id: TypeId| id.0,
        ).insert(name, types.len() as usize),
{
    assert(types.push(ty).map_values(|t: Ty| ty_model(t)) =~= types.map_values(|t: Ty| ty_model(t)).push(ty_model(ty)));
    assert(names.insert(name, TypeId(types.len() as usize)).map_values(|id: TypeId| id.0) =~= names.map_values(
        |id: TypeId| id.0,
    ).insert(name, types.len() as usize));
}

pub proof fn lemma_refs_below_mono(ty: Ty, a: nat, b: nat)
    requires
        refs_below(ty, a),
        a <= b,
    ensures
        refs_below(ty, b),
{
}

proof fn lemma_names_map_bound(entries: Seq<(String, TypeId)>, n: Seq<char>, bound: nat)
    requires
        forall|i: int| 0 <= i < entries.len() ==> #[trigger] entries[i].1.0 < bound,
        names_map(entries).contains_key(n),
    ensures
        names_map(entries)[n].0 < bound,
    decreases entries.len(),
{
    if entries.len() > 0 {
        let init = entries.drop_last();
        if entries.last().0@ != n {
            assert forall|i: int| 0 <= i < init.len() implies #[trigger] init[i].1.0 < bound by {
                assert(init[i] == entries[i]);
            }
            lemma_names_map_bound(init, n, bound);
        }
    }
}

proof fn lemma_names_map_absent(entries: Seq<(String, TypeId)>, n: Seq<char>)
    requires
        forall|i: int| 0 <= i < entries.len() ==> #[trigger] entries[i].0@ != n,
    ensures
        !names_map(entries).contains_key(n),
    decreases entries.len(),
{
    if entries.len() > 0 {
        let init = entries.drop_last();
        assert forall|i: int| 0 <= i < init.len() implies #[trigger] init[i].0@ != n by {
            assert(init[i] == entries[i]);
        }
        lemma_names_map_absent(init, n);
        assert(entries.last() == entries[entries.len() - 1]);
    }
}

proof fn lemma_names_map_unique(entries: Seq<(String, TypeId)>, k: int)
    requires
        0 <= k < entries.len(),
        forall|i: int, j: int| 0 <= i < j < entries.len() ==> #[trigger] entries[i].0@ != #[trigger] entries[j].0@,
    ensures
        names_map(entries).contains_key(entries[k].0@),
        names_map(entries)[entries[k].0@] == entries[k].1,
    decreases entries.len(),
{
    let init = entries.drop_last();
    if k == entries.len() - 1 {
    } else {
        assert forall|i: int, j: int| 0 <= i < j < init.len() implies #[trigger] init[i].0@ != #[trigger] init[j].0@ by {
            assert(init[i] == entries[i] && init[j] == entries[j]);
        }
        assert(init[k] == entries[k]);
        assert(entries[k].0@ != entries[entries.len() - 1].0@);
        lemma_names_map_unique(init, k);
    }
}

proof fn lemma_names_map_update(entries: Seq<(String, TypeId)>, k: int, n: Seq<char>, id: TypeId)
    requires
        0 <= k < entries.len(),
        entries[k].0@ == n,
        forall|i: int, j: int| 0 <= i < j < entries.len() ==> #[trigger] entries[i].0@ != #[trigger] entries[j].0@,
    ensures
        forall|s: String| #[trigger] (s@) == n ==> names_map(entries.update(k, (s, id))) == names_map(entries).insert(n, id),
    decreases entries.len(),
{
    assert forall|s: String| #[trigger] (s@) == n implies names_map(entries.update(k, (s, id)))
        == names_map(entries).insert(n, id) by {
        let upd = entries.update(k, (s, id));
        let init = entries.drop_last();
        if k == entries.len() - 1 {
            assert(upd.drop_last() == init);
        } else {
            assert forall|i: int, j: int| 0 <= i < j < init.len() implies #[trigger] init[i].0@ != #[trigger] init[j].0@ by {
                assert(init[i] == entries[i] && init[j] == entries[j]);
            }
            lemma_names_map_update(init, k, n, id);
            assert(upd.drop_last() == init.update(k, (s, id)));
            assert(entries.last().0@ != n) by {
                assert(entries[entries.len() - 1].0@ != entries[k].0@);
            }
            assert(names_map(upd) == names_map(entries).insert(n, id));
        }
    }
}

/// A type added under a name is the one the name then leads to: after
/// `add_with_name`, `get_by_name` and `try_get_by_name` give its id, which is
/// where the type stands; every other name leads where it led before, and a
/// name never added leads nowhere.
pub proof fn law_added_name_is_found(before: TypeMap, after: TypeMap, name: Seq<char>, ty: Ty, id: TypeId)
    requires
        id.0 == before.types().len(),
        after.types() == before.types().push(ty),
        after.names() == before.names().insert(name, id),
    ensures
        after.names().contains_key(name),
        after.names()[name] == id,
        id.0 < after.types().len(),
        after.types()[id.0 as int] == ty,
        forall|other: Seq<char>|
            other != name ==> (#[trigger] after.names().contains_key(other) <==> before.names().contains_key(other))
                && (before.names().contains_key(other) ==> after.names()[other] == before.names()[other]),
{
}

} // verus!
