//! File descriptor sets, as protoc describes the messages and enums of
//! `.proto` files, and how their types are added to a `TypeMap`.
use vstd::prelude::*;

use crate::text::push_str;
use crate::ty::{
    enum_values_view, field_view, pairs_map, refs_below, scalar_index, slab_fields, ty_model, Enum, EnumValue,
    MapModel, Message, MessageField, Scalar, Ty, TySpec, TypeId, TypeMap,
};

verus! {

/// How often a field may occur.
#[derive(Debug, Clone, Copy, PartialEq, Eq, Structural)]
pub enum Label {
    Optional,
    Required,
    Repeated,
}

/// The declared type of a field.
#[derive(Debug, Clone, Copy, PartialEq, Eq, Structural)]
pub enum FieldType {
    Double,
    Float,
    Int64,
    Uint64,
    Int32,
    Fixed64,
    Fixed32,
    Bool,
    String,
    Group,
    Message,
    Bytes,
    Uint32,
    Enum,
    Sfixed32,
    Sfixed64,
    Sint32,
    Sint64,
}

/// A field of a message type.
#[derive(Debug)]
pub struct FieldDescriptor {
    pub name: String,
    pub number: i32,
    pub label: Label,
    pub field_type: FieldType,
    /// The full name of the message or enum type, for fields of those types.
    pub type_path: String,
    pub json_name: String,
}

/// A value of an enum type.
#[derive(Debug)]
pub struct EnumValueDescriptor {
    pub name: String,
    pub number: i32,
}

/// An enum type.
#[derive(Debug)]
pub struct EnumDescriptor {
    pub name: String,
    pub value: Vec<EnumValueDescriptor>,
}

/// A message type, with the types declared inside it.
#[derive(Debug)]
pub struct MessageDescriptor {
    pub name: String,
    pub field: Vec<FieldDescriptor>,
    pub nested_type: Vec<MessageDescriptor>,
    pub enum_type: Vec<EnumDescriptor>,
    /// Whether the message is the entry type of a map field.
    pub map_entry: bool,
}

/// A `.proto` file: its package and the types declared at its top.
#[derive(Debug)]
pub struct FileDescriptor {
    pub package: String,
    pub message_type: Vec<MessageDescriptor>,
    pub enum_type: Vec<EnumDescriptor>,
}

/// A type found in a file set, with what adding it needs.
#[derive(Debug)]
pub enum TyProto {
    Message { field: Vec<FieldDescriptor>, map_entry: bool },
    Enum { value: Vec<EnumValueDescriptor> },
}

/// Why types could not be added.
#[derive(Debug)]
pub struct DescriptorError {
    pub message: String,
}

// ---------------------------------------------------------------------------
// Collecting the types of a file set by full name

/// A name inside a namespace.
pub open spec fn qualify(ns: Seq<char>, name: Seq<char>) -> Seq<char> {
    ns + "."@ + name
}

/// The namespace of a file's top-level types: empty without a package,
/// else a dot and the package.
pub open spec fn file_namespace(package: Seq<char>) -> Seq<char> {
    if package.len() == 0 {
        Seq::empty()
    } else {
        "."@ + package
    }
}

pub open spec fn duplicate_text(name: Seq<char>) -> Seq<char> {
    "duplicate type definition "@ + name
}

/// The types found so far, by full name.
pub open spec fn protos_view(protos: Seq<(String, TyProto)>) -> Seq<(Seq<char>, TyProto)> {
    protos.map_values(|p: (String, TyProto)| (p.0@, p.1))
}

/// A type's entry is added unless its full name is taken.
pub open spec fn insert_proto(acc: Seq<(Seq<char>, TyProto)>, name: Seq<char>, p: TyProto) -> Result<Seq<(Seq<char>, TyProto)>, Seq<char>> {
    if exists|i: int| 0 <= i < acc.len() && #[trigger] acc[i].0 == name {
        Err(duplicate_text(name))
    } else {
        Ok(acc.push((name, p)))
    }
}

/// The entry of a message type.
pub open spec fn message_proto(m: MessageDescriptor) -> TyProto {
    TyProto::Message { field: m.field, map_entry: m.map_entry }
}

/// Adding the enums of a namespace in order.
pub open spec fn index_enums(ns: Seq<char>, es: Seq<EnumDescriptor>, acc: Seq<(Seq<char>, TyProto)>) -> Result<Seq<(Seq<char>, TyProto)>, Seq<char>>
    decreases es.len(),
{
    if es.len() == 0 {
        Ok(acc)
    } else {
        match insert_proto(acc, qualify(ns, es[0].name@), TyProto::Enum { value: es[0].value }) {
            Ok(a) => index_enums(ns, es.skip(1), a),
            Err(e) => Err(e),
        }
    }
}

/// Adding messages of a namespace in order: each after the types declared
/// inside it.
pub open spec fn index_messages(ns: Seq<char>, ms: Seq<MessageDescriptor>, acc: Seq<(Seq<char>, TyProto)>) -> Result<Seq<(Seq<char>, TyProto)>, Seq<char>>
    decreases ms,
{
    if ms.len() == 0 {
        Ok(acc)
    } else {
        let full = qualify(ns, ms[0].name@);
        match index_contents(full, ms[0], acc) {
            Ok(a) => match insert_proto(a, full, message_proto(ms[0])) {
                Ok(a2) => {
                    proof {
                        vstd::seq::axiom_seq_subrange_decreases(ms, 1, ms.len() as int);
                    }
                    index_messages(ns, ms.skip(1), a2)
                },
                Err(e) => Err(e),
            },
            Err(e) => Err(e),
        }
    }
}

/// Adding the types declared inside a message, under its full name.
pub open spec fn index_contents(ns: Seq<char>, m: MessageDescriptor, acc: Seq<(Seq<char>, TyProto)>) -> Result<Seq<(Seq<char>, TyProto)>, Seq<char>>
    decreases m,
{
    proof {
        assert(decreases_to!(m => m.nested_type));
        vstd::std_specs::vec::axiom_vec_decreases_to_view(m.nested_type);
    }
    match index_messages(ns, m.nested_type@, acc) {
        Ok(a) => index_enums(ns, m.enum_type@, a),
        Err(e) => Err(e),
    }
}

/// Adding the types of files in order.
pub open spec fn index_files(files: Seq<FileDescriptor>, acc: Seq<(Seq<char>, TyProto)>) -> Result<Seq<(Seq<char>, TyProto)>, Seq<char>>
    decreases files.len(),
{
    if files.len() == 0 {
        Ok(acc)
    } else {
        let ns = file_namespace(files[0].package@);
        match index_messages(ns, files[0].message_type@, acc) {
            Ok(a) => match index_enums(ns, files[0].enum_type@, a) {
                Ok(a2) => index_files(files.skip(1), a2),
                Err(e) => Err(e),
            },
            Err(e) => Err(e),
        }
    }
}

/// No full name occurs twice.
pub open spec fn unique_names(p: Seq<(Seq<char>, TyProto)>) -> bool {
    forall|i: int, j: int| 0 <= i < j < p.len() ==> #[trigger] p[i].0 != #[trigger] p[j].0
}

proof fn lemma_insert_unique(acc: Seq<(Seq<char>, TyProto)>, name: Seq<char>, p: TyProto)
    requires
        unique_names(acc),
    ensures
        insert_proto(acc, name, p) matches Ok(a) ==> unique_names(a),
{
    if let Ok(a) = insert_proto(acc, name, p) {
        assert forall|i: int, j: int| 0 <= i < j < a.len() implies #[trigger] a[i].0 != #[trigger] a[j].0 by {
            if j == acc.len() {
                assert(a[i] == acc[i]);
            } else {
                assert(a[i] == acc[i] && a[j] == acc[j]);
            }
        }
    }
}

proof fn lemma_index_enums_unique(ns: Seq<char>, es: Seq<EnumDescriptor>, acc: Seq<(Seq<char>, TyProto)>)
    requires
        unique_names(acc),
    ensures
        index_enums(ns, es, acc) matches Ok(a) ==> unique_names(a),
    decreases es.len(),
{
    if es.len() > 0 {
        let p = TyProto::Enum { value: es[0].value };
        lemma_insert_unique(acc, qualify(ns, es[0].name@), p);
        if let Ok(a) = insert_proto(acc, qualify(ns, es[0].name@), p) {
            lemma_index_enums_unique(ns, es.skip(1), a);
        }
    }
}

proof fn lemma_index_messages_unique(ns: Seq<char>, ms: Seq<MessageDescriptor>, acc: Seq<(Seq<char>, TyProto)>)
    requires
        unique_names(acc),
    ensures
        index_messages(ns, ms, acc) matches Ok(a) ==> unique_names(a),
    decreases ms,
{
    if ms.len() > 0 {
        let full = qualify(ns, ms[0].name@);
        lemma_index_contents_unique(full, ms[0], acc);
        if let Ok(a) = index_contents(full, ms[0], acc) {
            lemma_insert_unique(a, full, message_proto(ms[0]));
            if let Ok(a2) = insert_proto(a, full, message_proto(ms[0])) {
                vstd::seq::axiom_seq_subrange_decreases(ms, 1, ms.len() as int);
                lemma_index_messages_unique(ns, ms.skip(1), a2);
            }
        }
    }
}

proof fn lemma_index_contents_unique(ns: Seq<char>, m: MessageDescriptor, acc: Seq<(Seq<char>, TyProto)>)
    requires
        unique_names(acc),
    ensures
        index_contents(ns, m, acc) matches Ok(a) ==> unique_names(a),
    decreases m,
{
    assert(decreases_to!(m => m.nested_type));
    vstd::std_specs::vec::axiom_vec_decreases_to_view(m.nested_type);
    lemma_index_messages_unique(ns, m.nested_type@, acc);
    if let Ok(a) = index_messages(ns, m.nested_type@, acc) {
        lemma_index_enums_unique(ns, m.enum_type@, a);
    }
}

/// The types collected from files never share a full name.
pub proof fn law_index_names_unique(files: Seq<FileDescriptor>, acc: Seq<(Seq<char>, TyProto)>)
    requires
        unique_names(acc),
    ensures
        index_files(files, acc) matches Ok(p) ==> unique_names(p),
    decreases files.len(),
{
    if files.len() > 0 {
        let ns = file_namespace(files[0].package@);
        lemma_index_messages_unique(ns, files[0].message_type@, acc);
        if let Ok(a) = index_messages(ns, files[0].message_type@, acc) {
            lemma_index_enums_unique(ns, files[0].enum_type@, a);
            if let Ok(a2) = index_enums(ns, files[0].enum_type@, a) {
                law_index_names_unique(files.skip(1), a2);
            }
        }
    }
}

/// The full name of a type declared at the top of a file: a dot and its
/// name without a package, else a dot, the package, a dot and the name.
pub open spec fn top_level_name(package: Seq<char>, name: Seq<char>) -> Seq<char> {
    if package.len() == 0 {
        "."@ + name
    } else {
        "."@ + package + "."@ + name
    }
}

/// `r` holds the entry `(name, p)`.
pub open spec fn holds_entry(r: Seq<(Seq<char>, TyProto)>, name: Seq<char>, p: TyProto) -> bool {
    exists|k: int| 0 <= k < r.len() && r[k] == (name, p)
}

/// `r` begins with the entries of `acc`.
pub open spec fn extends(r: Seq<(Seq<char>, TyProto)>, acc: Seq<(Seq<char>, TyProto)>) -> bool {
    acc.len() <= r.len() && forall|k: int| 0 <= k < acc.len() ==> #[trigger] r[k] == acc[k]
}

proof fn lemma_extends_holds(r: Seq<(Seq<char>, TyProto)>, acc: Seq<(Seq<char>, TyProto)>, name: Seq<char>, p: TyProto)
    requires
        extends(r, acc),
        holds_entry(acc, name, p),
    ensures
        holds_entry(r, name, p),
{
    let k = choose|k: int| 0 <= k < acc.len() && acc[k] == (name, p);
    assert(r[k] == acc[k]);
}

proof fn lemma_insert_entry(acc: Seq<(Seq<char>, TyProto)>, name: Seq<char>, p: TyProto)
    ensures
        insert_proto(acc, name, p) matches Ok(a) ==> extends(a, acc) && holds_entry(a, name, p),
{
    if let Ok(a) = insert_proto(acc, name, p) {
        assert(a[acc.len() as int] == (name, p));
    }
}

proof fn lemma_index_enums_entries(ns: Seq<char>, es: Seq<EnumDescriptor>, acc: Seq<(Seq<char>, TyProto)>)
    ensures
        index_enums(ns, es, acc) matches Ok(r) ==> extends(r, acc) && forall|j: int|
            0 <= j < es.len() ==> holds_entry(r, qualify(ns, #[trigger] es[j].name@), TyProto::Enum { value: es[j].value }),
    decreases es.len(),
{
    if es.len() > 0 {
        let p = TyProto::Enum { value: es[0].value };
        lemma_insert_entry(acc, qualify(ns, es[0].name@), p);
        if let Ok(a) = insert_proto(acc, qualify(ns, es[0].name@), p) {
            lemma_index_enums_entries(ns, es.skip(1), a);
            if let Ok(r) = index_enums(ns, es.skip(1), a) {
                lemma_extends_holds(r, a, qualify(ns, es[0].name@), p);
                assert forall|j: int| 0 <= j < es.len() implies holds_entry(
                    r,
                    qualify(ns, #[trigger] es[j].name@),
                    TyProto::Enum { value: es[j].value },
                ) by {
                    if j > 0 {
                        assert(es.skip(1)[j - 1] == es[j]);
                    }
                }
            }
        }
    }
}

proof fn lemma_index_messages_entries(ns: Seq<char>, ms: Seq<MessageDescriptor>, acc: Seq<(Seq<char>, TyProto)>)
    ensures
        index_messages(ns, ms, acc) matches Ok(r) ==> {
            &&& extends(r, acc)
            &&& forall|j: int| 0 <= j < ms.len() ==> holds_entry(r, qualify(ns, #[trigger] ms[j].name@), message_proto(ms[j]))
            &&& forall|j: int, i: int|
                0 <= j < ms.len() && 0 <= i < ms[j].nested_type@.len() ==> holds_entry(
                    r,
                    qualify(qualify(ns, ms[j].name@), #[trigger] ms[j].nested_type@[i].name@),
                    message_proto(ms[j].nested_type@[i]),
                )
            &&& forall|j: int, i: int|
                0 <= j < ms.len() && 0 <= i < ms[j].enum_type@.len() ==> holds_entry(
                    r,
                    qualify(qualify(ns, ms[j].name@), #[trigger] ms[j].enum_type@[i].name@),
                    TyProto::Enum { value: ms[j].enum_type@[i].value },
                )
        },
    decreases ms,
{
    if ms.len() > 0 {
        let full = qualify(ns, ms[0].name@);
        lemma_index_contents_extends(full, ms[0], acc);
        if let Ok(a) = index_contents(full, ms[0], acc) {
            lemma_insert_entry(a, full, message_proto(ms[0]));
            if let Ok(a2) = insert_proto(a, full, message_proto(ms[0])) {
                vstd::seq::axiom_seq_subrange_decreases(ms, 1, ms.len() as int);
                lemma_index_messages_entries(ns, ms.skip(1), a2);
                if let Ok(r) = index_messages(ns, ms.skip(1), a2) {
                    lemma_extends_holds(r, a2, full, message_proto(ms[0]));
                    assert forall|k: int| 0 <= k < acc.len() implies #[trigger] r[k] == acc[k] by {
                        assert(a[k] == acc[k]);
                        assert(a2[k] == a[k]);
                    }
                    assert forall|j: int| 0 <= j < ms.len() implies holds_entry(
                        r,
                        qualify(ns, #[trigger] ms[j].name@),
                        message_proto(ms[j]),
                    ) by {
                        if j > 0 {
                            assert(ms.skip(1)[j - 1] == ms[j]);
                        }
                    }
                    assert forall|j: int, i: int|
                        0 <= j < ms.len() && 0 <= i < ms[j].nested_type@.len() implies holds_entry(
                            r,
                            qualify(qualify(ns, ms[j].name@), #[trigger] ms[j].nested_type@[i].name@),
                            message_proto(ms[j].nested_type@[i]),
                        ) by {
                        if j > 0 {
                            assert(ms.skip(1)[j - 1] == ms[j]);
                        } else {
                            let n = ms[0].nested_type@[i];
                            lemma_extends_holds(a2, a, qualify(full, n.name@), message_proto(n));
                            lemma_extends_holds(r, a2, qualify(full, n.name@), message_proto(n));
                        }
                    }
                    assert forall|j: int, i: int|
                        0 <= j < ms.len() && 0 <= i < ms[j].enum_type@.len() implies holds_entry(
                            r,
                            qualify(qualify(ns, ms[j].name@), #[trigger] ms[j].enum_type@[i].name@),
                            TyProto::Enum { value: ms[j].enum_type@[i].value },
                        ) by {
                        if j > 0 {
                            assert(ms.skip(1)[j - 1] == ms[j]);
                        } else {
                            let e = ms[0].enum_type@[i];
                            lemma_extends_holds(a2, a, qualify(full, e.name@), TyProto::Enum { value: e.value });
                            lemma_extends_holds(r, a2, qualify(full, e.name@), TyProto::Enum { value: e.value });
                        }
                    }
                }
            }
        }
    }
}

proof fn lemma_index_contents_extends(ns: Seq<char>, m: MessageDescriptor, acc: Seq<(Seq<char>, TyProto)>)
    ensures
        index_contents(ns, m, acc) matches Ok(r) ==> {
            &&& extends(r, acc)
            &&& forall|i: int|
                0 <= i < m.nested_type@.len() ==> holds_entry(
                    r,
                    qualify(ns, #[trigger] m.nested_type@[i].name@),
                    message_proto(m.nested_type@[i]),
                )
            &&& forall|i: int|
                0 <= i < m.enum_type@.len() ==> holds_entry(
                    r,
                    qualify(ns, #[trigger] m.enum_type@[i].name@),
                    TyProto::Enum { value: m.enum_type@[i].value },
                )
        },
    decreases m,
{
    assert(decreases_to!(m => m.nested_type));
    vstd::std_specs::vec::axiom_vec_decreases_to_view(m.nested_type);
    lemma_index_messages_entries(ns, m.nested_type@, acc);
    if let Ok(a) = index_messages(ns, m.nested_type@, acc) {
        lemma_index_enums_entries(ns, m.enum_type@, a);
        if let Ok(r) = index_enums(ns, m.enum_type@, a) {
            assert forall|k: int| 0 <= k < acc.len() implies #[trigger] r[k] == acc[k] by {
                assert(a[k] == acc[k]);
            }
            assert forall|i: int| 0 <= i < m.nested_type@.len() implies holds_entry(
                r,
                qualify(ns, #[trigger] m.nested_type@[i].name@),
                message_proto(m.nested_type@[i]),
            ) by {
                lemma_extends_holds(r, a, qualify(ns, m.nested_type@[i].name@), message_proto(m.nested_type@[i]));
            }
        }
    }
}

/// Where types are collected from files, every message and enum declared at
/// the top of a file is there, with its own entry, under the full name
/// `.N` in a file without a package and `.P.N` in one with package `P`;
/// the types declared inside such a message are there under its full name,
/// a dot and their own name; the types found before stay in front.
pub proof fn law_top_level_types_registered(files: Seq<FileDescriptor>, acc: Seq<(Seq<char>, TyProto)>)
    ensures
        index_files(files, acc) matches Ok(r) ==> {
            &&& extends(r, acc)
            &&& forall|i: int, j: int|
                0 <= i < files.len() && 0 <= j < files[i].message_type@.len() ==> holds_entry(
                    r,
                    top_level_name(files[i].package@, #[trigger] files[i].message_type@[j].name@),
                    message_proto(files[i].message_type@[j]),
                )
            &&& forall|i: int, j: int|
                0 <= i < files.len() && 0 <= j < files[i].enum_type@.len() ==> holds_entry(
                    r,
                    top_level_name(files[i].package@, #[trigger] files[i].enum_type@[j].name@),
                    TyProto::Enum { value: files[i].enum_type@[j].value },
                )
            &&& forall|i: int, j: int, k: int|
                0 <= i < files.len() && 0 <= j < files[i].message_type@.len() && 0 <= k
                    < files[i].message_type@[j].nested_type@.len() ==> holds_entry(
                    r,
                    qualify(
                        top_level_name(files[i].package@, files[i].message_type@[j].name@),
                        #[trigger] files[i].message_type@[j].nested_type@[k].name@,
                    ),
                    message_proto(files[i].message_type@[j].nested_type@[k]),
                )
            &&& forall|i: int, j: int, k: int|
                0 <= i < files.len() && 0 <= j < files[i].message_type@.len() && 0 <= k
                    < files[i].message_type@[j].enum_type@.len() ==> holds_entry(
                    r,
                    qualify(
                        top_level_name(files[i].package@, files[i].message_type@[j].name@),
                        #[trigger] files[i].message_type@[j].enum_type@[k].name@,
                    ),
                    TyProto::Enum { value: files[i].message_type@[j].enum_type@[k].value },
                )
        },
    decreases files.len(),
{
    if files.len() > 0 {
        let f = files[0];
        let ns = file_namespace(f.package@);
        assert forall|n: Seq<char>| qualify(ns, n) == top_level_name(f.package@, n) by {
            if f.package@.len() == 0 {
                assert(qualify(ns, n) =~= top_level_name(f.package@, n));
            }
        }
        lemma_index_messages_entries(ns, f.message_type@, acc);
        if let Ok(a) = index_messages(ns, f.message_type@, acc) {
            lemma_index_enums_entries(ns, f.enum_type@, a);
            if let Ok(a2) = index_enums(ns, f.enum_type@, a) {
                law_top_level_types_registered(files.skip(1), a2);
                if let Ok(r) = index_files(files.skip(1), a2) {
                    assert forall|k: int| 0 <= k < acc.len() implies #[trigger] r[k] == acc[k] by {
                        assert(a[k] == acc[k]);
                        assert(a2[k] == a[k]);
                    }
                    assert forall|i: int, j: int|
                        0 <= i < files.len() && 0 <= j < files[i].message_type@.len() implies holds_entry(
                            r,
                            top_level_name(files[i].package@, #[trigger] files[i].message_type@[j].name@),
                            message_proto(files[i].message_type@[j]),
                        ) by {
                        if i == 0 {
                            let n = f.message_type@[j].name@;
                            assert(qualify(ns, n) == top_level_name(f.package@, n));
                            lemma_extends_holds(a2, a, qualify(ns, n), message_proto(f.message_type@[j]));
                            lemma_extends_holds(r, a2, qualify(ns, n), message_proto(f.message_type@[j]));
                        } else {
                            assert(files.skip(1)[i - 1] == files[i]);
                        }
                    }
                    assert forall|i: int, j: int|
                        0 <= i < files.len() && 0 <= j < files[i].enum_type@.len() implies holds_entry(
                            r,
                            top_level_name(files[i].package@, #[trigger] files[i].enum_type@[j].name@),
                            TyProto::Enum { value: files[i].enum_type@[j].value },
                        ) by {
                        if i == 0 {
                            let n = f.enum_type@[j].name@;
                            assert(qualify(ns, n) == top_level_name(f.package@, n));
                            lemma_extends_holds(r, a2, qualify(ns, n), TyProto::Enum { value: f.enum_type@[j].value });
                        } else {
                            assert(files.skip(1)[i - 1] == files[i]);
                        }
                    }
                    assert forall|i: int, j: int, k: int|
                        0 <= i < files.len() && 0 <= j < files[i].message_type@.len() && 0 <= k
                            < files[i].message_type@[j].nested_type@.len() implies holds_entry(
                            r,
                            qualify(
                                top_level_name(files[i].package@, files[i].message_type@[j].name@),
                                #[trigger] files[i].message_type@[j].nested_type@[k].name@,
                            ),
                            message_proto(files[i].message_type@[j].nested_type@[k]),
                        ) by {
                        if i == 0 {
                            let m = f.message_type@[j];
                            let n = m.nested_type@[k];
                            assert(qualify(ns, m.name@) == top_level_name(f.package@, m.name@));
                            lemma_extends_holds(a2, a, qualify(qualify(ns, m.name@), n.name@), message_proto(n));
                            lemma_extends_holds(r, a2, qualify(qualify(ns, m.name@), n.name@), message_proto(n));
                        } else {
                            assert(files.skip(1)[i - 1] == files[i]);
                        }
                    }
                    assert forall|i: int, j: int, k: int|
                        0 <= i < files.len() && 0 <= j < files[i].message_type@.len() && 0 <= k
                            < files[i].message_type@[j].enum_type@.len() implies holds_entry(
                            r,
                            qualify(
                                top_level_name(files[i].package@, files[i].message_type@[j].name@),
                                #[trigger] files[i].message_type@[j].enum_type@[k].name@,
                            ),
                            TyProto::Enum { value: files[i].message_type@[j].enum_type@[k].value },
                        ) by {
                        if i == 0 {
                            let m = f.message_type@[j];
                            let e = m.enum_type@[k];
                            let p = TyProto::Enum { value: e.value };
                            assert(qualify(ns, m.name@) == top_level_name(f.package@, m.name@));
                            lemma_extends_holds(a2, a, qualify(qualify(ns, m.name@), e.name@), p);
                            lemma_extends_holds(r, a2, qualify(qualify(ns, m.name@), e.name@), p);
                        } else {
                            assert(files.skip(1)[i - 1] == files[i]);
                        }
                    }
                }
            }
        }
    }
}

fn qualify_name(ns: &str, name: &str) -> (res: String)
    ensures
        res@ == qualify(ns@, name@),
{
    let mut s = ns.to_owned();
    push_str(&mut s, ".");
    push_str(&mut s, name);
    s
}

/// Adds a type's entry unless its full name is taken.
fn insert(protos: &mut Vec<(String, TyProto)>, name: String, p: TyProto) -> (res: Result<(), DescriptorError>)
    ensures
        match insert_proto(protos_view(old(protos)@), name@, p) {
            Ok(a) => res is Ok && protos_view(final(protos)@) == a,
            Err(e) => res matches Err(err) && err.message@ == e && final(protos)@ == old(protos)@,
        },
{
    let ghost pv = protos_view(protos@);
    let mut i: usize = 0;
    while i < protos.len()
        invariant
            pv == protos_view(protos@),
            i <= protos@.len(),
            forall|j: int| 0 <= j < i ==> #[trigger] pv[j].0 != name@,
        decreases protos@.len() - i,
    {
        if protos[i].0 == name {
            proof {
                assert(pv[i as int].0 == name@);
            }
            let mut message = "duplicate type definition ".to_owned();
            push_str(&mut message, name.as_str());
            return Err(DescriptorError { message });
        }
        i = i + 1;
    }
    let ghost q = p;
    let ghost n = name@;
    protos.push((name, p));
    proof {
        assert(protos_view(protos@) =~= pv.push((n, q)));
    }
    Ok(())
}

/// Adds the enums of a namespace in order.
fn iter_enums(ns: &str, enums: Vec<EnumDescriptor>, protos: &mut Vec<(String, TyProto)>) -> (res: Result<(), DescriptorError>)
    ensures
        match index_enums(ns@, enums@, protos_view(old(protos)@)) {
            Ok(a) => res is Ok && protos_view(final(protos)@) == a,
            Err(e) => res matches Err(err) && err.message@ == e,
        },
{
    let ghost target = index_enums(ns@, enums@, protos_view(protos@));
    let mut rest = enums;
    while rest.len() > 0
        invariant
            target == index_enums(ns@, enums@, protos_view(old(protos)@)),
            index_enums(ns@, rest@, protos_view(protos@)) == target,
        decreases rest@.len(),
    {
        let ghost before = rest@;
        let e = rest.remove(0);
        proof {
            assert(rest@ == before.skip(1));
        }
        let full = qualify_name(ns, e.name.as_str());
        match insert(protos, full, TyProto::Enum { value: e.value }) {
            Ok(()) => {},
            Err(err) => return Err(err),
        }
    }
    Ok(())
}

/// Adds messages of a namespace in order, each after the types inside it.
fn iter_messages(ns: &str, messages: Vec<MessageDescriptor>, protos: &mut Vec<(String, TyProto)>) -> (res: Result<(), DescriptorError>)
    ensures
        match index_messages(ns@, messages@, protos_view(old(protos)@)) {
            Ok(a) => res is Ok && protos_view(final(protos)@) == a,
            Err(e) => res matches Err(err) && err.message@ == e,
        },
    decreases messages@,
{
    let ghost all = messages@;
    let ghost target = index_messages(ns@, messages@, protos_view(protos@));
    let n = messages.len();
    let mut rest = messages;
    let mut i: usize = 0;
    while rest.len() > 0
        invariant
            all == messages@,
            all.len() == n,
            target == index_messages(ns@, messages@, protos_view(old(protos)@)),
            rest@ == all.skip(i as int),
            i <= all.len(),
            index_messages(ns@, rest@, protos_view(protos@)) == target,
        decreases rest@.len(),
    {
        let ghost before = rest@;
        let m = rest.remove(0);
        proof {
            assert(rest@ == before.skip(1));
            assert(all.skip(i as int).skip(1) == all.skip(i + 1));
            assert(before[0] == all[i as int]);
            vstd::seq::axiom_seq_index_decreases(all, i as int);
        }
        let full = qualify_name(ns, m.name.as_str());
        let proto = match iter_message(full.as_str(), m, protos) {
            Ok(p) => p,
            Err(err) => return Err(err),
        };
        match insert(protos, full, proto) {
            Ok(()) => {},
            Err(err) => return Err(err),
        }
        i = i + 1;
    }
    Ok(())
}

/// Adds the types declared inside a message under its full name, and gives
/// the message's own entry.
fn iter_message(ns: &str, m: MessageDescriptor, protos: &mut Vec<(String, TyProto)>) -> (res: Result<TyProto, DescriptorError>)
    ensures
        match index_contents(ns@, m, protos_view(old(protos)@)) {
            Ok(a) => res matches Ok(p) && p == message_proto(m) && protos_view(final(protos)@) == a,
            Err(e) => res matches Err(err) && err.message@ == e,
        },
    decreases m,
{
    let ghost whole = m;
    let MessageDescriptor { name: _, field, nested_type, enum_type, map_entry } = m;
    proof {
        assert(decreases_to!(whole => whole.nested_type));
        vstd::std_specs::vec::axiom_vec_decreases_to_view(whole.nested_type);
    }
    match iter_messages(ns, nested_type, protos) {
        Ok(()) => {},
        Err(err) => return Err(err),
    }
    match iter_enums(ns, enum_type, protos) {
        Ok(()) => {},
        Err(err) => return Err(err),
    }
    Ok(TyProto::Message { field, map_entry })
}

/// Collects the messages and enums of the files by full name, in order;
/// nested types come before the message they are declared in.
pub fn iter_tys(files: Vec<FileDescriptor>) -> (res: Result<Vec<(String, TyProto)>, DescriptorError>)
    ensures
        match index_files(files@, Seq::empty()) {
            Ok(a) => res matches Ok(v) && protos_view(v@) == a,
            Err(e) => res matches Err(err) && err.message@ == e,
        },
{
    let mut protos: Vec<(String, TyProto)> = Vec::new();
    let ghost target = index_files(files@, Seq::empty());
    proof {
        assert(protos_view(protos@) =~= Seq::empty());
    }
    let mut rest = files;
    while rest.len() > 0
        invariant
            target == index_files(files@, Seq::empty()),
            index_files(rest@, protos_view(protos@)) == target,
        decreases rest@.len(),
    {
        let ghost before = rest@;
        let f = rest.remove(0);
        proof {
            assert(rest@ == before.skip(1));
        }
        let ns = if f.package.as_str().unicode_len() == 0 {
            String::new()
        } else {
            let mut s = ".".to_owned();
            push_str(&mut s, f.package.as_str());
            s
        };
        match iter_messages(ns.as_str(), f.message_type, &mut protos) {
            Ok(()) => {},
            Err(err) => return Err(err),
        }
        match iter_enums(ns.as_str(), f.enum_type, &mut protos) {
            Ok(()) => {},
            Err(err) => return Err(err),
        }
    }
    Ok(protos)
}

// ---------------------------------------------------------------------------
// Adding the collected types to a type map

/// The index of the first entry with the given full name.
pub open spec fn proto_index(protos: Seq<(Seq<char>, TyProto)>, name: Seq<char>) -> Option<int>
    decreases protos.len(),
{
    if protos.len() == 0 {
        None
    } else if protos[0].0 == name {
        Some(0)
    } else {
        match proto_index(protos.skip(1), name) {
            Some(i) => Some(i + 1),
            None => None,
        }
    }
}

/// How many messages are not being added, nor were.
pub open spec fn unflagged(flags: Seq<bool>) -> nat
    decreases flags.len(),
{
    if flags.len() == 0 {
        0
    } else {
        unflagged(flags.drop_last()) + if flags.last() {
            0nat
        } else {
            1nat
        }
    }
}

/// Flags are only ever set.
pub open spec fn grows(a: Seq<bool>, b: Seq<bool>) -> bool {
    a.len() == b.len() && forall|i: int| 0 <= i < a.len() && #[trigger] a[i] ==> b[i]
}

/// The scalar type of a field of scalar type.
pub open spec fn field_scalar(t: FieldType) -> Option<Scalar> {
    match t {
        FieldType::Double => Some(Scalar::Double),
        FieldType::Float => Some(Scalar::Float),
        FieldType::Int64 => Some(Scalar::Int64),
        FieldType::Uint64 => Some(Scalar::Uint64),
        FieldType::Int32 => Some(Scalar::Int32),
        FieldType::Fixed64 => Some(Scalar::Fixed64),
        FieldType::Fixed32 => Some(Scalar::Fixed32),
        FieldType::Bool => Some(Scalar::Bool),
        FieldType::String => Some(Scalar::String),
        FieldType::Bytes => Some(Scalar::Bytes),
        FieldType::Uint32 => Some(Scalar::Uint32),
        FieldType::Sfixed32 => Some(Scalar::Sfixed32),
        FieldType::Sfixed64 => Some(Scalar::Sfixed64),
        FieldType::Sint32 => Some(Scalar::Sint32),
        FieldType::Sint64 => Some(Scalar::Sint64),
        _ => None,
    }
}

pub open spec fn recursion_text(name: Seq<char>) -> Seq<char> {
    "infinite recursion detected while processing "@ + name
}

pub open spec fn not_found_text(name: Seq<char>) -> Seq<char> {
    "type "@ + name + " not found"@
}

pub open spec fn map_not_message_text() -> Seq<char> {
    "map entry must be message"@
}

pub open spec fn map_not_repeated_text() -> Seq<char> {
    "map entry must be repeated"@
}

/// Adding an enum under a name, unless the name is taken; gives its id.
pub open spec fn add_enum_m(mm: MapModel, name: Seq<char>, values: Seq<EnumValueDescriptor>) -> (MapModel, usize) {
    if mm.names.contains_key(name) {
        (mm, mm.names[name])
    } else {
        (
            mm.add_named(name, TySpec::Enum(name, values.map_values(|v: EnumValueDescriptor| (v.name@, v.number)))),
            mm.types.len() as usize,
        )
    }
}

/// Adding the message of entry `k` under a name, unless the name is taken:
/// the types of its fields first, then the message. A message met again
/// while its fields are added is an error.
pub open spec fn add_message_m(protos: Seq<(Seq<char>, TyProto)>, flags: Seq<bool>, mm: MapModel, name: Seq<char>, k: int) -> Result<(MapModel, Seq<bool>, usize), Seq<char>>
    decreases unflagged(flags), 1nat, 0nat,
{
    if mm.names.contains_key(name) {
        Ok((mm, flags, mm.names[name]))
    } else if !(0 <= k < flags.len() && k < protos.len()) {
        arbitrary()
    } else if flags[k] {
        Err(recursion_text(name))
    } else {
        match protos[k].1 {
            TyProto::Message { field, map_entry } => {
                let flags1 = flags.update(k, true);
                if unflagged(flags1) < unflagged(flags) {
                    match add_fields_m(protos, flags1, mm, field@, Map::empty()) {
                        Ok((mm2, flags2, fields)) => Ok(
                            (mm2.add_named(name, TySpec::Message(name, fields)), flags2, mm2.types.len() as usize),
                        ),
                        Err(e) => Err(e),
                    }
                } else {
                    arbitrary()
                }
            },
            _ => arbitrary(),
        }
    }
}

/// Adding the types of fields in order, collecting them by tag; a later
/// field replaces an earlier one with the same tag.
pub open spec fn add_fields_m(
    protos: Seq<(Seq<char>, TyProto)>,
    flags: Seq<bool>,
    mm: MapModel,
    fields: Seq<FieldDescriptor>,
    acc: Map<usize, (Seq<char>, Seq<char>, bool, usize)>,
) -> Result<(MapModel, Seq<bool>, Map<usize, (Seq<char>, Seq<char>, bool, usize)>), Seq<char>>
    decreases unflagged(flags), 3nat, fields.len(),
{
    if fields.len() == 0 {
        Ok((mm, flags, acc))
    } else {
        match add_field_m(protos, flags, mm, fields[0]) {
            Ok((mm1, flags1, id)) => if unflagged(flags1) <= unflagged(flags) {
                add_fields_m(
                    protos,
                    flags1,
                    mm1,
                    fields.skip(1),
                    acc.insert(
                        fields[0].number as usize,
                        (fields[0].name@, fields[0].json_name@, fields[0].field_type == FieldType::Group, id),
                    ),
                )
            } else {
                arbitrary()
            },
            Err(e) => Err(e),
        }
    }
}

/// Adding the type of a field: a scalar, or the message or enum it names
/// (found by full name), wrapped as a group, and then as a map where the
/// message is a map entry or as a list where the field repeats.
pub open spec fn add_field_m(protos: Seq<(Seq<char>, TyProto)>, flags: Seq<bool>, mm: MapModel, f: FieldDescriptor) -> Result<(MapModel, Seq<bool>, usize), Seq<char>>
    decreases unflagged(flags), 2nat, 0nat,
{
    let base: Result<(MapModel, Seq<bool>, usize, bool), Seq<char>> = match field_scalar(f.field_type) {
        Some(s) => Ok((mm, flags, scalar_index(s) as usize, false)),
        None => match proto_index(protos, f.type_path@) {
            None => Err(not_found_text(f.type_path@)),
            Some(k) => match protos[k].1 {
                TyProto::Message { field, map_entry } => match add_message_m(protos, flags, mm, f.type_path@, k) {
                    Ok((mm1, fl1, id)) => Ok((mm1, fl1, id, map_entry)),
                    Err(e) => Err(e),
                },
                TyProto::Enum { value } => Ok(
                    (add_enum_m(mm, f.type_path@, value@).0, flags, add_enum_m(mm, f.type_path@, value@).1, false),
                ),
            },
        },
    };
    match base {
        Err(e) => Err(e),
        Ok((mm1, fl1, id, is_map)) => {
            let mm2 = if f.field_type == FieldType::Group {
                mm1.add(TySpec::Group(id))
            } else {
                mm1
            };
            let id2 = if f.field_type == FieldType::Group {
                mm1.types.len() as usize
            } else {
                id
            };
            if is_map {
                if f.field_type != FieldType::Message {
                    Err(map_not_message_text())
                } else if f.label != Label::Repeated {
                    Err(map_not_repeated_text())
                } else {
                    Ok((mm2.add(TySpec::Mapping(id2)), fl1, mm2.types.len() as usize))
                }
            } else if f.label == Label::Repeated {
                Ok((mm2.add(TySpec::List(id2)), fl1, mm2.types.len() as usize))
            } else {
                Ok((mm2, fl1, id2))
            }
        },
    }
}

/// Adding the collected types from entry `k` on, in order.
pub open spec fn add_files_m(protos: Seq<(Seq<char>, TyProto)>, flags: Seq<bool>, mm: MapModel, k: int) -> Result<MapModel, Seq<char>>
    decreases protos.len() - k,
{
    if k >= protos.len() || k < 0 {
        Ok(mm)
    } else {
        match protos[k].1 {
            TyProto::Message { .. } => match add_message_m(protos, flags, mm, protos[k].0, k) {
                Ok((mm1, fl1, _)) => add_files_m(protos, fl1, mm1, k + 1),
                Err(e) => Err(e),
            },
            TyProto::Enum { value } => add_files_m(protos, flags, add_enum_m(mm, protos[k].0, value@).0, k + 1),
        }
    }
}

proof fn lemma_unflagged_set(flags: Seq<bool>, k: int)
    requires
        0 <= k < flags.len(),
        !flags[k],
    ensures
        unflagged(flags.update(k, true)) + 1 == unflagged(flags),
    decreases flags.len(),
{
    let u = flags.update(k, true);
    if k == flags.len() - 1 {
        assert(u.drop_last() == flags.drop_last());
    } else {
        assert(u.drop_last() == flags.drop_last().update(k, true));
        lemma_unflagged_set(flags.drop_last(), k);
    }
}

proof fn lemma_unflagged_grows(a: Seq<bool>, b: Seq<bool>)
    requires
        grows(a, b),
    ensures
        unflagged(b) <= unflagged(a),
    decreases a.len(),
{
    if a.len() > 0 {
        assert(grows(a.drop_last(), b.drop_last())) by {
            assert forall|i: int| 0 <= i < a.len() - 1 && #[trigger] a.drop_last()[i] implies b.drop_last()[i] by {
                assert(a[i]);
            }
        }
        lemma_unflagged_grows(a.drop_last(), b.drop_last());
        if a.last() {
            assert(a[a.len() - 1]);
        }
    }
}

proof fn lemma_proto_index(protos: Seq<(Seq<char>, TyProto)>, name: Seq<char>)
    ensures
        match proto_index(protos, name) {
            Some(i) => 0 <= i < protos.len() && protos[i].0 == name && forall|j: int| 0 <= j < i ==> #[trigger] protos[j].0 != name,
            None => forall|j: int| 0 <= j < protos.len() ==> #[trigger] protos[j].0 != name,
        },
    decreases protos.len(),
{
    if protos.len() > 0 {
        let t = protos.skip(1);
        lemma_proto_index(t, name);
        assert forall|j: int| 1 <= j < protos.len() implies protos[j] == #[trigger] t[j - 1] by {}
        if protos[0].0 != name {
            match proto_index(t, name) {
                Some(i) => {
                    assert(protos[i + 1] == t[i]);
                    assert forall|j: int| 0 <= j < i + 1 implies #[trigger] protos[j].0 != name by {
                        if j > 0 {
                            assert(protos[j] == t[j - 1]);
                        }
                    }
                },
                None => {
                    assert forall|j: int| 0 <= j < protos.len() implies #[trigger] protos[j].0 != name by {
                        if j > 0 {
                            assert(protos[j] == t[j - 1]);
                        }
                    }
                },
            }
        }
    }
}

proof fn lemma_pairs_map_bound(pairs: Seq<(usize, MessageField)>, bound: nat)
    requires
        forall|j: int| 0 <= j < pairs.len() ==> (#[trigger] pairs[j]).1.ty.0 < bound,
    ensures
        forall|k: usize| #[trigger] pairs_map(pairs).contains_key(k) ==> pairs_map(pairs)[k].3 < bound,
    decreases pairs.len(),
{
    if pairs.len() > 0 {
        let init = pairs.drop_last();
        assert forall|j: int| 0 <= j < init.len() implies (#[trigger] init[j]).1.ty.0 < bound by {
            assert(init[j] == pairs[j]);
        }
        lemma_pairs_map_bound(init, bound);
        assert(pairs.last() == pairs[pairs.len() - 1]);
        assert forall|k: usize| #[trigger] pairs_map(pairs).contains_key(k) implies pairs_map(pairs)[k].3 < bound by {
            if k != pairs.last().0 {
                assert(pairs_map(init).contains_key(k));
            }
        }
    }
}

/// The index of the first entry with the given full name.
fn find_proto(protos: &Vec<(String, TyProto)>, name: &String) -> (res: Option<usize>)
    ensures
        match res {
            Some(k) => proto_index(protos_view(protos@), name@) == Some(k as int),
            None => proto_index(protos_view(protos@), name@) is None,
        },
{
    let ghost pv = protos_view(protos@);
    let mut i: usize = 0;
    while i < protos.len()
        invariant
            pv == protos_view(protos@),
            i <= protos@.len(),
            forall|j: int| 0 <= j < i ==> #[trigger] pv[j].0 != name@,
        decreases protos@.len() - i,
    {
        if protos[i].0 == *name {
            proof {
                lemma_proto_index(pv, name@);
                assert(pv[i as int].0 == name@);
                match proto_index(pv, name@) {
                    Some(k) => {
                        if k < i {
                            assert(pv[k].0 != name@);
                        } else if k > i {
                            assert(pv[i as int].0 == name@);
                        }
                    },
                    None => {},
                }
            }
            return Some(i);
        }
        i = i + 1;
    }
    proof {
        lemma_proto_index(pv, name@);
        match proto_index(pv, name@) {
            Some(k) => {
                assert(pv[k].0 != name@);
            },
            None => {},
        }
    }
    None
}

fn scalar_of_field(t: FieldType) -> (res: Option<Scalar>)
    ensures
        res == field_scalar(t),
{
    match t {
        FieldType::Double => Some(Scalar::Double),
        FieldType::Float => Some(Scalar::Float),
        FieldType::Int64 => Some(Scalar::Int64),
        FieldType::Uint64 => Some(Scalar::Uint64),
        FieldType::Int32 => Some(Scalar::Int32),
        FieldType::Fixed64 => Some(Scalar::Fixed64),
        FieldType::Fixed32 => Some(Scalar::Fixed32),
        FieldType::Bool => Some(Scalar::Bool),
        FieldType::String => Some(Scalar::String),
        FieldType::Bytes => Some(Scalar::Bytes),
        FieldType::Uint32 => Some(Scalar::Uint32),
        FieldType::Sfixed32 => Some(Scalar::Sfixed32),
        FieldType::Sfixed64 => Some(Scalar::Sfixed64),
        FieldType::Sint32 => Some(Scalar::Sint32),
        FieldType::Sint64 => Some(Scalar::Sint64),
        _ => None,
    }
}

fn error_with(prefix: &str, name: &str, suffix: &str) -> (res: DescriptorError)
    ensures
        res.message@ == prefix@ + name@ + suffix@,
{
    let mut message = prefix.to_owned();
    push_str(&mut message, name);
    push_str(&mut message, suffix);
    DescriptorError { message }
}

fn error_of(text: &str) -> (res: DescriptorError)
    ensures
        res.message@ == text@,
{
    DescriptorError { message: text.to_owned() }
}

fn recursion_error(name: &str) -> (res: DescriptorError)
    ensures
        res.message@ == recursion_text(name@),
{
    let mut message = "infinite recursion detected while processing ".to_owned();
    push_str(&mut message, name);
    DescriptorError { message }
}

impl TypeMap {
    /// Adds an enum under a full name, unless the name is taken; gives its id.
    pub fn add_enum(&mut self, name: &String, values: &Vec<EnumValueDescriptor>) -> (res: Result<TypeId, DescriptorError>)
        requires
            old(self).wf(),
        ensures
            final(self).wf(),
            final(self).types().len() >= old(self).types().len(),
            res matches Ok(id) && (final(self).model(), id.0) == add_enum_m(old(self).model(), name@, values@) && id.0
                < final(self).types().len(),
    {
        proof {
            self.lemma_wf();
        }
        match self.try_get_by_name(name.as_str()) {
            Some(id) => return Ok(id),
            None => {},
        }
        let mut vs: Vec<EnumValue> = Vec::new();
        let mut i: usize = 0;
        while i < values.len()
            invariant
                i <= values@.len(),
                enum_values_view(vs@) == values@.take(i as int).map_values(|v: EnumValueDescriptor| (v.name@, v.number)),
            decreases values@.len() - i,
        {
            let ghost before = vs@;
            vs.push(EnumValue { name: values[i].name.clone(), number: values[i].number });
            proof {
                assert(values@.take(i + 1) == values@.take(i as int).push(values@[i as int]));
                assert(enum_values_view(vs@) =~= enum_values_view(before).push((values@[i as int].name@, values@[i as int].number)));
                assert(values@.take(i + 1).map_values(|v: EnumValueDescriptor| (v.name@, v.number)) =~= values@.take(
                    i as int,
                ).map_values(|v: EnumValueDescriptor| (v.name@, v.number)).push(
                    (values@[i as int].name@, values@[i as int].number),
                ));
            }
            i = i + 1;
        }
        proof {
            assert(values@.take(values@.len() as int) == values@);
        }
        let id = self.add_with_name(name.clone(), Ty::Enum(Enum { name: name.clone(), values: vs }));
        Ok(id)
    }

    /// Adds the message of entry `k` under a full name, unless the name is
    /// taken: the types of its fields first, then the message. A message met
    /// again while its fields are added is an error.
    pub fn add_message(&mut self, name: &String, k: usize, protos: &Vec<(String, TyProto)>, flags: &mut Vec<bool>) -> (res: Result<TypeId, DescriptorError>)
        requires
            old(self).wf(),
            k < protos@.len(),
            old(flags)@.len() == protos@.len(),
            protos@[k as int].1 is Message,
        ensures
            final(self).wf(),
            grows(old(flags)@, final(flags)@),
            final(self).types().len() >= old(self).types().len(),
            match add_message_m(protos_view(protos@), old(flags)@, old(self).model(), name@, k as int) {
                Ok((mm, fl, id)) => res matches Ok(t) && t.0 == id && final(self).model() == mm && final(flags)@ == fl
                    && id < final(self).types().len(),
                Err(e) => res matches Err(err) && err.message@ == e,
            },
        decreases unflagged(old(flags)@), 1nat, 0nat,
    {
        proof {
            self.lemma_wf();
        }
        match self.try_get_by_name(name.as_str()) {
            Some(id) => return Ok(id),
            None => {},
        }
        if flags[k] {
            return Err(recursion_error(name.as_str()));
        }
        flags.set(k, true);
        let ghost flags1 = flags@;
        let ghost mm0 = self.model();
        let ghost pv = protos_view(protos@);
        proof {
            lemma_unflagged_set(old(flags)@, k as int);
            assert(pv[k as int].1 == protos@[k as int].1);
        }
        let fields = match &protos[k].1 {
            TyProto::Message { field, map_entry: _ } => field,
            TyProto::Enum { value: _ } => return Err(recursion_error(name.as_str())),
        };
        let mut pairs: Vec<(usize, MessageField)> = Vec::new();
        let mut i: usize = 0;
        proof {
            assert(pairs_map(pairs@) =~= Map::empty());
            assert(fields@.skip(0) == fields@);
            assert(flags1 == old(flags)@.update(k as int, true));
        }
        let ghost whole = match add_fields_m(pv, flags1, mm0, fields@, Map::empty()) {
            Ok((mm2, flags2, fm)) => Ok::<(MapModel, Seq<bool>, usize), Seq<char>>(
                (mm2.add_named(name@, TySpec::Message(name@, fm)), flags2, mm2.types.len() as usize),
            ),
            Err(e) => Err(e),
        };
        proof {
            assert(add_message_m(pv, old(flags)@, old(self).model(), name@, k as int) == whole);
        }
        while i < fields.len()
            invariant
                self.wf(),
                pv == protos_view(protos@),
                flags@.len() == protos@.len(),
                grows(flags1, flags@),
                grows(old(flags)@, flags1),
                unflagged(flags1) < unflagged(old(flags)@),
                add_message_m(pv, old(flags)@, old(self).model(), name@, k as int) == whole,
                whole == match add_fields_m(pv, flags1, mm0, fields@, Map::empty()) {
                    Ok((mm2, flags2, fm)) => Ok::<(MapModel, Seq<bool>, usize), Seq<char>>(
                        (mm2.add_named(name@, TySpec::Message(name@, fm)), flags2, mm2.types.len() as usize),
                    ),
                    Err(e) => Err(e),
                },
                i <= fields@.len(),
                self.types().len() >= old(self).types().len(),
                forall|j: int| 0 <= j < pairs@.len() ==> (#[trigger] pairs@[j]).1.ty.0 < self.types().len(),
                add_fields_m(pv, flags@, self.model(), fields@.skip(i as int), pairs_map(pairs@)) == add_fields_m(
                    pv,
                    flags1,
                    mm0,
                    fields@,
                    Map::empty(),
                ),
            decreases fields@.len() - i,
        {
            let f = &fields[i];
            let ghost fl = flags@;
            let ghost mm = self.model();
            let ghost before = pairs@;
            proof {
                lemma_unflagged_grows(flags1, flags@);
                assert(fields@.skip(i as int)[0] == *f);
                assert(fields@.skip(i as int).skip(1) == fields@.skip(i + 1));
            }
            let ty = match self.add_message_field(f, protos, flags) {
                Ok(t) => t,
                Err(e) => return Err(e),
            };
            proof {
                lemma_unflagged_grows(fl, flags@);
            }
            pairs.push(
                (
                    f.number as usize,
                    MessageField {
                        name: f.name.clone(),
                        json_name: f.json_name.clone(),
                        is_group: f.field_type == FieldType::Group,
                        ty,
                    },
                ),
            );
            proof {
                assert(pairs@.drop_last() == before);
                assert forall|j: int| 0 <= j < pairs@.len() implies (#[trigger] pairs@[j]).1.ty.0 < self.types().len() by {
                    if j < before.len() {
                        assert(pairs@[j] == before[j]);
                    }
                }
            }
            i = i + 1;
        }
        let ghost fields_map = pairs_map(pairs@);
        proof {
            lemma_pairs_map_bound(pairs@, self.types().len());
        }
        let message = Message::new(name.clone(), pairs);
        let ghost before_add = self.model();
        proof {
            self.lemma_wf();
            assert(refs_below(Ty::Message(message), self.types().len()));
        }
        let id = self.add_with_name(name.clone(), Ty::Message(message));
        Ok(id)
    }

    /// Adds the type of a field, as `add_field_m` says.
    pub fn add_message_field(&mut self, f: &FieldDescriptor, protos: &Vec<(String, TyProto)>, flags: &mut Vec<bool>) -> (res: Result<TypeId, DescriptorError>)
        requires
            old(self).wf(),
            old(flags)@.len() == protos@.len(),
        ensures
            final(self).wf(),
            grows(old(flags)@, final(flags)@),
            final(self).types().len() >= old(self).types().len(),
            match add_field_m(protos_view(protos@), old(flags)@, old(self).model(), *f) {
                Ok((mm, fl, id)) => res matches Ok(t) && t.0 == id && final(self).model() == mm && final(flags)@ == fl
                    && id < final(self).types().len(),
                Err(e) => res matches Err(err) && err.message@ == e,
            },
        decreases unflagged(old(flags)@), 2nat, 0nat,
    {
        proof {
            self.lemma_wf();
        }
        let ghost pv = protos_view(protos@);
        let mut is_map = false;
        let mut base = match scalar_of_field(f.field_type) {
            Some(s) => self.get_scalar(s),
            None => match find_proto(protos, &f.type_path) {
                None => return Err(error_with("type ", f.type_path.as_str(), " not found")),
                Some(k) => {
                    proof {
                        lemma_proto_index(pv, f.type_path@);
                        assert(pv[k as int].1 == protos@[k as int].1);
                    }
                    match &protos[k].1 {
                        TyProto::Message { field: _, map_entry } => {
                            is_map = *map_entry;
                            match self.add_message(&f.type_path, k, protos, flags) {
                                Ok(t) => t,
                                Err(e) => return Err(e),
                            }
                        },
                        TyProto::Enum { value } => match self.add_enum(&f.type_path, value) {
                            Ok(t) => t,
                            Err(e) => return Err(e),
                        },
                    }
                },
            },
        };
        if f.field_type == FieldType::Group {
            base = self.add(Ty::Group(base));
        }
        if is_map {
            if f.field_type != FieldType::Message {
                return Err(error_of("map entry must be message"));
            }
            if f.label != Label::Repeated {
                return Err(error_of("map entry must be repeated"));
            }
            Ok(self.add(Ty::Mapping(base)))
        } else if f.label == Label::Repeated {
            Ok(self.add(Ty::List(base)))
        } else {
            Ok(base)
        }
    }

    /// Adds the messages and enums of files, collected by full name, in
    /// order. On an error the types added before it stay.
    pub fn add_files(&mut self, files: Vec<FileDescriptor>) -> (res: Result<(), DescriptorError>)
        requires
            old(self).wf(),
        ensures
            final(self).wf(),
            match index_files(files@, Seq::empty()) {
                Err(e) => res matches Err(err) && err.message@ == e,
                Ok(p) => match add_files_m(p, Seq::new(p.len(), |i: int| false), old(self).model(), 0) {
                    Ok(mm) => res is Ok && final(self).model() == mm,
                    Err(e) => res matches Err(err) && err.message@ == e,
                },
            },
    {
        let protos = match iter_tys(files) {
            Ok(p) => p,
            Err(e) => return Err(e),
        };
        let ghost pv = protos_view(protos@);
        let mut flags: Vec<bool> = Vec::new();
        let mut j: usize = 0;
        while j < protos.len()
            invariant
                j <= protos@.len(),
                flags@ == Seq::new(j as nat, |i: int| false),
            decreases protos@.len() - j,
        {
            flags.push(false);
            j = j + 1;
            proof {
                assert(flags@ =~= Seq::new(j as nat, |i: int| false));
            }
        }
        let ghost target = add_files_m(pv, flags@, self.model(), 0);
        proof {
            assert(flags@ == Seq::new(pv.len(), |i: int| false));
        }
        let mut k: usize = 0;
        while k < protos.len()
            invariant
                self.wf(),
                index_files(files@, Seq::empty()) == Ok::<Seq<(Seq<char>, TyProto)>, Seq<char>>(pv),
                target == add_files_m(pv, Seq::new(pv.len(), |i: int| false), old(self).model(), 0),
                pv == protos_view(protos@),
                flags@.len() == protos@.len(),
                k <= protos@.len(),
                add_files_m(pv, flags@, self.model(), k as int) == target,
            decreases protos@.len() - k,
        {
            proof {
                assert(pv[k as int] == (protos@[k as int].0@, protos@[k as int].1));
            }
            match &protos[k].1 {
                TyProto::Message { .. } => match self.add_message(&protos[k].0, k, &protos, &mut flags) {
                    Ok(_) => {},
                    Err(e) => return Err(e),
                },
                TyProto::Enum { value } => match self.add_enum(&protos[k].0, value) {
                    Ok(_) => {},
                    Err(e) => return Err(e),
                },
            }
            k = k + 1;
        }
        Ok(())
    }
}

} // verus!
