//! Laws of decoding that span several reads: what is read inside a
//! length-delimited frame does not depend on what lies beyond the frame,
//! and so the fields of a message, read up to the end of their bytes and
//! then those that follow, give what reading all the bytes at once gives.
use vstd::prelude::*;

use crate::decode::{
    close_frame, dec_any, dec_enum, dec_fields, enum_index, lemma_enum_index, map_entries, map_entry, dec_len_message, dec_list, dec_map, dec_message_body, dec_packed, dec_scalar,
    dec_top, default_of, is_packable, ErrorKind,
};
use crate::decode_buf::{
    drop_bottom, follows, lemma_advance, lemma_drop_bottom_advance, lemma_drop_bottom_inner,
    lemma_drop_bottom_outer, lemma_drop_bottom_pop, lemma_drop_bottom_push, lemma_follows_refl,
    lemma_follows_trans, lemma_push_pop, BufView,
};
use crate::format::int_decimal;
use crate::json::{law_obj_set_get, obj_get, obj_set, JsonSpec};
use crate::ty::{slab_fields, Enum, Scalar, Ty, TypeMap};
use crate::well_known::{dec_empty, dec_well_known, dec_wrapper, well_known_of, WellKnown};
use crate::wire::{
    le32, le64, lemma_prefix_len, lemma_prefix_within, lemma_reads_prefix, lemma_skip_prefix, spec_key,
    spec_length_delimiter, spec_skip, spec_varint, zigzag32, zigzag64, WireType,
};

verus! {

/// A decode result with the bottom limit of its final state dropped.
pub open spec fn lift(r: Result<(JsonSpec, BufView), ErrorKind>) -> Result<(JsonSpec, BufView), ErrorKind> {
    match r {
        Ok((v, b)) => Ok((v, drop_bottom(b))),
        Err(e) => Err(e),
    }
}

/// A decode result whose final state, where there is one, follows `b`.
pub open spec fn ends_after(r: Result<(JsonSpec, BufView), ErrorKind>, b: BufView) -> bool {
    r matches Ok((_, b2)) ==> follows(b2, b)
}

/// Reads of the window of `l` commute with dropping its bottom limit and
/// give states that follow it.
proof fn lemma_reads(l: BufView)
    requires
        l.limits.len() >= 1,
    ensures
        forall|n: nat| drop_bottom(#[trigger] l.advance(n)) == drop_bottom(l).advance(n),
        forall|n: nat| n <= l.remaining() ==> follows(#[trigger] l.advance(n), l),
        forall|n: nat| n <= l.remaining() ==> (#[trigger] l.advance(n)).remaining() == l.remaining() - n,
        forall|n: nat| (#[trigger] l.advance(n)).limits.len() == l.limits.len(),
{
    assert forall|n: nat| drop_bottom(#[trigger] l.advance(n)) == drop_bottom(l).advance(n) by {
        lemma_drop_bottom_advance(l, n);
    }
    assert forall|n: nat| n <= l.remaining() implies follows(#[trigger] l.advance(n), l)
        && l.advance(n).remaining() == l.remaining() - n by {
        lemma_advance(l, n);
    }
}

/// Inside a frame, a scalar is read alike with or without the bottom limit.
proof fn lemma_inner_scalar(s: Scalar, l: BufView)
    requires
        l.limits.len() >= 2,
    ensures
        dec_scalar(s, drop_bottom(l)) == lift(dec_scalar(s, l)),
        ends_after(dec_scalar(s, l), l),
{
    lemma_drop_bottom_inner(l);
    lemma_reads(l);
    lemma_prefix_within(l.window());
}

/// Inside a frame, an enum value is read alike with or without the bottom
/// limit.
proof fn lemma_inner_enum(e: Enum, l: BufView)
    requires
        l.limits.len() >= 2,
    ensures
        dec_enum(e, drop_bottom(l)) == lift(dec_enum(e, l)),
        ends_after(dec_enum(e, l), l),
{
    lemma_drop_bottom_inner(l);
    lemma_reads(l);
    lemma_prefix_within(l.window());
}

/// Inside a frame, an `Empty` message is read alike with or without the
/// bottom limit.
proof fn lemma_inner_empty(l: BufView)
    requires
        l.limits.len() >= 2,
    ensures
        dec_empty(drop_bottom(l)) == lift(dec_empty(l)),
        ends_after(dec_empty(l), l),
    decreases l.remaining(),
{
    lemma_drop_bottom_inner(l);
    lemma_reads(l);
    if l.remaining() == 0 {
        lemma_follows_refl(l);
    } else {
        lemma_prefix_within(l.window());
        match spec_key(l.window()) {
            None => {},
            Some((tag, wt, n)) => {
                let b1 = l.advance(n);
                lemma_reads(b1);
                lemma_drop_bottom_inner(b1);
                match spec_skip(wt, tag, b1.window()) {
                    Some(k) => if k <= b1.remaining() && b1.advance(k).remaining() < l.remaining() {
                        let b2 = b1.advance(k);
                        lemma_inner_empty(b2);
                        lemma_follows_trans(b2, b1, l);
                        match dec_empty(b2) {
                            Ok((_, b3)) => lemma_follows_trans(b3, b2, l),
                            Err(_) => {},
                        }
                    },
                    None => {},
                }
            },
        }
    }
}

/// Inside a frame, a wrapper message is read alike with or without the
/// bottom limit.
proof fn lemma_inner_wrapper(s: Scalar, l: BufView, acc: JsonSpec)
    requires
        l.limits.len() >= 2,
    ensures
        dec_wrapper(s, drop_bottom(l), acc) == lift(dec_wrapper(s, l, acc)),
        ends_after(dec_wrapper(s, l, acc), l),
    decreases l.remaining(),
{
    lemma_drop_bottom_inner(l);
    lemma_reads(l);
    if l.remaining() == 0 {
        lemma_follows_refl(l);
    } else {
        lemma_prefix_within(l.window());
        match spec_key(l.window()) {
            None => {},
            Some((tag, wt, n)) => {
                let b1 = l.advance(n);
                lemma_reads(b1);
                lemma_drop_bottom_inner(b1);
                if tag == 1 {
                    lemma_inner_scalar(s, b1);
                    match dec_scalar(s, b1) {
                        Ok((v, b2)) => if b2.remaining() < l.remaining() {
                            lemma_follows_trans(b2, b1, l);
                            lemma_inner_wrapper(s, b2, v);
                            match dec_wrapper(s, b2, v) {
                                Ok((_, b3)) => lemma_follows_trans(b3, b2, l),
                                Err(_) => {},
                            }
                        },
                        Err(_) => {},
                    }
                } else {
                    match spec_skip(wt, tag, b1.window()) {
                        Some(k) => if k <= b1.remaining() && b1.advance(k).remaining() < l.remaining() {
                            let b2 = b1.advance(k);
                            lemma_inner_wrapper(s, b2, acc);
                            lemma_follows_trans(b2, b1, l);
                            match dec_wrapper(s, b2, acc) {
                                Ok((_, b3)) => lemma_follows_trans(b3, b2, l),
                                Err(_) => {},
                            }
                        },
                        None => {},
                    }
                }
            },
        }
    }
}

/// Inside a frame, a well-known message is read alike with or without the
/// bottom limit.
proof fn lemma_inner_well_known(k: WellKnown, l: BufView)
    requires
        l.limits.len() >= 2,
    ensures
        dec_well_known(k, drop_bottom(l)) == lift(dec_well_known(k, l)),
        ends_after(dec_well_known(k, l), l),
{
    reveal(dec_well_known);
    lemma_drop_bottom_inner(l);
    lemma_reads(l);
    match k {
        WellKnown::Empty => lemma_inner_empty(l),
        WellKnown::Wrapper(s) => lemma_inner_wrapper(s, l, crate::well_known::zero_json(s)),
        _ => {
            assert(l.advance(l.remaining()).remaining() == 0);
        },
    }
}

/// Inside a frame, a field is read alike with or without the bottom limit,
/// and the state after it follows the state before.
proof fn lemma_inner_any(map: TypeMap, l: BufView, wt: WireType, ty: nat, cur: JsonSpec)
    requires
        l.limits.len() >= 2,
    ensures
        dec_any(map, drop_bottom(l), wt, ty, cur) == lift(dec_any(map, l, wt, ty, cur)),
        ends_after(dec_any(map, l, wt, ty, cur), l),
    decreases l.remaining(), ty, 5nat,
{
    if ty < map.types().len() {
        match map.types()[ty as int] {
            Ty::Message(_) => lemma_inner_len_message(map, l, wt, ty, cur),
            Ty::Enum(e) => lemma_inner_enum(e, l),
            Ty::Scalar(s) => lemma_inner_scalar(s, l),
            Ty::List(t) => if (t.0 as nat) < ty {
                lemma_inner_list(map, l, wt, ty, t.0 as nat, cur);
            },
            Ty::Mapping(t) => if (t.0 as nat) < ty {
                lemma_inner_map(map, l, wt, ty, t.0 as nat, cur);
            },
            Ty::Group(_) => {},
        }
    }
}

/// Inside a frame, a length-delimited message is read alike with or without
/// the bottom limit.
proof fn lemma_inner_len_message(map: TypeMap, l: BufView, wt: WireType, ty: nat, cur: JsonSpec)
    requires
        l.limits.len() >= 2,
    ensures
        dec_len_message(map, drop_bottom(l), wt, ty, cur) == lift(dec_len_message(map, l, wt, ty, cur)),
        ends_after(dec_len_message(map, l, wt, ty, cur), l),
    decreases l.remaining(), ty, 4nat,
{
    lemma_drop_bottom_inner(l);
    lemma_reads(l);
    if wt == WireType::LengthDelimited {
        lemma_prefix_within(l.window());
        match spec_length_delimiter(l.window()) {
            None => {},
            Some((len, n)) => {
                let b1 = l.advance(n);
                lemma_drop_bottom_push(b1, len);
                match b1.push_limit(len) {
                    None => {},
                    Some(b2) => if b2.remaining() < l.remaining() {
                        lemma_drop_bottom_inner(b2);
                        lemma_inner_body(map, b2, ty, cur);
                        match dec_message_body(map, b2, ty, cur) {
                            Ok((_, b3)) => {
                                lemma_drop_bottom_pop(b3);
                                lemma_push_pop(b1, len, b3);
                                lemma_follows_trans(b3.pop_limit(), b1, l);
                            },
                            Err(_) => {},
                        }
                    },
                }
            },
        }
    }
}

/// Inside a frame, the body of a message is read alike with or without the
/// bottom limit.
proof fn lemma_inner_body(map: TypeMap, l: BufView, ty: nat, cur: JsonSpec)
    requires
        l.limits.len() >= 2,
    ensures
        dec_message_body(map, drop_bottom(l), ty, cur) == lift(dec_message_body(map, l, ty, cur)),
        ends_after(dec_message_body(map, l, ty, cur), l),
    decreases l.remaining(), ty, 2nat,
{
    if ty < map.types().len() {
        match map.types()[ty as int] {
            Ty::Message(m) => match well_known_of(m.name@) {
                Some(k) => lemma_inner_well_known(k, l),
                None => match cur {
                    JsonSpec::Object(o) => lemma_inner_fields(map, l, ty, o),
                    _ => {},
                },
            },
            _ => {},
        }
    }
}

/// Inside a frame, the fields of a message are read alike with or without
/// the bottom limit.
proof fn lemma_inner_fields(map: TypeMap, l: BufView, ty: nat, o: Seq<(Seq<char>, JsonSpec)>)
    requires
        l.limits.len() >= 2,
    ensures
        dec_fields(map, drop_bottom(l), ty, o) == lift(dec_fields(map, l, ty, o)),
        ends_after(dec_fields(map, l, ty, o), l),
    decreases l.remaining(), ty, 1nat,
{
    lemma_drop_bottom_inner(l);
    lemma_reads(l);
    if ty < map.types().len() {
        if l.remaining() == 0 {
            lemma_follows_refl(l);
        } else {
            match map.types()[ty as int] {
                Ty::Message(m) => {
                    lemma_prefix_within(l.window());
                    match spec_key(l.window()) {
                        None => {},
                        Some((tag, wt, n)) => {
                            let b1 = l.advance(n);
                            lemma_reads(b1);
                            lemma_drop_bottom_inner(b1);
                            if slab_fields(m.fields).contains_key(tag as usize) {
                                let f = slab_fields(m.fields)[tag as usize];
                                let cur = match obj_get(o, f.1) {
                                    Some(v) => v,
                                    None => default_of(map, f.3 as nat),
                                };
                                if b1.remaining() < l.remaining() && (f.3 as nat) < ty {
                                    lemma_inner_any(map, b1, wt, f.3 as nat, cur);
                                    match dec_any(map, b1, wt, f.3 as nat, cur) {
                                        Ok((v, b2)) => if b2.remaining() < l.remaining() {
                                            lemma_follows_trans(b2, b1, l);
                                            lemma_drop_bottom_inner(b2);
                                            lemma_inner_fields(map, b2, ty, obj_set(o, f.1, v));
                                            match dec_fields(map, b2, ty, obj_set(o, f.1, v)) {
                                                Ok((_, b3)) => lemma_follows_trans(b3, b2, l),
                                                Err(_) => {},
                                            }
                                        },
                                        Err(_) => {},
                                    }
                                }
                            } else {
                                match spec_skip(wt, tag, b1.window()) {
                                    Some(k) => if k <= b1.remaining() && b1.advance(k).remaining() < l.remaining() {
                                        let b2 = b1.advance(k);
                                        lemma_follows_trans(b2, b1, l);
                                        lemma_inner_fields(map, b2, ty, o);
                                        match dec_fields(map, b2, ty, o) {
                                            Ok((_, b3)) => lemma_follows_trans(b3, b2, l),
                                            Err(_) => {},
                                        }
                                    },
                                    None => {},
                                }
                            }
                        },
                    }
                },
                _ => {},
            }
        }
    }
}

/// Inside a frame, a list field is read alike with or without the bottom
/// limit.
proof fn lemma_inner_list(map: TypeMap, l: BufView, wt: WireType, outer: nat, inner: nat, cur: JsonSpec)
    requires
        l.limits.len() >= 2,
    ensures
        dec_list(map, drop_bottom(l), wt, outer, inner, cur) == lift(dec_list(map, l, wt, outer, inner, cur)),
        ends_after(dec_list(map, l, wt, outer, inner, cur), l),
    decreases l.remaining(), outer, 3nat,
{
    lemma_drop_bottom_inner(l);
    lemma_reads(l);
    match cur {
        JsonSpec::Array(items) => if inner < map.types().len() {
            if wt == WireType::LengthDelimited && is_packable(map.types()[inner as int]) {
                lemma_prefix_within(l.window());
                match spec_length_delimiter(l.window()) {
                    None => {},
                    Some((len, n)) => {
                        let b1 = l.advance(n);
                        lemma_drop_bottom_push(b1, len);
                        match b1.push_limit(len) {
                            None => {},
                            Some(b2) => if b2.remaining() < l.remaining() {
                                lemma_drop_bottom_inner(b2);
                                lemma_inner_packed(map, b2, inner, items);
                                match dec_packed(map, b2, inner, items) {
                                    Ok((_, b3)) => {
                                        lemma_drop_bottom_pop(b3);
                                        lemma_push_pop(b1, len, b3);
                                        lemma_follows_trans(b3.pop_limit(), b1, l);
                                    },
                                    Err(_) => {},
                                }
                            },
                        }
                    },
                }
            } else if inner < outer {
                lemma_inner_any(map, l, wt, inner, default_of(map, inner));
            }
        },
        _ => {},
    }
}

/// Inside a frame, a packed run is read alike with or without the bottom
/// limit.
proof fn lemma_inner_packed(map: TypeMap, l: BufView, inner: nat, items: Seq<JsonSpec>)
    requires
        l.limits.len() >= 2,
    ensures
        dec_packed(map, drop_bottom(l), inner, items) == lift(dec_packed(map, l, inner, items)),
        ends_after(dec_packed(map, l, inner, items), l),
    decreases l.remaining(), inner, 6nat,
{
    lemma_drop_bottom_inner(l);
    if l.remaining() == 0 {
        lemma_follows_refl(l);
    } else {
        lemma_inner_any(map, l, WireType::LengthDelimited, inner, default_of(map, inner));
        match dec_any(map, l, WireType::LengthDelimited, inner, default_of(map, inner)) {
            Ok((v, b2)) => if b2.remaining() < l.remaining() {
                lemma_drop_bottom_inner(b2);
                lemma_inner_packed(map, b2, inner, items.push(v));
                match dec_packed(map, b2, inner, items.push(v)) {
                    Ok((_, b3)) => lemma_follows_trans(b3, b2, l),
                    Err(_) => {},
                }
            },
            Err(_) => {},
        }
    }
}

/// Inside a frame, a map field is read alike with or without the bottom
/// limit.
proof fn lemma_inner_map(map: TypeMap, l: BufView, wt: WireType, outer: nat, inner: nat, cur: JsonSpec)
    requires
        l.limits.len() >= 2,
    ensures
        dec_map(map, drop_bottom(l), wt, outer, inner, cur) == lift(dec_map(map, l, wt, outer, inner, cur)),
        ends_after(dec_map(map, l, wt, outer, inner, cur), l),
    decreases l.remaining(), outer, 4nat,
{
    lemma_inner_list(map, l, wt, outer, inner, JsonSpec::Array(Seq::empty()));
}

/// With only the bottom limit, dropping it lets reads see a longer window
/// that begins with the one they saw.
proof fn lemma_outer_window(l: BufView)
    requires
        l.limits.len() == 1,
    ensures
        l.window().len() <= drop_bottom(l).window().len(),
        drop_bottom(l).window().take(l.window().len() as int) == l.window(),
        l.window().len() == l.remaining(),
        drop_bottom(l).remaining() == l.rest.len(),
{
    lemma_drop_bottom_outer(l);
}

/// A scalar read from the window of a top frame is read alike without the
/// frame's limit.
proof fn lemma_outer_scalar(s: Scalar, l: BufView)
    requires
        l.limits.len() == 1,
        dec_scalar(s, l) is Ok,
    ensures
        dec_scalar(s, drop_bottom(l)) == lift(dec_scalar(s, l)),
        ends_after(dec_scalar(s, l), l),
{
    lemma_outer_window(l);
    lemma_reads(l);
    lemma_prefix_within(l.window());
    lemma_reads_prefix(l.window(), drop_bottom(l).window());
}

/// An enum value read from the window of a top frame is read alike without
/// the frame's limit.
proof fn lemma_outer_enum(e: Enum, l: BufView)
    requires
        l.limits.len() == 1,
        dec_enum(e, l) is Ok,
    ensures
        dec_enum(e, drop_bottom(l)) == lift(dec_enum(e, l)),
        ends_after(dec_enum(e, l), l),
{
    lemma_outer_window(l);
    lemma_reads(l);
    lemma_prefix_within(l.window());
    lemma_reads_prefix(l.window(), drop_bottom(l).window());
}

/// A field read in a top frame is read alike without the frame's limit.
proof fn lemma_outer_any(map: TypeMap, l: BufView, wt: WireType, ty: nat, cur: JsonSpec)
    requires
        l.limits.len() == 1,
        dec_any(map, l, wt, ty, cur) is Ok,
    ensures
        dec_any(map, drop_bottom(l), wt, ty, cur) == lift(dec_any(map, l, wt, ty, cur)),
        ends_after(dec_any(map, l, wt, ty, cur), l),
    decreases ty, 5nat,
{
    match map.types()[ty as int] {
        Ty::Message(_) => lemma_outer_len_message(map, l, wt, ty, cur),
        Ty::Enum(e) => lemma_outer_enum(e, l),
        Ty::Scalar(s) => lemma_outer_scalar(s, l),
        Ty::List(t) => if (t.0 as nat) < ty {
            lemma_outer_list(map, l, wt, ty, t.0 as nat, cur);
        },
        Ty::Mapping(t) => if (t.0 as nat) < ty {
            lemma_outer_map(map, l, wt, ty, t.0 as nat, cur);
        },
        Ty::Group(_) => {},
    }
}

/// A length-delimited message read in a top frame is read alike without
/// the frame's limit: its own limit keeps it from seeing further.
proof fn lemma_outer_len_message(map: TypeMap, l: BufView, wt: WireType, ty: nat, cur: JsonSpec)
    requires
        l.limits.len() == 1,
        dec_len_message(map, l, wt, ty, cur) is Ok,
    ensures
        dec_len_message(map, drop_bottom(l), wt, ty, cur) == lift(dec_len_message(map, l, wt, ty, cur)),
        ends_after(dec_len_message(map, l, wt, ty, cur), l),
    decreases ty, 4nat,
{
    lemma_outer_window(l);
    lemma_reads(l);
    lemma_prefix_within(l.window());
    lemma_reads_prefix(l.window(), drop_bottom(l).window());
    let (len, n) = spec_length_delimiter(l.window()).unwrap();
    let b1 = l.advance(n);
    lemma_drop_bottom_push(b1, len);
    let b2 = b1.push_limit(len).unwrap();
    lemma_drop_bottom_inner(b2);
    lemma_inner_body(map, b2, ty, cur);
    let (_, b3) = dec_message_body(map, b2, ty, cur).unwrap();
    lemma_drop_bottom_pop(b3);
    lemma_push_pop(b1, len, b3);
    lemma_follows_trans(b3.pop_limit(), b1, l);
}

/// A list field read in a top frame is read alike without the frame's
/// limit.
proof fn lemma_outer_list(map: TypeMap, l: BufView, wt: WireType, outer: nat, inner: nat, cur: JsonSpec)
    requires
        l.limits.len() == 1,
        dec_list(map, l, wt, outer, inner, cur) is Ok,
    ensures
        dec_list(map, drop_bottom(l), wt, outer, inner, cur) == lift(dec_list(map, l, wt, outer, inner, cur)),
        ends_after(dec_list(map, l, wt, outer, inner, cur), l),
    decreases outer, 3nat,
{
    lemma_outer_window(l);
    lemma_reads(l);
    let items = cur->Array_0;
    if wt == WireType::LengthDelimited && is_packable(map.types()[inner as int]) {
        lemma_prefix_within(l.window());
        lemma_reads_prefix(l.window(), drop_bottom(l).window());
        let (len, n) = spec_length_delimiter(l.window()).unwrap();
        let b1 = l.advance(n);
        lemma_drop_bottom_push(b1, len);
        let b2 = b1.push_limit(len).unwrap();
        lemma_drop_bottom_inner(b2);
        lemma_inner_packed(map, b2, inner, items);
        let (_, b3) = dec_packed(map, b2, inner, items).unwrap();
        lemma_drop_bottom_pop(b3);
        lemma_push_pop(b1, len, b3);
        lemma_follows_trans(b3.pop_limit(), b1, l);
    } else {
        lemma_outer_any(map, l, wt, inner, default_of(map, inner));
    }
}

/// A map field read in a top frame is read alike without the frame's
/// limit.
proof fn lemma_outer_map(map: TypeMap, l: BufView, wt: WireType, outer: nat, inner: nat, cur: JsonSpec)
    requires
        l.limits.len() == 1,
        dec_map(map, l, wt, outer, inner, cur) is Ok,
    ensures
        dec_map(map, drop_bottom(l), wt, outer, inner, cur) == lift(dec_map(map, l, wt, outer, inner, cur)),
        ends_after(dec_map(map, l, wt, outer, inner, cur), l),
    decreases outer, 4nat,
{
    lemma_outer_list(map, l, wt, outer, inner, JsonSpec::Array(Seq::empty()));
}

/// The fields read from `b` into `o` until its window is empty include no
/// group that the message does not declare: reading such a group is left to
/// prost, and nothing here says where prost stops.
pub open spec fn skips_no_group(map: TypeMap, b: BufView, ty: nat, o: Seq<(Seq<char>, JsonSpec)>) -> bool
    decreases b.remaining(),
{
    if ty >= map.types().len() || b.remaining() == 0 {
        true
    } else {
        match map.types()[ty as int] {
            Ty::Message(m) => match spec_key(b.window()) {
                None => true,
                Some((tag, wt, n)) => {
                    let b1 = b.advance(n);
                    if slab_fields(m.fields).contains_key(tag as usize) {
                        let f = slab_fields(m.fields)[tag as usize];
                        let cur = match obj_get(o, f.1) {
                            Some(v) => v,
                            None => default_of(map, f.3 as nat),
                        };
                        match dec_any(map, b1, wt, f.3 as nat, cur) {
                            Ok((v, b2)) => if b2.remaining() < b.remaining() {
                                skips_no_group(map, b2, ty, obj_set(o, f.1, v))
                            } else {
                                true
                            },
                            Err(_) => true,
                        }
                    } else {
                        wt != WireType::StartGroup && match spec_skip(wt, tag, b1.window()) {
                            Some(k) => if k <= b1.remaining() && b1.advance(k).remaining() < b.remaining() {
                                skips_no_group(map, b1.advance(k), ty, o)
                            } else {
                                true
                            },
                            None => true,
                        }
                    }
                },
            },
            _ => true,
        }
    }
}

/// The fields of a message read in a top frame, and then those after the
/// frame without its limit: the same as reading them all without it.
proof fn lemma_outer_fields(map: TypeMap, l: BufView, ty: nat, o: Seq<(Seq<char>, JsonSpec)>)
    requires
        l.limits.len() == 1,
        skips_no_group(map, l, ty, o),
        dec_fields(map, l, ty, o) is Ok,
    ensures
        dec_fields(map, l, ty, o) matches Ok((JsonSpec::Object(o1), l2)) && follows(l2, l) && dec_fields(
            map,
            drop_bottom(l),
            ty,
            o,
        ) == dec_fields(map, drop_bottom(l2), ty, o1),
    decreases l.remaining(),
{
    lemma_outer_window(l);
    lemma_reads(l);
    if l.remaining() == 0 {
        lemma_follows_refl(l);
    } else {
        let m = map.types()[ty as int]->Message_0;
        lemma_prefix_within(l.window());
        lemma_prefix_len(l.window());
        lemma_reads_prefix(l.window(), drop_bottom(l).window());
        let (tag, wt, n) = spec_key(l.window()).unwrap();
        let b1 = l.advance(n);
        lemma_outer_window(b1);
        lemma_reads(b1);
        if slab_fields(m.fields).contains_key(tag as usize) {
            let f = slab_fields(m.fields)[tag as usize];
            let cur = match obj_get(o, f.1) {
                Some(v) => v,
                None => default_of(map, f.3 as nat),
            };
            lemma_outer_any(map, b1, wt, f.3 as nat, cur);
            let (v, b2) = dec_any(map, b1, wt, f.3 as nat, cur).unwrap();
            lemma_follows_trans(b2, b1, l);
            lemma_outer_fields(map, b2, ty, obj_set(o, f.1, v));
            let (_, l2) = dec_fields(map, b2, ty, obj_set(o, f.1, v)).unwrap();
            lemma_follows_trans(l2, b2, l);
        } else {
            lemma_skip_prefix(wt, tag, b1.window(), drop_bottom(b1).window());
            let k = spec_skip(wt, tag, b1.window()).unwrap();
            let b2 = b1.advance(k);
            lemma_follows_trans(b2, b1, l);
            lemma_outer_fields(map, b2, ty, o);
            let (_, l2) = dec_fields(map, b2, ty, o).unwrap();
            lemma_follows_trans(l2, b2, l);
        }
    }
}

/// The fields of a message read from the bytes `a` that come before `c`,
/// with a limit that keeps them from seeing `c`, and then the fields in `c`,
/// read into the object the first gave: the same as reading the fields of
/// `a` followed by `c` at once, where `a` has no group that the message does
/// not declare. A message sent in two parts is the two parts merged: later
/// scalars win, lists grow, maps gain entries, and nested messages merge in
/// turn.
pub proof fn law_fields_then_rest(map: TypeMap, ty: nat, o: Seq<(Seq<char>, JsonSpec)>, a: Seq<u8>, c: Seq<u8>)
    requires
        a.len() <= usize::MAX,
        skips_no_group(map, BufView { rest: a + c, limits: seq![a.len() as usize] }, ty, o),
        dec_fields(map, BufView { rest: a + c, limits: seq![a.len() as usize] }, ty, o) is Ok,
    ensures
        dec_fields(map, BufView { rest: a + c, limits: seq![a.len() as usize] }, ty, o) matches Ok(
            (JsonSpec::Object(o1), after),
        ) && after.rest == c && dec_fields(map, BufView { rest: a + c, limits: Seq::empty() }, ty, o) == dec_fields(
            map,
            BufView { rest: c, limits: Seq::empty() },
            ty,
            o1,
        ),
{
    let l = BufView { rest: a + c, limits: seq![a.len() as usize] };
    assert(drop_bottom(l) == BufView { rest: a + c, limits: Seq::<usize>::empty() }) by {
        assert(l.limits.skip(1) =~= Seq::<usize>::empty());
    }
    lemma_outer_fields(map, l, ty, o);
    lemma_fields_end(map, l, ty, o);
    lemma_exact_fields(map, l, ty, o);
    let (_, after) = dec_fields(map, l, ty, o).unwrap();
    lemma_exact_tight(after, l);
    assert(after.rest =~= c);
    assert(drop_bottom(after) == BufView { rest: c, limits: Seq::<usize>::empty() }) by {
        assert(after.limits.skip(1) =~= Seq::<usize>::empty());
    }
}

/// Fields are read until the window is empty.
proof fn lemma_fields_end(map: TypeMap, b: BufView, ty: nat, o: Seq<(Seq<char>, JsonSpec)>)
    ensures
        dec_fields(map, b, ty, o) matches Ok((_, b2)) ==> b2.remaining() == 0,
    decreases b.remaining(),
{
    if ty < map.types().len() && b.remaining() > 0 {
        match map.types()[ty as int] {
            Ty::Message(m) => match spec_key(b.window()) {
                None => {},
                Some((tag, wt, n)) => {
                    let b1 = b.advance(n);
                    if slab_fields(m.fields).contains_key(tag as usize) {
                        let f = slab_fields(m.fields)[tag as usize];
                        let cur = match obj_get(o, f.1) {
                            Some(v) => v,
                            None => default_of(map, f.3 as nat),
                        };
                        if b1.remaining() < b.remaining() && (f.3 as nat) < ty {
                            match dec_any(map, b1, wt, f.3 as nat, cur) {
                                Ok((v, b2)) => if b2.remaining() < b.remaining() {
                                    lemma_fields_end(map, b2, ty, obj_set(o, f.1, v));
                                },
                                Err(_) => {},
                            }
                        }
                    } else {
                        match spec_skip(wt, tag, b1.window()) {
                            Some(k) => if k <= b1.remaining() && b1.advance(k).remaining() < b.remaining() {
                                lemma_fields_end(map, b1.advance(k), ty, o);
                            },
                            None => {},
                        }
                    }
                },
            },
            _ => {},
        }
    }
}

/// The top limit of `b`, if it has one, lies within its bytes.
pub open spec fn tight(b: BufView) -> bool {
    b.limits.len() > 0 ==> b.limits.last() <= b.rest.len()
}

/// `b2` follows `b`, and the top limit went down by exactly the bytes read.
pub open spec fn reads_exactly(b2: BufView, b: BufView) -> bool {
    &&& follows(b2, b)
    &&& b.limits.len() > 0 ==> b.limits.last() - b2.limits.last() == b.rest.len() - b2.rest.len()
}

/// A decode result whose final state, where there is one, reads exactly
/// from `b`.
pub open spec fn ends_exactly(r: Result<(JsonSpec, BufView), ErrorKind>, b: BufView) -> bool {
    r matches Ok((_, b2)) ==> reads_exactly(b2, b)
}

/// Reading bytes of the window reads exactly and keeps the state tight.
proof fn lemma_exact_reads(l: BufView)
    requires
        l.limits.len() >= 1,
        tight(l),
    ensures
        forall|n: nat| n <= l.remaining() ==> reads_exactly(#[trigger] l.advance(n), l) && tight(l.advance(n)),
        l.remaining() == l.limits.last(),
{
    lemma_reads(l);
}

/// Reading exactly, twice.
proof fn lemma_exact_trans(b3: BufView, b2: BufView, b: BufView)
    requires
        reads_exactly(b3, b2),
        reads_exactly(b2, b),
    ensures
        reads_exactly(b3, b),
{
    lemma_follows_trans(b3, b2, b);
}

/// Reading exactly keeps a state tight.
proof fn lemma_exact_tight(b2: BufView, b: BufView)
    requires
        reads_exactly(b2, b),
        tight(b),
    ensures
        tight(b2),
{
}

/// A frame pushed on a tight state, read to its end exactly, and dropped:
/// the bytes read are the frame's length, and they are read exactly.
proof fn lemma_exact_frame(b1: BufView, len: usize, b3: BufView)
    requires
        b1.limits.len() >= 1,
        tight(b1),
        b1.push_limit(len) is Some,
        reads_exactly(b3, b1.push_limit(len).unwrap()),
        b3.remaining() == 0,
    ensures
        tight(b1.push_limit(len).unwrap()),
        reads_exactly(b3.pop_limit(), b1),
        b3.pop_limit().rest == b1.rest.skip(len as int),
{
    let b2 = b1.push_limit(len).unwrap();
    lemma_push_pop(b1, len, b3);
    assert(b3.limits[b1.limits.len() - 1] == b2.limits[b1.limits.len() - 1]);
    assert(b3.rest == b2.rest.skip(b2.rest.len() - b3.rest.len()));
}

/// A scalar read from a tight state reads exactly.
proof fn lemma_exact_scalar(s: Scalar, l: BufView)
    requires
        l.limits.len() >= 1,
        tight(l),
    ensures
        ends_exactly(dec_scalar(s, l), l),
{
    lemma_exact_reads(l);
    lemma_prefix_within(l.window());
}

/// An enum value read from a tight state reads exactly.
proof fn lemma_exact_enum(e: Enum, l: BufView)
    requires
        l.limits.len() >= 1,
        tight(l),
    ensures
        ends_exactly(dec_enum(e, l), l),
{
    lemma_exact_reads(l);
    lemma_prefix_within(l.window());
}

/// An `Empty` message read from a tight state reads exactly, to the end of
/// the window.
proof fn lemma_exact_empty(l: BufView)
    requires
        l.limits.len() >= 1,
        tight(l),
    ensures
        ends_exactly(dec_empty(l), l),
        dec_empty(l) matches Ok((_, b2)) ==> b2.remaining() == 0,
    decreases l.remaining(),
{
    lemma_exact_reads(l);
    lemma_follows_refl(l);
    if l.remaining() > 0 {
        lemma_prefix_within(l.window());
        match spec_key(l.window()) {
            None => {},
            Some((tag, wt, n)) => {
                let b1 = l.advance(n);
                lemma_exact_reads(b1);
                match spec_skip(wt, tag, b1.window()) {
                    Some(k) => if k <= b1.remaining() && b1.advance(k).remaining() < l.remaining() {
                        let b2 = b1.advance(k);
                        lemma_exact_trans(b2, b1, l);
                        lemma_exact_empty(b2);
                        match dec_empty(b2) {
                            Ok((_, b3)) => lemma_exact_trans(b3, b2, l),
                            Err(_) => {},
                        }
                    },
                    None => {},
                }
            },
        }
    }
}

/// A wrapper message read from a tight state reads exactly, to the end of
/// the window.
proof fn lemma_exact_wrapper(s: Scalar, l: BufView, acc: JsonSpec)
    requires
        l.limits.len() >= 1,
        tight(l),
    ensures
        ends_exactly(dec_wrapper(s, l, acc), l),
        dec_wrapper(s, l, acc) matches Ok((_, b2)) ==> b2.remaining() == 0,
    decreases l.remaining(),
{
    lemma_exact_reads(l);
    lemma_follows_refl(l);
    if l.remaining() > 0 {
        lemma_prefix_within(l.window());
        match spec_key(l.window()) {
            None => {},
            Some((tag, wt, n)) => {
                let b1 = l.advance(n);
                lemma_exact_reads(b1);
                if tag == 1 {
                    lemma_exact_scalar(s, b1);
                    match dec_scalar(s, b1) {
                        Ok((v, b2)) => if b2.remaining() < l.remaining() {
                            lemma_exact_trans(b2, b1, l);
                            lemma_exact_tight(b2, l);
                            lemma_exact_wrapper(s, b2, v);
                            match dec_wrapper(s, b2, v) {
                                Ok((_, b3)) => lemma_exact_trans(b3, b2, l),
                                Err(_) => {},
                            }
                        },
                        Err(_) => {},
                    }
                } else {
                    match spec_skip(wt, tag, b1.window()) {
                        Some(k) => if k <= b1.remaining() && b1.advance(k).remaining() < l.remaining() {
                            let b2 = b1.advance(k);
                            lemma_exact_trans(b2, b1, l);
                            lemma_exact_wrapper(s, b2, acc);
                            match dec_wrapper(s, b2, acc) {
                                Ok((_, b3)) => lemma_exact_trans(b3, b2, l),
                                Err(_) => {},
                            }
                        },
                        None => {},
                    }
                }
            },
        }
    }
}

/// A well-known message read from a tight state reads exactly, to the end
/// of the window.
proof fn lemma_exact_well_known(k: WellKnown, l: BufView)
    requires
        l.limits.len() >= 1,
        tight(l),
    ensures
        ends_exactly(dec_well_known(k, l), l),
        dec_well_known(k, l) matches Ok((_, b2)) ==> b2.remaining() == 0,
{
    reveal(dec_well_known);
    lemma_exact_reads(l);
    match k {
        WellKnown::Empty => lemma_exact_empty(l),
        WellKnown::Wrapper(s) => lemma_exact_wrapper(s, l, crate::well_known::zero_json(s)),
        _ => {},
    }
}

/// A field read from a tight state reads exactly.
proof fn lemma_exact_any(map: TypeMap, l: BufView, wt: WireType, ty: nat, cur: JsonSpec)
    requires
        l.limits.len() >= 1,
        tight(l),
    ensures
        ends_exactly(dec_any(map, l, wt, ty, cur), l),
    decreases l.remaining(), ty, 5nat,
{
    if ty < map.types().len() {
        match map.types()[ty as int] {
            Ty::Message(_) => lemma_exact_len_message(map, l, wt, ty, cur),
            Ty::Enum(e) => lemma_exact_enum(e, l),
            Ty::Scalar(s) => lemma_exact_scalar(s, l),
            Ty::List(t) => if (t.0 as nat) < ty {
                lemma_exact_list(map, l, wt, ty, t.0 as nat, cur);
            },
            Ty::Mapping(t) => if (t.0 as nat) < ty {
                lemma_exact_map(map, l, wt, ty, t.0 as nat, cur);
            },
            Ty::Group(_) => {},
        }
    }
}

/// A length-delimited message read from a tight state reads exactly.
proof fn lemma_exact_len_message(map: TypeMap, l: BufView, wt: WireType, ty: nat, cur: JsonSpec)
    requires
        l.limits.len() >= 1,
        tight(l),
    ensures
        ends_exactly(dec_len_message(map, l, wt, ty, cur), l),
    decreases l.remaining(), ty, 4nat,
{
    lemma_exact_reads(l);
    if wt == WireType::LengthDelimited {
        lemma_prefix_within(l.window());
        match spec_length_delimiter(l.window()) {
            None => {},
            Some((len, n)) => {
                let b1 = l.advance(n);
                lemma_drop_bottom_push(b1, len);
                match b1.push_limit(len) {
                    None => {},
                    Some(b2) => if b2.remaining() < l.remaining() {
                        assert(tight(b2));
                        lemma_exact_body(map, b2, ty, cur);
                        match dec_message_body(map, b2, ty, cur) {
                            Ok((_, b3)) => {
                                lemma_exact_frame(b1, len, b3);
                                lemma_exact_trans(b3.pop_limit(), b1, l);
                            },
                            Err(_) => {},
                        }
                    },
                }
            },
        }
    }
}

/// The body of a message read from a tight state reads exactly, to the end
/// of the window.
proof fn lemma_exact_body(map: TypeMap, l: BufView, ty: nat, cur: JsonSpec)
    requires
        l.limits.len() >= 1,
        tight(l),
    ensures
        ends_exactly(dec_message_body(map, l, ty, cur), l),
        dec_message_body(map, l, ty, cur) matches Ok((_, b2)) ==> b2.remaining() == 0,
    decreases l.remaining(), ty, 2nat,
{
    if ty < map.types().len() {
        match map.types()[ty as int] {
            Ty::Message(m) => match well_known_of(m.name@) {
                Some(k) => lemma_exact_well_known(k, l),
                None => match cur {
                    JsonSpec::Object(o) => {
                        lemma_exact_fields(map, l, ty, o);
                        lemma_fields_end(map, l, ty, o);
                    },
                    _ => {},
                },
            },
            _ => {},
        }
    }
}

/// The fields of a message read from a tight state read exactly.
proof fn lemma_exact_fields(map: TypeMap, l: BufView, ty: nat, o: Seq<(Seq<char>, JsonSpec)>)
    requires
        l.limits.len() >= 1,
        tight(l),
    ensures
        ends_exactly(dec_fields(map, l, ty, o), l),
    decreases l.remaining(), ty, 1nat,
{
    lemma_exact_reads(l);
    lemma_follows_refl(l);
    if ty < map.types().len() && l.remaining() > 0 {
        match map.types()[ty as int] {
            Ty::Message(m) => {
                lemma_prefix_within(l.window());
                match spec_key(l.window()) {
                    None => {},
                    Some((tag, wt, n)) => {
                        let b1 = l.advance(n);
                        lemma_exact_reads(b1);
                        if slab_fields(m.fields).contains_key(tag as usize) {
                            let f = slab_fields(m.fields)[tag as usize];
                            let cur = match obj_get(o, f.1) {
                                Some(v) => v,
                                None => default_of(map, f.3 as nat),
                            };
                            if b1.remaining() < l.remaining() && (f.3 as nat) < ty {
                                lemma_exact_any(map, b1, wt, f.3 as nat, cur);
                                match dec_any(map, b1, wt, f.3 as nat, cur) {
                                    Ok((v, b2)) => if b2.remaining() < l.remaining() {
                                        lemma_exact_trans(b2, b1, l);
                                        lemma_exact_tight(b2, l);
                                        lemma_exact_fields(map, b2, ty, obj_set(o, f.1, v));
                                        match dec_fields(map, b2, ty, obj_set(o, f.1, v)) {
                                            Ok((_, b3)) => lemma_exact_trans(b3, b2, l),
                                            Err(_) => {},
                                        }
                                    },
                                    Err(_) => {},
                                }
                            }
                        } else {
                            match spec_skip(wt, tag, b1.window()) {
                                Some(k) => if k <= b1.remaining() && b1.advance(k).remaining() < l.remaining() {
                                    let b2 = b1.advance(k);
                                    lemma_exact_trans(b2, b1, l);
                                    lemma_exact_fields(map, b2, ty, o);
                                    match dec_fields(map, b2, ty, o) {
                                        Ok((_, b3)) => lemma_exact_trans(b3, b2, l),
                                        Err(_) => {},
                                    }
                                },
                                None => {},
                            }
                        }
                    },
                }
            },
            _ => {},
        }
    }
}

/// A list field read from a tight state reads exactly.
proof fn lemma_exact_list(map: TypeMap, l: BufView, wt: WireType, outer: nat, inner: nat, cur: JsonSpec)
    requires
        l.limits.len() >= 1,
        tight(l),
    ensures
        ends_exactly(dec_list(map, l, wt, outer, inner, cur), l),
    decreases l.remaining(), outer, 3nat,
{
    lemma_exact_reads(l);
    match cur {
        JsonSpec::Array(items) => if inner < map.types().len() {
            if wt == WireType::LengthDelimited && is_packable(map.types()[inner as int]) {
                lemma_prefix_within(l.window());
                match spec_length_delimiter(l.window()) {
                    None => {},
                    Some((len, n)) => {
                        let b1 = l.advance(n);
                        lemma_drop_bottom_push(b1, len);
                        match b1.push_limit(len) {
                            None => {},
                            Some(b2) => if b2.remaining() < l.remaining() {
                                assert(tight(b2));
                                lemma_exact_packed(map, b2, inner, items);
                                match dec_packed(map, b2, inner, items) {
                                    Ok((_, b3)) => {
                                        lemma_exact_frame(b1, len, b3);
                                        lemma_exact_trans(b3.pop_limit(), b1, l);
                                    },
                                    Err(_) => {},
                                }
                            },
                        }
                    },
                }
            } else if inner < outer {
                lemma_exact_any(map, l, wt, inner, default_of(map, inner));
            }
        },
        _ => {},
    }
}

/// A packed run read from a tight state reads exactly, to the end of the
/// window.
proof fn lemma_exact_packed(map: TypeMap, l: BufView, inner: nat, items: Seq<JsonSpec>)
    requires
        l.limits.len() >= 1,
        tight(l),
    ensures
        ends_exactly(dec_packed(map, l, inner, items), l),
        dec_packed(map, l, inner, items) matches Ok((_, b2)) ==> b2.remaining() == 0,
    decreases l.remaining(), inner, 6nat,
{
    lemma_follows_refl(l);
    if l.remaining() > 0 {
        lemma_exact_any(map, l, WireType::LengthDelimited, inner, default_of(map, inner));
        match dec_any(map, l, WireType::LengthDelimited, inner, default_of(map, inner)) {
            Ok((v, b2)) => if b2.remaining() < l.remaining() {
                lemma_exact_tight(b2, l);
                lemma_exact_packed(map, b2, inner, items.push(v));
                match dec_packed(map, b2, inner, items.push(v)) {
                    Ok((_, b3)) => lemma_exact_trans(b3, b2, l),
                    Err(_) => {},
                }
            },
            Err(_) => {},
        }
    }
}

/// A map field read from a tight state reads exactly.
proof fn lemma_exact_map(map: TypeMap, l: BufView, wt: WireType, outer: nat, inner: nat, cur: JsonSpec)
    requires
        l.limits.len() >= 1,
        tight(l),
    ensures
        ends_exactly(dec_map(map, l, wt, outer, inner, cur), l),
    decreases l.remaining(), outer, 4nat,
{
    lemma_exact_list(map, l, wt, outer, inner, JsonSpec::Array(Seq::empty()));
}

/// The state `b` with the bytes `c` after its own.
pub open spec fn with_tail(b: BufView, c: Seq<u8>) -> BufView {
    BufView { rest: b.rest + c, limits: b.limits }
}

/// A decode result whose final state has the bytes `c` after its own.
pub open spec fn tailed(r: Result<(JsonSpec, BufView), ErrorKind>, c: Seq<u8>) -> Result<(JsonSpec, BufView), ErrorKind> {
    match r {
        Ok((v, b)) => Ok((v, with_tail(b, c))),
        Err(e) => Err(e),
    }
}

/// Under a tight limit, bytes after the state's own are out of sight: reads
/// see the same window and move both states alike.
proof fn lemma_tail_reads(m: BufView, c: Seq<u8>)
    requires
        m.limits.len() >= 1,
        tight(m),
    ensures
        with_tail(m, c).remaining() == m.remaining(),
        with_tail(m, c).window() == m.window(),
        forall|n: nat| n <= m.remaining() ==> with_tail(m, c).advance(n) == with_tail(#[trigger] m.advance(n), c),
        forall|len: usize| #[trigger] with_tail(m, c).push_limit(len) == match m.push_limit(len) {
            Some(b) => Some(with_tail(b, c)),
            None => None,
        },
        with_tail(m, c).pop_limit() == with_tail(m.pop_limit(), c),
{
    let l = with_tail(m, c);
    assert(l.window() =~= m.window());
    assert forall|n: nat| n <= m.remaining() implies l.advance(n) == with_tail(#[trigger] m.advance(n), c) by {
        assert(l.advance(n).rest =~= m.advance(n).rest + c);
    }
}

/// Bytes after a tight state's own do not change how a scalar is read.
proof fn lemma_tail_scalar(s: Scalar, m: BufView, c: Seq<u8>)
    requires
        m.limits.len() >= 1,
        tight(m),
    ensures
        dec_scalar(s, with_tail(m, c)) == tailed(dec_scalar(s, m), c),
{
    lemma_tail_reads(m, c);
    lemma_prefix_within(m.window());
}

/// Bytes after a tight state's own do not change how an enum value is read.
proof fn lemma_tail_enum(e: Enum, m: BufView, c: Seq<u8>)
    requires
        m.limits.len() >= 1,
        tight(m),
    ensures
        dec_enum(e, with_tail(m, c)) == tailed(dec_enum(e, m), c),
{
    lemma_tail_reads(m, c);
    lemma_prefix_within(m.window());
}

/// Bytes after a tight state's own do not change how an `Empty` message is
/// read.
proof fn lemma_tail_empty(m: BufView, c: Seq<u8>)
    requires
        m.limits.len() >= 1,
        tight(m),
    ensures
        dec_empty(with_tail(m, c)) == tailed(dec_empty(m), c),
    decreases m.remaining(),
{
    lemma_tail_reads(m, c);
    lemma_exact_reads(m);
    if m.remaining() > 0 {
        lemma_prefix_within(m.window());
        match spec_key(m.window()) {
            None => {},
            Some((tag, wt, n)) => {
                let b1 = m.advance(n);
                lemma_tail_reads(b1, c);
                lemma_exact_reads(b1);
                match spec_skip(wt, tag, b1.window()) {
                    Some(k) => if k <= b1.remaining() && b1.advance(k).remaining() < m.remaining() {
                        lemma_tail_empty(b1.advance(k), c);
                    },
                    None => {},
                }
            },
        }
    }
}

/// Bytes after a tight state's own do not change how a wrapper message is
/// read.
proof fn lemma_tail_wrapper(s: Scalar, m: BufView, acc: JsonSpec, c: Seq<u8>)
    requires
        m.limits.len() >= 1,
        tight(m),
    ensures
        dec_wrapper(s, with_tail(m, c), acc) == tailed(dec_wrapper(s, m, acc), c),
    decreases m.remaining(),
{
    lemma_tail_reads(m, c);
    lemma_exact_reads(m);
    if m.remaining() > 0 {
        lemma_prefix_within(m.window());
        match spec_key(m.window()) {
            None => {},
            Some((tag, wt, n)) => {
                let b1 = m.advance(n);
                lemma_tail_reads(b1, c);
                lemma_exact_reads(b1);
                if tag == 1 {
                    lemma_tail_scalar(s, b1, c);
                    lemma_exact_scalar(s, b1);
                    match dec_scalar(s, b1) {
                        Ok((v, b2)) => if b2.remaining() < m.remaining() {
                            lemma_exact_tight(b2, b1);
                            lemma_tail_wrapper(s, b2, v, c);
                        },
                        Err(_) => {},
                    }
                } else {
                    match spec_skip(wt, tag, b1.window()) {
                        Some(k) => if k <= b1.remaining() && b1.advance(k).remaining() < m.remaining() {
                            lemma_tail_wrapper(s, b1.advance(k), acc, c);
                        },
                        None => {},
                    }
                }
            },
        }
    }
}

/// Bytes after a tight state's own do not change how a well-known message
/// is read.
proof fn lemma_tail_well_known(k: WellKnown, m: BufView, c: Seq<u8>)
    requires
        m.limits.len() >= 1,
        tight(m),
    ensures
        dec_well_known(k, with_tail(m, c)) == tailed(dec_well_known(k, m), c),
{
    reveal(dec_well_known);
    lemma_tail_reads(m, c);
    match k {
        WellKnown::Empty => lemma_tail_empty(m, c),
        WellKnown::Wrapper(s) => lemma_tail_wrapper(s, m, crate::well_known::zero_json(s), c),
        _ => {},
    }
}

/// Bytes after a tight state's own do not change how a field is read.
proof fn lemma_tail_any(map: TypeMap, m: BufView, wt: WireType, ty: nat, cur: JsonSpec, c: Seq<u8>)
    requires
        m.limits.len() >= 1,
        tight(m),
    ensures
        dec_any(map, with_tail(m, c), wt, ty, cur) == tailed(dec_any(map, m, wt, ty, cur), c),
    decreases m.remaining(), ty, 5nat,
{
    if ty < map.types().len() {
        match map.types()[ty as int] {
            Ty::Message(_) => lemma_tail_len_message(map, m, wt, ty, cur, c),
            Ty::Enum(e) => lemma_tail_enum(e, m, c),
            Ty::Scalar(s) => lemma_tail_scalar(s, m, c),
            Ty::List(t) => if (t.0 as nat) < ty {
                lemma_tail_list(map, m, wt, ty, t.0 as nat, cur, c);
            },
            Ty::Mapping(t) => if (t.0 as nat) < ty {
                lemma_tail_map(map, m, wt, ty, t.0 as nat, cur, c);
            },
            Ty::Group(_) => {},
        }
    }
}

/// Bytes after a tight state's own do not change how a length-delimited
/// message is read.
proof fn lemma_tail_len_message(map: TypeMap, m: BufView, wt: WireType, ty: nat, cur: JsonSpec, c: Seq<u8>)
    requires
        m.limits.len() >= 1,
        tight(m),
    ensures
        dec_len_message(map, with_tail(m, c), wt, ty, cur) == tailed(dec_len_message(map, m, wt, ty, cur), c),
    decreases m.remaining(), ty, 4nat,
{
    lemma_tail_reads(m, c);
    lemma_exact_reads(m);
    if wt == WireType::LengthDelimited {
        lemma_prefix_within(m.window());
        match spec_length_delimiter(m.window()) {
            None => {},
            Some((len, n)) => {
                let b1 = m.advance(n);
                lemma_tail_reads(b1, c);
                match b1.push_limit(len) {
                    None => {},
                    Some(b2) => if b2.remaining() < m.remaining() {
                        assert(tight(b2));
                        lemma_tail_reads(b2, c);
                        lemma_tail_body(map, b2, ty, cur, c);
                        lemma_exact_body(map, b2, ty, cur);
                        match dec_message_body(map, b2, ty, cur) {
                            Ok((_, b3)) => {
                                lemma_exact_frame(b1, len, b3);
                                lemma_tail_reads(b3, c);
                            },
                            Err(_) => {},
                        }
                    },
                }
            },
        }
    }
}

/// Bytes after a tight state's own do not change how the body of a message
/// is read.
proof fn lemma_tail_body(map: TypeMap, m: BufView, ty: nat, cur: JsonSpec, c: Seq<u8>)
    requires
        m.limits.len() >= 1,
        tight(m),
    ensures
        dec_message_body(map, with_tail(m, c), ty, cur) == tailed(dec_message_body(map, m, ty, cur), c),
    decreases m.remaining(), ty, 2nat,
{
    if ty < map.types().len() {
        match map.types()[ty as int] {
            Ty::Message(mm) => match well_known_of(mm.name@) {
                Some(k) => lemma_tail_well_known(k, m, c),
                None => match cur {
                    JsonSpec::Object(o) => lemma_tail_fields(map, m, ty, o, c),
                    _ => {},
                },
            },
            _ => {},
        }
    }
}

/// Bytes after a tight state's own do not change how the fields of a
/// message are read.
proof fn lemma_tail_fields(map: TypeMap, m: BufView, ty: nat, o: Seq<(Seq<char>, JsonSpec)>, c: Seq<u8>)
    requires
        m.limits.len() >= 1,
        tight(m),
    ensures
        dec_fields(map, with_tail(m, c), ty, o) == tailed(dec_fields(map, m, ty, o), c),
    decreases m.remaining(), ty, 1nat,
{
    lemma_tail_reads(m, c);
    lemma_exact_reads(m);
    if ty < map.types().len() && m.remaining() > 0 {
        match map.types()[ty as int] {
            Ty::Message(mm) => {
                lemma_prefix_within(m.window());
                match spec_key(m.window()) {
                    None => {},
                    Some((tag, wt, n)) => {
                        let b1 = m.advance(n);
                        lemma_tail_reads(b1, c);
                        lemma_exact_reads(b1);
                        if slab_fields(mm.fields).contains_key(tag as usize) {
                            let f = slab_fields(mm.fields)[tag as usize];
                            let cur = match obj_get(o, f.1) {
                                Some(v) => v,
                                None => default_of(map, f.3 as nat),
                            };
                            if b1.remaining() < m.remaining() && (f.3 as nat) < ty {
                                lemma_tail_any(map, b1, wt, f.3 as nat, cur, c);
                                lemma_exact_any(map, b1, wt, f.3 as nat, cur);
                                match dec_any(map, b1, wt, f.3 as nat, cur) {
                                    Ok((v, b2)) => if b2.remaining() < m.remaining() {
                                        lemma_exact_tight(b2, b1);
                                        lemma_tail_reads(b2, c);
                                        lemma_tail_fields(map, b2, ty, obj_set(o, f.1, v), c);
                                    },
                                    Err(_) => {},
                                }
                            }
                        } else {
                            match spec_skip(wt, tag, b1.window()) {
                                Some(k) => if k <= b1.remaining() && b1.advance(k).remaining() < m.remaining() {
                                    lemma_tail_fields(map, b1.advance(k), ty, o, c);
                                },
                                None => {},
                            }
                        }
                    },
                }
            },
            _ => {},
        }
    }
}

/// Bytes after a tight state's own do not change how a list field is read.
proof fn lemma_tail_list(map: TypeMap, m: BufView, wt: WireType, outer: nat, inner: nat, cur: JsonSpec, c: Seq<u8>)
    requires
        m.limits.len() >= 1,
        tight(m),
    ensures
        dec_list(map, with_tail(m, c), wt, outer, inner, cur) == tailed(dec_list(map, m, wt, outer, inner, cur), c),
    decreases m.remaining(), outer, 3nat,
{
    lemma_tail_reads(m, c);
    lemma_exact_reads(m);
    match cur {
        JsonSpec::Array(items) => if inner < map.types().len() {
            if wt == WireType::LengthDelimited && is_packable(map.types()[inner as int]) {
                lemma_prefix_within(m.window());
                match spec_length_delimiter(m.window()) {
                    None => {},
                    Some((len, n)) => {
                        let b1 = m.advance(n);
                        lemma_tail_reads(b1, c);
                        match b1.push_limit(len) {
                            None => {},
                            Some(b2) => if b2.remaining() < m.remaining() {
                                assert(tight(b2));
                                lemma_tail_reads(b2, c);
                                lemma_tail_packed(map, b2, inner, items, c);
                                lemma_exact_packed(map, b2, inner, items);
                                match dec_packed(map, b2, inner, items) {
                                    Ok((_, b3)) => {
                                        lemma_exact_frame(b1, len, b3);
                                        lemma_tail_reads(b3, c);
                                    },
                                    Err(_) => {},
                                }
                            },
                        }
                    },
                }
            } else if inner < outer {
                lemma_tail_any(map, m, wt, inner, default_of(map, inner), c);
            }
        },
        _ => {},
    }
}

/// Bytes after a tight state's own do not change how a packed run is read.
proof fn lemma_tail_packed(map: TypeMap, m: BufView, inner: nat, items: Seq<JsonSpec>, c: Seq<u8>)
    requires
        m.limits.len() >= 1,
        tight(m),
    ensures
        dec_packed(map, with_tail(m, c), inner, items) == tailed(dec_packed(map, m, inner, items), c),
    decreases m.remaining(), inner, 6nat,
{
    lemma_tail_reads(m, c);
    if m.remaining() > 0 {
        lemma_tail_any(map, m, WireType::LengthDelimited, inner, default_of(map, inner), c);
        lemma_exact_any(map, m, WireType::LengthDelimited, inner, default_of(map, inner));
        match dec_any(map, m, WireType::LengthDelimited, inner, default_of(map, inner)) {
            Ok((v, b2)) => if b2.remaining() < m.remaining() {
                lemma_exact_tight(b2, m);
                lemma_tail_reads(b2, c);
                lemma_tail_packed(map, b2, inner, items.push(v), c);
            },
            Err(_) => {},
        }
    }
}

/// Bytes after a tight state's own do not change how a map field is read.
proof fn lemma_tail_map(map: TypeMap, m: BufView, wt: WireType, outer: nat, inner: nat, cur: JsonSpec, c: Seq<u8>)
    requires
        m.limits.len() >= 1,
        tight(m),
    ensures
        dec_map(map, with_tail(m, c), wt, outer, inner, cur) == tailed(dec_map(map, m, wt, outer, inner, cur), c),
    decreases m.remaining(), outer, 4nat,
{
    lemma_tail_list(map, m, wt, outer, inner, JsonSpec::Array(Seq::empty()), c);
}

/// Bytes after a tight state's own do not change whether its fields skip an
/// undeclared group.
proof fn lemma_tail_skips(map: TypeMap, m: BufView, ty: nat, o: Seq<(Seq<char>, JsonSpec)>, c: Seq<u8>)
    requires
        m.limits.len() >= 1,
        tight(m),
    ensures
        skips_no_group(map, with_tail(m, c), ty, o) == skips_no_group(map, m, ty, o),
    decreases m.remaining(),
{
    lemma_tail_reads(m, c);
    lemma_exact_reads(m);
    if ty < map.types().len() && m.remaining() > 0 {
        match map.types()[ty as int] {
            Ty::Message(mm) => {
                lemma_prefix_within(m.window());
                match spec_key(m.window()) {
                    None => {},
                    Some((tag, wt, n)) => {
                        let b1 = m.advance(n);
                        lemma_tail_reads(b1, c);
                        lemma_exact_reads(b1);
                        if slab_fields(mm.fields).contains_key(tag as usize) {
                            let f = slab_fields(mm.fields)[tag as usize];
                            let cur = match obj_get(o, f.1) {
                                Some(v) => v,
                                None => default_of(map, f.3 as nat),
                            };
                            lemma_tail_any(map, b1, wt, f.3 as nat, cur, c);
                            lemma_exact_any(map, b1, wt, f.3 as nat, cur);
                            match dec_any(map, b1, wt, f.3 as nat, cur) {
                                Ok((v, b2)) => if b2.remaining() < m.remaining() {
                                    lemma_exact_tight(b2, b1);
                                    lemma_tail_reads(b2, c);
                                    lemma_tail_skips(map, b2, ty, obj_set(o, f.1, v), c);
                                },
                                Err(_) => {},
                            }
                        } else {
                            match spec_skip(wt, tag, b1.window()) {
                                Some(k) => if k <= b1.remaining() && b1.advance(k).remaining() < m.remaining() {
                                    lemma_tail_skips(map, b1.advance(k), ty, o, c);
                                },
                                None => {},
                            }
                        }
                    },
                }
            },
            _ => {},
        }
    }
}

/// The fields of a message in the bytes `a` followed by `c` are those of
/// `c` read into the object that the fields of `a` give, where `a` read
/// with its own length as a limit decodes, that is, no length prefix in `a`
/// reaches past its end, and has no group that the message does not
/// declare.
pub proof fn law_concatenation_merges(map: TypeMap, ty: nat, o: Seq<(Seq<char>, JsonSpec)>, a: Seq<u8>, c: Seq<u8>)
    requires
        a.len() <= usize::MAX,
        skips_no_group(map, BufView { rest: a, limits: seq![a.len() as usize] }, ty, o),
        dec_fields(map, BufView { rest: a, limits: seq![a.len() as usize] }, ty, o) is Ok,
    ensures
        dec_fields(map, BufView { rest: a, limits: Seq::empty() }, ty, o) matches Ok((JsonSpec::Object(o1), _))
            && dec_fields(map, BufView { rest: a + c, limits: Seq::empty() }, ty, o) == dec_fields(
            map,
            BufView { rest: c, limits: Seq::empty() },
            ty,
            o1,
        ),
{
    let m = BufView { rest: a, limits: seq![a.len() as usize] };
    lemma_tail_fields(map, m, ty, o, c);
    lemma_tail_skips(map, m, ty, o, c);
    assert(with_tail(m, c) == BufView { rest: a + c, limits: seq![a.len() as usize] });
    law_fields_then_rest(map, ty, o, a, c);
    let e = Seq::<u8>::empty();
    lemma_tail_fields(map, m, ty, o, e);
    lemma_tail_skips(map, m, ty, o, e);
    assert(a + e =~= a);
    assert(with_tail(m, e) == m);
    law_fields_then_rest(map, ty, o, a, e);
}

/// A message sent as the bytes `a` followed by `c` decodes to what `c`
/// adds to the message `a` decodes to: later scalars win, lists grow, maps
/// gain entries, and nested messages merge in turn. This holds of messages
/// other than the well-known ones, where `a` read with its own length as a
/// limit decodes and has no group that the message does not declare.
pub proof fn law_message_in_two_parts(map: TypeMap, ty: nat, a: Seq<u8>, c: Seq<u8>)
    requires
        ty < map.types().len(),
        map.types()[ty as int] matches Ty::Message(m) && well_known_of(m.name@) is None,
        a.len() <= usize::MAX,
        skips_no_group(map, BufView { rest: a, limits: seq![a.len() as usize] }, ty, Seq::empty()),
        dec_fields(map, BufView { rest: a, limits: seq![a.len() as usize] }, ty, Seq::empty()) is Ok,
    ensures
        dec_top(map, ty, a) matches Ok(JsonSpec::Object(o1)) && dec_top(map, ty, a + c) == match dec_fields(
            map,
            BufView { rest: c, limits: Seq::empty() },
            ty,
            o1,
        ) {
            Ok((v, _)) => Ok(v),
            Err(e) => Err(e),
        },
{
    law_concatenation_merges(map, ty, Seq::empty(), a, c);
}


// ---------------------------------------------------------------------------
// Fixed-width integers

/// The first four bytes read as an unsigned little-endian number.
pub open spec fn le_unsigned32(w: Seq<u8>) -> int {
    w[0] + 0x100 * w[1] + 0x1_0000 * w[2] + 0x100_0000 * w[3]
}

/// The first eight bytes read as an unsigned little-endian number.
pub open spec fn le_unsigned64(w: Seq<u8>) -> int {
    le_unsigned32(w) + 0x1_0000_0000 * le_unsigned32(w.skip(4))
}

/// The first four bytes read as a little-endian two's-complement number:
/// the unsigned number, less 2^32 where the top bit of the last byte is set.
pub open spec fn le_signed32(w: Seq<u8>) -> int {
    if w[3] < 0x80 {
        le_unsigned32(w)
    } else {
        le_unsigned32(w) - 0x1_0000_0000
    }
}

/// The first eight bytes read as a little-endian two's-complement number:
/// the unsigned number, less 2^64 where the top bit of the last byte is set.
pub open spec fn le_signed64(w: Seq<u8>) -> int {
    if w[7] < 0x80 {
        le_unsigned64(w)
    } else {
        le_unsigned64(w) - 0x1_0000_0000_0000_0000
    }
}

proof fn lemma_le32_value(w: Seq<u8>)
    requires
        w.len() >= 4,
    ensures
        le32(w) as int == le_unsigned32(w),
        (le32(w) as i32) as int == le_signed32(w),
{
    let u = le32(w);
    assert(u as int == le_unsigned32(w));
    assert(((u as i32) as int) == (if u < 0x8000_0000u32 { u as int } else { u as int - 0x1_0000_0000 })) by (bit_vector);
}

proof fn lemma_le64_value(w: Seq<u8>)
    requires
        w.len() >= 8,
    ensures
        le64(w) as int == le_unsigned64(w),
        (le64(w) as i64) as int == le_signed64(w),
{
    lemma_le32_value(w);
    lemma_le32_value(w.skip(4));
    assert(w.skip(4)[3] == w[7]);
    let u = le64(w);
    assert(u as int == le_unsigned64(w));
    assert(((u as i64) as int) == (if u < 0x8000_0000_0000_0000u64 { u as int } else { u as int - 0x1_0000_0000_0000_0000 })) by (bit_vector);
}

/// The fixed-width integer fields read their bytes little-endian: `fixed32`
/// and `fixed64` as unsigned numbers, `sfixed32` and `sfixed64` as two's
/// complement, so that the bytes of -5 give -5. The 32-bit ones give JSON
/// numbers, the 64-bit ones decimal strings; each takes exactly its bytes.
pub proof fn law_fixed_width_integers(b: BufView)
    ensures
        b.window().len() >= 4 ==> dec_scalar(Scalar::Fixed32, b) == Ok::<(JsonSpec, BufView), ErrorKind>(
            (JsonSpec::Number(le_unsigned32(b.window())), b.advance(4)),
        ),
        b.window().len() >= 4 ==> dec_scalar(Scalar::Sfixed32, b) == Ok::<(JsonSpec, BufView), ErrorKind>(
            (JsonSpec::Number(le_signed32(b.window())), b.advance(4)),
        ),
        b.window().len() >= 8 ==> dec_scalar(Scalar::Fixed64, b) == Ok::<(JsonSpec, BufView), ErrorKind>(
            (JsonSpec::Str(int_decimal(le_unsigned64(b.window()))), b.advance(8)),
        ),
        b.window().len() >= 8 ==> dec_scalar(Scalar::Sfixed64, b) == Ok::<(JsonSpec, BufView), ErrorKind>(
            (JsonSpec::Str(int_decimal(le_signed64(b.window()))), b.advance(8)),
        ),
{
    let w = b.window();
    if w.len() >= 4 {
        lemma_le32_value(w);
    }
    if w.len() >= 8 {
        lemma_le64_value(w);
    }
}

// ---------------------------------------------------------------------------
// Varint scalars

/// `u`, below `m`, read as an `m`-wide two's-complement number.
pub open spec fn signed_in(u: int, m: int) -> int {
    if 2 * u < m {
        u
    } else {
        u - m
    }
}

/// The zigzag decoding: even numbers count up from zero, odd ones down from
/// minus one.
pub open spec fn unzigzag(u: int) -> int {
    if u % 2 == 0 {
        u / 2
    } else {
        -((u + 1) / 2)
    }
}

proof fn lemma_varint_casts(x: u64)
    ensures
        (x as u32) as int == x as int % 0x1_0000_0000,
        (x as i32) as int == signed_in(x as int % 0x1_0000_0000, 0x1_0000_0000),
        (x as i64) as int == signed_in(x as int, 0x1_0000_0000_0000_0000),
        zigzag32(x as u32) as int == unzigzag(x as int % 0x1_0000_0000),
        zigzag64(x) as int == unzigzag(x as int),
{
    assert((x as u32) as int == x % 0x1_0000_0000) by (bit_vector);
    assert(((x as i32) as int) == (if x % 0x1_0000_0000 < 0x8000_0000 {
        (x % 0x1_0000_0000) as int
    } else {
        (x % 0x1_0000_0000) as int - 0x1_0000_0000
    })) by (bit_vector);
    assert(((x as i64) as int) == (if x < 0x8000_0000_0000_0000u64 {
        x as int
    } else {
        x as int - 0x1_0000_0000_0000_0000
    })) by (bit_vector);
}

/// The scalars that come as varints: `int32` keeps the low 32 bits as a
/// signed number, so ten bytes of -1 give -1; `uint32` keeps them unsigned;
/// `int64` reads the whole value as signed and `uint64` as unsigned, both as
/// decimal strings; `sint32` and `sint64` undo the zigzag encoding, so 1
/// gives -1 and 2 gives 1; `bool` is true exactly when the value is not zero.
/// Each takes exactly the bytes of its varint.
pub proof fn law_varint_scalars(b: BufView)
    requires
        spec_varint(b.window()) is Some,
    ensures
        ({
            let (x, n) = spec_varint(b.window())->Some_0;
            &&& dec_scalar(Scalar::Int32, b) == Ok::<(JsonSpec, BufView), ErrorKind>(
                (JsonSpec::Number(signed_in(x as int % 0x1_0000_0000, 0x1_0000_0000)), b.advance(n)),
            )
            &&& dec_scalar(Scalar::Uint32, b) == Ok::<(JsonSpec, BufView), ErrorKind>(
                (JsonSpec::Number(x as int % 0x1_0000_0000), b.advance(n)),
            )
            &&& dec_scalar(Scalar::Int64, b) == Ok::<(JsonSpec, BufView), ErrorKind>(
                (JsonSpec::Str(int_decimal(signed_in(x as int, 0x1_0000_0000_0000_0000))), b.advance(n)),
            )
            &&& dec_scalar(Scalar::Uint64, b) == Ok::<(JsonSpec, BufView), ErrorKind>(
                (JsonSpec::Str(int_decimal(x as int)), b.advance(n)),
            )
            &&& dec_scalar(Scalar::Sint32, b) == Ok::<(JsonSpec, BufView), ErrorKind>(
                (JsonSpec::Number(unzigzag(x as int % 0x1_0000_0000)), b.advance(n)),
            )
            &&& dec_scalar(Scalar::Sint64, b) == Ok::<(JsonSpec, BufView), ErrorKind>(
                (JsonSpec::Str(int_decimal(unzigzag(x as int))), b.advance(n)),
            )
            &&& dec_scalar(Scalar::Bool, b) == Ok::<(JsonSpec, BufView), ErrorKind>((JsonSpec::Bool(x != 0), b.advance(n)))
        }),
{
    let (x, n) = spec_varint(b.window())->Some_0;
    lemma_varint_casts(x);
}

// ---------------------------------------------------------------------------
// Enum values

proof fn lemma_number_matches(n: i32, x: u64)
    ensures
        (n as u64 == x) <==> n as int == signed_in(x as int, 0x1_0000_0000_0000_0000),
{
    lemma_varint_casts(x);
    assert((n as u64 == x) <==> (n as i64 == x as i64)) by (bit_vector);
}

/// An enum value is read as a varint. Of `google.protobuf.NullValue` any
/// value gives `null`; of another enum, the value is the number of its
/// values read as a signed 64-bit number, and gives the name of the first
/// value declared with that number, or the number itself where none has it.
pub proof fn law_enum_values(e: Enum, b: BufView)
    requires
        spec_varint(b.window()) is Some,
    ensures
        ({
            let (x, n) = spec_varint(b.window())->Some_0;
            let num = signed_in(x as int, 0x1_0000_0000_0000_0000);
            &&& e.name@ == ".google.protobuf.NullValue"@ ==> dec_enum(e, b) == Ok::<(JsonSpec, BufView), ErrorKind>(
                (JsonSpec::Null, b.advance(n)),
            )
            &&& e.name@ != ".google.protobuf.NullValue"@ ==> forall|k: int|
                0 <= k < e.values@.len() && e.values@[k].number == num && (forall|j: int|
                    0 <= j < k ==> #[trigger] e.values@[j].number != num) ==> dec_enum(e, b) == Ok::<
                    (JsonSpec, BufView),
                    ErrorKind,
                >((JsonSpec::Str(#[trigger] e.values@[k].name@), b.advance(n)))
            &&& e.name@ != ".google.protobuf.NullValue"@ && (forall|j: int|
                0 <= j < e.values@.len() ==> #[trigger] e.values@[j].number != num) ==> dec_enum(e, b) == Ok::<
                (JsonSpec, BufView),
                ErrorKind,
            >((JsonSpec::Number(x as int), b.advance(n)))
        }),
{
    let (x, n) = spec_varint(b.window())->Some_0;
    let num = signed_in(x as int, 0x1_0000_0000_0000_0000);
    let vs = e.values@;
    assert forall|j: int| 0 <= j < vs.len() implies (#[trigger] vs[j].number as u64 == x) <==> vs[j].number == num by {
        lemma_number_matches(vs[j].number, x);
    }
    lemma_enum_index(vs, x);
    assert forall|k: int|
        0 <= k < vs.len() && vs[k].number == num && (forall|j: int| 0 <= j < k ==> #[trigger] vs[j].number != num)
        implies enum_index(vs, x) == Some(k) by {
        if let Some(k2) = enum_index(vs, x) {
            if k2 < k {
                assert(vs[k2].number as u64 == x);
            } else if k2 > k {
                assert(vs[k].number as u64 == x);
            }
        } else {
            assert(vs[k].number as u64 == x);
        }
    }
}

// ---------------------------------------------------------------------------
// Repeated fields

/// `r` is an array that begins with `items`.
pub open spec fn array_extends(r: JsonSpec, items: Seq<JsonSpec>) -> bool {
    r matches JsonSpec::Array(a) && items.len() <= a.len() && a.take(items.len() as int) == items
}

proof fn lemma_packed_extends(map: TypeMap, b: BufView, inner: nat, items: Seq<JsonSpec>)
    ensures
        dec_packed(map, b, inner, items) matches Ok((v, _)) ==> array_extends(v, items),
    decreases b.remaining(),
{
    if b.remaining() == 0 {
        assert(items.take(items.len() as int) =~= items);
    } else {
        if let Ok((v, b2)) = dec_any(map, b, WireType::LengthDelimited, inner, default_of(map, inner)) {
            if b2.remaining() < b.remaining() {
                lemma_packed_extends(map, b2, inner, items.push(v));
                if let Ok((r, _)) = dec_packed(map, b2, inner, items.push(v)) {
                    let a = r->Array_0;
                    assert(a.take(items.len() as int) =~= a.take(items.len() + 1 as int).take(items.len() as int));
                    assert(items.push(v).take(items.len() as int) =~= items);
                }
            }
        }
    }
}

/// Each occurrence of a repeated field adds to its list and keeps what was
/// read before in front: an unpacked occurrence adds exactly one element, a
/// packed run adds its elements after the earlier ones.
pub proof fn law_repeated_field_appends(map: TypeMap, b: BufView, wt: WireType, outer: nat, inner: nat, items: Seq<JsonSpec>)
    ensures
        dec_list(map, b, wt, outer, inner, JsonSpec::Array(items)) matches Ok((v, _)) ==> array_extends(v, items),
        !(wt == WireType::LengthDelimited && is_packable(map.types()[inner as int])) ==> (dec_list(
            map,
            b,
            wt,
            outer,
            inner,
            JsonSpec::Array(items),
        ) matches Ok((v, _)) ==> (v matches JsonSpec::Array(a) && a.len() == items.len() + 1)),
{
    if inner < map.types().len() && wt == WireType::LengthDelimited && is_packable(map.types()[inner as int]) {
        if let Some((len, n)) = spec_length_delimiter(b.window()) {
            if let Some(b2) = b.advance(n).push_limit(len) {
                if b2.remaining() < b.remaining() {
                    lemma_packed_extends(map, b2, inner, items);
                }
            }
        }
    } else if inner < map.types().len() && inner < outer {
        if let Ok((v, b2)) = dec_any(map, b, wt, inner, default_of(map, inner)) {
            assert(items.push(v).take(items.len() as int) =~= items);
        }
    }
}

// ---------------------------------------------------------------------------
// Map entries

/// The entry at `i` has key `k`.
pub open spec fn entry_has_key(entries: Seq<JsonSpec>, i: int, k: Seq<char>) -> bool {
    map_entry(entries[i]) matches Ok((key, _)) && key == k
}

/// Setting the entries of a map into an object: a key takes the value of the
/// last entry with that key, so a later entry replaces an earlier one, and a
/// key that no entry has keeps the member it had.
pub proof fn law_map_last_entry_wins(o: Seq<(Seq<char>, JsonSpec)>, entries: Seq<JsonSpec>, k: Seq<char>)
    ensures
        map_entries(o, entries) matches Ok(r) ==> {
            &&& forall|i: int|
                0 <= i < entries.len() && #[trigger] entry_has_key(entries, i, k) && (forall|j: int|
                    i < j < entries.len() ==> !#[trigger] entry_has_key(entries, j, k)) ==> obj_get(r, k)
                    == Some(map_entry(entries[i])->Ok_0.1)
            &&& (forall|j: int| 0 <= j < entries.len() ==> !#[trigger] entry_has_key(entries, j, k)) ==> obj_get(r, k)
                == obj_get(o, k)
        },
    decreases entries.len(),
{
    if entries.len() > 0 {
        if let Ok((k0, v0)) = map_entry(entries[0]) {
            let o2 = obj_set(o, k0, v0);
            let rest = entries.skip(1);
            law_map_last_entry_wins(o2, rest, k);
            law_obj_set_get(o, k0, v0, k);
            if let Ok(r) = map_entries(o2, rest) {
                assert forall|j: int| 1 <= j < entries.len() implies entry_has_key(entries, j, k) == #[trigger] entry_has_key(rest, j - 1, k) by {
                    assert(rest[j - 1] == entries[j]);
                }
                assert forall|i: int|
                    0 <= i < entries.len() && #[trigger] entry_has_key(entries, i, k) && (forall|j: int|
                        i < j < entries.len() ==> !#[trigger] entry_has_key(entries, j, k)) implies obj_get(r, k)
                    == Some(map_entry(entries[i])->Ok_0.1) by {
                    if i == 0 {
                        assert forall|j: int| 0 <= j < rest.len() implies !#[trigger] entry_has_key(rest, j, k) by {
                            assert(!entry_has_key(entries, j + 1, k));
                        }
                    } else {
                        assert(rest[i - 1] == entries[i]);
                        assert(entry_has_key(rest, i - 1, k));
                        assert forall|j: int| i - 1 < j < rest.len() implies !#[trigger] entry_has_key(rest, j, k) by {
                            assert(!entry_has_key(entries, j + 1, k));
                        }
                    }
                }
                if forall|j: int| 0 <= j < entries.len() ==> !#[trigger] entry_has_key(entries, j, k) {
                    assert(!entry_has_key(entries, 0, k));
                    assert forall|j: int| 0 <= j < rest.len() implies !#[trigger] entry_has_key(rest, j, k) by {
                        assert(!entry_has_key(entries, j + 1, k));
                    }
                }
            }
        }
    }
}

} // verus!
