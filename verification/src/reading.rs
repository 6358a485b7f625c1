//! How the parts of a configuration are read: a message for each message, in its place.
use vstd::prelude::*;

verus! {

use crate::codec::{
    bare, config, config_is_kept, config_message_read, known_files, schema_of, structural_files,
};
use crate::configuring::{
    configurations_keep_their_members, has_member, lists_keep_their_messages, maps_become_entries,
    named_field, entry_accepted, is_entry_of,
};
use crate::determinism::same_place;
use crate::error::Fault;
use crate::json::JsonV;
use crate::message::{field_index, field_index_divides, field_value, DatumV, MessageV};
use crate::normalize::sorted;
use crate::pool::{field_named, json_message, resolved_files};
use crate::schema::{normalized_files, private_name};
use crate::structural::{structural, structural_field};
use crate::types::{entry_types, numbered, FieldKindV, FieldTypeV};
use crate::validate::fields_of;
use crate::writing::{in_order, keeps_its_place, sorting_keeps_places};

/// Whether a member of an object is read into the field of its name, where that holds messages: a
/// list as one message for each of its items, in their order, and an object as one message. Each
/// message is what the item alone is read as.
pub open spec fn part_read(
    files: Seq<MessageV>,
    message: Seq<char>,
    x: (Seq<char>, JsonV),
    m: MessageV,
) -> bool {
    let private = normalized_files(resolved_files(files), true);
    match field_named(files, message, x.0) {
        Some(t) => t.name == x.0 && t.oneof is None ==> match (t.kind, x.1) {
            (FieldKindV::Message(child), JsonV::Array(a)) => (t.list || t.map) && a.len() > 0 ==> (
            field_value(m.fields, t.number) matches Some(DatumV::List(l)) && l.len() == a.len()
                && forall|k: int|
                0 <= k < a.len() ==> (#[trigger] l[k] matches DatumV::Message(c) && json_message(
                    private,
                    private_name(child),
                    a[k],
                ) == Some(c))),
            (FieldKindV::Message(child), JsonV::Object(_)) => !t.list && !t.map && t.presence ==> (
            field_value(m.fields, t.number) matches Some(DatumV::Message(c)) && json_message(
                private,
                private_name(child),
                x.1,
            ) == Some(c)),
            _ => true,
        },
        None => true,
    }
}

/// The same of all members of an object.
pub open spec fn parts_read(
    files: Seq<MessageV>,
    message: Seq<char>,
    v: JsonV,
    m: MessageV,
) -> bool {
    match v {
        JsonV::Object(o) => forall|i: int|
            0 <= i < o.len() ==> part_read(files, message, #[trigger] o[i], m),
        _ => true,
    }
}

/// Whether the parts of a configuration are read in this way.
pub open spec fn config_parts_read(sets: Seq<Seq<u8>>, name: Seq<char>, value: JsonV) -> bool {
    let files = known_files(sets, name);
    match (structural(files, bare(name), value), config_message_read(sets, name, value)) {
        (Ok(j), Ok(m)) => parts_read(files, bare(name), j, m),
        _ => true,
    }
}

/// Whether a field of messages holds one for each of a list: what the item in its place is read as.
pub open spec fn holds_each(
    sets: Seq<Seq<u8>>,
    name: Seq<char>,
    child: Seq<char>,
    a: Seq<JsonV>,
    v: Option<DatumV>,
) -> bool {
    let files = known_files(sets, name);
    v matches Some(DatumV::List(l)) && l.len() == a.len() && forall|k: int|
        0 <= k < a.len() ==> (#[trigger] l[k] matches DatumV::Message(c) && structural(
            files,
            child,
            a[k],
        ) is Ok && json_message(
            structural_files(files),
            private_name(child),
            structural(files, child, a[k])->Ok_0,
        ) == Some(c))
}

/// A repeated field of messages holds one message for each item of the configuration, in their order:
/// each is what the item alone is read as.
pub proof fn repeated_messages_are_read(
    sets: Seq<Seq<u8>>,
    name: Seq<char>,
    o: Seq<(Seq<char>, JsonV)>,
    i: int,
    t: FieldTypeV,
    child: Seq<char>,
    a: Seq<JsonV>,
)
    requires
        schema_of(sets, name) is Ok,
        0 <= i < o.len(),
        o[i].1 == JsonV::Array(a),
        a.len() > 0,
        named_field(known_files(sets, name), bare(name), o[i].0) == Some(t),
        field_named(known_files(sets, name), bare(name), t.name) == Some(t),
        t.list,
        !t.map,
        t.oneof is None,
        t.kind == FieldKindV::Message(child),
        config_parts_read(sets, name, JsonV::Object(o)),
        config_message_read(sets, name, JsonV::Object(o)) is Ok,
    ensures
        holds_each(
            sets,
            name,
            child,
            a,
            field_value(
                config_message_read(sets, name, JsonV::Object(o))->Ok_0.fields,
                t.number,
            ),
        ),
{
    let files = known_files(sets, name);
    let v = JsonV::Object(o);
    let j = structural(files, bare(name), v)->Ok_0;
    let m = config_message_read(sets, name, v)->Ok_0;
    assert(structural(files, bare(name), v) is Ok);
    configurations_keep_their_members(files, bare(name), v);
    assert(has_member(files, bare(name), j, o[i]));
    let k = choose|k: int|
        0 <= k < j->Object_0.len() && (#[trigger] j->Object_0[k]).0 == t.name && structural_field(
            files,
            bare(name),
            o[i].0,
            t,
            o[i].1,
        ) == Ok::<JsonV, Fault>(j->Object_0[k].1);
    lists_keep_their_messages(files, bare(name), o[i].0, t, child, a);
    let b = j->Object_0[k].1->Array_0;
    assert(part_read(files, bare(name), j->Object_0[k], m));
    assert(b.len() == a.len());
    let l = field_value(m.fields, t.number)->Some_0->List_0;
    assert forall|p: int| 0 <= p < a.len() implies (#[trigger] l[p] matches DatumV::Message(c)
        && structural(files, child, a[p]) is Ok && json_message(
        structural_files(files),
        private_name(child),
        structural(files, child, a[p])->Ok_0,
    ) == Some(c)) by {
        assert(structural(files, child, a[p]) == Ok::<JsonV, Fault>(b[p]));
    }
}

/// A repeated field of messages is encoded with one message for each item of the configuration, in
/// their order.
pub proof fn repeated_messages_are_encoded(
    sets: Seq<Seq<u8>>,
    name: Seq<char>,
    o: Seq<(Seq<char>, JsonV)>,
    i: int,
    t: FieldTypeV,
    child: Seq<char>,
    a: Seq<JsonV>,
)
    requires
        schema_of(sets, name) is Ok,
        0 <= i < o.len(),
        o[i].1 == JsonV::Array(a),
        a.len() > 0,
        named_field(known_files(sets, name), bare(name), o[i].0) == Some(t),
        field_named(known_files(sets, name), bare(name), t.name) == Some(t),
        numbered(fields_of(known_files(sets, name), bare(name)), t.number) == Some(t),
        t.list,
        !t.map,
        t.oneof is None,
        t.kind == FieldKindV::Message(child),
        config_parts_read(sets, name, JsonV::Object(o)),
        config_is_kept(sets, name, JsonV::Object(o)),
        config(sets, name, JsonV::Object(o)) is Ok,
    ensures
        ({
            let read = field_value(
                config_message_read(sets, name, JsonV::Object(o))->Ok_0.fields,
                t.number,
            );
            let made = field_value(config(sets, name, JsonV::Object(o))->Ok_0.fields, t.number);
            &&& holds_each(sets, name, child, a, read)
            &&& made matches Some(DatumV::List(k)) && k.len() == a.len() && forall|p: int|
                0 <= p < a.len() ==> in_order(
                    known_files(sets, name),
                    child,
                    read->Some_0->List_0[p],
                    #[trigger] k[p],
                )
        }),
{
    let files = known_files(sets, name);
    let v = JsonV::Object(o);
    let m = config_message_read(sets, name, v)->Ok_0;
    repeated_messages_are_read(sets, name, o, i, t, child, a);
    let f = m.fields;
    let g = sorted(files, bare(name), m).fields;
    assert forall|p: int| 0 <= p < f.len() implies (#[trigger] f[p]).0 == g[p].0 by {}
    same_place(f, g, t.number);
    field_index_divides(f, t.number);
    let p = field_index(f, t.number) as int;
    sorting_keeps_places(files, bare(name), m, p);
    let l = f[p].1->List_0;
    let k = g[p].1->List_0;
    assert(keeps_its_place(files, Some(t), f[p], g[p]));
    assert forall|q: int| 0 <= q < a.len() implies in_order(files, child, l[q], #[trigger] k[q]) by {
        assert(in_order(files, child, l[q], k[q]));
    }
}

/// A map is read as one entry for each of its names, in their order.
pub proof fn maps_are_read(
    sets: Seq<Seq<u8>>,
    name: Seq<char>,
    o: Seq<(Seq<char>, JsonV)>,
    i: int,
    t: FieldTypeV,
    key: FieldTypeV,
    value: FieldTypeV,
    entry: Seq<char>,
    e: Seq<(Seq<char>, JsonV)>,
)
    requires
        schema_of(sets, name) is Ok,
        0 <= i < o.len(),
        o[i].1 == JsonV::Object(e),
        e.len() > 0,
        named_field(known_files(sets, name), bare(name), o[i].0) == Some(t),
        field_named(known_files(sets, name), bare(name), t.name) == Some(t),
        t.map,
        t.oneof is None,
        t.kind == FieldKindV::Message(entry),
        entry_types(known_files(sets, name), t) == Some((key, value)),
        config_parts_read(sets, name, JsonV::Object(o)),
        config_message_read(sets, name, JsonV::Object(o)) is Ok,
    ensures
        field_value(
            config_message_read(sets, name, JsonV::Object(o))->Ok_0.fields,
            t.number,
        ) matches Some(DatumV::List(l)) && l.len() == e.len() && forall|k: int|
            0 <= k < e.len() ==> entry_is_read(sets, name, key, value, entry, e[k], #[trigger] l[k]),
{
    let files = known_files(sets, name);
    let v = JsonV::Object(o);
    let j = structural(files, bare(name), v)->Ok_0;
    let m = config_message_read(sets, name, v)->Ok_0;
    configurations_keep_their_members(files, bare(name), v);
    assert(has_member(files, bare(name), j, o[i]));
    let k = choose|k: int|
        0 <= k < j->Object_0.len() && (#[trigger] j->Object_0[k]).0 == t.name && structural_field(
            files,
            bare(name),
            o[i].0,
            t,
            o[i].1,
        ) == Ok::<JsonV, Fault>(j->Object_0[k].1);
    maps_become_entries(files, bare(name), o[i].0, t, key, value, e);
    let b = j->Object_0[k].1->Array_0;
    assert(part_read(files, bare(name), j->Object_0[k], m));
    let l = field_value(m.fields, t.number)->Some_0->List_0;
    assert forall|p: int| 0 <= p < e.len() implies entry_is_read(
        sets,
        name,
        key,
        value,
        entry,
        e[p],
        #[trigger] l[p],
    ) by {
        assert(is_entry_of(files, key.kind, value.kind, e[p], b[p]));
        assert(entry_accepted(files, key.kind, value.kind, e[p]));
        assert(l[p] matches DatumV::Message(c) && json_message(
            structural_files(files),
            private_name(entry),
            b[p],
        ) == Some(c));
    }
}

/// Whether a value is the message that an entry of a map is read as: an object of its key and its
/// value.
pub open spec fn entry_is_read(
    sets: Seq<Seq<u8>>,
    name: Seq<char>,
    key: FieldTypeV,
    value: FieldTypeV,
    entry: Seq<char>,
    x: (Seq<char>, JsonV),
    v: DatumV,
) -> bool {
    let files = known_files(sets, name);
    exists|j: JsonV| #[trigger]
        is_entry_of(files, key.kind, value.kind, x, j) && (v matches DatumV::Message(c)
            && json_message(structural_files(files), private_name(entry), j) == Some(c))
}

/// A field of one message holds what its configuration alone is read as.
pub proof fn single_messages_are_read(
    sets: Seq<Seq<u8>>,
    name: Seq<char>,
    o: Seq<(Seq<char>, JsonV)>,
    i: int,
    t: FieldTypeV,
    child: Seq<char>,
)
    requires
        schema_of(sets, name) is Ok,
        0 <= i < o.len(),
        o[i].1 is Object,
        named_field(known_files(sets, name), bare(name), o[i].0) == Some(t),
        field_named(known_files(sets, name), bare(name), t.name) == Some(t),
        !t.list,
        !t.map,
        t.presence,
        t.oneof is None,
        t.kind == FieldKindV::Message(child),
        config_parts_read(sets, name, JsonV::Object(o)),
        config_message_read(sets, name, JsonV::Object(o)) is Ok,
    ensures
        structural(known_files(sets, name), child, o[i].1) is Ok,
        field_value(
            config_message_read(sets, name, JsonV::Object(o))->Ok_0.fields,
            t.number,
        ) matches Some(DatumV::Message(c)) && json_message(
            structural_files(known_files(sets, name)),
            private_name(child),
            structural(known_files(sets, name), child, o[i].1)->Ok_0,
        ) == Some(c),
{
    let files = known_files(sets, name);
    let v = JsonV::Object(o);
    let j = structural(files, bare(name), v)->Ok_0;
    let m = config_message_read(sets, name, v)->Ok_0;
    configurations_keep_their_members(files, bare(name), v);
    assert(has_member(files, bare(name), j, o[i]));
    let k = choose|k: int|
        0 <= k < j->Object_0.len() && (#[trigger] j->Object_0[k]).0 == t.name && structural_field(
            files,
            bare(name),
            o[i].0,
            t,
            o[i].1,
        ) == Ok::<JsonV, Fault>(j->Object_0[k].1);
    configurations_keep_their_members(files, child, o[i].1);
    assert(part_read(files, bare(name), j->Object_0[k], m));
}

/// What becomes of a configuration before its rules are checked: it is turned into JSON for the private
/// copy, which is read as the private copy of the type. It is refused where it cannot be turned, where
/// there is no such copy, or where the JSON is not read.
pub proof fn configurations_are_read_by_the_private_copy(
    sets: Seq<Seq<u8>>,
    name: Seq<char>,
    value: JsonV,
)
    requires
        schema_of(sets, name) is Ok,
    ensures
        ({
            let files = known_files(sets, name);
            let private = normalized_files(resolved_files(files), true);
            let hidden = "protolark_internal."@ + bare(name);
            let r = config_message_read(sets, name, value);
            match structural(files, bare(name), value) {
                Err(e) => r == Err::<MessageV, Fault>(e),
                Ok(j) => {
                    &&& crate::pool::resolves(private) && crate::pool::message_type(private, hidden)
                        is Some ==> match json_message(private, hidden, j) {
                        Some(m) => r == Ok::<MessageV, Fault>(m),
                        None => r == Err::<MessageV, Fault>(Fault::Configuration(name)),
                    }
                    &&& r is Ok ==> crate::pool::resolves(private)
                },
            }
        }),
        schema_of(sets, name) == Ok::<Seq<MessageV>, Fault>(known_files(sets, name)),
{
    reveal_strlit("protolark_internal");
    reveal_strlit(".");
    reveal_strlit("protolark_internal.");
    assert("protolark_internal"@ + "."@ =~= "protolark_internal."@);
}

} // verus!
