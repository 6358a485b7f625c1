//! What configurations become for the private copy of a schema, part by part.
use vstd::prelude::*;

verus! {

use crate::error::Fault;
use crate::json::{names, JsonV};
use crate::message::{MessageV, Scalar};
use crate::order::ascending;
use crate::pool::{field_json_named, field_named};
use crate::structural::{
    entry_object, meant_field, member_of, members_are_kept,
    members_fit, structural, structural_entries, structural_field, structural_items, structural_key,
    structural_members, structural_value,
};
use crate::types::{entry_types, FieldKindV, FieldTypeV};

/// A name stands for the field of that name, or else for the one of that JSON name.
pub proof fn names_stand_for_fields(files: Seq<MessageV>, message: Seq<char>, name: Seq<char>)
    ensures
        field_named(files, message, name) is Some ==> meant_field(files, message, name)
            == field_named(files, message, name),
        field_named(files, message, name) is None ==> meant_field(files, message, name)
            == field_json_named(files, message, name),
{
}

/// A list of messages is accepted if, and only if, each of its messages is. It then has as many
/// items as before, and each is what the message in its place becomes.
pub proof fn lists_keep_their_messages(
    files: Seq<MessageV>,
    message: Seq<char>,
    name: Seq<char>,
    t: FieldTypeV,
    child: Seq<char>,
    a: Seq<JsonV>,
)
    requires
        t.list,
        !t.map,
        t.kind == FieldKindV::Message(child),
    ensures
        ({
            let r = structural_field(files, message, name, t, JsonV::Array(a));
            &&& r is Ok <==> forall|i: int|
                0 <= i < a.len() ==> structural(files, child, #[trigger] a[i]) is Ok
            &&& r is Ok ==> r->Ok_0 is Array && r->Ok_0->Array_0.len() == a.len() && forall|i: int|
                0 <= i < a.len() ==> structural(files, child, #[trigger] a[i]) == Ok::<
                    JsonV,
                    Fault,
                >(r->Ok_0->Array_0[i])
        }),
{
    items_keep_their_places(files, child, a, a.len());
}

/// The first messages of a list are accepted if, and only if, each of them is, and then keep their
/// number and their places.
pub proof fn items_keep_their_places(
    files: Seq<MessageV>,
    child: Seq<char>,
    a: Seq<JsonV>,
    n: nat,
)
    requires
        n <= a.len(),
    ensures
        structural_items(files, child, a, n) is Ok <==> forall|i: int|
            0 <= i < n ==> structural(files, child, #[trigger] a[i]) is Ok,
        structural_items(files, child, a, n) is Ok ==> structural_items(
            files,
            child,
            a,
            n,
        )->Ok_0.len() == n && forall|i: int|
            0 <= i < n ==> structural(files, child, #[trigger] a[i]) == Ok::<JsonV, Fault>(
                structural_items(files, child, a, n)->Ok_0[i],
            ),
    decreases n,
{
    if n > 0 {
        items_keep_their_places(files, child, a, (n - 1) as nat);
    }
}

/// A list of messages is refused for what its first message that is refused is refused for.
pub proof fn lists_are_refused_for_a_message(
    files: Seq<MessageV>,
    message: Seq<char>,
    name: Seq<char>,
    t: FieldTypeV,
    child: Seq<char>,
    a: Seq<JsonV>,
    i: int,
)
    requires
        t.list,
        !t.map,
        t.kind == FieldKindV::Message(child),
        0 <= i < a.len(),
        structural(files, child, a[i]) is Err,
        forall|k: int| 0 <= k < i ==> structural(files, child, #[trigger] a[k]) is Ok,
    ensures
        structural_field(files, message, name, t, JsonV::Array(a)) == structural(
            files,
            child,
            a[i],
        ),
{
    items_keep_their_places(files, child, a, i as nat);
    items_stop_at(files, child, a, (i + 1) as nat, a.len());
}

proof fn items_stop_at(files: Seq<MessageV>, child: Seq<char>, a: Seq<JsonV>, k: nat, n: nat)
    requires
        k <= n <= a.len(),
        structural_items(files, child, a, k) is Err,
    ensures
        structural_items(files, child, a, n) == structural_items(files, child, a, k),
    decreases n,
{
    if k < n {
        items_stop_at(files, child, a, k, (n - 1) as nat);
    }
}

/// The value of a field that holds one message is what the message becomes. The value of one that
/// holds no messages stays as it is, and so does null.
pub proof fn single_values_are_kept(
    files: Seq<MessageV>,
    message: Seq<char>,
    name: Seq<char>,
    t: FieldTypeV,
    v: JsonV,
)
    requires
        !t.map,
    ensures
        v is Null ==> structural_field(files, message, name, t, v) == Ok::<JsonV, Fault>(v),
        !(t.kind is Message) ==> structural_field(files, message, name, t, v) == Ok::<
            JsonV,
            Fault,
        >(v),
        t.kind matches FieldKindV::Message(child) ==> (!t.list && !(v is Null) ==> structural_field(
            files,
            message,
            name,
            t,
            v,
        ) == structural(files, child, v)),
        t.list && !(v is Array) ==> structural_field(files, message, name, t, v) == Ok::<
            JsonV,
            Fault,
        >(v),
{
}

/// What the name of an entry becomes where the keys of the map are of this kind: a boolean for the
/// two words of one, and else the text.
pub open spec fn key_reads(kind: FieldKindV, name: Seq<char>, key: JsonV) -> bool {
    if kind matches FieldKindV::Scalar(Scalar::Bool(_)) {
        (name == "true"@ && key == JsonV::Bool(true)) || (name == "false"@ && key == JsonV::Bool(
            false,
        ))
    } else {
        key == JsonV::Text(name)
    }
}

/// Whether JSON is an entry of a map: an object of a key and a value.
pub open spec fn is_entry_of(
    files: Seq<MessageV>,
    key: FieldKindV,
    value: FieldKindV,
    x: (Seq<char>, JsonV),
    entry: JsonV,
) -> bool {
    match entry {
        JsonV::Object(o) => {
            &&& o.len() == 2
            &&& o[0].0 == "key"@ && key_reads(key, x.0, o[0].1)
            &&& o[1].0 == "value"@ && match value {
                FieldKindV::Message(child) => structural(files, child, x.1) == Ok::<JsonV, Fault>(
                    o[1].1,
                ),
                _ => o[1].1 == x.1,
            }
        },
        _ => false,
    }
}

/// A map becomes a list of entries, one for each of its names and in their order: the key is what the
/// name stands for, and the value is what the value becomes. It is accepted if, and only if, no value
/// is null, each name can be a key, and each value is accepted.
pub proof fn maps_become_entries(
    files: Seq<MessageV>,
    message: Seq<char>,
    name: Seq<char>,
    t: FieldTypeV,
    key: FieldTypeV,
    value: FieldTypeV,
    o: Seq<(Seq<char>, JsonV)>,
)
    requires
        t.map,
        entry_types(files, t) == Some((key, value)),
    ensures
        ({
            let r = structural_field(files, message, name, t, JsonV::Object(o));
            &&& r is Ok <==> forall|i: int|
                0 <= i < o.len() ==> entry_accepted(files, key.kind, value.kind, #[trigger] o[i])
            &&& r is Ok ==> r->Ok_0 is Array && r->Ok_0->Array_0.len() == o.len() && forall|i: int|
                0 <= i < o.len() ==> is_entry_of(
                    files,
                    key.kind,
                    value.kind,
                    #[trigger] o[i],
                    r->Ok_0->Array_0[i],
                )
        }),
{
    entries_are_accepted(files, message, name, key.kind, value.kind, o, o.len());
}

/// Whether an entry of a map is accepted.
pub open spec fn entry_accepted(
    files: Seq<MessageV>,
    key: FieldKindV,
    value: FieldKindV,
    x: (Seq<char>, JsonV),
) -> bool {
    &&& !(x.1 is Null)
    &&& (key matches FieldKindV::Scalar(Scalar::Bool(_))) ==> x.0 == "true"@ || x.0 == "false"@
    &&& value matches FieldKindV::Message(child) ==> structural(files, child, x.1) is Ok
}

proof fn entries_are_accepted(
    files: Seq<MessageV>,
    message: Seq<char>,
    name: Seq<char>,
    key: FieldKindV,
    value: FieldKindV,
    o: Seq<(Seq<char>, JsonV)>,
    n: nat,
)
    requires
        n <= o.len(),
    ensures
        ({
            let r = structural_entries(files, message, name, key, value, o, n);
            &&& r is Ok <==> forall|i: int|
                0 <= i < n ==> entry_accepted(files, key, value, #[trigger] o[i])
            &&& r is Ok ==> r->Ok_0.len() == n && forall|i: int|
                0 <= i < n ==> is_entry_of(files, key, value, #[trigger] o[i], r->Ok_0[i])
        }),
    decreases n,
{
    if n > 0 {
        let m = (n - 1) as nat;
        entries_are_accepted(files, message, name, key, value, o, m);
        let x = o[n - 1];
        let r = structural_entries(files, message, name, key, value, o, n);
        if r is Ok {
            let k = structural_key(key, x.0)->Ok_0;
            let v = structural_value(files, value, x.1)->Ok_0;
            assert(r->Ok_0[n - 1] == entry_object(k, v));
            assert(is_entry_of(files, key, value, x, entry_object(k, v)));
            assert(entry_accepted(files, key, value, x));
            let before = structural_entries(files, message, name, key, value, o, m)->Ok_0;
            assert forall|i: int| 0 <= i < n implies is_entry_of(
                files,
                key,
                value,
                #[trigger] o[i],
                r->Ok_0[i],
            ) by {
                if i < m {
                    assert(r->Ok_0[i] == before[i]);
                }
            }
        }
    }
}

/// What is no object is no map, and a map with a null value is refused under the name of the value.
pub proof fn why_maps_are_refused(
    files: Seq<MessageV>,
    message: Seq<char>,
    name: Seq<char>,
    t: FieldTypeV,
    key: FieldTypeV,
    value: FieldTypeV,
    v: JsonV,
    i: int,
)
    requires
        t.map,
        entry_types(files, t) == Some((key, value)),
    ensures
        !(v is Null) && !(v is Object) ==> structural_field(files, message, name, t, v) == Err::<
            JsonV,
            Fault,
        >(Fault::NotAMap(message, name)),
        v matches JsonV::Object(o) ==> (0 <= i < o.len() && o[i].1 is Null && (forall|k: int|
            0 <= k < i ==> entry_accepted(files, key.kind, value.kind, #[trigger] o[k]))
            ==> structural_field(files, message, name, t, v) == Err::<JsonV, Fault>(
            Fault::NullEntry(message, name, o[i].0),
        )),
{
    if let JsonV::Object(o) = v {
        if 0 <= i < o.len() && o[i].1 is Null && (forall|k: int|
            0 <= k < i ==> entry_accepted(files, key.kind, value.kind, #[trigger] o[k])) {
            entries_are_accepted(files, message, name, key.kind, value.kind, o, i as nat);
            entries_stop_at(
                files,
                message,
                name,
                key.kind,
                value.kind,
                o,
                (i + 1) as nat,
                o.len(),
            );
        }
    }
}

proof fn entries_stop_at(
    files: Seq<MessageV>,
    message: Seq<char>,
    name: Seq<char>,
    key: FieldKindV,
    value: FieldKindV,
    o: Seq<(Seq<char>, JsonV)>,
    k: nat,
    n: nat,
)
    requires
        k <= n <= o.len(),
        structural_entries(files, message, name, key, value, o, k) is Err,
    ensures
        structural_entries(files, message, name, key, value, o, n) == structural_entries(
            files,
            message,
            name,
            key,
            value,
            o,
            k,
        ),
    decreases n,
{
    if k < n {
        entries_stop_at(files, message, name, key, value, o, k, (n - 1) as nat);
    }
}

/// The field that a name stands for.
pub open spec fn named_field(files: Seq<MessageV>, message: Seq<char>, name: Seq<char>) -> Option<
    FieldTypeV,
> {
    if field_named(files, message, name) is Some {
        field_named(files, message, name)
    } else {
        field_json_named(files, message, name)
    }
}

/// A configuration is accepted if, and only if, each of its names stands for a field, no two for one
/// of the same name, and each value is accepted for its field. It then has as many members as before:
/// under the name of the field, what the value becomes. What is no object stays as it is.
pub proof fn configurations_keep_their_members(files: Seq<MessageV>, message: Seq<char>, v: JsonV)
    ensures
        !(v is Object) ==> structural(files, message, v) == Ok::<JsonV, Fault>(v),
        v matches JsonV::Object(o) ==> {
            let r = structural(files, message, v);
            &&& r is Ok <==> (forall|i: int|
                0 <= i < o.len() ==> (named_field(
                    files,
                    message,
                    (#[trigger] o[i]).0,
                ) matches Some(t) && structural_field(files, message, o[i].0, t, o[i].1) is Ok)) && (
            forall|i: int, j: int|
                0 <= i < j < o.len() ==> named_field(files, message, (#[trigger] o[i]).0)->Some_0.name
                    != named_field(files, message, (#[trigger] o[j]).0)->Some_0.name)
            &&& r is Ok ==> r->Ok_0 is Object && r->Ok_0->Object_0.len() == o.len() && forall|
                i: int,
            |
                0 <= i < o.len() ==> has_member(files, message, r->Ok_0, #[trigger] o[i])
        },
{
    members_are_kept(files, message, v);
    if let JsonV::Object(o) = v {
        let r = structural(files, message, v);
        let fit = (forall|i: int|
            0 <= i < o.len() ==> (named_field(files, message, (#[trigger] o[i]).0) matches Some(t)
                && structural_field(files, message, o[i].0, t, o[i].1) is Ok)) && (forall|
            i: int,
            j: int,
        |
            0 <= i < j < o.len() ==> named_field(files, message, (#[trigger] o[i]).0)->Some_0.name
                != named_field(files, message, (#[trigger] o[j]).0)->Some_0.name);
        assert forall|i: int| 0 <= i < o.len() implies meant_field(
            files,
            message,
            (#[trigger] o[i]).0,
        ) == named_field(files, message, o[i].0) by {}
        if members_fit(files, message, o, o.len()) {
            assert forall|i: int, j: int| 0 <= i < j < o.len() implies named_field(
                files,
                message,
                (#[trigger] o[i]).0,
            )->Some_0.name != named_field(files, message, (#[trigger] o[j]).0)->Some_0.name by {
                assert(meant_field(files, message, o[i].0)->Some_0.name != meant_field(
                    files,
                    message,
                    o[j].0,
                )->Some_0.name);
            }
            assert(fit);
        }
        if fit {
            assert forall|i: int| 0 <= i < o.len() implies match meant_field(
                files,
                message,
                (#[trigger] o[i]).0,
            ) {
                Some(t) => structural_field(files, message, o[i].0, t, o[i].1) is Ok,
                None => false,
            } by {}
            assert forall|i: int, j: int| 0 <= i < j < o.len() implies meant_field(
                files,
                message,
                (#[trigger] o[i]).0,
            )->Some_0.name != meant_field(files, message, (#[trigger] o[j]).0)->Some_0.name by {
                assert(named_field(files, message, o[i].0)->Some_0.name != named_field(
                    files,
                    message,
                    o[j].0,
                )->Some_0.name);
            }
            assert(members_fit(files, message, o, o.len()));
        }
        if r is Ok {
            let p = r->Ok_0->Object_0;
            assert forall|i: int| 0 <= i < o.len() implies has_member(
                files,
                message,
                r->Ok_0,
                #[trigger] o[i],
            ) by {
                let x = member_of(files, message, o[i]);
                assert(p.contains(x));
                let k = choose|k: int| 0 <= k < p.len() && p[k] == x;
                assert(p[k].0 == named_field(files, message, o[i].0)->Some_0.name);
            }
        }
    }
}

/// Whether an object has what a member of a configuration becomes.
pub open spec fn has_member(
    files: Seq<MessageV>,
    message: Seq<char>,
    r: JsonV,
    x: (Seq<char>, JsonV),
) -> bool {
    exists|k: int|
        0 <= k < r->Object_0.len() && named_field(files, message, x.0) is Some && (
        #[trigger] r->Object_0[k]).0 == named_field(files, message, x.0)->Some_0.name
            && structural_field(
            files,
            message,
            x.0,
            named_field(files, message, x.0)->Some_0,
            x.1,
        ) == Ok::<JsonV, Fault>(r->Object_0[k].1)
}

/// What a configuration is refused for, all of whose members but the last are accepted: an unknown
/// name, what its value is refused for, or a field that was named already.
pub proof fn why_configurations_are_refused(
    files: Seq<MessageV>,
    message: Seq<char>,
    o: Seq<(Seq<char>, JsonV)>,
    last: (Seq<char>, JsonV),
)
    requires
        structural(files, message, JsonV::Object(o)) is Ok,
    ensures
        ({
            let r = structural(files, message, JsonV::Object(o.push(last)));
            let f = named_field(files, message, last.0);
            &&& f is None ==> r == Err::<JsonV, Fault>(Fault::UnknownField(message, last.0))
            &&& f is Some ==> {
                let t = f->Some_0;
                let x = structural_field(files, message, last.0, t, last.1);
                &&& x is Err ==> r == x
                &&& x is Ok && (exists|i: int|
                    0 <= i < o.len() && named_field(
                        files,
                        message,
                        (#[trigger] o[i]).0,
                    )->Some_0.name == t.name) ==> r == Err::<JsonV, Fault>(
                    Fault::DuplicateField(message, t.name),
                )
            }
        }),
{
    let p = o.push(last);
    let n = o.len();
    first_members_are_the_same(files, message, o, last, n);
    configurations_keep_their_members(files, message, JsonV::Object(o));
    configurations_keep_their_members(files, message, JsonV::Object(p));
    let done = structural_members(files, message, o, n)->Ok_0;
    assert(structural_members(files, message, p, n) == structural_members(files, message, o, n));
    assert(p[n as int] == last);
    if let Some(t) = named_field(files, message, last.0) {
        if exists|i: int|
            0 <= i < o.len() && named_field(files, message, (#[trigger] o[i]).0)->Some_0.name
                == t.name {
            let i = choose|i: int|
                0 <= i < o.len() && named_field(files, message, (#[trigger] o[i]).0)->Some_0.name
                    == t.name;
            assert(has_member(files, message, JsonV::Object(done), o[i]));
            let k = choose|k: int|
                0 <= k < done.len() && (#[trigger] JsonV::Object(done)->Object_0[k]).0
                    == named_field(files, message, o[i].0)->Some_0.name;
            assert(names(done)[k] == t.name);
        }
    }
}

proof fn first_members_are_the_same(
    files: Seq<MessageV>,
    message: Seq<char>,
    o: Seq<(Seq<char>, JsonV)>,
    last: (Seq<char>, JsonV),
    n: nat,
)
    requires
        n <= o.len(),
    ensures
        structural_members(files, message, o.push(last), n) == structural_members(
            files,
            message,
            o,
            n,
        ),
    decreases n,
{
    if n > 0 {
        first_members_are_the_same(files, message, o, last, (n - 1) as nat);
        assert(o.push(last)[n - 1] == o[n - 1]);
    }
}

/// The members of what a configuration becomes are in ascending order of their names, as those of
/// every object are.
pub proof fn members_are_in_order(files: Seq<MessageV>, message: Seq<char>, o: Seq<(Seq<char>, JsonV)>)
    requires
        structural(files, message, JsonV::Object(o)) is Ok,
    ensures
        structural(files, message, JsonV::Object(o))->Ok_0 is Object,
        ascending(names(structural(files, message, JsonV::Object(o))->Ok_0->Object_0)),
{
    first_members_are_in_order(files, message, o, o.len());
}

proof fn first_members_are_in_order(
    files: Seq<MessageV>,
    message: Seq<char>,
    o: Seq<(Seq<char>, JsonV)>,
    n: nat,
)
    requires
        n <= o.len(),
        structural_members(files, message, o, n) is Ok,
    ensures
        ascending(names(structural_members(files, message, o, n)->Ok_0)),
    decreases n,
{
    let r = structural_members(files, message, o, n)->Ok_0;
    if n > 0 {
        first_members_are_in_order(files, message, o, (n - 1) as nat);
        let done = structural_members(files, message, o, (n - 1) as nat)->Ok_0;
        let name = meant_field(files, message, o[n - 1].0)->Some_0.name;
        crate::order::ascending_insert(names(done), name);
        crate::order::slot_divides(names(done), name);
        assert(names(r) =~= names(done).insert(
            crate::order::slot(names(done), name) as int,
            name,
        ));
    } else {
        assert(names(r) =~= Seq::empty());
    }
}

} // verus!
