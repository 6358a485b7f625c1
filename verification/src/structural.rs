//! Structural configurations: JSON whose objects hold the declared fields of messages, well-known
//! types as well, turned into JSON for the private copy of the schema.
use crate::error::CodecError;
use crate::json::{put_name, Json};
use crate::message::Scalar;
use crate::pool::{field_by_json_name, field_by_name, find_type};
use crate::text::text_eq;
use crate::types::{find_numbered, FieldKind, FieldType};
use prost_reflect::DescriptorPool;
use vstd::prelude::*;

verus! {

use crate::error::Fault;
use crate::json::{
    array_view, array_views, names, object_view, object_views, put, put_has, JsonV,
};
use crate::message::MessageV;
use crate::order::{ascending, slot, slot_divides};
use crate::pool::{field_json_named, field_named, pool_files};
use crate::text::text_less;
use crate::types::{entry_types, FieldKindV, FieldTypeV};

/// The field that a name in a configuration stands for: the one of that name, or else the one of
/// that JSON name.
pub open spec fn meant_field(files: Seq<MessageV>, message: Seq<char>, name: Seq<char>) -> Option<
    FieldTypeV,
> {
    match field_named(files, message, name) {
        Some(t) => Some(t),
        None => field_json_named(files, message, name),
    }
}

/// The configuration of a message, for the private copy of the schema.
pub open spec fn structural(files: Seq<MessageV>, message: Seq<char>, v: JsonV) -> Result<
    JsonV,
    Fault,
>
    decreases v, 0nat,
{
    match v {
        JsonV::Object(o) => match structural_members(files, message, o, o.len()) {
            Ok(r) => Ok(JsonV::Object(r)),
            Err(e) => Err(e),
        },
        _ => Ok(v),
    }
}

/// The first `n` members of the configuration of a message.
pub open spec fn structural_members(
    files: Seq<MessageV>,
    message: Seq<char>,
    o: Seq<(Seq<char>, JsonV)>,
    n: nat,
) -> Result<Seq<(Seq<char>, JsonV)>, Fault>
    decreases o, n,
{
    if n == 0 || n > o.len() {
        Ok(Seq::empty())
    } else {
        match structural_members(files, message, o, (n - 1) as nat) {
            Err(e) => Err(e),
            Ok(done) => match meant_field(files, message, o[n - 1].0) {
                None => Err(Fault::UnknownField(message, o[n - 1].0)),
                Some(t) => match structural_field(files, message, o[n - 1].0, t, o[n - 1].1) {
                    Err(e) => Err(e),
                    Ok(x) => if names(done).contains(t.name) {
                        Err(Fault::DuplicateField(message, t.name))
                    } else {
                        Ok(put(done, t.name, x))
                    },
                },
            },
        }
    }
}

/// The configuration of one field.
pub open spec fn structural_field(
    files: Seq<MessageV>,
    message: Seq<char>,
    name: Seq<char>,
    t: FieldTypeV,
    v: JsonV,
) -> Result<JsonV, Fault>
    decreases v, 1nat,
{
    if v is Null {
        Ok(v)
    } else if t.map {
        match (v, entry_types(files, t)) {
            (JsonV::Object(o), Some((key, value))) => match structural_entries(
                files,
                message,
                name,
                key.kind,
                value.kind,
                o,
                o.len(),
            ) {
                Ok(r) => Ok(JsonV::Array(r)),
                Err(e) => Err(e),
            },
            (JsonV::Object(_), None) => Err(Fault::Unfit),
            _ => Err(Fault::NotAMap(message, name)),
        }
    } else {
        match (t.kind, v) {
            (FieldKindV::Message(child), JsonV::Array(a)) => if t.list {
                match structural_items(files, child, a, a.len()) {
                    Ok(r) => Ok(JsonV::Array(r)),
                    Err(e) => Err(e),
                }
            } else {
                structural(files, child, v)
            },
            (FieldKindV::Message(child), _) => if t.list {
                Ok(v)
            } else {
                structural(files, child, v)
            },
            _ => Ok(v),
        }
    }
}

/// The configurations of the first `n` messages of a list.
pub open spec fn structural_items(
    files: Seq<MessageV>,
    child: Seq<char>,
    a: Seq<JsonV>,
    n: nat,
) -> Result<Seq<JsonV>, Fault>
    decreases a, n,
{
    if n == 0 || n > a.len() {
        Ok(Seq::empty())
    } else {
        match structural_items(files, child, a, (n - 1) as nat) {
            Err(e) => Err(e),
            Ok(done) => match structural(files, child, a[n - 1]) {
                Err(e) => Err(e),
                Ok(x) => Ok(done.push(x)),
            },
        }
    }
}

/// The key of an entry, from the name that stands for it in an object.
pub open spec fn structural_key(kind: FieldKindV, name: Seq<char>) -> Result<JsonV, Fault> {
    match kind {
        FieldKindV::Scalar(Scalar::Bool(_)) => if name == "true"@ {
            Ok(JsonV::Bool(true))
        } else if name == "false"@ {
            Ok(JsonV::Bool(false))
        } else {
            Err(Fault::BoolKey)
        },
        _ => Ok(JsonV::Text(name)),
    }
}

/// The value of an entry.
pub open spec fn structural_value(files: Seq<MessageV>, kind: FieldKindV, v: JsonV) -> Result<
    JsonV,
    Fault,
>
    decreases v, 1nat,
{
    match kind {
        FieldKindV::Message(child) => structural(files, child, v),
        _ => Ok(v),
    }
}

/// An entry as an object.
pub open spec fn entry_object(key: JsonV, value: JsonV) -> JsonV {
    JsonV::Object(seq![("key"@, key), ("value"@, value)])
}

/// The first `n` entries of a map as a list of objects.
pub open spec fn structural_entries(
    files: Seq<MessageV>,
    message: Seq<char>,
    name: Seq<char>,
    key: FieldKindV,
    value: FieldKindV,
    o: Seq<(Seq<char>, JsonV)>,
    n: nat,
) -> Result<Seq<JsonV>, Fault>
    decreases o, n,
{
    if n == 0 || n > o.len() {
        Ok(Seq::empty())
    } else {
        match structural_entries(files, message, name, key, value, o, (n - 1) as nat) {
            Err(e) => Err(e),
            Ok(done) => if o[n - 1].1 is Null {
                Err(Fault::NullEntry(message, name, o[n - 1].0))
            } else {
                match structural_key(key, o[n - 1].0) {
                    Err(e) => Err(e),
                    Ok(k) => match structural_value(files, value, o[n - 1].1) {
                        Err(e) => Err(e),
                        Ok(x) => Ok(done.push(entry_object(k, x))),
                    },
                }
            },
        }
    }
}

/// Whether two results are the same: the value, or which error it is.
pub open spec fn same_json(r: Result<Json, CodecError>, want: Result<JsonV, Fault>) -> bool {
    match (r, want) {
        (Ok(j), Ok(v)) => j@ == v,
        (Err(e), Err(f)) => e@ == f,
        _ => false,
    }
}

proof fn members_stop(
    files: Seq<MessageV>,
    message: Seq<char>,
    o: Seq<(Seq<char>, JsonV)>,
    k: nat,
    n: nat,
)
    requires
        k <= n <= o.len(),
        structural_members(files, message, o, k) is Err,
    ensures
        structural_members(files, message, o, n) == structural_members(files, message, o, k),
    decreases n,
{
    if k < n {
        members_stop(files, message, o, k, (n - 1) as nat);
    }
}

proof fn items_stop(files: Seq<MessageV>, child: Seq<char>, a: Seq<JsonV>, k: nat, n: nat)
    requires
        k <= n <= a.len(),
        structural_items(files, child, a, k) is Err,
    ensures
        structural_items(files, child, a, n) == structural_items(files, child, a, k),
    decreases n,
{
    if k < n {
        items_stop(files, child, a, k, (n - 1) as nat);
    }
}

proof fn entries_stop(
    files: Seq<MessageV>,
    message: Seq<char>,
    name: Seq<char>,
    key: FieldKindV,
    value: FieldKindV,
    o: Seq<(Seq<char>, JsonV)>,
    k: nat,
    n: nat,
)
    requires
        k <= n <= o.len(),
        structural_entries(files, message, name, key, value, o, k) is Err,
    ensures
        structural_entries(files, message, name, key, value, o, n) == structural_entries(
            files,
            message,
            name,
            key,
            value,
            o,
            k,
        ),
    decreases n,
{
    if k < n {
        entries_stop(files, message, name, key, value, o, k, (n - 1) as nat);
    }
}

/// Turns the configuration of a message into JSON for the private copy of the schema.
pub fn structural_json(pool: &DescriptorPool, message: &str, value: &Json) -> (r: Result<
    Json,
    CodecError,
>)
    requires
        value@.ordered(),
    ensures
        same_json(r, structural(pool_files(*pool), message@, value@)),
        r matches Ok(j) ==> j@.ordered(),
    decreases value, 0nat,
{
    let ghost files = pool_files(*pool);
    let object = match value {
        Json::Object(object) => object,
        other => {
            return Ok(other.copy());
        },
    };
    proof {
        object_views(*value);
    }
    let ghost all = object_view(object@);
    let mut out: Vec<(String, Json)> = Vec::new();
    assert(object_view(out@) =~= Seq::empty());
    let mut i: usize = 0;
    while i < object.len()
        invariant
            decreases_to!(value => object),
            i <= object@.len(),
            files == pool_files(*pool),
            all == object_view(object@),
            value@ == JsonV::Object(all),
            value@.ordered(),
            ascending(names(object_view(out@))),
            forall|k: int| 0 <= k < out@.len() ==> (#[trigger] out@[k]).1@.ordered(),
            structural_members(files, message@, all, i as nat) == Ok::<
                Seq<(Seq<char>, JsonV)>,
                Fault,
            >(object_view(out@)),
        decreases object@.len() - i,
    {
        let name = &object[i].0;
        assert(all[i as int] == (name@, object@[i as int].1@));
        assert(all[i as int].1.ordered());
        let found = match field_by_name(pool, message, name.as_str()) {
            Some(t) => Some(t),
            None => field_by_json_name(pool, message, name.as_str()),
        };
        let t = match found {
            Some(t) => t,
            None => {
                proof {
                    members_stop(files, message@, all, (i + 1) as nat, all.len());
                }
                return Err(CodecError::UnknownField(message.to_owned(), name.clone()));
            },
        };
        assert(meant_field(files, message@, name@) == Some(t@));
        let item = match structural_member(pool, message, name.as_str(), &t, &object[i].1) {
            Ok(item) => item,
            Err(e) => {
                proof {
                    members_stop(files, message@, all, (i + 1) as nat, all.len());
                }
                return Err(e);
            },
        };
        let ghost before = out@;
        let ghost iv = item@;
        let field = t.name.clone();
        if !put_name(&mut out, field, item) {
            proof {
                members_stop(files, message@, all, (i + 1) as nat, all.len());
            }
            return Err(CodecError::DuplicateField(message.to_owned(), t.name));
        }
        proof {
            let old_view = object_view(before);
            let new_view = object_view(out@);
            crate::order::slot_divides(names(old_view), t.name@);
            let p = crate::order::slot(names(old_view), t.name@) as int;
            assert forall|k: int| 0 <= k < out@.len() implies (#[trigger] out@[k]).1@.ordered() by {
                assert(new_view[k].1 == out@[k].1@);
                if k < p {
                    assert(new_view[k] == old_view[k]);
                    assert(before[k].1@.ordered());
                } else if k == p {
                    assert(new_view[k].1 == iv);
                } else {
                    assert(new_view[k] == old_view[k - 1]);
                    assert(before[k - 1].1@.ordered());
                }
            }
        }
        i += 1;
    }
    let r = Json::Object(out);
    proof {
        object_views(r);
        assert forall|k: int| 0 <= k < r@->Object_0.len() implies (
        #[trigger] r@->Object_0[k]).1.ordered() by {
            assert(r@->Object_0[k].1 == r->Object_0@[k].1@);
        }
    }
    Ok(r)
}

fn structural_member(
    pool: &DescriptorPool,
    message: &str,
    name: &str,
    t: &FieldType,
    value: &Json,
) -> (r: Result<Json, CodecError>)
    requires
        value@.ordered(),
    ensures
        same_json(r, structural_field(pool_files(*pool), message@, name@, t@, value@)),
        r matches Ok(j) ==> j@.ordered(),
    decreases value, 1nat,
{
    let ghost files = pool_files(*pool);
    if let Json::Null = value {
        return Ok(Json::Null);
    }
    if t.map {
        let object = match value {
            Json::Object(object) => object,
            _ => {
                return Err(CodecError::NotAMap(message.to_owned(), name.to_owned()));
            },
        };
        proof {
            object_views(*value);
            assert forall|k: int| 0 <= k < object@.len() implies (
            #[trigger] object@[k]).1@.ordered() by {
                assert(value@->Object_0[k].1.ordered());
            }
        }
        let entry = match &t.kind {
            FieldKind::Message(n) => find_type(pool, n.as_str()),
            _ => None,
        };
        let entry = match entry {
            Some(entry) => entry,
            None => {
                return Err(CodecError::Unfit);
            },
        };
        match (find_numbered(&entry.fields, 1), find_numbered(&entry.fields, 2)) {
            (Some(key), Some(value_type)) => {
                assert(entry_types(files, t@) == Some((key@, value_type@)));
                structural_map(pool, message, name, &key.kind, &value_type.kind, object)
            },
            _ => Err(CodecError::Unfit),
        }
    } else {
        match &t.kind {
            FieldKind::Message(child) => if t.list {
                match value {
                    Json::Array(items) => {
                        proof {
                            array_views(*value);
                            assert forall|k: int| 0 <= k < items@.len() implies (
                            #[trigger] items@[k])@.ordered() by {
                                assert(value@->Array_0[k].ordered());
                            }
                        }
                        structural_list(pool, child.as_str(), items)
                    },
                    other => Ok(other.copy()),
                }
            } else {
                structural_json(pool, child.as_str(), value)
            },
            _ => Ok(value.copy()),
        }
    }
}

fn structural_list(pool: &DescriptorPool, child: &str, items: &Vec<Json>) -> (r: Result<
    Json,
    CodecError,
>)
    requires
        forall|k: int| 0 <= k < items@.len() ==> (#[trigger] items@[k])@.ordered(),
    ensures
        match (r, structural_items(pool_files(*pool), child@, array_view(items@), items@.len())) {
            (Ok(j), Ok(a)) => j@ == JsonV::Array(a) && j@.ordered(),
            (Err(e), Err(f)) => e@ == f,
            _ => false,
        },
    decreases items, 0nat,
{
    let ghost files = pool_files(*pool);
    let ghost all = array_view(items@);
    let mut out: Vec<Json> = Vec::new();
    assert(array_view(out@) =~= Seq::empty());
    let mut i: usize = 0;
    while i < items.len()
        invariant
            i <= items@.len(),
            files == pool_files(*pool),
            all == array_view(items@),
            forall|k: int| 0 <= k < items@.len() ==> (#[trigger] items@[k])@.ordered(),
            forall|k: int| 0 <= k < out@.len() ==> (#[trigger] out@[k])@.ordered(),
            structural_items(files, child@, all, i as nat) == Ok::<Seq<JsonV>, Fault>(
                array_view(out@),
            ),
        decreases items@.len() - i,
    {
        assert(all[i as int] == items@[i as int]@);
        let item = match structural_json(pool, child, &items[i]) {
            Ok(item) => item,
            Err(e) => {
                proof {
                    items_stop(files, child@, all, (i + 1) as nat, all.len());
                }
                return Err(e);
            },
        };
        let ghost before = array_view(out@);
        let ghost iv = item@;
        out.push(item);
        assert(array_view(out@) =~= before.push(iv));
        i += 1;
    }
    let r = Json::Array(out);
    proof {
        array_views(r);
        assert forall|k: int| 0 <= k < r@->Array_0.len() implies (
        #[trigger] r@->Array_0[k]).ordered() by {
            assert(r@->Array_0[k] == r->Array_0@[k]@);
        }
    }
    Ok(r)
}

fn key_json(kind: &FieldKind, name: &str) -> (r: Result<Json, CodecError>)
    ensures
        same_json(r, structural_key(kind@, name@)),
        r matches Ok(j) ==> j@.ordered(),
{
    match kind {
        FieldKind::Scalar(Scalar::Bool(_)) => if text_eq(name, "true") {
            Ok(Json::Bool(true))
        } else if text_eq(name, "false") {
            Ok(Json::Bool(false))
        } else {
            Err(CodecError::BoolKey("provided string was not `true` or `false`".to_owned()))
        },
        _ => Ok(Json::Text(name.to_owned())),
    }
}

fn entry_json(key: Json, value: Json) -> (r: Json)
    requires
        key@.ordered(),
        value@.ordered(),
    ensures
        r@ == entry_object(key@, value@),
        r@.ordered(),
{
    let ghost kv = key@;
    let ghost vv = value@;
    let mut o: Vec<(String, Json)> = Vec::new();
    o.push(("key".to_owned(), key));
    o.push(("value".to_owned(), value));
    let r = Json::Object(o);
    proof {
        object_views(r);
        assert(r@->Object_0 =~= seq![("key"@, kv), ("value"@, vv)]);
        reveal_strlit("key");
        reveal_strlit("value");
        assert(text_less("key"@, "value"@));
    }
    r
}

fn structural_map(
    pool: &DescriptorPool,
    message: &str,
    name: &str,
    key: &FieldKind,
    value: &FieldKind,
    object: &Vec<(String, Json)>,
) -> (r: Result<Json, CodecError>)
    requires
        forall|k: int| 0 <= k < object@.len() ==> (#[trigger] object@[k]).1@.ordered(),
    ensures
        match (
            r,
            structural_entries(
                pool_files(*pool),
                message@,
                name@,
                key@,
                value@,
                object_view(object@),
                object@.len(),
            ),
        ) {
            (Ok(j), Ok(a)) => j@ == JsonV::Array(a) && j@.ordered(),
            (Err(e), Err(f)) => e@ == f,
            _ => false,
        },
    decreases object, 0nat,
{
    let ghost files = pool_files(*pool);
    let ghost all = object_view(object@);
    let mut out: Vec<Json> = Vec::new();
    assert(array_view(out@) =~= Seq::empty());
    let mut i: usize = 0;
    while i < object.len()
        invariant
            i <= object@.len(),
            files == pool_files(*pool),
            all == object_view(object@),
            forall|k: int| 0 <= k < object@.len() ==> (#[trigger] object@[k]).1@.ordered(),
            forall|k: int| 0 <= k < out@.len() ==> (#[trigger] out@[k])@.ordered(),
            structural_entries(files, message@, name@, key@, value@, all, i as nat) == Ok::<
                Seq<JsonV>,
                Fault,
            >(array_view(out@)),
        decreases object@.len() - i,
    {
        let ghost n = (i + 1) as nat;
        assert(all[i as int] == (object@[i as int].0@, object@[i as int].1@));
        proof {
            if structural_entries(files, message@, name@, key@, value@, all, n) is Err {
                entries_stop(files, message@, name@, key@, value@, all, n, all.len());
            }
        }
        if let Json::Null = &object[i].1 {
            return Err(
                CodecError::NullEntry(message.to_owned(), name.to_owned(), object[i].0.clone()),
            );
        }
        let k = match key_json(key, object[i].0.as_str()) {
            Ok(k) => k,
            Err(e) => {
                return Err(e);
            },
        };
        let item = match value {
            FieldKind::Message(child) => structural_json(pool, child.as_str(), &object[i].1),
            _ => Ok(object[i].1.copy()),
        };
        assert(same_json(item, structural_value(files, value@, all[i as int].1)));
        let item = match item {
            Ok(item) => item,
            Err(e) => {
                return Err(e);
            },
        };
        let ghost before = array_view(out@);
        let entry = entry_json(k, item);
        let ghost ev = entry@;
        out.push(entry);
        assert(array_view(out@) =~= before.push(ev));
        i += 1;
    }
    let r = Json::Array(out);
    proof {
        array_views(r);
        assert forall|k: int| 0 <= k < r@->Array_0.len() implies (
        #[trigger] r@->Array_0[k]).ordered() by {
            assert(r@->Array_0[k] == r->Array_0@[k]@);
        }
    }
    Ok(r)
}

/// Whether the first `n` members of a configuration name distinct fields of the message, with
/// values that those can have.
pub open spec fn members_fit(
    files: Seq<MessageV>,
    message: Seq<char>,
    o: Seq<(Seq<char>, JsonV)>,
    n: nat,
) -> bool {
    &&& forall|i: int|
        0 <= i < n ==> match meant_field(files, message, (#[trigger] o[i]).0) {
            Some(t) => structural_field(files, message, o[i].0, t, o[i].1) is Ok,
            None => false,
        }
    &&& forall|i: int, j: int|
        0 <= i < j < n ==> meant_field(files, message, (#[trigger] o[i]).0)->Some_0.name
            != meant_field(files, message, (#[trigger] o[j]).0)->Some_0.name
}

/// The member that a member of a configuration becomes: the value under the name of the field.
pub open spec fn member_of(
    files: Seq<MessageV>,
    message: Seq<char>,
    x: (Seq<char>, JsonV),
) -> (Seq<char>, JsonV) {
    let t = meant_field(files, message, x.0)->Some_0;
    (t.name, structural_field(files, message, x.0, t, x.1)->Ok_0)
}

/// A configuration is accepted if, and only if, it names only fields that the message has, each of
/// them once, with values that those can have. It then has as many members as before, each under
/// the name of its field. What is no object stays as it is.
pub proof fn members_are_kept(files: Seq<MessageV>, message: Seq<char>, v: JsonV)
    ensures
        !(v is Object) ==> structural(files, message, v) == Ok::<JsonV, Fault>(v),
        v is Object ==> (structural(files, message, v) is Ok <==> members_fit(
            files,
            message,
            v->Object_0,
            v->Object_0.len(),
        )),
        v is Object && structural(files, message, v) is Ok ==> {
            let o = v->Object_0;
            let r = structural(files, message, v)->Ok_0;
            &&& r is Object
            &&& r->Object_0.len() == o.len()
            &&& forall|i: int|
                0 <= i < o.len() ==> r->Object_0.contains(
                    member_of(files, message, #[trigger] o[i]),
                )
        },
{
    if let JsonV::Object(o) = v {
        first_members_are_kept(files, message, o, o.len());
    }
}

proof fn first_members_are_kept(
    files: Seq<MessageV>,
    message: Seq<char>,
    o: Seq<(Seq<char>, JsonV)>,
    n: nat,
)
    requires
        n <= o.len(),
    ensures
        ({
            let r = structural_members(files, message, o, n);
            &&& r is Ok <==> members_fit(files, message, o, n)
            &&& r is Ok ==> r->Ok_0.len() == n
            &&& r is Ok ==> forall|i: int|
                0 <= i < n ==> r->Ok_0.contains(member_of(files, message, #[trigger] o[i]))
            &&& r is Ok ==> forall|x: Seq<char>| #[trigger]
                names(r->Ok_0).contains(x) <==> exists|i: int|
                    0 <= i < n && meant_field(files, message, (#[trigger] o[i]).0)->Some_0.name == x
        }),
    decreases n,
{
    if n > 0 {
        let m = (n - 1) as nat;
        first_members_are_kept(files, message, o, m);
        let r = structural_members(files, message, o, n);
        if let Ok(done) = structural_members(files, message, o, m) {
            if let Some(t) = meant_field(files, message, o[n - 1].0) {
                if let Ok(x) = structural_field(files, message, o[n - 1].0, t, o[n - 1].1) {
                    put_has(done, t.name, x);
                    if names(done).contains(t.name) {
                        let i = choose|i: int|
                            0 <= i < m && meant_field(
                                files,
                                message,
                                (#[trigger] o[i]).0,
                            )->Some_0.name == t.name;
                        assert(meant_field(files, message, o[i].0)->Some_0.name == meant_field(
                            files,
                            message,
                            o[n - 1].0,
                        )->Some_0.name);
                        assert(!members_fit(files, message, o, n));
                    } else {
                        assert(r is Ok);
                        assert forall|i: int, j: int| 0 <= i < j < n implies meant_field(
                            files,
                            message,
                            (#[trigger] o[i]).0,
                        )->Some_0.name != meant_field(
                            files,
                            message,
                            (#[trigger] o[j]).0,
                        )->Some_0.name by {
                            if j == n - 1 {
                                assert(names(done).contains(
                                    meant_field(files, message, o[i].0)->Some_0.name,
                                ));
                            }
                        }
                        assert forall|i: int| 0 <= i < n implies r->Ok_0.contains(
                            member_of(files, message, #[trigger] o[i]),
                        ) by {
                            if i < m {
                                assert(done.contains(member_of(files, message, o[i])));
                            }
                        }
                        assert forall|y: Seq<char>| #[trigger]
                            names(r->Ok_0).contains(y) implies exists|i: int|
                            0 <= i < n && meant_field(
                                files,
                                message,
                                (#[trigger] o[i]).0,
                            )->Some_0.name == y by {
                            if y == t.name {
                                assert(meant_field(files, message, o[n - 1].0)->Some_0.name == y);
                            } else {
                                assert(names(done).contains(y));
                            }
                        }
                    }
                }
            }
        }
    }
}

/// A null stays null, and the value of a field that holds no messages stays as it is.
pub proof fn plain_values_are_kept(
    files: Seq<MessageV>,
    message: Seq<char>,
    name: Seq<char>,
    t: FieldTypeV,
    v: JsonV,
)
    requires
        v is Null || (!t.map && !(t.kind is Message)),
    ensures
        structural_field(files, message, name, t, v) == Ok::<JsonV, Fault>(v),
{
}

/// A map that is accepted has an entry for each of its names, in their order, and no value in it
/// is null.
pub proof fn accepted_entries_have_values(
    files: Seq<MessageV>,
    message: Seq<char>,
    name: Seq<char>,
    key: FieldKindV,
    value: FieldKindV,
    o: Seq<(Seq<char>, JsonV)>,
    n: nat,
)
    requires
        n <= o.len(),
        structural_entries(files, message, name, key, value, o, n) is Ok,
    ensures
        structural_entries(files, message, name, key, value, o, n)->Ok_0.len() == n,
        forall|i: int|
            0 <= i < n ==> !((#[trigger] o[i]).1 is Null) && structural_entries(
                files,
                message,
                name,
                key,
                value,
                o,
                n,
            )->Ok_0[i] == entry_object(
                structural_key(key, o[i].0)->Ok_0,
                structural_value(files, value, o[i].1)->Ok_0,
            ),
    decreases n,
{
    if n > 0 {
        accepted_entries_have_values(files, message, name, key, value, o, (n - 1) as nat);
    }
}

} // verus!
