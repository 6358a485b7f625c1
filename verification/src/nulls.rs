//! Members that are null, which say no more of a message than members that are not there.
use vstd::prelude::*;

verus! {

use crate::error::Fault;
use crate::json::{names, put, put_has, JsonV};
use crate::message::MessageV;
use crate::order::{ascending, ascending_insert, slot, slot_divides, slot_is};
use crate::structural::{
    entry_object, meant_field, structural, structural_entries, structural_field, structural_items,
    structural_key, structural_members, structural_value,
};
use crate::text::{text_less, text_less_transitive};
use crate::types::{entry_types, FieldKindV, FieldTypeV};

/// The value without the members of its objects that are null.
pub open spec fn without_nulls(v: JsonV) -> JsonV
    decreases v,
{
    match v {
        JsonV::Array(a) => JsonV::Array(items_without_nulls(a)),
        JsonV::Object(o) => JsonV::Object(members_without_nulls(o)),
        _ => v,
    }
}

/// The values of an array, each without members that are null.
pub open spec fn items_without_nulls(a: Seq<JsonV>) -> Seq<JsonV>
    decreases a,
{
    Seq::new(
        a.len(),
        |i: int|
            if 0 <= i < a.len() {
                without_nulls(a[i])
            } else {
                a[i]
            },
    )
}

/// The members of an object that are not null.
pub open spec fn members_without_nulls(o: Seq<(Seq<char>, JsonV)>) -> Seq<(Seq<char>, JsonV)>
    decreases o,
{
    if o.len() == 0 {
        o
    } else {
        let done = members_without_nulls(o.drop_last());
        if o.last().1 is Null {
            done
        } else {
            done.push((o.last().0, without_nulls(o.last().1)))
        }
    }
}

proof fn members_join(a: Seq<(Seq<char>, JsonV)>, b: Seq<(Seq<char>, JsonV)>)
    ensures
        members_without_nulls(a + b) == members_without_nulls(a) + members_without_nulls(b),
    decreases b.len(),
{
    if b.len() == 0 {
        assert(a + b =~= a);
    } else {
        members_join(a, b.drop_last());
        assert((a + b).drop_last() =~= a + b.drop_last());
    }
}

proof fn kept_names(o: Seq<(Seq<char>, JsonV)>, i: int)
    requires
        0 <= i < members_without_nulls(o).len(),
    ensures
        names(o).contains(members_without_nulls(o)[i].0),
    decreases o.len(),
{
    if o.len() > 0 {
        let done = members_without_nulls(o.drop_last());
        if i < done.len() {
            kept_names(o.drop_last(), i);
            let k = names(o.drop_last()).index_of(done[i].0);
            assert(names(o)[k] == done[i].0);
        } else {
            assert(names(o)[o.len() - 1] == o.last().0);
        }
    }
}

proof fn put_without_nulls(o: Seq<(Seq<char>, JsonV)>, name: Seq<char>, v: JsonV)
    requires
        ascending(names(o)),
        !names(o).contains(name),
    ensures
        members_without_nulls(put(o, name, v)) == if v is Null {
            members_without_nulls(o)
        } else {
            put(members_without_nulls(o), name, without_nulls(v))
        },
        !names(members_without_nulls(o)).contains(name),
        ascending(names(put(o, name, v))),
{
    let p = slot(names(o), name) as int;
    slot_divides(names(o), name);
    ascending_insert(names(o), name);
    assert(names(put(o, name, v)) =~= names(o).insert(p, name));
    let front = o.take(p);
    let back = o.skip(p);
    let one = seq![(name, v)];
    assert(o =~= front + back);
    assert(put(o, name, v) =~= front + (one + back));
    members_join(front, back);
    members_join(front, one + back);
    members_join(one, back);
    let f = members_without_nulls(front);
    let b = members_without_nulls(back);
    assert(members_without_nulls(one.drop_last()) =~= Seq::empty());
    assert forall|i: int| 0 <= i < f.len() implies text_less(names(f + b)[i], name) by {
        kept_names(front, i);
        let k = names(front).index_of(f[i].0);
        assert(names(o)[k] == f[i].0);
    }
    assert forall|i: int| 0 <= i < b.len() implies !text_less((#[trigger] b[i]).0, name) by {
        kept_names(back, i);
        let k = names(back).index_of(b[i].0);
        assert(names(o)[p + k] == b[i].0);
        if text_less(b[i].0, name) && k > 0 {
            assert(text_less(names(o)[p], names(o)[p + k]));
            text_less_transitive(names(o)[p], b[i].0, name);
        }
    }
    if b.len() > 0 {
        assert(names(f + b)[f.len() as int] == b[0].0);
    }
    slot_is(names(f + b), name, f.len() as int);
    if names(f + b).contains(name) {
        let i = names(f + b).index_of(name);
        kept_names(o, i);
    }
    if !(v is Null) {
        let kept = seq![(name, without_nulls(v))];
        assert(members_without_nulls(one) =~= kept);
        assert(put(f + b, name, without_nulls(v)) =~= f + (kept + b));
    } else {
        assert(members_without_nulls(one) =~= Seq::empty());
        assert(f + (Seq::<(Seq<char>, JsonV)>::empty() + b) =~= f + b);
    }
}

proof fn members_of_front(
    files: Seq<MessageV>,
    message: Seq<char>,
    o: Seq<(Seq<char>, JsonV)>,
    x: (Seq<char>, JsonV),
    n: nat,
)
    requires
        n <= o.len(),
    ensures
        structural_members(files, message, o.push(x), n) == structural_members(
            files,
            message,
            o,
            n,
        ),
    decreases n,
{
    if n > 0 {
        members_of_front(files, message, o, x, (n - 1) as nat);
        assert(o.push(x)[n - 1] == o[n - 1]);
    }
}

/// What a configuration says without the members that are null is what it says with them, without
/// those that are null.
pub proof fn nulls_stay_apart(files: Seq<MessageV>, message: Seq<char>, v: JsonV)
    requires
        structural(files, message, v) is Ok,
    ensures
        structural(files, message, without_nulls(v)) == Ok::<JsonV, Fault>(
            without_nulls(structural(files, message, v)->Ok_0),
        ),
        structural(files, message, v)->Ok_0 is Null <==> v is Null,
    decreases v, 0nat,
{
    if let JsonV::Object(o) = v {
        members_stay_apart(files, message, o, o.len());
        assert(o.take(o.len() as int) =~= o);
    }
}

proof fn members_stay_apart(
    files: Seq<MessageV>,
    message: Seq<char>,
    o: Seq<(Seq<char>, JsonV)>,
    n: nat,
)
    requires
        n <= o.len(),
        structural_members(files, message, o, n) is Ok,
    ensures
        ascending(names(structural_members(files, message, o, n)->Ok_0)),
        structural_members(
            files,
            message,
            members_without_nulls(o.take(n as int)),
            members_without_nulls(o.take(n as int)).len(),
        ) == Ok::<Seq<(Seq<char>, JsonV)>, Fault>(
            members_without_nulls(structural_members(files, message, o, n)->Ok_0),
        ),
    decreases o, n,
{
    if n > 0 {
        let k = (n - 1) as nat;
        members_stay_apart(files, message, o, k);
        let done = structural_members(files, message, o, k)->Ok_0;
        let (name, v) = o[n - 1];
        let t = meant_field(files, message, name)->Some_0;
        field_stays_apart(files, message, name, t, v);
        let x = structural_field(files, message, name, t, v)->Ok_0;
        put_without_nulls(done, t.name, x);
        assert(o.take(n as int).drop_last() =~= o.take(k as int));
        assert(o.take(n as int).last() == o[n - 1]);
        let kept = members_without_nulls(o.take(k as int));
        if !(v is Null) {
            members_of_front(files, message, kept, (name, without_nulls(v)), kept.len());
            let all = kept.push((name, without_nulls(v)));
            assert(all[all.len() - 1] == (name, without_nulls(v)));
        }
    } else {
        assert(members_without_nulls(o.take(0)) =~= Seq::empty());
    }
}

proof fn field_stays_apart(
    files: Seq<MessageV>,
    message: Seq<char>,
    name: Seq<char>,
    t: FieldTypeV,
    v: JsonV,
)
    requires
        structural_field(files, message, name, t, v) is Ok,
    ensures
        structural_field(files, message, name, t, without_nulls(v)) == Ok::<JsonV, Fault>(
            without_nulls(structural_field(files, message, name, t, v)->Ok_0),
        ),
        structural_field(files, message, name, t, v)->Ok_0 is Null <==> v is Null,
    decreases v, 1nat,
{
    if v is Null {
    } else if t.map {
        if let (JsonV::Object(o), Some((key, value))) = (v, entry_types(files, t)) {
            entries_stay_apart(files, message, name, key.kind, value.kind, o, o.len());
            full_members(o);
        }
    } else {
        match (t.kind, v) {
            (FieldKindV::Message(child), JsonV::Array(a)) => if t.list {
                items_stay_apart(files, child, a, a.len());
            } else {
                nulls_stay_apart(files, child, v);
            },
            (FieldKindV::Message(child), _) => if !t.list {
                nulls_stay_apart(files, child, v);
            },
            _ => {},
        }
    }
}

proof fn items_stay_apart(files: Seq<MessageV>, child: Seq<char>, a: Seq<JsonV>, n: nat)
    requires
        n <= a.len(),
        structural_items(files, child, a, n) is Ok,
    ensures
        structural_items(files, child, items_without_nulls(a), n) == Ok::<Seq<JsonV>, Fault>(
            items_without_nulls(structural_items(files, child, a, n)->Ok_0),
        ),
    decreases a, n,
{
    if n > 0 {
        items_stay_apart(files, child, a, (n - 1) as nat);
        nulls_stay_apart(files, child, a[n - 1]);
        let done = structural_items(files, child, a, (n - 1) as nat)->Ok_0;
        let x = structural(files, child, a[n - 1])->Ok_0;
        assert(items_without_nulls(done.push(x)) =~= items_without_nulls(done).push(
            without_nulls(x),
        ));
    } else {
        assert(items_without_nulls(Seq::empty()) =~= Seq::empty());
    }
}

/// The members of an object, none of them null, each without members that are null.
spec fn members_cleared(o: Seq<(Seq<char>, JsonV)>) -> Seq<(Seq<char>, JsonV)> {
    Seq::new(o.len(), |i: int| (o[i].0, without_nulls(o[i].1)))
}

proof fn full_members(o: Seq<(Seq<char>, JsonV)>)
    requires
        forall|i: int| 0 <= i < o.len() ==> !((#[trigger] o[i]).1 is Null),
    ensures
        members_without_nulls(o) == members_cleared(o),
    decreases o.len(),
{
    if o.len() > 0 {
        assert forall|i: int| 0 <= i < o.drop_last().len() implies !((
        #[trigger] o.drop_last()[i]).1 is Null) by {
            assert(o[i] == o.drop_last()[i]);
        }
        full_members(o.drop_last());
        assert(o[o.len() - 1] == o.last());
        assert(members_without_nulls(o) =~= members_cleared(o));
    } else {
        assert(members_without_nulls(o) =~= members_cleared(o));
    }
}

proof fn entries_stay_apart(
    files: Seq<MessageV>,
    message: Seq<char>,
    name: Seq<char>,
    key: FieldKindV,
    value: FieldKindV,
    o: Seq<(Seq<char>, JsonV)>,
    n: nat,
)
    requires
        n <= o.len(),
        structural_entries(files, message, name, key, value, o, n) is Ok,
    ensures
        forall|i: int| 0 <= i < n ==> !((#[trigger] o[i]).1 is Null),
        structural_entries(files, message, name, key, value, members_cleared(o), n) == Ok::<
            Seq<JsonV>,
            Fault,
        >(
            items_without_nulls(
                structural_entries(files, message, name, key, value, o, n)->Ok_0,
            ),
        ),
    decreases o, n,
{
    if n > 0 {
        entries_stay_apart(files, message, name, key, value, o, (n - 1) as nat);
        let done = structural_entries(files, message, name, key, value, o, (n - 1) as nat)->Ok_0;
        let (text, v) = o[n - 1];
        let k = structural_key(key, text)->Ok_0;
        if let FieldKindV::Message(child) = value {
            nulls_stay_apart(files, child, v);
        }
        let x = structural_value(files, value, v)->Ok_0;
        assert(!(without_nulls(v) is Null));
        assert(structural_value(files, value, without_nulls(v)) == Ok::<JsonV, Fault>(
            without_nulls(x),
        ));
        entry_without_nulls(k, x);
        assert(members_cleared(o)[n - 1] == (text, without_nulls(v)));
        assert(items_without_nulls(done.push(entry_object(k, x))) =~= items_without_nulls(
            done,
        ).push(without_nulls(entry_object(k, x))));
    } else {
        assert(items_without_nulls(Seq::empty()) =~= Seq::empty());
    }
}

proof fn entry_without_nulls(k: JsonV, x: JsonV)
    requires
        !(x is Null),
        k is Text || k is Bool,
    ensures
        without_nulls(entry_object(k, x)) == entry_object(k, without_nulls(x)),
{
    let o = seq![("key"@, k), ("value"@, x)];
    full_members(o);
    assert(members_cleared(o) =~= seq![("key"@, k), ("value"@, without_nulls(x))]);
}

/// Whether a field of a message type has this name.
pub open spec fn is_field_name(files: Seq<MessageV>, message: Seq<char>, name: Seq<char>) -> bool {
    exists|given: Seq<char>| #[trigger]
        meant_field(files, message, given) is Some && meant_field(
            files,
            message,
            given,
        )->Some_0.name == name
}

/// Whether a member of an object is null and has the name of a field of a message type.
pub open spec fn null_at(files: Seq<MessageV>, message: Seq<char>, v: JsonV, i: int) -> bool {
    match v {
        JsonV::Object(o) => 0 <= i < o.len() && o[i].1 is Null && is_field_name(
            files,
            message,
            o[i].0,
        ),
        _ => false,
    }
}

/// An object without one of its members.
pub open spec fn without_member(v: JsonV, i: int) -> JsonV {
    match v {
        JsonV::Object(o) => JsonV::Object(o.remove(i)),
        _ => v,
    }
}

/// Whether a member of a configuration is null and stands for a field that no other member stands
/// for.
pub open spec fn spare(files: Seq<MessageV>, message: Seq<char>, v: JsonV, i: int) -> bool {
    match v {
        JsonV::Object(o) => {
            &&& 0 <= i < o.len()
            &&& o[i].1 is Null
            &&& meant_field(files, message, o[i].0) is Some
            &&& forall|j: int|
                0 <= j < o.len() && j != i ==> names_another(
                    files,
                    message,
                    (#[trigger] o[j]).0,
                    meant_field(files, message, o[i].0)->Some_0.name,
                )
        },
        _ => false,
    }
}

/// Whether a name does not stand for the field of this name.
pub open spec fn names_another(
    files: Seq<MessageV>,
    message: Seq<char>,
    name: Seq<char>,
    field: Seq<char>,
) -> bool {
    match meant_field(files, message, name) {
        Some(t) => t.name != field,
        None => true,
    }
}

/// Whether the second of two results is the first without a member of this name that is null.
spec fn one_less(
    a: Result<Seq<(Seq<char>, JsonV)>, Fault>,
    b: Result<Seq<(Seq<char>, JsonV)>, Fault>,
    name: Seq<char>,
) -> bool {
    if a is Ok {
        b is Ok && exists|k: int| less_at(a->Ok_0, b->Ok_0, name, k)
    } else {
        a == b
    }
}

/// Whether an object is another one without a member of this name, at this place, that is null.
spec fn less_at(
    x: Seq<(Seq<char>, JsonV)>,
    y: Seq<(Seq<char>, JsonV)>,
    name: Seq<char>,
    k: int,
) -> bool {
    0 <= k < x.len() && x[k] == (name, JsonV::Null) && y == x.remove(k)
}

proof fn is_one_less(
    a: Result<Seq<(Seq<char>, JsonV)>, Fault>,
    b: Result<Seq<(Seq<char>, JsonV)>, Fault>,
    name: Seq<char>,
    k: int,
)
    requires
        a is Ok,
        b is Ok,
        less_at(a->Ok_0, b->Ok_0, name, k),
    ensures
        one_less(a, b, name),
{
    assert(exists|k: int| less_at(a->Ok_0, b->Ok_0, name, k));
}

proof fn put_elsewhere(
    a: Seq<(Seq<char>, JsonV)>,
    k: int,
    name: Seq<char>,
    v: JsonV,
)
    requires
        ascending(names(a)),
        0 <= k < a.len(),
    ensures
        ({
            let p = slot(names(a), name) as int;
            let next = if k < p {
                k
            } else {
                k + 1
            };
            &&& 0 <= next < put(a, name, v).len()
            &&& put(a, name, v)[next] == a[k]
            &&& put(a, name, v).remove(next) == put(a.remove(k), name, v)
        }),
        name != a[k].0 ==> (names(a.remove(k)).contains(name) <==> names(a).contains(name)),
{
    let b = a.remove(k);
    let keys = names(a);
    let rest = names(b);
    slot_divides(keys, name);
    let p = slot(keys, name) as int;
    let q = if k < p {
        p - 1
    } else {
        p
    };
    assert forall|i: int| 0 <= i < q implies text_less(rest[i], name) by {
        assert(rest[i] == keys[if i < k {
            i
        } else {
            i + 1
        }]);
    }
    if q < rest.len() {
        let r = if q < k {
            q
        } else {
            q + 1
        };
        assert(rest[q] == keys[r]);
        if r > p && text_less(keys[r], name) {
            assert(text_less(keys[p], keys[r]));
            text_less_transitive(keys[p], keys[r], name);
        }
    }
    slot_is(rest, name, q);
    let next = if k < p {
        k
    } else {
        k + 1
    };
    assert(put(a, name, v).remove(next) =~= put(b, name, v));
    if name != a[k].0 {
        if keys.contains(name) {
            let i = keys.index_of(name);
            assert(rest[if i < k {
                i
            } else {
                i - 1
            }] == name);
        }
        if rest.contains(name) {
            let i = rest.index_of(name);
            assert(keys[if i < k {
                i
            } else {
                i + 1
            }] == name);
        }
    }
}

proof fn members_one_less(
    files: Seq<MessageV>,
    message: Seq<char>,
    o: Seq<(Seq<char>, JsonV)>,
    i: int,
    n: nat,
)
    requires
        spare(files, message, JsonV::Object(o), i),
        n <= o.len(),
    ensures
        n <= i ==> structural_members(files, message, o.remove(i), n) == structural_members(
            files,
            message,
            o,
            n,
        ),
        n > i ==> one_less(
            structural_members(files, message, o, n),
            structural_members(files, message, o.remove(i), (n - 1) as nat),
            meant_field(files, message, o[i].0)->Some_0.name,
        ),
        n <= i ==> (structural_members(files, message, o, n) matches Ok(x) ==> !names(x).contains(
            meant_field(files, message, o[i].0)->Some_0.name,
        )),
    decreases n,
{
    let name = meant_field(files, message, o[i].0)->Some_0.name;
    if n > 0 {
        let k = (n - 1) as nat;
        members_one_less(files, message, o, i, k);
        let rest = o.remove(i);
        let a = structural_members(files, message, o, k);
        if a is Ok {
            members_stay_apart(files, message, o, k);
        }
        if k < i {
            assert(rest[k as int] == o[k as int]);
            assert(names_another(files, message, o[k as int].0, name));
            if let Ok(x) = structural_members(files, message, o, n) {
                let u = meant_field(files, message, o[k as int].0)->Some_0;
                let done = a->Ok_0;
                let v = structural_field(files, message, o[k as int].0, u, o[k as int].1)->Ok_0;
                put_has(done, u.name, v);
                assert(x == put(done, u.name, v));
                assert(names(x).contains(name) <==> name == u.name || names(done).contains(name));
            }
        } else if k == i {
            if let Ok(done) = a {
                let x = put(done, name, JsonV::Null);
                slot_divides(names(done), name);
                let p = slot(names(done), name) as int;
                assert(structural_members(files, message, o, n) == Ok::<
                    Seq<(Seq<char>, JsonV)>,
                    Fault,
                >(x));
                assert(x[p] == (name, JsonV::Null));
                assert(x.remove(p) =~= done);
                is_one_less(
                    structural_members(files, message, o, n),
                    structural_members(files, message, rest, k),
                    name,
                    p,
                );
            }
        } else {
            assert(rest[k - 1] == o[k as int]);
            assert(names_another(files, message, o[k as int].0, name));
            if let Ok(x) = a {
                let y = structural_members(files, message, rest, (k - 1) as nat)->Ok_0;
                let at = choose|at: int| less_at(x, y, name, at);
                if let Some(u) = meant_field(files, message, o[k as int].0) {
                    if let Ok(v) = structural_field(
                        files,
                        message,
                        o[k as int].0,
                        u,
                        o[k as int].1,
                    ) {
                        put_elsewhere(x, at, u.name, v);
                        if !names(x).contains(u.name) {
                            let all = put(x, u.name, v);
                            let next = if at < slot(names(x), u.name) {
                                at
                            } else {
                                at + 1
                            };
                            assert(all[next] == (name, JsonV::Null));
                            assert(structural_members(files, message, o, n) == Ok::<
                                Seq<(Seq<char>, JsonV)>,
                                Fault,
                            >(all));
                            assert(structural_members(files, message, rest, k) == Ok::<
                                Seq<(Seq<char>, JsonV)>,
                                Fault,
                            >(put(y, u.name, v)));
                            is_one_less(
                                structural_members(files, message, o, n),
                                structural_members(files, message, rest, k),
                                name,
                                next,
                            );
                        }
                    }
                }
            }
        }
    }
}

/// A configuration without a member that is null, and is the only one to stand for its field, says
/// what it says with it, without that member: it is refused for the same reason, or not at all.
pub proof fn null_stays_apart(files: Seq<MessageV>, message: Seq<char>, v: JsonV, i: int)
    requires
        spare(files, message, v, i),
    ensures
        match (structural(files, message, v), structural(files, message, without_member(v, i))) {
            (Ok(x), Ok(y)) => exists|k: int| #[trigger]
                null_at(files, message, x, k) && y == without_member(x, k),
            (Err(e), Err(f)) => e == f,
            _ => false,
        },
{
    let o = v->Object_0;
    members_one_less(files, message, o, i, o.len());
    if let Ok(x) = structural_members(files, message, o, o.len()) {
        let name = meant_field(files, message, o[i].0)->Some_0.name;
        let y = structural_members(files, message, o.remove(i), (o.len() - 1) as nat)->Ok_0;
        let k = choose|k: int| less_at(x, y, name, k);
        assert(meant_field(files, message, o[i].0) is Some);
        assert(is_field_name(files, message, name));
        assert(null_at(files, message, JsonV::Object(x), k));
        assert(without_member(JsonV::Object(x), k) == JsonV::Object(y));
    }
}

} // verus!
