//! What is converted to JSON: the values that can be, and how the limits bear on them.
use vstd::prelude::*;

verus! {

use crate::convert::{
    converted, converted_dict, converted_list, converted_struct, float_json, integer_json, key_name,
    left_over, left_over_dict, left_over_list, left_over_struct, levels_at, DEPTH_LIMIT,
};
use crate::fault::RuntimeFault;
use crate::json::{names, put, put_has, put_over, JsonV};
use crate::order::{ascending, ascending_insert, slot};
use crate::star::{DictKeyV, StarV};

/// Whether a value can be converted, were there no limits: its integers fit in 64 bits, the keys of
/// its dictionaries are distinct as names, and all values in it are ones that JSON has.
pub open spec fn convertible(v: StarV) -> bool
    decreases v,
{
    match v {
        StarV::Deep => false,
        StarV::Int(repr) => integer_json(repr) is Ok,
        StarV::Float(repr, number) => float_json(repr, number) is Ok,
        StarV::List(l) => forall|i: int| 0 <= i < l.len() ==> convertible(#[trigger] l[i]),
        StarV::Struct(f) => forall|i: int| 0 <= i < f.len() ==> convertible((#[trigger] f[i]).1),
        StarV::Dict(d) => named_apart(d, d.len()) && forall|i: int|
            0 <= i < d.len() ==> convertible((#[trigger] d[i]).1),
        StarV::Other(_) => false,
        _ => true,
    }
}

/// Whether the first `n` keys of a dictionary are allowed, and distinct as names.
pub open spec fn named_apart(d: Seq<(DictKeyV, StarV)>, n: nat) -> bool {
    &&& forall|i: int| 0 <= i < n ==> key_name((#[trigger] d[i]).0) is Some
    &&& forall|i: int, j: int|
        #![trigger d[i], d[j]]
        0 <= i < j < n ==> key_name(d[i].0) != key_name(d[j].0)
}

/// Whether a value has at most so many levels.
pub open spec fn has_levels(v: StarV, levels: nat) -> bool
    decreases v,
{
    levels > 0 && match v {
        StarV::List(l) => forall|i: int|
            0 <= i < l.len() ==> has_levels(#[trigger] l[i], (levels - 1) as nat),
        StarV::Struct(f) => forall|i: int|
            0 <= i < f.len() ==> has_levels((#[trigger] f[i]).1, (levels - 1) as nat),
        StarV::Dict(d) => forall|i: int|
            0 <= i < d.len() ==> has_levels((#[trigger] d[i]).1, (levels - 1) as nat),
        _ => true,
    }
}

/// How many values a value is made of, itself among them.
pub open spec fn size(v: StarV) -> nat
    decreases v, 0nat,
{
    match v {
        StarV::List(l) => 1 + list_size(l, l.len()),
        StarV::Struct(f) => 1 + struct_size(f, f.len()),
        StarV::Dict(d) => 1 + dict_size(d, d.len()),
        _ => 1,
    }
}

/// How many values the first `n` values of a list are made of.
pub open spec fn list_size(l: Seq<StarV>, n: nat) -> nat
    decreases l, n,
{
    if n == 0 || n > l.len() {
        0
    } else {
        list_size(l, (n - 1) as nat) + size(l[n - 1])
    }
}

/// How many values the first `n` fields of a struct are made of.
pub open spec fn struct_size(f: Seq<(Seq<char>, StarV)>, n: nat) -> nat
    decreases f, n,
{
    if n == 0 || n > f.len() {
        0
    } else {
        struct_size(f, (n - 1) as nat) + size(f[n - 1].1)
    }
}

/// How many values the first `n` entries of a dictionary are made of.
pub open spec fn dict_size(d: Seq<(DictKeyV, StarV)>, n: nat) -> nat
    decreases d, n,
{
    if n == 0 || n > d.len() {
        0
    } else {
        dict_size(d, (n - 1) as nat) + size(d[n - 1].1)
    }
}

/// The JSON that a value is.
pub open spec fn json_of_value(v: StarV) -> JsonV
    decreases v, 0nat,
{
    match v {
        StarV::Bool(b) => JsonV::Bool(b),
        StarV::Text(s) => JsonV::Text(s),
        StarV::Int(repr) => integer_json(repr)->Ok_0,
        StarV::Float(repr, number) => float_json(repr, number)->Ok_0,
        StarV::List(l) => JsonV::Array(
            Seq::new(
                l.len(),
                |i: int|
                    if 0 <= i < l.len() {
                        json_of_value(l[i])
                    } else {
                        JsonV::Null
                    },
            ),
        ),
        StarV::Struct(f) => JsonV::Object(struct_members(f, f.len())),
        StarV::Dict(d) => JsonV::Object(dict_members(d, d.len())),
        _ => JsonV::Null,
    }
}

/// The members that the first `n` fields of a struct are: the last value of a name, in the order
/// of names.
pub open spec fn struct_members(f: Seq<(Seq<char>, StarV)>, n: nat) -> Seq<(Seq<char>, JsonV)>
    decreases f, n,
{
    if n == 0 || n > f.len() {
        Seq::empty()
    } else {
        put_over(struct_members(f, (n - 1) as nat), f[n - 1].0, json_of_value(f[n - 1].1))
    }
}

/// The members that the first `n` entries of a dictionary are, in the order of names.
pub open spec fn dict_members(d: Seq<(DictKeyV, StarV)>, n: nat) -> Seq<(Seq<char>, JsonV)>
    decreases d, n,
{
    if n == 0 || n > d.len() {
        Seq::empty()
    } else {
        put(
            dict_members(d, (n - 1) as nat),
            key_name(d[n - 1].0)->Some_0,
            json_of_value(d[n - 1].1),
        )
    }
}

/// The names of a dictionary are those of its keys.
pub proof fn names_are_of_keys(d: Seq<(DictKeyV, StarV)>, n: nat, x: Seq<char>)
    requires
        n <= d.len(),
        forall|i: int| 0 <= i < n ==> key_name((#[trigger] d[i]).0) is Some,
    ensures
        names(dict_members(d, n)).contains(x) <==> exists|i: int|
            0 <= i < n && key_name((#[trigger] d[i]).0) == Some(x),
    decreases n,
{
    if n > 0 {
        let name = key_name(d[n - 1].0)->Some_0;
        names_are_of_keys(d, (n - 1) as nat, x);
        put_has(dict_members(d, (n - 1) as nat), name, json_of_value(d[n - 1].1));
        if x == name {
            assert(key_name(d[n - 1].0) == Some(x));
        }
    }
}

/// The limits on a conversion: a value that can be converted at all is converted if, and only if,
/// it is made of no more values than are left and has no more levels than the depth leaves. Each
/// value in it then counts once, and what comes out does not depend on the limits. If it is only too
/// large, the values that may be converted are used up.
pub proof fn limits_are_exact(v: StarV, depth: nat, remaining: nat)
    ensures
        converted(v, depth, remaining) is Ok <==> convertible(v) && size(v) <= remaining
            && has_levels(v, levels_at(depth)),
        converted(v, depth, remaining) is Ok ==> converted(v, depth, remaining)->Ok_0 == (
            json_of_value(v),
            (remaining - size(v)) as nat,
        ),
        converted(v, depth, remaining) is Ok ==> left_over(v, depth, remaining) == remaining - size(
            v,
        ),
        convertible(v) && has_levels(v, levels_at(depth)) && size(v) > remaining ==> converted(
            v,
            depth,
            remaining,
        ) == Err::<(JsonV, nat), RuntimeFault>(RuntimeFault::TooManyValues) && left_over(
            v,
            depth,
            remaining,
        ) == 0,
        convertible(v) && size(v) <= remaining && !has_levels(v, levels_at(depth)) ==> converted(
            v,
            depth,
            remaining,
        ) == Err::<(JsonV, nat), RuntimeFault>(RuntimeFault::TooDeep),
    decreases v, 0nat,
{
    let left = (remaining - 1) as nat;
    if remaining > 0 && depth <= DEPTH_LIMIT {
        assert(levels_at(depth + 1) == levels_at(depth) - 1);
        match v {
            StarV::List(l) => {
                list_limits_are_exact(l, l.len(), depth, left);
                if converted(v, depth, remaining) is Ok {
                    assert(json_of_value(v)->Array_0 =~= converted_list(
                        l,
                        l.len(),
                        depth,
                        left,
                    )->Ok_0.0);
                }
            },
            StarV::Struct(f) => {
                struct_limits_are_exact(f, f.len(), depth, left);
            },
            StarV::Dict(d) => {
                dict_limits_are_exact(d, d.len(), depth, left);
            },
            _ => {},
        }
    }
}

proof fn list_limits_are_exact(l: Seq<StarV>, n: nat, depth: nat, remaining: nat)
    requires
        n <= l.len(),
    ensures
        ({
            let fine = forall|i: int|
                0 <= i < n ==> convertible(#[trigger] l[i]) && has_levels(
                    l[i],
                    levels_at(depth + 1),
                );
            let r = converted_list(l, n, depth, remaining);
            &&& r is Ok <==> fine && list_size(l, n) <= remaining
            &&& r is Ok ==> r->Ok_0.1 == remaining - list_size(l, n) && r->Ok_0.0.len() == n
                && forall|i: int| 0 <= i < n ==> #[trigger] r->Ok_0.0[i] == json_of_value(l[i])
            &&& r is Ok ==> left_over_list(l, n, depth, remaining) == remaining - list_size(l, n)
            &&& fine && list_size(l, n) > remaining ==> r == Err::<
                (Seq<JsonV>, nat),
                RuntimeFault,
            >(RuntimeFault::TooManyValues) && left_over_list(l, n, depth, remaining) == 0
            &&& !fine && list_size(l, n) <= remaining && (forall|i: int|
                0 <= i < n ==> convertible(#[trigger] l[i])) ==> r == Err::<
                (Seq<JsonV>, nat),
                RuntimeFault,
            >(RuntimeFault::TooDeep)
        }),
    decreases l, n,
{
    if n > 0 {
        list_limits_are_exact(l, (n - 1) as nat, depth, remaining);
        let r = converted_list(l, n, depth, remaining);
        if let Ok((done, left)) = converted_list(l, (n - 1) as nat, depth, remaining) {
            limits_are_exact(l[n - 1], depth + 1, left);
        }
        if r is Ok {
            assert(convertible(l[n - 1]));
        }
    }
}

proof fn struct_limits_are_exact(
    f: Seq<(Seq<char>, StarV)>,
    n: nat,
    depth: nat,
    remaining: nat,
)
    requires
        n <= f.len(),
    ensures
        ({
            let fine = forall|i: int|
                0 <= i < n ==> convertible((#[trigger] f[i]).1) && has_levels(
                    f[i].1,
                    levels_at(depth + 1),
                );
            let r = converted_struct(f, n, depth, remaining);
            &&& r is Ok <==> fine && struct_size(f, n) <= remaining
            &&& r is Ok ==> r->Ok_0 == (
                struct_members(f, n),
                (remaining - struct_size(f, n)) as nat,
            )
            &&& r is Ok ==> left_over_struct(f, n, depth, remaining) == remaining - struct_size(
                f,
                n,
            )
            &&& fine && struct_size(f, n) > remaining ==> r == Err::<
                (Seq<(Seq<char>, JsonV)>, nat),
                RuntimeFault,
            >(RuntimeFault::TooManyValues) && left_over_struct(f, n, depth, remaining) == 0
            &&& !fine && struct_size(f, n) <= remaining && (forall|i: int|
                0 <= i < n ==> convertible((#[trigger] f[i]).1)) ==> r == Err::<
                (Seq<(Seq<char>, JsonV)>, nat),
                RuntimeFault,
            >(RuntimeFault::TooDeep)
        }),
    decreases f, n,
{
    if n > 0 {
        struct_limits_are_exact(f, (n - 1) as nat, depth, remaining);
        let r = converted_struct(f, n, depth, remaining);
        if let Ok((done, left)) = converted_struct(f, (n - 1) as nat, depth, remaining) {
            limits_are_exact(f[n - 1].1, depth + 1, left);
        }
        if r is Ok {
            assert(convertible(f[n - 1].1));
        }
    }
}

proof fn dict_limits_are_exact(
    d: Seq<(DictKeyV, StarV)>,
    n: nat,
    depth: nat,
    remaining: nat,
)
    requires
        n <= d.len(),
    ensures
        ({
            let fine = named_apart(d, n) && forall|i: int|
                0 <= i < n ==> convertible((#[trigger] d[i]).1) && has_levels(
                    d[i].1,
                    levels_at(depth + 1),
                );
            let r = converted_dict(d, n, depth, remaining);
            &&& r is Ok <==> fine && dict_size(d, n) <= remaining
            &&& r is Ok ==> r->Ok_0 == (dict_members(d, n), (remaining - dict_size(d, n)) as nat)
            &&& r is Ok ==> left_over_dict(d, n, depth, remaining) == remaining - dict_size(d, n)
            &&& fine && dict_size(d, n) > remaining ==> r == Err::<
                (Seq<(Seq<char>, JsonV)>, nat),
                RuntimeFault,
            >(RuntimeFault::TooManyValues) && left_over_dict(d, n, depth, remaining) == 0
            &&& !fine && named_apart(d, n) && dict_size(d, n) <= remaining && (forall|i: int|
                0 <= i < n ==> convertible((#[trigger] d[i]).1)) ==> r == Err::<
                (Seq<(Seq<char>, JsonV)>, nat),
                RuntimeFault,
            >(RuntimeFault::TooDeep)
        }),
    decreases d, n,
{
    if n > 0 {
        let r = converted_dict(d, n, depth, remaining);
        dict_limits_are_exact(d, (n - 1) as nat, depth, remaining);
        if let Ok((done, left)) = converted_dict(d, (n - 1) as nat, depth, remaining) {
            limits_are_exact(d[n - 1].1, depth + 1, left);
            if let Some(name) = key_name(d[n - 1].0) {
                names_are_of_keys(d, (n - 1) as nat, name);
                if names(done).contains(name) {
                    let i = choose|i: int|
                        0 <= i < n - 1 && key_name((#[trigger] d[i]).0) == Some(name);
                    assert(key_name(d[i].0) == key_name(d[n - 1].0));
                    assert(!named_apart(d, n));
                } else {
                    assert(named_apart(d, n)) by {
                        assert forall|i: int, j: int|
                            #![trigger d[i], d[j]]
                            0 <= i < j < n implies key_name(d[i].0) != key_name(d[j].0) by {
                            if j == n - 1 && key_name(d[i].0) == Some(name) {
                                assert(names(done).contains(name));
                            }
                        }
                    }
                }
            }
        }
        if r is Ok {
            assert(convertible(d[n - 1].1));
        }
    }
}

/// A dictionary whose keys are distinct as names becomes an object with one member for each entry:
/// the value under the name of the key, in ascending order of names.
pub proof fn dictionaries_keep_their_entries(d: Seq<(DictKeyV, StarV)>)
    requires
        named_apart(d, d.len()),
    ensures
        json_of_value(StarV::Dict(d)) is Object,
        ({
            let o = json_of_value(StarV::Dict(d))->Object_0;
            &&& o.len() == d.len()
            &&& ascending(names(o))
            &&& forall|i: int|
                0 <= i < d.len() ==> o.contains(
                    (key_name((#[trigger] d[i]).0)->Some_0, json_of_value(d[i].1)),
                )
        }),
{
    members_are_kept(d, d.len());
}

proof fn members_are_kept(d: Seq<(DictKeyV, StarV)>, n: nat)
    requires
        n <= d.len(),
        named_apart(d, n),
    ensures
        dict_members(d, n).len() == n,
        ascending(names(dict_members(d, n))),
        forall|i: int|
            0 <= i < n ==> dict_members(d, n).contains(
                (key_name((#[trigger] d[i]).0)->Some_0, json_of_value(d[i].1)),
            ),
    decreases n,
{
    if n > 0 {
        let m = (n - 1) as nat;
        let done = dict_members(d, m);
        let name = key_name(d[n - 1].0)->Some_0;
        members_are_kept(d, m);
        put_has(done, name, json_of_value(d[n - 1].1));
        names_are_of_keys(d, m, name);
        if names(done).contains(name) {
            let i = choose|i: int| 0 <= i < m && key_name((#[trigger] d[i]).0) == Some(name);
            assert(key_name(d[i].0) == key_name(d[n - 1].0));
        }
        ascending_insert(names(done), name);
        assert(names(dict_members(d, n)) =~= names(done).insert(
            slot(names(done), name) as int,
            name,
        ));
        assert forall|i: int| 0 <= i < n implies dict_members(d, n).contains(
            (key_name((#[trigger] d[i]).0)->Some_0, json_of_value(d[i].1)),
        ) by {
            if i < n - 1 {
                assert(done.contains((key_name(d[i].0)->Some_0, json_of_value(d[i].1))));
            }
        }
    }
}

/// A list or a tuple becomes an array of as many values, each converted in its place.
pub proof fn lists_keep_their_values(l: Seq<StarV>)
    ensures
        json_of_value(StarV::List(l)) is Array,
        json_of_value(StarV::List(l))->Array_0.len() == l.len(),
        forall|i: int|
            0 <= i < l.len() ==> #[trigger] json_of_value(StarV::List(l))->Array_0[i]
                == json_of_value(l[i]),
{
}

/// A dictionary with the fields of a struct under their names.
pub open spec fn fields_as_entries(f: Seq<(Seq<char>, StarV)>) -> Seq<(DictKeyV, StarV)> {
    Seq::new(f.len(), |i: int| (DictKeyV::Text(f[i].0), f[i].1))
}

/// A struct is converted as the dictionary of its fields is. No two fields have the same name.
pub proof fn structs_are_like_dictionaries(
    f: Seq<(Seq<char>, StarV)>,
    depth: nat,
    remaining: nat,
)
    requires
        forall|i: int, j: int| 0 <= i < j < f.len() ==> f[i].0 != f[j].0,
    ensures
        converted(StarV::Struct(f), depth, remaining) == converted(
            StarV::Dict(fields_as_entries(f)),
            depth,
            remaining,
        ),
{
    fields_are_like_entries(f, f.len(), depth, (remaining - 1) as nat);
}

proof fn fields_are_like_entries(
    f: Seq<(Seq<char>, StarV)>,
    n: nat,
    depth: nat,
    remaining: nat,
)
    requires
        n <= f.len(),
        forall|i: int, j: int| 0 <= i < j < f.len() ==> f[i].0 != f[j].0,
    ensures
        converted_struct(f, n, depth, remaining) == converted_dict(
            fields_as_entries(f),
            n,
            depth,
            remaining,
        ),
    decreases n,
{
    if n > 0 {
        let d = fields_as_entries(f);
        let m = (n - 1) as nat;
        fields_are_like_entries(f, m, depth, remaining);
        assert(d[n - 1] == (DictKeyV::Text(f[n - 1].0), f[n - 1].1));
        if let Ok((done, left)) = converted_dict(d, m, depth, remaining) {
            dict_limits_are_exact(d, m, depth, remaining);
            names_are_of_keys(d, m, f[n - 1].0);
            if names(done).contains(f[n - 1].0) {
                let i = choose|i: int|
                    0 <= i < m && key_name((#[trigger] d[i]).0) == Some(f[n - 1].0);
                assert(f[i].0 == f[n - 1].0);
            }
        }
    }
}

} // verus!
