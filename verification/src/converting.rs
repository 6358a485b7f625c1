//! What Starlark values become in JSON: each kind of value, and values made of others.
use vstd::prelude::*;

verus! {

use crate::convert::{
    converted, converted_dict, converted_list, converted_struct, levels_at, VALUE_LIMIT,
};
use crate::fault::RuntimeFault;
use crate::json::{names, number_text, put_has, put_over, JsonV};
use crate::order::{ascending, ascending_insert, slot, slot_divides};
use crate::runtime::{value_of, RequestV};
use crate::star::{exported_value, DictKeyV, StarV};
use crate::text::{
    decimal_text, integer_text, integer_text_reads_back, numeral_value, text_less_irreflexive,
};
use crate::values::{
    convertible, dict_size, dictionaries_keep_their_entries, has_levels,
    json_of_value, limits_are_exact, list_size, named_apart, size, struct_members, struct_size,
};

/// A float becomes the number that JSON has for it. Only what is not finite is a text, as in
/// ProtoJSON, and nothing else is.
pub proof fn floats_become_numbers(
    repr: Seq<char>,
    number: Option<serde_json::Number>,
    depth: nat,
    remaining: nat,
)
    requires
        depth <= 64,
        remaining > 0,
    ensures
        ({
            let r = converted(StarV::Float(repr, number), depth, remaining);
            let left = (remaining - 1) as nat;
            &&& number is Some && repr != "nan"@ && repr != "+inf"@ && repr != "-inf"@ ==> r == Ok::<
                (JsonV, nat),
                RuntimeFault,
            >((JsonV::Number(number_text(number->Some_0)), left))
            &&& repr == "nan"@ ==> r == Ok::<(JsonV, nat), RuntimeFault>(
                (JsonV::Text("NaN"@), left),
            )
            &&& repr == "+inf"@ ==> r == Ok::<(JsonV, nat), RuntimeFault>(
                (JsonV::Text("Infinity"@), left),
            )
            &&& repr == "-inf"@ ==> r == Ok::<(JsonV, nat), RuntimeFault>(
                (JsonV::Text("-Infinity"@), left),
            )
            &&& r matches Ok((j, _)) ==> !(j is Text) || repr == "nan"@ || repr == "+inf"@ || repr
                == "-inf"@
            &&& number is None && repr != "nan"@ && repr != "+inf"@ && repr != "-inf"@ ==> r is Err
        }),
{
    reveal_strlit("nan");
    reveal_strlit("+inf");
    reveal_strlit("-inf");
    assert("nan"@.len() == 3 && "+inf"@.len() == 4 && "-inf"@.len() == 4);
    assert("+inf"@[0] == '+' && "-inf"@[0] == '-');
}

/// An integer becomes the number of the same digits, if it fits in 64 bits, signed or unsigned, and
/// else is refused.
pub proof fn integers_become_numbers(n: int, depth: nat, remaining: nat)
    requires
        depth <= 64,
        remaining > 0,
    ensures
        -0x8000_0000_0000_0000 <= n <= 0xffff_ffff_ffff_ffff ==> converted(
            StarV::Int(integer_text(n)),
            depth,
            remaining,
        ) == Ok::<(JsonV, nat), RuntimeFault>(
            (JsonV::Number(integer_text(n)), (remaining - 1) as nat),
        ),
        !(-0x8000_0000_0000_0000 <= n <= 0xffff_ffff_ffff_ffff) ==> converted(
            StarV::Int(integer_text(n)),
            depth,
            remaining,
        ) == Err::<(JsonV, nat), RuntimeFault>(RuntimeFault::IntegerRange(integer_text(n))),
{
    integer_text_reads_back(n);
}

/// What is read as an integer is made of digits, but for a sign in front.
pub proof fn numerals_are_digits(s: Seq<char>)
    requires
        numeral_value(s) is Some,
    ensures
        s.len() > 0,
        forall|i: int| 1 <= i < s.len() ==> '0' <= #[trigger] s[i] <= '9',
        '0' <= s[0] <= '9' || (s.len() > 1 && (s[0] == '-' || s[0] == '+')),
        s[0] == '-' ==> numeral_value(s)->Some_0 <= 0,
        s[0] != '-' ==> numeral_value(s)->Some_0 >= 0,
{
    if s[0] == '-' || s[0] == '+' {
        assert forall|i: int| 1 <= i < s.len() implies '0' <= #[trigger] s[i] <= '9' by {
            assert(s.skip(1)[i - 1] == s[i]);
        }
    }
}

/// Nothing becomes null, and booleans and texts stay what they are. Values of other kinds are
/// refused under the name of their type.
pub proof fn plain_values_stay(b: bool, s: Seq<char>, depth: nat, remaining: nat)
    requires
        depth <= 64,
        remaining > 0,
    ensures
        converted(StarV::Nothing, depth, remaining) == Ok::<(JsonV, nat), RuntimeFault>(
            (JsonV::Null, (remaining - 1) as nat),
        ),
        converted(StarV::Bool(b), depth, remaining) == Ok::<(JsonV, nat), RuntimeFault>(
            (JsonV::Bool(b), (remaining - 1) as nat),
        ),
        converted(StarV::Text(s), depth, remaining) == Ok::<(JsonV, nat), RuntimeFault>(
            (JsonV::Text(s), (remaining - 1) as nat),
        ),
        converted(StarV::Other(s), depth, remaining) == Err::<(JsonV, nat), RuntimeFault>(
            RuntimeFault::BadValue(s),
        ),
{
}

/// Nothing is converted deeper than 64 levels, or where no more values may be converted.
pub proof fn nothing_is_converted_beyond_the_limits(v: StarV, depth: nat, remaining: nat)
    ensures
        remaining == 0 ==> converted(v, depth, remaining) == Err::<(JsonV, nat), RuntimeFault>(
            RuntimeFault::TooManyValues,
        ),
        remaining > 0 && depth > 64 ==> converted(v, depth, remaining) == Err::<
            (JsonV, nat),
            RuntimeFault,
        >(RuntimeFault::TooDeep),
{
}

proof fn list_parts_are_smaller(l: Seq<StarV>, n: nat, i: int)
    requires
        0 <= i < n <= l.len(),
    ensures
        size(l[i]) <= list_size(l, n),
    decreases n,
{
    if i < n - 1 {
        list_parts_are_smaller(l, (n - 1) as nat, i);
    }
}

proof fn struct_parts_are_smaller(f: Seq<(Seq<char>, StarV)>, n: nat, i: int)
    requires
        0 <= i < n <= f.len(),
    ensures
        size(f[i].1) <= struct_size(f, n),
    decreases n,
{
    if i < n - 1 {
        struct_parts_are_smaller(f, (n - 1) as nat, i);
    }
}

proof fn dict_parts_are_smaller(d: Seq<(DictKeyV, StarV)>, n: nat, i: int)
    requires
        0 <= i < n <= d.len(),
    ensures
        size(d[i].1) <= dict_size(d, n),
    decreases n,
{
    if i < n - 1 {
        dict_parts_are_smaller(d, (n - 1) as nat, i);
    }
}

proof fn levels_count_down(depth: nat)
    requires
        depth <= 64,
    ensures
        levels_at(depth) == 65 - depth,
        levels_at(depth + 1) == 64 - depth,
{
}

/// A list or a tuple that is converted becomes an array of as many values: each of them is what the
/// value in its place alone is converted to.
pub proof fn lists_become_arrays(l: Seq<StarV>, depth: nat, remaining: nat)
    requires
        converted(StarV::List(l), depth, remaining) is Ok,
    ensures
        ({
            let j = (converted(StarV::List(l), depth, remaining)->Ok_0).0;
            &&& j is Array
            &&& j->Array_0.len() == l.len()
            &&& forall|i: int|
                0 <= i < l.len() ==> converted(#[trigger] l[i], depth + 1, remaining) is Ok
                    && j->Array_0[i] == (converted(l[i], depth + 1, remaining)->Ok_0).0
        }),
{
    let v = StarV::List(l);
    limits_are_exact(v, depth, remaining);
    levels_count_down(depth);
    assert forall|i: int| 0 <= i < l.len() implies converted(
        #[trigger] l[i],
        depth + 1,
        remaining,
    ) is Ok && json_of_value(v)->Array_0[i] == (converted(l[i], depth + 1, remaining)->Ok_0).0 by {
        list_parts_are_smaller(l, l.len(), i);
        assert(convertible(l[i]) && has_levels(l[i], levels_at(depth + 1)));
        limits_are_exact(l[i], depth + 1, remaining);
    }
}

/// The name that a key becomes: texts and integers as they are written, and booleans as words.
pub open spec fn name_of_key(k: DictKeyV, name: Seq<char>) -> bool {
    match k {
        DictKeyV::Text(s) => name == s,
        DictKeyV::Int(s) => name == s,
        DictKeyV::Bool(true) => name == "true"@,
        DictKeyV::Bool(false) => name == "false"@,
        DictKeyV::Other => false,
    }
}

/// A dictionary that is converted becomes an object with as many members, in ascending order of
/// their names: each entry is there under the name of its key, as what its value alone is converted
/// to.
pub proof fn dictionaries_become_objects(d: Seq<(DictKeyV, StarV)>, depth: nat, remaining: nat)
    requires
        converted(StarV::Dict(d), depth, remaining) is Ok,
    ensures
        ({
            let j = (converted(StarV::Dict(d), depth, remaining)->Ok_0).0;
            &&& j is Object
            &&& j->Object_0.len() == d.len()
            &&& ascending(names(j->Object_0))
            &&& forall|i: int| 0 <= i < d.len() ==> is_member(j, #[trigger] d[i], depth, remaining)
        }),
{
    let v = StarV::Dict(d);
    limits_are_exact(v, depth, remaining);
    levels_count_down(depth);
    dictionaries_keep_their_entries(d);
    assert forall|i: int| 0 <= i < d.len() implies is_member(
        json_of_value(v),
        #[trigger] d[i],
        depth,
        remaining,
    ) by {
        dict_parts_are_smaller(d, d.len(), i);
        assert(convertible(d[i].1) && has_levels(d[i].1, levels_at(depth + 1)));
        limits_are_exact(d[i].1, depth + 1, remaining);
        let name = crate::convert::key_name(d[i].0)->Some_0;
        let o = json_of_value(v)->Object_0;
        assert(o.contains((name, json_of_value(d[i].1))));
        let p = choose|p: int| 0 <= p < o.len() && o[p] == (name, json_of_value(d[i].1));
        assert(name_of_key(d[i].0, o[p].0));
    }
}

/// Whether an entry is a member of an object.
pub open spec fn is_member(
    j: JsonV,
    entry: (DictKeyV, StarV),
    depth: nat,
    remaining: nat,
) -> bool {
    exists|p: int|
        0 <= p < j->Object_0.len() && name_of_key(entry.0, (#[trigger] j->Object_0[p]).0)
            && converted(entry.1, depth + 1, remaining) is Ok && j->Object_0[p].1 == (converted(
            entry.1,
            depth + 1,
            remaining,
        )->Ok_0).0
}

/// A dictionary whose keys do not all differ as names is refused, and so is one with a key that is
/// neither a text nor an integer nor a boolean.
pub proof fn keys_must_differ(
    d: Seq<(DictKeyV, StarV)>,
    i: int,
    j: int,
    name: Seq<char>,
    depth: nat,
    remaining: nat,
)
    requires
        0 <= i <= j < d.len(),
        d[i].0 is Other || (i < j && name_of_key(d[i].0, name) && name_of_key(d[j].0, name)),
    ensures
        converted(StarV::Dict(d), depth, remaining) is Err,
{
    limits_are_exact(StarV::Dict(d), depth, remaining);
    if named_apart(d, d.len()) {
        assert(crate::convert::key_name(d[i].0) is Some);
        if i < j {
            assert(crate::convert::key_name(d[i].0) != crate::convert::key_name(d[j].0));
        }
    }
}

/// What a dictionary is refused for, all of whose entries but the last can be converted: a key of
/// the wrong kind, what its value is refused for, or a name that is there already.
pub proof fn why_dictionaries_are_refused(
    d: Seq<(DictKeyV, StarV)>,
    last: (DictKeyV, StarV),
    depth: nat,
    remaining: nat,
)
    requires
        converted(StarV::Dict(d), depth, remaining) is Ok,
    ensures
        ({
            let left = (converted(StarV::Dict(d), depth, remaining)->Ok_0).1;
            let r = converted(StarV::Dict(d.push(last)), depth, remaining);
            &&& last.0 is Other ==> r == Err::<(JsonV, nat), RuntimeFault>(RuntimeFault::BadKey)
            &&& !(last.0 is Other) && converted(last.1, depth + 1, left) is Err ==> r == Err::<
                (JsonV, nat),
                RuntimeFault,
            >(converted(last.1, depth + 1, left)->Err_0)
            &&& converted(last.1, depth + 1, left) is Ok ==> forall|i: int, name: Seq<char>|
                0 <= i < d.len() && #[trigger] name_of_key(d[i].0, name) && name_of_key(
                    last.0,
                    name,
                ) ==> r == Err::<(JsonV, nat), RuntimeFault>(RuntimeFault::KeyCollision(name))
        }),
{
    let e = d.push(last);
    let n = d.len();
    let less = (remaining - 1) as nat;
    first_entries_are_the_same(d, last, n, depth, less);
    let left = (converted(StarV::Dict(d), depth, remaining)->Ok_0).1;
    assert(converted_dict(e, n, depth, less) == converted_dict(d, n, depth, less));
    limits_are_exact(StarV::Dict(d), depth, remaining);
    dictionaries_keep_their_entries(d);
    let done = (converted_dict(d, n, depth, less)->Ok_0).0;
    assert forall|i: int, name: Seq<char>|
        0 <= i < d.len() && #[trigger] name_of_key(d[i].0, name) && name_of_key(last.0, name)
            && converted(last.1, depth + 1, left) is Ok implies converted(
        StarV::Dict(e),
        depth,
        remaining,
    ) == Err::<(JsonV, nat), RuntimeFault>(RuntimeFault::KeyCollision(name)) by {
        assert(done.contains((name, json_of_value(d[i].1))));
        let p = choose|p: int| 0 <= p < done.len() && done[p] == (name, json_of_value(d[i].1));
        assert(names(done)[p] == name);
    }
}

proof fn first_entries_are_the_same(
    d: Seq<(DictKeyV, StarV)>,
    last: (DictKeyV, StarV),
    n: nat,
    depth: nat,
    remaining: nat,
)
    requires
        n <= d.len(),
    ensures
        converted_dict(d.push(last), n, depth, remaining) == converted_dict(d, n, depth, remaining),
    decreases n,
{
    if n > 0 {
        first_entries_are_the_same(d, last, (n - 1) as nat, depth, remaining);
        assert(d.push(last)[n - 1] == d[n - 1]);
    }
}

/// Giving an object a value under a name: the value is there, what was there under other names is
/// there still, and nothing else is.
pub proof fn put_over_says(o: Seq<(Seq<char>, JsonV)>, name: Seq<char>, j: JsonV)
    requires
        ascending(names(o)),
    ensures
        ascending(names(put_over(o, name, j))),
        put_over(o, name, j).contains((name, j)),
        forall|x: (Seq<char>, JsonV)|
            x.0 != name ==> (#[trigger] put_over(o, name, j).contains(x) <==> o.contains(x)),
        forall|x: JsonV| #[trigger] put_over(o, name, j).contains((name, x)) ==> x == j,
{
    let keys = names(o);
    slot_divides(keys, name);
    let p = slot(keys, name) as int;
    let r = put_over(o, name, j);
    text_less_irreflexive(name);
    if keys.contains(name) {
        let q = choose|q: int| 0 <= q < keys.len() && keys[q] == name;
        assert(p == q) by {
            if p < q {
                assert(crate::text::text_less(keys[p], keys[q]));
            }
            if q < p {
                assert(crate::text::text_less(keys[q], name));
            }
        }
        assert(names(r) =~= keys);
        assert(r[p] == (name, j));
        assert forall|x: (Seq<char>, JsonV)| x.0 != name implies (#[trigger] r.contains(x)
            <==> o.contains(x)) by {
            if r.contains(x) {
                let i = choose|i: int| 0 <= i < r.len() && r[i] == x;
                assert(o[i] == x);
            }
            if o.contains(x) {
                let i = choose|i: int| 0 <= i < o.len() && o[i] == x;
                assert(names(o)[i] == x.0);
                assert(r[i] == x);
            }
        }
    } else {
        ascending_insert(keys, name);
        put_has(o, name, j);
        assert(names(r) =~= keys.insert(p, name));
        assert forall|x: (Seq<char>, JsonV)| x.0 != name && #[trigger] r.contains(x) implies
            o.contains(x) by {
            let i = choose|i: int| 0 <= i < r.len() && r[i] == x;
            if i < p {
                assert(o[i] == x);
            } else {
                assert(o[i - 1] == x);
            }
        }
    }
    assert forall|x: JsonV| #[trigger] r.contains((name, x)) implies x == j by {
        let i = choose|i: int| 0 <= i < r.len() && r[i] == (name, x);
        assert(names(r)[i] == name);
        assert(names(r)[p] == name);
        if i < p {
            assert(crate::text::text_less(names(r)[i], names(r)[p]));
        } else if p < i {
            assert(crate::text::text_less(names(r)[p], names(r)[i]));
        }
    }
}

/// A struct that is converted becomes an object in ascending order of its names: each field is
/// there under its name, as what its value alone is converted to, and nothing else is there. No two
/// fields have the same name.
pub proof fn structs_become_objects(f: Seq<(Seq<char>, StarV)>, depth: nat, remaining: nat)
    requires
        converted(StarV::Struct(f), depth, remaining) is Ok,
        forall|i: int, j: int| 0 <= i < j < f.len() ==> f[i].0 != f[j].0,
    ensures
        ({
            let j = (converted(StarV::Struct(f), depth, remaining)->Ok_0).0;
            &&& j is Object
            &&& ascending(names(j->Object_0))
            &&& forall|i: int|
                0 <= i < f.len() ==> converted((#[trigger] f[i]).1, depth + 1, remaining) is Ok
                    && j->Object_0.contains(
                    (f[i].0, (converted(f[i].1, depth + 1, remaining)->Ok_0).0),
                )
            &&& forall|x: (Seq<char>, JsonV)| #[trigger]
                j->Object_0.contains(x) ==> exists|i: int|
                    0 <= i < f.len() && (#[trigger] f[i]).0 == x.0
        }),
{
    let v = StarV::Struct(f);
    limits_are_exact(v, depth, remaining);
    levels_count_down(depth);
    first_fields_are_there(f, f.len());
    let o = json_of_value(v)->Object_0;
    assert forall|i: int| 0 <= i < f.len() implies converted(
        (#[trigger] f[i]).1,
        depth + 1,
        remaining,
    ) is Ok && o.contains((f[i].0, (converted(f[i].1, depth + 1, remaining)->Ok_0).0)) by {
        struct_parts_are_smaller(f, f.len(), i);
        assert(convertible(f[i].1) && has_levels(f[i].1, levels_at(depth + 1)));
        limits_are_exact(f[i].1, depth + 1, remaining);
    }
}

proof fn first_fields_are_there(f: Seq<(Seq<char>, StarV)>, n: nat)
    requires
        n <= f.len(),
        forall|i: int, j: int| 0 <= i < j < f.len() ==> f[i].0 != f[j].0,
    ensures
        ascending(names(struct_members(f, n))),
        forall|i: int|
            0 <= i < n ==> struct_members(f, n).contains(
                ((#[trigger] f[i]).0, json_of_value(f[i].1)),
            ),
        forall|x: (Seq<char>, JsonV)| #[trigger]
            struct_members(f, n).contains(x) ==> exists|i: int|
                0 <= i < n && (#[trigger] f[i]).0 == x.0,
    decreases n,
{
    if n > 0 {
        let m = (n - 1) as nat;
        first_fields_are_there(f, m);
        let done = struct_members(f, m);
        put_over_says(done, f[n - 1].0, json_of_value(f[n - 1].1));
        let r = struct_members(f, n);
        assert forall|i: int| 0 <= i < n implies r.contains(
            ((#[trigger] f[i]).0, json_of_value(f[i].1)),
        ) by {
            if i < m {
                assert(done.contains((f[i].0, json_of_value(f[i].1))));
            }
        }
        assert forall|x: (Seq<char>, JsonV)| #[trigger] r.contains(x) implies exists|i: int|
            0 <= i < n && (#[trigger] f[i]).0 == x.0 by {
            if x.0 == f[n - 1].0 {
                assert(0 <= n - 1 < n && f[n - 1].0 == x.0);
            } else {
                assert(done.contains(x));
            }
        }
    } else {
        assert(names(struct_members(f, n)) =~= Seq::empty());
    }
}

/// Each value counts once: a list, a struct or a dictionary with one value more leaves as many
/// fewer values as that value leaves when it is converted alone.
pub proof fn values_count_once(
    l: Seq<StarV>,
    f: Seq<(Seq<char>, StarV)>,
    d: Seq<(DictKeyV, StarV)>,
    v: StarV,
    name: Seq<char>,
    key: DictKeyV,
    depth: nat,
    remaining: nat,
)
    ensures
        left_by(StarV::List(Seq::empty()), depth, remaining) matches Some(x) ==> x + 1 == remaining,
        left_by(StarV::Struct(Seq::empty()), depth, remaining) matches Some(x) ==> x + 1
            == remaining,
        left_by(StarV::Dict(Seq::empty()), depth, remaining) matches Some(x) ==> x + 1 == remaining,
        (left_by(StarV::List(l.push(v)), depth, remaining), left_by(
            StarV::List(l),
            depth,
            remaining,
        ), left_by(v, depth + 1, remaining)) matches (Some(x), Some(y), Some(z)) ==> y - x
            == remaining - z,
        (left_by(StarV::Struct(f.push((name, v))), depth, remaining), left_by(
            StarV::Struct(f),
            depth,
            remaining,
        ), left_by(v, depth + 1, remaining)) matches (Some(x), Some(y), Some(z)) ==> y - x
            == remaining - z,
        (left_by(StarV::Dict(d.push((key, v))), depth, remaining), left_by(
            StarV::Dict(d),
            depth,
            remaining,
        ), left_by(v, depth + 1, remaining)) matches (Some(x), Some(y), Some(z)) ==> y - x
            == remaining - z,
{
    limits_are_exact(StarV::List(Seq::empty()), depth, remaining);
    limits_are_exact(StarV::Struct(Seq::empty()), depth, remaining);
    limits_are_exact(StarV::Dict(Seq::empty()), depth, remaining);
    limits_are_exact(StarV::List(l), depth, remaining);
    limits_are_exact(StarV::Struct(f), depth, remaining);
    limits_are_exact(StarV::Dict(d), depth, remaining);
    limits_are_exact(StarV::List(l.push(v)), depth, remaining);
    limits_are_exact(StarV::Struct(f.push((name, v))), depth, remaining);
    limits_are_exact(StarV::Dict(d.push((key, v))), depth, remaining);
    limits_are_exact(v, depth + 1, remaining);
    list_front(l, v, l.len());
    struct_front(f, (name, v), f.len());
    dict_front(d, (key, v), d.len());
}

/// How many more values may be converted once this one was.
pub open spec fn left_by(v: StarV, depth: nat, remaining: nat) -> Option<nat> {
    match converted(v, depth, remaining) {
        Ok((_, left)) => Some(left),
        Err(_) => None,
    }
}

proof fn list_front(l: Seq<StarV>, v: StarV, n: nat)
    requires
        n <= l.len(),
    ensures
        list_size(l.push(v), n) == list_size(l, n),
    decreases n,
{
    if n > 0 {
        list_front(l, v, (n - 1) as nat);
        assert(l.push(v)[n - 1] == l[n - 1]);
    }
}

proof fn struct_front(f: Seq<(Seq<char>, StarV)>, x: (Seq<char>, StarV), n: nat)
    requires
        n <= f.len(),
    ensures
        struct_size(f.push(x), n) == struct_size(f, n),
    decreases n,
{
    if n > 0 {
        struct_front(f, x, (n - 1) as nat);
        assert(f.push(x)[n - 1] == f[n - 1]);
    }
}

proof fn dict_front(d: Seq<(DictKeyV, StarV)>, x: (DictKeyV, StarV), n: nat)
    requires
        n <= d.len(),
    ensures
        dict_size(d.push(x), n) == dict_size(d, n),
    decreases n,
{
    if n > 0 {
        dict_front(d, x, (n - 1) as nat);
        assert(d.push(x)[n - 1] == d[n - 1]);
    }
}

/// A value inside so many lists.
pub open spec fn nested(v: StarV, levels: nat) -> StarV
    decreases levels,
{
    if levels == 0 {
        v
    } else {
        StarV::List(seq![nested(v, (levels - 1) as nat)])
    }
}

/// A value inside lists is converted down to 64 lists, and no deeper.
pub proof fn lists_nest_64_levels(levels: nat, remaining: nat)
    requires
        remaining > levels,
    ensures
        converted(nested(StarV::Nothing, levels), 0, remaining) is Ok <==> levels <= 64,
        levels > 64 ==> converted(nested(StarV::Nothing, levels), 0, remaining) == Err::<
            (JsonV, nat),
            RuntimeFault,
        >(RuntimeFault::TooDeep),
{
    nests(levels, 65);
    limits_are_exact(nested(StarV::Nothing, levels), 0, remaining);
    levels_count_down(0);
}

proof fn nests(levels: nat, allowed: nat)
    ensures
        has_levels(nested(StarV::Nothing, levels), allowed) <==> levels < allowed,
        convertible(nested(StarV::Nothing, levels)),
        size(nested(StarV::Nothing, levels)) == levels + 1,
    decreases levels,
{
    if levels > 0 {
        let less = (levels - 1) as nat;
        nests(less, if allowed > 0 {
            (allowed - 1) as nat
        } else {
            0
        });
        let l = seq![nested(StarV::Nothing, less)];
        assert(l[0] == nested(StarV::Nothing, less));
        assert(list_size(l, 0) == 0);
        assert(list_size(l, 1) == levels);
        assert(convertible(StarV::List(l)) == convertible(l[0]));
        let whole = StarV::List(l);
        assert(whole == nested(StarV::Nothing, levels));
        assert(has_levels(whole, allowed) <==> allowed > 0 && has_levels(
            l[0],
            (allowed - 1) as nat,
        )) by {
            reveal_with_fuel(has_levels, 2);
            assert(forall|i: int| 0 <= i < l.len() ==> #[trigger] l[i] == l[0]);
        }
    }
}

/// What an evaluated configuration comes to: the value of its symbol, converted with a million
/// values and 65 levels at most, or why it is not; or that it has no such symbol.
pub proof fn configurations_come_to_their_symbol(
    module: starlark::environment::FrozenModule,
    symbol: Seq<char>,
)
    ensures
        exported_value(module, symbol, 65) is None ==> value_of(module, symbol)
            == RequestV::Failed(RuntimeFault::NoSymbol(symbol)),
        exported_value(module, symbol, 65) matches Some(v) ==> match converted(v, 0, 1_000_000) {
            Ok((j, _)) => value_of(module, symbol) == RequestV::Finished(j),
            Err(e) => value_of(module, symbol) == RequestV::Failed(e),
        },
{
    assert(VALUE_LIMIT == 1_000_000);
    levels_count_down(0);
}

/// The digits of a decimal numeral: at each place the digit of the number for its power of ten, and
/// none in front that are not needed.
pub proof fn decimal_digits(n: nat, j: nat)
    ensures
        decimal_text(n).len() > 0,
        n > 0 ==> vstd::arithmetic::power::pow(10, (decimal_text(n).len() - 1) as nat) <= n,
        n < vstd::arithmetic::power::pow(10, decimal_text(n).len()),
        n == 0 ==> decimal_text(n).len() == 1,
        j < decimal_text(n).len() ==> decimal_text(n)[decimal_text(n).len() - 1 - j] == (('0' as int)
            + (n as int / vstd::arithmetic::power::pow(10, j)) % 10) as char,
    decreases n,
{
    use_powers();
    let t = decimal_text(n);
    if n < 10 {
        assert(t.len() == 1);
        if j == 0 {
            assert(n as int / 1 == n);
        }
    } else {
        let k = n / 10;
        let up = decimal_text(k);
        let less = if j > 0 {
            (j - 1) as nat
        } else {
            0nat
        };
        decimal_digits(k, less);
        assert(t.len() == up.len() + 1);
        vstd::arithmetic::power::lemma_pow_adds(10, 1, up.len());
        vstd::arithmetic::power::lemma_pow_adds(10, 1, (up.len() - 1) as nat);
        let p = vstd::arithmetic::power::pow(10, (up.len() - 1) as nat);
        let q = vstd::arithmetic::power::pow(10, up.len());
        assert(p <= k);
        assert(vstd::arithmetic::power::pow(10, t.len()) == 10 * q);
        assert(q == 10 * p);
        assert(k < q);
        if j > 0 {
            let r = vstd::arithmetic::power::pow(10, less);
            vstd::arithmetic::power::lemma_pow_adds(10, 1, less);
            vstd::arithmetic::power::lemma_pow_positive(10, less);
            assert(vstd::arithmetic::power::pow(10, j) == 10 * r);
            vstd::arithmetic::div_mod::lemma_div_denominator(n as int, 10, r);
            assert(n as int / (10 * r) == (k as int) / r);
            if j < t.len() {
                assert(t[t.len() - 1 - j] == up[up.len() - 1 - less]);
            }
        } else {
            assert(n as int / 1 == n);
        }
    }
}

proof fn use_powers()
    ensures
        vstd::arithmetic::power::pow(10, 0) == 1,
        vstd::arithmetic::power::pow(10, 1) == 10,
{
    vstd::arithmetic::power::lemma_pow0(10);
    vstd::arithmetic::power::lemma_pow1(10);
}

/// A negative integer is written with a minus in front, and any other without a sign.
pub proof fn integers_are_signed(n: nat)
    ensures
        integer_text(n as int) == decimal_text(n),
        n > 0 ==> integer_text(-(n as int)) == seq!['-'] + decimal_text(n),
{
    reveal_strlit("-");
    assert("-"@ =~= seq!['-']);
}

/// A list with one value more is converted if the list is and then the value is, and comes to what the
/// list comes to with what the value comes to behind it. It is refused for what is refused first. An
/// empty list is converted.
pub proof fn lists_grow(l: Seq<StarV>, v: StarV, depth: nat, remaining: nat)
    requires
        depth <= 64,
        remaining > 0,
    ensures
        converted(StarV::List(Seq::empty()), depth, remaining) == Ok::<(JsonV, nat), RuntimeFault>(
            (JsonV::Array(Seq::empty()), (remaining - 1) as nat),
        ),
        match converted(StarV::List(l), depth, remaining) {
            Ok((j, left)) => j is Array && match converted(v, depth + 1, left) {
                Ok((x, less)) => converted(StarV::List(l.push(v)), depth, remaining) == Ok::<
                    (JsonV, nat),
                    RuntimeFault,
                >((JsonV::Array(j->Array_0.push(x)), less)),
                Err(e) => converted(StarV::List(l.push(v)), depth, remaining) == Err::<
                    (JsonV, nat),
                    RuntimeFault,
                >(e),
            },
            Err(e) => converted(StarV::List(l.push(v)), depth, remaining) == Err::<
                (JsonV, nat),
                RuntimeFault,
            >(e),
        },
{
    first_values_are_the_same(l, v, l.len(), depth, (remaining - 1) as nat);
    assert(l.push(v)[l.len() as int] == v);
}

proof fn first_values_are_the_same(l: Seq<StarV>, v: StarV, n: nat, depth: nat, remaining: nat)
    requires
        n <= l.len(),
    ensures
        converted_list(l.push(v), n, depth, remaining) == converted_list(l, n, depth, remaining),
    decreases n,
{
    if n > 0 {
        first_values_are_the_same(l, v, (n - 1) as nat, depth, remaining);
        assert(l.push(v)[n - 1] == l[n - 1]);
    }
}

/// Whether an object is another one with this member, in ascending order of names: what was there under
/// other names is there, and nothing else.
pub open spec fn gains(j: JsonV, name: Seq<char>, x: JsonV, k: JsonV) -> bool {
    &&& j is Object && k is Object
    &&& ascending(names(k->Object_0))
    &&& k->Object_0.contains((name, x))
    &&& forall|y: (Seq<char>, JsonV)|
        y.0 != name ==> (#[trigger] k->Object_0.contains(y) <==> j->Object_0.contains(y))
}

/// A struct with one field more is converted if the struct is and then the value of the field is, and
/// then has this member too. It is refused for what is refused first. No two fields have the same name.
pub proof fn structs_grow(
    f: Seq<(Seq<char>, StarV)>,
    name: Seq<char>,
    v: StarV,
    depth: nat,
    remaining: nat,
)
    requires
        depth <= 64,
        remaining > 0,
        forall|i: int, j: int| 0 <= i < j < f.len() ==> f[i].0 != f[j].0,
    ensures
        converted(StarV::Struct(Seq::empty()), depth, remaining) == Ok::<
            (JsonV, nat),
            RuntimeFault,
        >((JsonV::Object(Seq::empty()), (remaining - 1) as nat)),
        ({
            let r = converted(StarV::Struct(f.push((name, v))), depth, remaining);
            match converted(StarV::Struct(f), depth, remaining) {
                Ok((j, left)) => match converted(v, depth + 1, left) {
                    Ok((x, less)) => r matches Ok((k, rest)) && rest == less && gains(j, name, x, k),
                    Err(e) => r == Err::<(JsonV, nat), RuntimeFault>(e),
                },
                Err(e) => r == Err::<(JsonV, nat), RuntimeFault>(e),
            }
        }),
{
    let less = (remaining - 1) as nat;
    let g = f.push((name, v));
    first_struct_fields_are_the_same(f, (name, v), f.len(), depth, less);
    assert(g[f.len() as int] == (name, v));
    if let Ok((j, left)) = converted(StarV::Struct(f), depth, remaining) {
        structs_become_objects(f, depth, remaining);
        if let Ok((x, _)) = converted(v, depth + 1, left) {
            put_over_says(j->Object_0, name, x);
        }
    }
}

proof fn first_struct_fields_are_the_same(
    f: Seq<(Seq<char>, StarV)>,
    x: (Seq<char>, StarV),
    n: nat,
    depth: nat,
    remaining: nat,
)
    requires
        n <= f.len(),
    ensures
        converted_struct(f.push(x), n, depth, remaining) == converted_struct(
            f,
            n,
            depth,
            remaining,
        ),
    decreases n,
{
    if n > 0 {
        first_struct_fields_are_the_same(f, x, (n - 1) as nat, depth, remaining);
        assert(f.push(x)[n - 1] == f[n - 1]);
    }
}

/// A dictionary with one entry more is converted if the dictionary is, the value of the entry is, and
/// its key is a name that no other key has, and then has this member too. It is refused for what is
/// refused first.
pub proof fn dictionaries_grow(
    d: Seq<(DictKeyV, StarV)>,
    key: DictKeyV,
    name: Seq<char>,
    v: StarV,
    depth: nat,
    remaining: nat,
)
    requires
        depth <= 64,
        remaining > 0,
    ensures
        converted(StarV::Dict(Seq::empty()), depth, remaining) == Ok::<(JsonV, nat), RuntimeFault>(
            (JsonV::Object(Seq::empty()), (remaining - 1) as nat),
        ),
        ({
            let r = converted(StarV::Dict(d.push((key, v))), depth, remaining);
            match converted(StarV::Dict(d), depth, remaining) {
                Ok((j, left)) => converted(v, depth + 1, left) is Ok && name_of_key(key, name) && (
                forall|i: int| 0 <= i < d.len() ==> !name_of_key((#[trigger] d[i]).0, name)) ==> (
                r matches Ok((k, rest)) && rest == (converted(v, depth + 1, left)->Ok_0).1 && gains(
                    j,
                    name,
                    (converted(v, depth + 1, left)->Ok_0).0,
                    k,
                )),
                Err(e) => r == Err::<(JsonV, nat), RuntimeFault>(e),
            }
        }),
{
    let less = (remaining - 1) as nat;
    let g = d.push((key, v));
    first_entries_are_the_same(d, (key, v), d.len(), depth, less);
    assert(g[d.len() as int] == (key, v));
    if let Ok((j, left)) = converted(StarV::Dict(d), depth, remaining) {
        limits_are_exact(StarV::Dict(d), depth, remaining);
        dictionaries_keep_their_entries(d);
        let o = j->Object_0;
        assert(j == json_of_value(StarV::Dict(d)));
        if converted(v, depth + 1, left) is Ok && name_of_key(key, name) && (forall|i: int|
            0 <= i < d.len() ==> !name_of_key((#[trigger] d[i]).0, name)) {
            let x = (converted(v, depth + 1, left)->Ok_0).0;
            assert(!names(o).contains(name)) by {
                if names(o).contains(name) {
                    crate::values::names_are_of_keys(d, d.len(), name);
                    let i = choose|i: int|
                        0 <= i < d.len() && crate::convert::key_name((#[trigger] d[i]).0) == Some(
                            name,
                        );
                    assert(name_of_key(d[i].0, name));
                }
            }
            put_over_says(o, name, x);
            assert(put_over(o, name, x) == crate::json::put(o, name, x));
        }
    }
}

} // verus!
