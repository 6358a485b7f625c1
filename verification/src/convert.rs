//! Starlark values as JSON. At most a million values are converted, and no deeper than 64 levels.
use crate::fault::RuntimeError;
use crate::json::{number_of_signed, number_of_unsigned, put_name, put_value, Json};
use crate::star::{open_value, DictKey, Shape};
use crate::text::{read_numeral, text_eq, Numeral};
use starlark::values::OwnedFrozenValue;
use vstd::prelude::*;

verus! {

use crate::fault::RuntimeFault;
use crate::json::{
    array_view, array_views, names, number_text, object_view, object_views, put,
    put_over, JsonV,
};
use crate::order::{ascending, slot, slot_divides};
use crate::star::{shape_value, star_value, DictKeyV, StarV};
use crate::text::{integer_text, integer_text_reads_back, numeral_value, text_less_irreflexive};

/// How deep values are converted.
pub const DEPTH_LIMIT: usize = 64;

/// How many values are converted.
pub const VALUE_LIMIT: usize = 1_000_000;

/// The name that a key of a dictionary gets in an object.
pub open spec fn key_name(k: DictKeyV) -> Option<Seq<char>> {
    match k {
        DictKeyV::Text(s) => Some(s),
        DictKeyV::Int(s) => Some(s),
        DictKeyV::Bool(b) => Some(
            if b {
                "true"@
            } else {
                "false"@
            },
        ),
        DictKeyV::Other => None,
    }
}

/// An integer as JSON, if it fits in 64 bits, signed or unsigned.
pub open spec fn integer_json(repr: Seq<char>) -> Result<JsonV, RuntimeFault> {
    match numeral_value(repr) {
        Some(n) => if i64::MIN <= n <= u64::MAX {
            Ok(JsonV::Number(integer_text(n)))
        } else {
            Err(RuntimeFault::IntegerRange(repr))
        },
        None => Err(RuntimeFault::IntegerRange(repr)),
    }
}

/// A float as JSON: what is not finite is a text, as in ProtoJSON.
pub open spec fn float_json(repr: Seq<char>, number: Option<serde_json::Number>) -> Result<
    JsonV,
    RuntimeFault,
> {
    if repr == "nan"@ {
        Ok(JsonV::Text("NaN"@))
    } else if repr == "+inf"@ {
        Ok(JsonV::Text("Infinity"@))
    } else if repr == "-inf"@ {
        Ok(JsonV::Text("-Infinity"@))
    } else {
        match number {
            Some(n) => Ok(JsonV::Number(number_text(n))),
            None => Err(RuntimeFault::BadValue("float"@)),
        }
    }
}

/// What a value is converted to, and how many more may be converted.
pub open spec fn converted(v: StarV, depth: nat, remaining: nat) -> Result<
    (JsonV, nat),
    RuntimeFault,
>
    decreases v, 0nat,
{
    if remaining == 0 {
        Err(RuntimeFault::TooManyValues)
    } else if depth > DEPTH_LIMIT {
        Err(RuntimeFault::TooDeep)
    } else {
        let left = (remaining - 1) as nat;
        match v {
            StarV::Deep => Err(RuntimeFault::TooDeep),
            StarV::Nothing => Ok((JsonV::Null, left)),
            StarV::Bool(b) => Ok((JsonV::Bool(b), left)),
            StarV::Text(s) => Ok((JsonV::Text(s), left)),
            StarV::Int(repr) => match integer_json(repr) {
                Ok(j) => Ok((j, left)),
                Err(e) => Err(e),
            },
            StarV::Float(repr, number) => match float_json(repr, number) {
                Ok(j) => Ok((j, left)),
                Err(e) => Err(e),
            },
            StarV::List(l) => match converted_list(l, l.len(), depth, left) {
                Ok((a, r)) => Ok((JsonV::Array(a), r)),
                Err(e) => Err(e),
            },
            StarV::Struct(f) => match converted_struct(f, f.len(), depth, left) {
                Ok((o, r)) => Ok((JsonV::Object(o), r)),
                Err(e) => Err(e),
            },
            StarV::Dict(d) => match converted_dict(d, d.len(), depth, left) {
                Ok((o, r)) => Ok((JsonV::Object(o), r)),
                Err(e) => Err(e),
            },
            StarV::Other(t) => Err(RuntimeFault::BadValue(t)),
        }
    }
}

/// What the first `n` values of a list are converted to.
pub open spec fn converted_list(l: Seq<StarV>, n: nat, depth: nat, remaining: nat) -> Result<
    (Seq<JsonV>, nat),
    RuntimeFault,
>
    decreases l, n,
{
    if n == 0 || n > l.len() {
        Ok((Seq::empty(), remaining))
    } else {
        match converted_list(l, (n - 1) as nat, depth, remaining) {
            Err(e) => Err(e),
            Ok((done, left)) => match converted(l[n - 1], depth + 1, left) {
                Err(e) => Err(e),
                Ok((j, r)) => Ok((done.push(j), r)),
            },
        }
    }
}

/// What the first `n` fields of a struct are converted to.
pub open spec fn converted_struct(
    f: Seq<(Seq<char>, StarV)>,
    n: nat,
    depth: nat,
    remaining: nat,
) -> Result<(Seq<(Seq<char>, JsonV)>, nat), RuntimeFault>
    decreases f, n,
{
    if n == 0 || n > f.len() {
        Ok((Seq::empty(), remaining))
    } else {
        match converted_struct(f, (n - 1) as nat, depth, remaining) {
            Err(e) => Err(e),
            Ok((done, left)) => match converted(f[n - 1].1, depth + 1, left) {
                Err(e) => Err(e),
                Ok((j, r)) => Ok((put_over(done, f[n - 1].0, j), r)),
            },
        }
    }
}

/// What the first `n` entries of a dictionary are converted to.
pub open spec fn converted_dict(
    d: Seq<(DictKeyV, StarV)>,
    n: nat,
    depth: nat,
    remaining: nat,
) -> Result<(Seq<(Seq<char>, JsonV)>, nat), RuntimeFault>
    decreases d, n,
{
    if n == 0 || n > d.len() {
        Ok((Seq::empty(), remaining))
    } else {
        match converted_dict(d, (n - 1) as nat, depth, remaining) {
            Err(e) => Err(e),
            Ok((done, left)) => match key_name(d[n - 1].0) {
                None => Err(RuntimeFault::BadKey),
                Some(name) => match converted(d[n - 1].1, depth + 1, left) {
                    Err(e) => Err(e),
                    Ok((j, r)) => if names(done).contains(name) {
                        Err(RuntimeFault::KeyCollision(name))
                    } else {
                        Ok((put(done, name, j), r))
                    },
                },
            },
        }
    }
}

/// How many more values may be converted once a conversion has ended, in an error or not.
pub open spec fn left_over(v: StarV, depth: nat, remaining: nat) -> nat
    decreases v, 0nat,
{
    if remaining == 0 {
        0
    } else if depth > DEPTH_LIMIT {
        (remaining - 1) as nat
    } else {
        let left = (remaining - 1) as nat;
        match v {
            StarV::List(l) => left_over_list(l, l.len(), depth, left),
            StarV::Struct(f) => left_over_struct(f, f.len(), depth, left),
            StarV::Dict(d) => left_over_dict(d, d.len(), depth, left),
            _ => left,
        }
    }
}

/// The same after the first `n` values of a list, as far as the conversion gets.
pub open spec fn left_over_list(l: Seq<StarV>, n: nat, depth: nat, remaining: nat) -> nat
    decreases l, n,
{
    if n == 0 || n > l.len() {
        remaining
    } else {
        match converted_list(l, (n - 1) as nat, depth, remaining) {
            Err(_) => left_over_list(l, (n - 1) as nat, depth, remaining),
            Ok((_, left)) => left_over(l[n - 1], depth + 1, left),
        }
    }
}

/// The same after the first `n` fields of a struct.
pub open spec fn left_over_struct(
    f: Seq<(Seq<char>, StarV)>,
    n: nat,
    depth: nat,
    remaining: nat,
) -> nat
    decreases f, n,
{
    if n == 0 || n > f.len() {
        remaining
    } else {
        match converted_struct(f, (n - 1) as nat, depth, remaining) {
            Err(_) => left_over_struct(f, (n - 1) as nat, depth, remaining),
            Ok((_, left)) => left_over(f[n - 1].1, depth + 1, left),
        }
    }
}

/// The same after the first `n` entries of a dictionary. The value of a key that can be no name is
/// not converted.
pub open spec fn left_over_dict(
    d: Seq<(DictKeyV, StarV)>,
    n: nat,
    depth: nat,
    remaining: nat,
) -> nat
    decreases d, n,
{
    if n == 0 || n > d.len() {
        remaining
    } else {
        match converted_dict(d, (n - 1) as nat, depth, remaining) {
            Err(_) => left_over_dict(d, (n - 1) as nat, depth, remaining),
            Ok((_, left)) => if key_name(d[n - 1].0) is None {
                left
            } else {
                left_over(d[n - 1].1, depth + 1, left)
            },
        }
    }
}

/// Whether a conversion came out as it should.
pub open spec fn is_converted(
    r: Result<Json, RuntimeError>,
    remaining: nat,
    want: Result<(JsonV, nat), RuntimeFault>,
) -> bool {
    match (r, want) {
        (Ok(j), Ok((v, left))) => j@ == v && remaining == left && j@.ordered(),
        (Err(e), Err(f)) => e@ == f,
        _ => false,
    }
}

proof fn list_stops(l: Seq<StarV>, k: nat, n: nat, depth: nat, remaining: nat)
    requires
        k <= n <= l.len(),
        converted_list(l, k, depth, remaining) is Err,
    ensures
        converted_list(l, n, depth, remaining) == converted_list(l, k, depth, remaining),
        left_over_list(l, n, depth, remaining) == left_over_list(l, k, depth, remaining),
    decreases n,
{
    if k < n {
        list_stops(l, k, (n - 1) as nat, depth, remaining);
    }
}

proof fn struct_stops(f: Seq<(Seq<char>, StarV)>, k: nat, n: nat, depth: nat, remaining: nat)
    requires
        k <= n <= f.len(),
        converted_struct(f, k, depth, remaining) is Err,
    ensures
        converted_struct(f, n, depth, remaining) == converted_struct(f, k, depth, remaining),
        left_over_struct(f, n, depth, remaining) == left_over_struct(f, k, depth, remaining),
    decreases n,
{
    if k < n {
        struct_stops(f, k, (n - 1) as nat, depth, remaining);
    }
}

proof fn dict_stops(d: Seq<(DictKeyV, StarV)>, k: nat, n: nat, depth: nat, remaining: nat)
    requires
        k <= n <= d.len(),
        converted_dict(d, k, depth, remaining) is Err,
    ensures
        converted_dict(d, n, depth, remaining) == converted_dict(d, k, depth, remaining),
        left_over_dict(d, n, depth, remaining) == left_over_dict(d, k, depth, remaining),
    decreases n,
{
    if k < n {
        dict_stops(d, k, (n - 1) as nat, depth, remaining);
    }
}

fn integer_to_json(repr: String) -> (r: Result<Json, RuntimeError>)
    ensures
        match (r, integer_json(repr@)) {
            (Ok(j), Ok(v)) => j@ == v && j@.ordered(),
            (Err(e), Err(f)) => e@ == f,
            _ => false,
        },
{
    match read_numeral(repr.as_str()) {
        Some(Numeral::Signed(n)) => Ok(Json::Number(number_of_signed(n))),
        Some(Numeral::Unsigned(n)) => Ok(Json::Number(number_of_unsigned(n))),
        None => Err(RuntimeError::IntegerRange(repr)),
    }
}

fn float_to_json(repr: &str, number: Option<serde_json::Number>) -> (r: Result<Json, RuntimeError>)
    ensures
        match (r, float_json(repr@, number)) {
            (Ok(j), Ok(v)) => j@ == v && j@.ordered(),
            (Err(e), Err(f)) => e@ == f,
            _ => false,
        },
{
    if text_eq(repr, "nan") {
        Ok(Json::Text("NaN".to_owned()))
    } else if text_eq(repr, "+inf") {
        Ok(Json::Text("Infinity".to_owned()))
    } else if text_eq(repr, "-inf") {
        Ok(Json::Text("-Infinity".to_owned()))
    } else {
        match number {
            Some(n) => Ok(Json::Number(n)),
            None => Err(RuntimeError::BadValue("float".to_owned())),
        }
    }
}

fn key_to_name(k: &DictKey) -> (r: Option<String>)
    ensures
        crate::text::optional_text(r) == key_name(k@),
{
    match k {
        DictKey::Text(s) => Some(s.clone()),
        DictKey::Int(s) => Some(s.clone()),
        DictKey::Bool(b) => Some(
            if *b {
                "true".to_owned()
            } else {
                "false".to_owned()
            },
        ),
        DictKey::Other => None,
    }
}

/// The levels of a value that are looked at, at this depth.
pub open spec fn levels_at(depth: nat) -> nat {
    if depth <= DEPTH_LIMIT {
        (DEPTH_LIMIT + 1 - depth) as nat
    } else {
        0
    }
}

/// Converts a value to JSON.
pub fn to_json(value: &OwnedFrozenValue, depth: usize, remaining: &mut usize) -> (r: Result<
    Json,
    RuntimeError,
>)
    ensures
        is_converted(
            r,
            *final(remaining) as nat,
            converted(
                star_value(*value, levels_at(depth as nat)),
                depth as nat,
                *old(remaining) as nat,
            ),
        ),
        *final(remaining) == left_over(
            star_value(*value, levels_at(depth as nat)),
            depth as nat,
            *old(remaining) as nat,
        ),
    decreases levels_at(depth as nat), 1nat,
{
    let ghost levels = levels_at(depth as nat);
    if *remaining == 0 {
        return Err(RuntimeError::TooManyValues);
    }
    *remaining = *remaining - 1;
    if depth > DEPTH_LIMIT {
        return Err(RuntimeError::TooDeep);
    }
    let shape = open_value(value);
    assert(star_value(*value, levels) == shape_value(shape, (levels - 1) as nat));
    match shape {
        Shape::Nothing => Ok(Json::Null),
        Shape::Bool(b) => Ok(Json::Bool(b)),
        Shape::Text(s) => Ok(Json::Text(s)),
        Shape::Int(repr) => integer_to_json(repr),
        Shape::Float(repr, number) => float_to_json(repr.as_str(), number),
        Shape::List(items) => list_to_json(&items, depth, remaining),
        Shape::Struct(fields) => struct_to_json(&fields, depth, remaining),
        Shape::Dict(entries) => dict_to_json(&entries, depth, remaining),
        Shape::Other(t) => Err(RuntimeError::BadValue(t)),
    }
}

fn list_to_json(items: &Vec<OwnedFrozenValue>, depth: usize, remaining: &mut usize) -> (r: Result<
    Json,
    RuntimeError,
>)
    requires
        depth <= DEPTH_LIMIT,
    ensures
        match (
            r,
            converted_list(
                Seq::new(items@.len(), |i: int| star_value(items@[i], levels_at(depth as nat + 1))),
                items@.len(),
                depth as nat,
                *old(remaining) as nat,
            ),
        ) {
            (Ok(j), Ok((a, left))) => j@ == JsonV::Array(a) && *final(remaining) == left
                && j@.ordered(),
            (Err(e), Err(f)) => e@ == f,
            _ => false,
        },
        *final(remaining) == left_over_list(
            Seq::new(items@.len(), |i: int| star_value(items@[i], levels_at(depth as nat + 1))),
            items@.len(),
            depth as nat,
            *old(remaining) as nat,
        ),
    decreases levels_at(depth as nat), 0nat,
{
    let ghost levels = levels_at(depth as nat + 1);
    let ghost all = Seq::new(items@.len(), |i: int| star_value(items@[i], levels));
    let ghost start = *remaining as nat;
    let mut out: Vec<Json> = Vec::new();
    assert(array_view(out@) =~= Seq::empty());
    let mut i: usize = 0;
    while i < items.len()
        invariant
            i <= items@.len(),
            depth <= DEPTH_LIMIT,
            levels == levels_at(depth as nat + 1),
            all == Seq::new(items@.len(), |i: int| star_value(items@[i], levels)),
            start == *old(remaining),
            forall|k: int| 0 <= k < out@.len() ==> (#[trigger] out@[k])@.ordered(),
            left_over_list(all, i as nat, depth as nat, start) == *remaining as nat,
            converted_list(all, i as nat, depth as nat, start) == Ok::<
                (Seq<JsonV>, nat),
                RuntimeFault,
            >((array_view(out@), *remaining as nat)),
        decreases items@.len() - i,
    {
        assert(all[i as int] == star_value(items@[i as int], levels));
        let item = match to_json(&items[i], depth + 1, remaining) {
            Ok(item) => item,
            Err(e) => {
                proof {
                    list_stops(all, (i + 1) as nat, all.len(), depth as nat, start);
                }
                return Err(e);
            },
        };
        let ghost before = array_view(out@);
        let ghost iv = item@;
        out.push(item);
        assert(array_view(out@) =~= before.push(iv));
        i += 1;
    }
    let r = Json::Array(out);
    proof {
        array_views(r);
        assert forall|k: int| 0 <= k < r@->Array_0.len() implies (
        #[trigger] r@->Array_0[k]).ordered() by {
            assert(r@->Array_0[k] == r->Array_0@[k]@);
        }
    }
    Ok(r)
}

/// All values of an object are in order.
spec fn values_ordered(o: Seq<(Seq<char>, JsonV)>) -> bool {
    forall|k: int| 0 <= k < o.len() ==> (#[trigger] o[k]).1.ordered()
}

proof fn put_keeps_order(o: Seq<(Seq<char>, JsonV)>, name: Seq<char>, v: JsonV)
    requires
        values_ordered(o),
        v.ordered(),
    ensures
        values_ordered(put(o, name, v)),
        values_ordered(put_over(o, name, v)),
{
    crate::order::slot_divides(names(o), name);
    let p = crate::order::slot(names(o), name) as int;
    let q = put(o, name, v);
    assert forall|k: int| 0 <= k < q.len() implies (#[trigger] q[k]).1.ordered() by {
        if k < p {
            assert(q[k] == o[k]);
        } else if k > p {
            assert(q[k] == o[k - 1]);
        }
    }
    if names(o).contains(name) {
        let i = choose|i: int| 0 <= i < names(o).len() && names(o)[i] == name;
        crate::text::text_less_irreflexive(name);
        assert(p <= i);
        let u = o.update(p, (name, v));
        assert forall|k: int| 0 <= k < u.len() implies (#[trigger] u[k]).1.ordered() by {
            if k != p {
                assert(u[k] == o[k]);
            } else if p < o.len() {
                assert(u[k] == (name, v));
            }
        }
    }
}

fn object_json(out: Vec<(String, Json)>) -> (r: Json)
    requires
        ascending(names(object_view(out@))),
        values_ordered(object_view(out@)),
    ensures
        r@ == JsonV::Object(object_view(out@)),
        r@.ordered(),
{
    let r = Json::Object(out);
    proof {
        object_views(r);
    }
    r
}

fn struct_to_json(
    fields: &Vec<(String, OwnedFrozenValue)>,
    depth: usize,
    remaining: &mut usize,
) -> (r: Result<Json, RuntimeError>)
    requires
        depth <= DEPTH_LIMIT,
    ensures
        match (
            r,
            converted_struct(
                Seq::new(
                    fields@.len(),
                    |i: int|
                        (fields@[i].0@, star_value(fields@[i].1, levels_at(depth as nat + 1))),
                ),
                fields@.len(),
                depth as nat,
                *old(remaining) as nat,
            ),
        ) {
            (Ok(j), Ok((o, left))) => j@ == JsonV::Object(o) && *final(remaining) == left
                && j@.ordered(),
            (Err(e), Err(f)) => e@ == f,
            _ => false,
        },
        *final(remaining) == left_over_struct(
            Seq::new(
                fields@.len(),
                |i: int| (fields@[i].0@, star_value(fields@[i].1, levels_at(depth as nat + 1))),
            ),
            fields@.len(),
            depth as nat,
            *old(remaining) as nat,
        ),
    decreases levels_at(depth as nat), 0nat,
{
    let ghost levels = levels_at(depth as nat + 1);
    let ghost all = Seq::new(
        fields@.len(),
        |i: int| (fields@[i].0@, star_value(fields@[i].1, levels)),
    );
    let ghost start = *remaining as nat;
    let mut out: Vec<(String, Json)> = Vec::new();
    assert(object_view(out@) =~= Seq::empty());
    let mut i: usize = 0;
    while i < fields.len()
        invariant
            i <= fields@.len(),
            depth <= DEPTH_LIMIT,
            levels == levels_at(depth as nat + 1),
            all == Seq::new(
                fields@.len(),
                |i: int| (fields@[i].0@, star_value(fields@[i].1, levels)),
            ),
            start == *old(remaining),
            ascending(names(object_view(out@))),
            values_ordered(object_view(out@)),
            left_over_struct(all, i as nat, depth as nat, start) == *remaining as nat,
            converted_struct(all, i as nat, depth as nat, start) == Ok::<
                (Seq<(Seq<char>, JsonV)>, nat),
                RuntimeFault,
            >((object_view(out@), *remaining as nat)),
        decreases fields@.len() - i,
    {
        assert(all[i as int] == (fields@[i as int].0@, star_value(fields@[i as int].1, levels)));
        let item = match to_json(&fields[i].1, depth + 1, remaining) {
            Ok(item) => item,
            Err(e) => {
                proof {
                    struct_stops(all, (i + 1) as nat, all.len(), depth as nat, start);
                }
                return Err(e);
            },
        };
        proof {
            put_keeps_order(object_view(out@), fields@[i as int].0@, item@);
        }
        put_value(&mut out, fields[i].0.clone(), item);
        i += 1;
    }
    Ok(object_json(out))
}

fn dict_to_json(
    entries: &Vec<(DictKey, OwnedFrozenValue)>,
    depth: usize,
    remaining: &mut usize,
) -> (r: Result<Json, RuntimeError>)
    requires
        depth <= DEPTH_LIMIT,
    ensures
        match (
            r,
            converted_dict(
                Seq::new(
                    entries@.len(),
                    |i: int|
                        (entries@[i].0@, star_value(entries@[i].1, levels_at(depth as nat + 1))),
                ),
                entries@.len(),
                depth as nat,
                *old(remaining) as nat,
            ),
        ) {
            (Ok(j), Ok((o, left))) => j@ == JsonV::Object(o) && *final(remaining) == left
                && j@.ordered(),
            (Err(e), Err(f)) => e@ == f,
            _ => false,
        },
        *final(remaining) == left_over_dict(
            Seq::new(
                entries@.len(),
                |i: int| (entries@[i].0@, star_value(entries@[i].1, levels_at(depth as nat + 1))),
            ),
            entries@.len(),
            depth as nat,
            *old(remaining) as nat,
        ),
    decreases levels_at(depth as nat), 0nat,
{
    let ghost levels = levels_at(depth as nat + 1);
    let ghost all = Seq::new(
        entries@.len(),
        |i: int| (entries@[i].0@, star_value(entries@[i].1, levels)),
    );
    let ghost start = *remaining as nat;
    let mut out: Vec<(String, Json)> = Vec::new();
    assert(object_view(out@) =~= Seq::empty());
    let mut i: usize = 0;
    while i < entries.len()
        invariant
            i <= entries@.len(),
            depth <= DEPTH_LIMIT,
            levels == levels_at(depth as nat + 1),
            all == Seq::new(
                entries@.len(),
                |i: int| (entries@[i].0@, star_value(entries@[i].1, levels)),
            ),
            start == *old(remaining),
            ascending(names(object_view(out@))),
            values_ordered(object_view(out@)),
            left_over_dict(all, i as nat, depth as nat, start) == *remaining as nat,
            converted_dict(all, i as nat, depth as nat, start) == Ok::<
                (Seq<(Seq<char>, JsonV)>, nat),
                RuntimeFault,
            >((object_view(out@), *remaining as nat)),
        decreases entries@.len() - i,
    {
        assert(all[i as int] == (entries@[i as int].0@, star_value(entries@[i as int].1, levels)));
        proof {
            if converted_dict(all, (i + 1) as nat, depth as nat, start) is Err {
                dict_stops(all, (i + 1) as nat, all.len(), depth as nat, start);
            }
        }
        let name = match key_to_name(&entries[i].0) {
            Some(name) => name,
            None => {
                return Err(RuntimeError::BadKey);
            },
        };
        let item = match to_json(&entries[i].1, depth + 1, remaining) {
            Ok(item) => item,
            Err(e) => {
                return Err(e);
            },
        };
        proof {
            put_keeps_order(object_view(out@), name@, item@);
        }
        let key = name.clone();
        if !put_name(&mut out, name, item) {
            return Err(RuntimeError::KeyCollision(key));
        }
        i += 1;
    }
    Ok(object_json(out))
}

/// How many values a JSON value is made of, itself among them.
pub open spec fn values_in(j: JsonV) -> nat
    decreases j, 0nat,
{
    match j {
        JsonV::Array(a) => 1 + values_in_array(a, a.len()),
        JsonV::Object(o) => 1 + values_in_object(o, o.len()),
        _ => 1,
    }
}

/// How many values the first `n` values of an array are made of.
pub open spec fn values_in_array(a: Seq<JsonV>, n: nat) -> nat
    decreases a, n,
{
    if n == 0 || n > a.len() {
        0
    } else {
        values_in_array(a, (n - 1) as nat) + values_in(a[n - 1])
    }
}

/// How many values the first `n` values of an object are made of.
pub open spec fn values_in_object(o: Seq<(Seq<char>, JsonV)>, n: nat) -> nat
    decreases o, n,
{
    if n == 0 || n > o.len() {
        0
    } else {
        values_in_object(o, (n - 1) as nat) + values_in(o[n - 1].1)
    }
}

/// Whether a JSON value has at most so many levels.
pub open spec fn within(j: JsonV, levels: nat) -> bool
    decreases j,
{
    levels > 0 && match j {
        JsonV::Array(a) => array_within(a, (levels - 1) as nat),
        JsonV::Object(o) => object_within(o, (levels - 1) as nat),
        _ => true,
    }
}

/// Whether each value of an array has at most so many levels.
pub open spec fn array_within(a: Seq<JsonV>, levels: nat) -> bool
    decreases a,
{
    forall|i: int| 0 <= i < a.len() ==> within(#[trigger] a[i], levels)
}

/// Whether each value of an object has at most so many levels.
pub open spec fn object_within(o: Seq<(Seq<char>, JsonV)>, levels: nat) -> bool
    decreases o,
{
    forall|i: int| 0 <= i < o.len() ==> within((#[trigger] o[i]).1, levels)
}

proof fn array_push_counts(a: Seq<JsonV>, x: JsonV, n: nat)
    requires
        n <= a.len(),
    ensures
        values_in_array(a.push(x), n) == values_in_array(a, n),
    decreases n,
{
    if n > 0 {
        array_push_counts(a, x, (n - 1) as nat);
    }
}

proof fn object_insert_counts(
    o: Seq<(Seq<char>, JsonV)>,
    p: int,
    x: (Seq<char>, JsonV),
    n: nat,
)
    requires
        0 <= p <= o.len(),
        n <= o.len(),
    ensures
        n <= p ==> values_in_object(o.insert(p, x), n) == values_in_object(o, n),
        n >= p ==> values_in_object(o.insert(p, x), n + 1) == values_in_object(o, n) + values_in(
            x.1,
        ),
    decreases n,
{
    let all = o.insert(p, x);
    if n > 0 {
        object_insert_counts(o, p, x, (n - 1) as nat);
        if n <= p {
            assert(all[n - 1] == o[n - 1]);
        } else {
            assert(all[n as int] == o[n - 1]);
        }
    }
    if n == p {
        assert(all[n as int] == x);
        assert(values_in_object(all, n + 1) == values_in_object(all, n) + values_in(x.1));
    }
}

proof fn object_update_counts(
    o: Seq<(Seq<char>, JsonV)>,
    p: int,
    x: (Seq<char>, JsonV),
    n: nat,
)
    requires
        0 <= p < o.len(),
        n <= o.len(),
    ensures
        values_in_object(o.update(p, x), n) <= values_in_object(o, n) + if n > p {
            values_in(x.1)
        } else {
            0
        },
    decreases n,
{
    if n > 0 {
        object_update_counts(o, p, x, (n - 1) as nat);
    }
}

proof fn put_counts(o: Seq<(Seq<char>, JsonV)>, name: Seq<char>, j: JsonV, levels: nat)
    requires
        object_within(o, levels),
        within(j, levels),
    ensures
        values_in_object(put(o, name, j), put(o, name, j).len()) == values_in_object(o, o.len())
            + values_in(j),
        object_within(put(o, name, j), levels),
{
    slot_divides(names(o), name);
    let p = slot(names(o), name) as int;
    object_insert_counts(o, p, (name, j), o.len());
    let all = put(o, name, j);
    assert forall|i: int| 0 <= i < all.len() implies within((#[trigger] all[i]).1, levels) by {
        if i < p {
            assert(all[i] == o[i]);
        } else if i > p {
            assert(all[i] == o[i - 1]);
        }
    }
}

proof fn put_over_counts(o: Seq<(Seq<char>, JsonV)>, name: Seq<char>, j: JsonV, levels: nat)
    requires
        object_within(o, levels),
        within(j, levels),
    ensures
        values_in_object(put_over(o, name, j), put_over(o, name, j).len()) <= values_in_object(
            o,
            o.len(),
        ) + values_in(j),
        object_within(put_over(o, name, j), levels),
{
    if names(o).contains(name) {
        slot_divides(names(o), name);
        let p = slot(names(o), name) as int;
        text_less_irreflexive(name);
        object_update_counts(o, p, (name, j), o.len());
        let all = put_over(o, name, j);
        assert forall|i: int| 0 <= i < all.len() implies within((#[trigger] all[i]).1, levels) by {
            if i != p {
                assert(all[i] == o[i]);
            }
        }
    } else {
        put_counts(o, name, j, levels);
    }
}

/// A conversion is bounded: what it makes has no more values than it used up, and no more levels
/// than the limit leaves.
pub proof fn conversion_is_bounded(v: StarV, depth: nat, remaining: nat)
    requires
        converted(v, depth, remaining) is Ok,
    ensures
        depth <= DEPTH_LIMIT,
        ({
            let (j, left) = converted(v, depth, remaining)->Ok_0;
            values_in(j) + left <= remaining && within(j, levels_at(depth))
        }),
    decreases v, 0nat,
{
    let left = (remaining - 1) as nat;
    match v {
        StarV::List(l) => {
            list_is_bounded(l, l.len(), depth, left);
        },
        StarV::Struct(f) => {
            struct_is_bounded(f, f.len(), depth, left);
        },
        StarV::Dict(d) => {
            dict_is_bounded(d, d.len(), depth, left);
        },
        _ => {},
    }
}

proof fn list_is_bounded(l: Seq<StarV>, n: nat, depth: nat, remaining: nat)
    requires
        depth <= DEPTH_LIMIT,
        n <= l.len(),
        converted_list(l, n, depth, remaining) is Ok,
    ensures
        ({
            let (a, left) = converted_list(l, n, depth, remaining)->Ok_0;
            values_in_array(a, a.len()) + left <= remaining && array_within(
                a,
                levels_at(depth + 1),
            )
        }),
    decreases l, n,
{
    if n > 0 {
        list_is_bounded(l, (n - 1) as nat, depth, remaining);
        let (done, left) = converted_list(l, (n - 1) as nat, depth, remaining)->Ok_0;
        conversion_is_bounded(l[n - 1], depth + 1, left);
        let (j, _) = converted(l[n - 1], depth + 1, left)->Ok_0;
        array_push_counts(done, j, done.len());
        assert(done.push(j)[done.len() as int] == j);
    }
}

proof fn struct_is_bounded(f: Seq<(Seq<char>, StarV)>, n: nat, depth: nat, remaining: nat)
    requires
        depth <= DEPTH_LIMIT,
        n <= f.len(),
        converted_struct(f, n, depth, remaining) is Ok,
    ensures
        ({
            let (o, left) = converted_struct(f, n, depth, remaining)->Ok_0;
            values_in_object(o, o.len()) + left <= remaining && object_within(
                o,
                levels_at(depth + 1),
            )
        }),
    decreases f, n,
{
    if n > 0 {
        struct_is_bounded(f, (n - 1) as nat, depth, remaining);
        let (done, left) = converted_struct(f, (n - 1) as nat, depth, remaining)->Ok_0;
        conversion_is_bounded(f[n - 1].1, depth + 1, left);
        let (j, _) = converted(f[n - 1].1, depth + 1, left)->Ok_0;
        put_over_counts(done, f[n - 1].0, j, levels_at(depth + 1));
    }
}

proof fn dict_is_bounded(d: Seq<(DictKeyV, StarV)>, n: nat, depth: nat, remaining: nat)
    requires
        depth <= DEPTH_LIMIT,
        n <= d.len(),
        converted_dict(d, n, depth, remaining) is Ok,
    ensures
        ({
            let (o, left) = converted_dict(d, n, depth, remaining)->Ok_0;
            values_in_object(o, o.len()) + left <= remaining && object_within(
                o,
                levels_at(depth + 1),
            )
        }),
    decreases d, n,
{
    if n > 0 {
        dict_is_bounded(d, (n - 1) as nat, depth, remaining);
        let (done, left) = converted_dict(d, (n - 1) as nat, depth, remaining)->Ok_0;
        conversion_is_bounded(d[n - 1].1, depth + 1, left);
        let (j, _) = converted(d[n - 1].1, depth + 1, left)->Ok_0;
        put_counts(done, key_name(d[n - 1].0)->Some_0, j, levels_at(depth + 1));
    }
}

/// An integer that is converted keeps its value: the JSON number reads as the same integer.
pub proof fn integers_keep_their_value(repr: Seq<char>)
    requires
        integer_json(repr) is Ok,
    ensures
        integer_json(repr)->Ok_0 is Number,
        numeral_value(integer_json(repr)->Ok_0->Number_0) == numeral_value(repr),
{
    integer_text_reads_back(numeral_value(repr)->Some_0);
}

} // verus!
