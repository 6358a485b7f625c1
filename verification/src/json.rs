//! JSON values: the plain data that configurations and ProtoJSON are made of.
use crate::order::find_slot;
use crate::text::text_eq;
use vstd::prelude::*;

verus! {

use crate::order::{ascending, ascending_insert, keys_of, slot, slot_divides};
use crate::text::{integer_text, text_less_irreflexive, text_less_total};

/// A number of `serde_json`, which keeps integers and decimals as they were written.
#[verifier::external_type_specification]
#[verifier::external_body]
pub struct ExNumber(serde_json::Number);

/// A JSON value. The names of an object stand in ascending order, each of them once.
pub enum Json {
    Null,
    Bool(bool),
    Number(serde_json::Number),
    Text(String),
    Array(Vec<Json>),
    Object(Vec<(String, Json)>),
}

/// The text of a number: what `Display` of `serde_json::Number` prints. It tells numbers apart.
pub uninterp spec fn number_text(n: serde_json::Number) -> Seq<char>;

/// What a JSON value is. A number is its text.
pub enum JsonV {
    Null,
    Bool(bool),
    Number(Seq<char>),
    Text(Seq<char>),
    Array(Seq<JsonV>),
    Object(Seq<(Seq<char>, JsonV)>),
}

impl Json {
    pub open spec fn spec_view(self) -> JsonV
        decreases self,
    {
        match self {
            Json::Null => JsonV::Null,
            Json::Bool(b) => JsonV::Bool(b),
            Json::Number(n) => JsonV::Number(number_text(n)),
            Json::Text(s) => JsonV::Text(s@),
            Json::Array(v) => JsonV::Array(
                Seq::new(
                    v@.len(),
                    |i: int|
                        if 0 <= i < v@.len() {
                            v@[i].spec_view()
                        } else {
                            JsonV::Null
                        },
                ),
            ),
            Json::Object(v) => JsonV::Object(
                Seq::new(
                    v@.len(),
                    |i: int|
                        if 0 <= i < v@.len() {
                            (v@[i].0@, v@[i].1.spec_view())
                        } else {
                            (Seq::empty(), JsonV::Null)
                        },
                ),
            ),
        }
    }
}

impl View for Json {
    type V = JsonV;

    open spec fn view(&self) -> JsonV {
        self.spec_view()
    }
}

/// The values of an array.
pub open spec fn array_view(v: Seq<Json>) -> Seq<JsonV> {
    Seq::new(v.len(), |i: int| v[i]@)
}

/// The names and values of an object.
pub open spec fn object_view(v: Seq<(String, Json)>) -> Seq<(Seq<char>, JsonV)> {
    Seq::new(v.len(), |i: int| (v[i].0@, v[i].1@))
}

/// What an array is.
pub proof fn array_views(j: Json)
    requires
        j is Array,
    ensures
        j@ == JsonV::Array(array_view(j->Array_0@)),
{
    assert(j@->Array_0 =~= array_view(j->Array_0@));
}

/// What an object is.
pub proof fn object_views(j: Json)
    requires
        j is Object,
    ensures
        j@ == JsonV::Object(object_view(j->Object_0@)),
{
    assert(j@->Object_0 =~= object_view(j->Object_0@));
}

/// The names of an object.
pub open spec fn names(o: Seq<(Seq<char>, JsonV)>) -> Seq<Seq<char>> {
    Seq::new(o.len(), |i: int| o[i].0)
}

impl JsonV {
    /// The names of every object in the value stand in ascending order.
    pub open spec fn ordered(self) -> bool
        decreases self,
    {
        match self {
            JsonV::Array(a) => forall|i: int| 0 <= i < a.len() ==> (#[trigger] a[i]).ordered(),
            JsonV::Object(o) => ascending(names(o)) && forall|i: int|
                0 <= i < o.len() ==> (#[trigger] o[i]).1.ordered(),
            _ => true,
        }
    }
}

/// The object with one more name, in its place in the order.
pub open spec fn put(o: Seq<(Seq<char>, JsonV)>, name: Seq<char>, value: JsonV) -> Seq<
    (Seq<char>, JsonV),
> {
    o.insert(slot(names(o), name) as int, (name, value))
}

/// An object with one name more holds what it held, and the value under that name.
pub proof fn put_has(o: Seq<(Seq<char>, JsonV)>, name: Seq<char>, j: JsonV)
    ensures
        put(o, name, j).len() == o.len() + 1,
        put(o, name, j).contains((name, j)),
        forall|x: (Seq<char>, JsonV)| o.contains(x) ==> #[trigger] put(o, name, j).contains(x),
        forall|x: Seq<char>| #[trigger]
            names(put(o, name, j)).contains(x) <==> x == name || names(o).contains(x),
{
    slot_divides(names(o), name);
    let p = slot(names(o), name) as int;
    let all = put(o, name, j);
    assert(all[p] == (name, j));
    assert forall|x: (Seq<char>, JsonV)| o.contains(x) implies #[trigger] all.contains(x) by {
        let i = o.index_of(x);
        assert(all[if i < p {
            i
        } else {
            i + 1
        }] == x);
    }
    assert forall|x: Seq<char>| #[trigger]
        names(all).contains(x) implies x == name || names(o).contains(x) by {
        let i = names(all).index_of(x);
        if i < p {
            assert(names(o)[i] == x);
        } else if i > p {
            assert(names(o)[i - 1] == x);
        }
    }
    assert forall|x: Seq<char>| x == name || names(o).contains(x) implies #[trigger] names(
        all,
    ).contains(x) by {
        if x == name {
            assert(names(all)[p] == x);
        } else {
            let i = names(o).index_of(x);
            assert(names(all)[if i < p {
                i
            } else {
                i + 1
            }] == x);
        }
    }
}

/// Calls `clone` of `serde_json::Number`, which gives the same number.
#[verifier::external_body]
pub(crate) fn number_clone(n: &serde_json::Number) -> (r: serde_json::Number)
    ensures
        r == *n,
{
    n.clone()
}

impl Json {
    /// The same value once more.
    pub fn copy(&self) -> (r: Json)
        ensures
            r@ == self@,
        decreases self,
    {
        match self {
            Json::Null => Json::Null,
            Json::Bool(b) => Json::Bool(*b),
            Json::Number(n) => Json::Number(number_clone(n)),
            Json::Text(s) => Json::Text(s.clone()),
            Json::Array(v) => {
                let mut out: Vec<Json> = Vec::new();
                let mut i: usize = 0;
                while i < v.len()
                    invariant
                        decreases_to!(self => v),
                        i <= v@.len(),
                        out@.len() == i,
                        forall|k: int| 0 <= k < i ==> out@[k]@ == v@[k]@,
                    decreases v@.len() - i,
                {
                    out.push(v[i].copy());
                    i += 1;
                }
                let r = Json::Array(out);
                assert(r@->Array_0 =~= self@->Array_0);
                r
            },
            Json::Object(v) => {
                let mut out: Vec<(String, Json)> = Vec::new();
                let mut i: usize = 0;
                while i < v.len()
                    invariant
                        decreases_to!(self => v),
                        i <= v@.len(),
                        out@.len() == i,
                        forall|k: int|
                            0 <= k < i ==> out@[k].0@ == v@[k].0@ && out@[k].1@ == v@[k].1@,
                    decreases v@.len() - i,
                {
                    out.push((v[i].0.clone(), v[i].1.copy()));
                    i += 1;
                }
                let r = Json::Object(out);
                assert(r@->Object_0 =~= self@->Object_0);
                r
            },
        }
    }
}

/// Gives the object one more name, unless it has it: then the object stays as it was.
pub fn put_name(o: &mut Vec<(String, Json)>, name: String, value: Json) -> (fresh: bool)
    requires
        ascending(names(object_view(old(o)@))),
    ensures
        ascending(names(object_view(final(o)@))),
        fresh == !names(object_view(old(o)@)).contains(name@),
        fresh ==> object_view(final(o)@) == put(object_view(old(o)@), name@, value@),
        !fresh ==> final(o)@ == old(o)@,
{
    let ghost before = object_view(o@);
    let ghost keys = names(before);
    assert(keys =~= keys_of(o@));
    let p = find_slot(o, name.as_str());
    proof {
        slot_divides(keys, name@);
    }
    if p < o.len() && text_eq(o[p].0.as_str(), name.as_str()) {
        assert(keys[p as int] == name@);
        return false;
    }
    proof {
        assert forall|i: int| 0 <= i < keys.len() implies keys[i] != name@ by {
            if i < p {
                text_less_irreflexive(name@);
            } else if i > p {
                text_less_total(keys[p as int], name@);
                if keys[i] == name@ {
                    assert(crate::text::text_less(keys[p as int], keys[i]));
                }
            }
        }
        ascending_insert(keys, name@);
    }
    let ghost pair = (name@, value@);
    o.insert(p, (name, value));
    proof {
        assert(object_view(o@) =~= before.insert(p as int, pair));
        assert(names(object_view(o@)) =~= keys.insert(p as int, pair.0));
    }
    true
}

/// The object with this value under this name, in the place of the one that it had.
pub open spec fn put_over(o: Seq<(Seq<char>, JsonV)>, name: Seq<char>, value: JsonV) -> Seq<
    (Seq<char>, JsonV),
> {
    if names(o).contains(name) {
        o.update(slot(names(o), name) as int, (name, value))
    } else {
        put(o, name, value)
    }
}

/// Gives the object this value under this name.
pub fn put_value(o: &mut Vec<(String, Json)>, name: String, value: Json)
    requires
        ascending(names(object_view(old(o)@))),
    ensures
        ascending(names(object_view(final(o)@))),
        object_view(final(o)@) == put_over(object_view(old(o)@), name@, value@),
{
    let ghost before = object_view(o@);
    let ghost keys = names(before);
    assert(keys =~= keys_of(o@));
    let p = find_slot(o, name.as_str());
    proof {
        slot_divides(keys, name@);
    }
    if p < o.len() && text_eq(o[p].0.as_str(), name.as_str()) {
        assert(keys[p as int] == name@);
        let ghost pair = (name@, value@);
        o.set(p, (name, value));
        assert(object_view(o@) =~= before.update(p as int, pair));
        assert(names(object_view(o@)) =~= keys);
    } else {
        let fresh = put_name(o, name, value);
        proof {
            if keys.contains(name@) {
                let i = choose|i: int| 0 <= i < keys.len() && keys[i] == name@;
                text_less_irreflexive(name@);
                if p < keys.len() {
                    text_less_total(keys[p as int], name@);
                    if i > p {
                        assert(crate::text::text_less(keys[p as int], keys[i]));
                    }
                }
            }
            assert(fresh);
        }
    }
}

/// Calls `From<i64>` of `serde_json::Number`. Claims that the text of the number is the decimal
/// numeral of the integer.
#[verifier::external_body]
pub(crate) fn number_of_signed(n: i64) -> (r: serde_json::Number)
    ensures
        number_text(r) == integer_text(n as int),
{
    serde_json::Number::from(n)
}

/// Calls `From<u64>` of `serde_json::Number`. Claims that the text of the number is the decimal
/// numeral of the integer.
#[verifier::external_body]
pub(crate) fn number_of_unsigned(n: u64) -> (r: serde_json::Number)
    ensures
        number_text(r) == integer_text(n as int),
{
    serde_json::Number::from(n)
}

/// An object is in order if its names are ascending and its values are in order, however many there
/// are; an array is if its values are; and any other value is.
pub proof fn ordered_says(v: JsonV)
    ensures
        v is Null || v is Bool || v is Number || v is Text ==> v.ordered(),
        v matches JsonV::Array(a) ==> (v.ordered() <==> forall|i: int|
            0 <= i < a.len() ==> (#[trigger] a[i]).ordered()),
        v matches JsonV::Object(o) ==> (v.ordered() <==> (forall|i: int, j: int|
            0 <= i < j < o.len() ==> crate::text::text_less(
                (#[trigger] o[i]).0,
                (#[trigger] o[j]).0,
            )) && forall|i: int| 0 <= i < o.len() ==> (#[trigger] o[i]).1.ordered()),
{
    if let JsonV::Object(o) = v {
        let n = names(o);
        if ascending(n) {
            assert forall|i: int, j: int| 0 <= i < j < o.len() implies crate::text::text_less(
                (#[trigger] o[i]).0,
                (#[trigger] o[j]).0,
            ) by {
                assert(crate::text::text_less(n[i], n[j]));
            }
        }
        if forall|i: int, j: int|
            0 <= i < j < o.len() ==> crate::text::text_less(
                (#[trigger] o[i]).0,
                (#[trigger] o[j]).0,
            ) {
            assert forall|i: int, j: int| 0 <= i < j < n.len() implies crate::text::text_less(
                n[i],
                n[j],
            ) by {
                assert(crate::text::text_less(o[i].0, o[j].0));
            }
            assert(ascending(n));
        }
    }
}

} // verus!
