//! Sorting maps: once is enough, and the order that the entries had does not matter.
use vstd::prelude::*;

verus! {

use crate::determinism::same_place;
use crate::message::{field_index, field_index_divides, DatumV, MessageV};
use crate::normalize::{
    by_text, by_text_has, by_text_sorts, key_number, keyed, map_entries_are_sorted, sort_key, sorted,
    sorted_field, sorted_fields, sorted_item, sorted_items, texts_of, unkeyed,
};
use crate::order::{ascending_is_unique, nondescending, slot_behind, slot_behind_divides, slot_behind_is};
use crate::pool::key_text;
use crate::text::{text_less, text_less_total};
use crate::types::{numbered, FieldKindV, FieldTypeV};
use crate::validate::{extensions_of, fields_of};

/// Pairs whose texts are in order stay as they are.
proof fn in_order_stays(s: Seq<(Seq<char>, DatumV)>)
    requires
        nondescending(texts_of(s)),
    ensures
        by_text(s) == s,
    decreases s.len(),
{
    if s.len() > 0 {
        let rest = s.drop_last();
        assert forall|i: int, j: int| 0 <= i < j < rest.len() implies !text_less(
            texts_of(rest)[j],
            texts_of(rest)[i],
        ) by {
            assert(texts_of(rest)[i] == texts_of(s)[i] && texts_of(rest)[j] == texts_of(s)[j]);
        }
        in_order_stays(rest);
        assert forall|i: int| 0 <= i < rest.len() implies !text_less(
            s.last().0,
            texts_of(rest)[i],
        ) by {
            assert(texts_of(s)[i] == texts_of(rest)[i]);
            assert(!text_less(texts_of(s)[s.len() - 1], texts_of(s)[i]));
        }
        slot_behind_is(texts_of(rest), s.last().0, rest.len() as int);
        assert(by_text(s) =~= s);
    }
}

/// Sorting the maps of a message twice does no more than sorting them once.
pub proof fn sorting_twice_changes_nothing(files: Seq<MessageV>, name: Seq<char>, m: MessageV)
    ensures
        sorted(files, name, sorted(files, name, m)) == sorted(files, name, m),
    decreases m,
{
    fields_sorted_twice(files, fields_of(files, name), m.fields);
    fields_sorted_twice(files, extensions_of(files, name), m.extensions);
}

proof fn fields_sorted_twice(files: Seq<MessageV>, types: Seq<FieldTypeV>, f: Seq<(u32, DatumV)>)
    ensures
        sorted_fields(files, types, sorted_fields(files, types, f)) == sorted_fields(
            files,
            types,
            f,
        ),
    decreases f,
{
    let once = sorted_fields(files, types, f);
    let twice = sorted_fields(files, types, once);
    assert forall|i: int| 0 <= i < f.len() implies twice[i] == once[i] by {
        field_sorted_twice(files, numbered(types, f[i].0), f[i].1);
    }
    assert(twice =~= once);
}

proof fn field_sorted_twice(files: Seq<MessageV>, t: Option<FieldTypeV>, v: DatumV)
    ensures
        sorted_field(files, t, sorted_field(files, t, v)) == sorted_field(files, t, v),
    decreases v,
{
    if let Some(t) = t {
        if let FieldKindV::Message(child) = t.kind {
            match v {
                DatumV::Message(m) => {
                    sorting_twice_changes_nothing(files, child, m);
                },
                DatumV::List(l) => {
                    items_sorted_twice(files, child, l);
                    let items = sorted_items(files, child, l);
                    if t.map {
                        let pairs = by_text(keyed(files, child, items));
                        let out = unkeyed(pairs);
                        map_entries_are_sorted(files, t, l);
                        assert(sorted_items(files, child, out) =~= out) by {
                            assert forall|i: int| 0 <= i < out.len() implies sorted_item(
                                files,
                                child,
                                out[i],
                            ) == out[i] by {
                                by_text_has(keyed(files, child, items), i);
                                let j = choose|j: int|
                                    0 <= j < keyed(files, child, items).len()
                                        && #[trigger] keyed(files, child, items)[j] == pairs[i];
                                assert(out[i] == items[j]);
                                assert(sorted_items(files, child, items)[j] == items[j]);
                            }
                        }
                        in_order_stays(keyed(files, child, out));
                        assert(unkeyed(keyed(files, child, out)) =~= out);
                    }
                },
                _ => {},
            }
        }
    }
}

proof fn items_sorted_twice(files: Seq<MessageV>, child: Seq<char>, l: Seq<DatumV>)
    ensures
        sorted_items(files, child, sorted_items(files, child, l)) == sorted_items(files, child, l),
    decreases l,
{
    let once = sorted_items(files, child, l);
    let twice = sorted_items(files, child, once);
    assert forall|i: int| 0 <= i < l.len() implies twice[i] == once[i] by {
        if let DatumV::Message(m) = l[i] {
            sorting_twice_changes_nothing(files, child, m);
        }
    }
    assert(twice =~= once);
}

/// Sorting the maps in an entry keeps its key.
proof fn key_is_kept(files: Seq<MessageV>, entry: Seq<char>, v: DatumV)
    ensures
        sort_key(files, entry, sorted_item(files, entry, v)) == sort_key(files, entry, v),
{
    if let DatumV::Message(m) = v {
        let g = sorted(files, entry, m).fields;
        let number = key_number(files, entry);
        same_place(m.fields, g, number);
        field_index_divides(m.fields, number);
        let p = field_index(m.fields, number) as int;
        if p < m.fields.len() {
            assert(g[p].1 == sorted_field(
                files,
                numbered(fields_of(files, entry), m.fields[p].0),
                m.fields[p].1,
            ));
        }
    }
}

/// Whether no two entries have keys of the same text.
pub open spec fn keys_apart(files: Seq<MessageV>, entry: Seq<char>, l: Seq<DatumV>) -> bool {
    forall|i: int, j: int|
        #![trigger l[i], l[j]]
        0 <= i < j < l.len() ==> key_text(sort_key(files, entry, l[i])) != key_text(
            sort_key(files, entry, l[j]),
        )
}

/// What is there before sorting by text is there afterwards.
proof fn by_text_keeps(s: Seq<(Seq<char>, DatumV)>, x: (Seq<char>, DatumV))
    requires
        s.contains(x),
    ensures
        by_text(s).contains(x),
    decreases s.len(),
{
    let rest = by_text(s.drop_last());
    by_text_sorts(s.drop_last());
    slot_behind_divides(texts_of(rest), s.last().0);
    let p = slot_behind(texts_of(rest), s.last().0) as int;
    let i = s.index_of(x);
    if i == s.len() - 1 {
        assert(by_text(s)[p] == x);
    } else {
        assert(s.drop_last()[i] == x);
        by_text_keeps(s.drop_last(), x);
        let k = rest.index_of(x);
        assert(by_text(s)[if k < p {
            k
        } else {
            k + 1
        }] == x);
    }
}

/// The entries of a map, sorted: in ascending order of the texts of their keys, and the same as
/// before but for maps in them.
proof fn entries_ascend(files: Seq<MessageV>, child: Seq<char>, l: Seq<DatumV>)
    requires
        keys_apart(files, child, l),
    ensures
        ({
            let pairs = by_text(keyed(files, child, sorted_items(files, child, l)));
            &&& forall|i: int, j: int|
                0 <= i < j < pairs.len() ==> text_less(pairs[i].0, pairs[j].0)
            &&& forall|x: (Seq<char>, DatumV)| #[trigger]
                pairs.contains(x) <==> exists|j: int|
                    0 <= j < l.len() && x == #[trigger] keyed_item(files, child, l[j])
        }),
{
    let items = sorted_items(files, child, l);
    let s = keyed(files, child, items);
    let pairs = by_text(s);
    by_text_sorts(s);
    assert forall|j: int| 0 <= j < l.len() implies #[trigger] s[j] == keyed_item(
        files,
        child,
        l[j],
    ) by {
        key_is_kept(files, child, l[j]);
    }
    assert forall|x: (Seq<char>, DatumV)| #[trigger] pairs.contains(x) implies exists|j: int|
        0 <= j < l.len() && x == #[trigger] keyed_item(files, child, l[j]) by {
        let i = pairs.index_of(x);
        by_text_has(s, i);
        let j = choose|j: int| 0 <= j < s.len() && #[trigger] s[j] == pairs[i];
        assert(x == keyed_item(files, child, l[j]));
    }
    assert forall|x: (Seq<char>, DatumV)|
        (exists|j: int| 0 <= j < l.len() && x == #[trigger] keyed_item(files, child, l[j]))
        implies #[trigger] pairs.contains(x) by {
        let j = choose|j: int| 0 <= j < l.len() && x == #[trigger] keyed_item(files, child, l[j]);
        assert(s[j] == x);
        by_text_keeps(s, x);
    }
    assert forall|i: int, j: int| 0 <= i < j < pairs.len() implies text_less(
        pairs[i].0,
        pairs[j].0,
    ) by {
        assert(!text_less(texts_of(pairs)[j], texts_of(pairs)[i]));
        text_less_total(pairs[i].0, pairs[j].0);
        if pairs[i].0 == pairs[j].0 {
            same_text_same_place(s, l, files, child, i, j);
        }
    }
}

/// An entry with the text of its key, and the maps in it sorted.
spec fn keyed_item(files: Seq<MessageV>, child: Seq<char>, v: DatumV) -> (Seq<char>, DatumV) {
    (key_text(sort_key(files, child, v)), sorted_item(files, child, v))
}

/// Two places of a sorted sequence do not have the same text, if no two did before.
proof fn same_text_same_place(
    s: Seq<(Seq<char>, DatumV)>,
    l: Seq<DatumV>,
    files: Seq<MessageV>,
    child: Seq<char>,
    i: int,
    j: int,
)
    requires
        keys_apart(files, child, l),
        s.len() == l.len(),
        forall|k: int| 0 <= k < l.len() ==> #[trigger] s[k] == keyed_item(files, child, l[k]),
        0 <= i < j < by_text(s).len(),
    ensures
        by_text(s)[i].0 != by_text(s)[j].0,
{
    texts_stay_apart(s);
    assert forall|a: int, b: int| 0 <= a < b < s.len() implies s[a].0 != s[b].0 by {
        assert(s[a] == keyed_item(files, child, l[a]) && s[b] == keyed_item(files, child, l[b]));
    }
}

/// Texts that are apart stay apart.
proof fn texts_stay_apart(s: Seq<(Seq<char>, DatumV)>)
    ensures
        (forall|a: int, b: int| 0 <= a < b < s.len() ==> s[a].0 != s[b].0) ==> forall|
            a: int,
            b: int,
        |
            0 <= a < b < by_text(s).len() ==> by_text(s)[a].0 != by_text(s)[b].0,
    decreases s.len(),
{
    if s.len() > 0 && forall|a: int, b: int| 0 <= a < b < s.len() ==> s[a].0 != s[b].0 {
        let front = s.drop_last();
        assert forall|a: int, b: int| 0 <= a < b < front.len() implies front[a].0 != front[b].0 by {
            assert(s[a].0 != s[b].0);
        }
        texts_stay_apart(front);
        let rest = by_text(front);
        by_text_sorts(front);
        slot_behind_divides(texts_of(rest), s.last().0);
        let p = slot_behind(texts_of(rest), s.last().0) as int;
        assert forall|k: int| 0 <= k < rest.len() implies (#[trigger] rest[k]).0 != s.last().0 by {
            by_text_has(front, k);
            let j = choose|j: int| 0 <= j < front.len() && #[trigger] front[j] == rest[k];
            assert(s[j].0 != s[s.len() - 1].0);
        }
        let all = by_text(s);
        assert forall|a: int, b: int| 0 <= a < b < all.len() implies all[a].0 != all[b].0 by {
            let x = if a < p {
                a
            } else {
                a - 1
            };
            let y = if b < p {
                b
            } else {
                b - 1
            };
            if a != p {
                assert(all[a] == rest[x]);
            }
            if b != p {
                assert(all[b] == rest[y]);
            }
        }
    }
}

/// The order that the entries of a map had is immaterial: the same entries come out in the same
/// order.
pub proof fn entry_order_is_immaterial(
    files: Seq<MessageV>,
    t: FieldTypeV,
    a: Seq<DatumV>,
    b: Seq<DatumV>,
)
    requires
        t.map,
        t.kind is Message,
        keys_apart(files, t.kind->Message_0, a),
        keys_apart(files, t.kind->Message_0, b),
        forall|x: DatumV| #[trigger] a.contains(x) <==> b.contains(x),
    ensures
        sorted_field(files, Some(t), DatumV::List(a)) == sorted_field(
            files,
            Some(t),
            DatumV::List(b),
        ),
{
    let child = t.kind->Message_0;
    let p = by_text(keyed(files, child, sorted_items(files, child, a)));
    let q = by_text(keyed(files, child, sorted_items(files, child, b)));
    entries_ascend(files, child, a);
    entries_ascend(files, child, b);
    assert forall|x: (Seq<char>, DatumV)| #[trigger] p.contains(x) <==> q.contains(x) by {
        if p.contains(x) {
            let j = choose|j: int|
                0 <= j < a.len() && x == #[trigger] keyed_item(files, child, a[j]);
            assert(a.contains(a[j]));
            let k = b.index_of(a[j]);
            assert(x == keyed_item(files, child, b[k]));
        }
        if q.contains(x) {
            let j = choose|j: int|
                0 <= j < b.len() && x == #[trigger] keyed_item(files, child, b[j]);
            assert(b.contains(b[j]));
            assert(a.contains(b[j]));
            let k = a.index_of(b[j]);
            assert(x == keyed_item(files, child, a[k]));
        }
    }
    ascending_is_unique(p, q);
}

} // verus!
