//! What messages hold, and when two of them count as the same: each field by its number, the parts
//! of a message in their places, and every difference between two messages.
use vstd::prelude::*;

verus! {

use crate::equality::{alike, datum_alike, entries_alike, equal, fields_alike, list_alike};
use crate::message::{
    canonical, canonical_entries, canonical_list, canonical_value, field_index,
    field_index_divides, field_value, key_less, key_sorted, key_sorted_sorts, keys_nondescending,
    DatumV, KeyV, MessageV, Scalar,
};
use crate::pool::message_type;
use crate::schema::{file_name, shown_name};
use crate::types::{entry_types, numbered, FieldKindV, FieldTypeV, MessageTypeV};
use crate::validate::{extensions_of, fields_of};

/// The value of a field is the one that stands first under its number.
pub proof fn fields_hold_their_values(f: Seq<(u32, DatumV)>, number: u32, i: int)
    ensures
        0 <= i < f.len() && f[i].0 == number && (forall|k: int| 0 <= k < i ==> (#[trigger] f[k]).0
            != number) ==> field_value(f, number) == Some(f[i].1),
        (forall|k: int| 0 <= k < f.len() ==> (#[trigger] f[k]).0 != number) ==> field_value(
            f,
            number,
        ) is None,
{
    field_index_divides(f, number);
    let p = field_index(f, number) as int;
    if 0 <= i < f.len() && f[i].0 == number && (forall|k: int| 0 <= k < i ==> (#[trigger] f[k]).0
        != number) {
        if p < i {
            assert(f[p].0 != number);
        }
        assert(p == i);
    }
}

/// The name of a file is the text in its first field, whole and as it is.
pub proof fn files_have_their_names(f: MessageV, name: Seq<char>)
    ensures
        file_name(f) == Some(name) <==> field_value(f.fields, 1) == Some(DatumV::Text(name)),
        field_value(f.fields, 1) == Some(DatumV::Text(name)) ==> shown_name(f) == name,
        field_value(f.fields, 1) is None ==> file_name(f) is None,
{
}

/// The fields and extensions of a message type are all that the schema declares for it.
pub proof fn types_have_all_their_fields(files: Seq<MessageV>, name: Seq<char>, t: MessageTypeV)
    requires
        message_type(files, name) == Some(t),
    ensures
        fields_of(files, name) == t.fields,
        extensions_of(files, name) == t.extensions,
{
}

/// The key of a map is the field with the number 1 of its entries, and the value that with the number
/// 2.
pub proof fn maps_have_keys_and_values(
    files: Seq<MessageV>,
    t: FieldTypeV,
    entry: Seq<char>,
    key: FieldTypeV,
    value: FieldTypeV,
)
    requires
        t.kind == FieldKindV::Message(entry),
        message_type(files, entry) matches Some(e) && numbered(e.fields, 1) == Some(key)
            && numbered(e.fields, 2) == Some(value),
    ensures
        entry_types(files, t) == Some((key, value)),
{
}

/// Whether a value is another one with the entries of each map in the order of their keys: messages in
/// it likewise, lists with as many values in their places, maps with as many entries, and all else as
/// it is.
pub open spec fn ordered_value(v: DatumV, w: DatumV) -> bool {
    match v {
        DatumV::Message(m) => w == DatumV::Message(canonical(m)),
        DatumV::List(l) => w is List && ordered_list(l, w->List_0),
        DatumV::Entries(e) => w is Entries && w->Entries_0.len() == e.len() && keys_ascend(
            w->Entries_0,
        ) && has_entries(e, w->Entries_0),
        _ => w == v,
    }
}

/// Whether a list has the values of another one in their places, with the entries of maps in order.
pub open spec fn ordered_list(l: Seq<DatumV>, k: Seq<DatumV>) -> bool {
    k.len() == l.len() && forall|i: int| 0 <= i < l.len() ==> ordered_item(#[trigger] l[i], k[i])
}

/// Whether no entry stands behind one whose key comes after its own.
pub open spec fn keys_ascend(h: Seq<(KeyV, DatumV)>) -> bool {
    forall|i: int, j: int|
        0 <= i < j < h.len() ==> !key_less((#[trigger] h[j]).0, (#[trigger] h[i]).0)
}

/// Whether entries hold those of others, with the entries of maps in their values in order.
pub open spec fn has_entries(e: Seq<(KeyV, DatumV)>, h: Seq<(KeyV, DatumV)>) -> bool {
    forall|i: int|
        0 <= i < e.len() ==> exists|j: int|
            0 <= j < h.len() && (#[trigger] h[j]).0 == (#[trigger] e[i]).0 && ordered_item(
                e[i].1,
                h[j].1,
            )
}

/// The same of a value in a list or a map.
pub open spec fn ordered_item(v: DatumV, w: DatumV) -> bool {
    match v {
        DatumV::Message(m) => w == DatumV::Message(canonical(m)),
        DatumV::List(_) => true,
        DatumV::Entries(_) => true,
        _ => w == v,
    }
}

/// A message with the entries of its maps in the order of their keys holds all that it held: the same
/// name, the same fields and extensions under their numbers, and the same unknown bytes.
pub proof fn ordering_keys_keeps_all(m: MessageV, i: int)
    ensures
        canonical(m).full_name == m.full_name,
        canonical(m).unknown == m.unknown,
        canonical(m).fields.len() == m.fields.len(),
        canonical(m).extensions.len() == m.extensions.len(),
        0 <= i < m.fields.len() ==> canonical(m).fields[i].0 == m.fields[i].0 && ordered_value(
            m.fields[i].1,
            canonical(m).fields[i].1,
        ),
        0 <= i < m.extensions.len() ==> canonical(m).extensions[i].0 == m.extensions[i].0
            && ordered_value(m.extensions[i].1, canonical(m).extensions[i].1),
{
    if 0 <= i < m.fields.len() {
        value_is_ordered(m.fields[i].1);
    }
    if 0 <= i < m.extensions.len() {
        value_is_ordered(m.extensions[i].1);
    }
}

proof fn item_is_ordered(v: DatumV)
    ensures
        ordered_item(v, canonical_value(v)),
{
    let w = canonical_value(v);
    match v {
        DatumV::Message(m) => {
            assert(w == DatumV::Message(canonical(m)));
        },
        DatumV::List(_) => {},
        DatumV::Entries(_) => {},
        DatumV::Scalar(_) => {
            assert(w == v);
        },
        DatumV::Text(_) => {
            assert(w == v);
        },
        DatumV::Bytes(_) => {
            assert(w == v);
        },
    }
}

proof fn list_is_ordered(l: Seq<DatumV>)
    ensures
        ordered_list(l, canonical_list(l)),
{
    let k = canonical_list(l);
    assert forall|i: int| 0 <= i < l.len() implies ordered_item(#[trigger] l[i], k[i]) by {
        assert(k[i] == canonical_value(l[i]));
        item_is_ordered(l[i]);
    }
}

proof fn entries_are_ordered(e: Seq<(KeyV, DatumV)>)
    ensures
        key_sorted(canonical_entries(e)).len() == e.len(),
        keys_nondescending(key_sorted(canonical_entries(e))),
        has_entries(e, key_sorted(canonical_entries(e))),
{
    broadcast use vstd::seq_lib::group_to_multiset_ensures;

    let c = canonical_entries(e);
    let h = key_sorted(c);
    key_sorted_sorts(c);
    assert(c.len() == e.len());
    assert forall|i: int| 0 <= i < e.len() implies exists|j: int|
        0 <= j < h.len() && (#[trigger] h[j]).0 == (#[trigger] e[i]).0 && ordered_item(
            e[i].1,
            h[j].1,
        ) by {
        assert(c[i] == (e[i].0, canonical_value(e[i].1)));
        item_is_ordered(e[i].1);
        assert(c.contains(c[i]));
        assert(c.to_multiset().count(c[i]) > 0);
        assert(h.to_multiset().count(c[i]) > 0);
        assert(h.contains(c[i]));
        let j = choose|j: int| 0 <= j < h.len() && h[j] == c[i];
        assert(h[j].0 == e[i].0 && ordered_item(e[i].1, h[j].1));
    }
}

proof fn value_is_ordered(v: DatumV)
    ensures
        ordered_value(v, canonical_value(v)),
{
    let w = canonical_value(v);
    match v {
        DatumV::Message(m) => {
            assert(w == DatumV::Message(canonical(m)));
        },
        DatumV::List(l) => {
            assert(w == DatumV::List(canonical_list(l)));
            list_is_ordered(l);
        },
        DatumV::Entries(e) => {
            let h = key_sorted(canonical_entries(e));
            assert(w == DatumV::Entries(h));
            entries_are_ordered(e);
            assert forall|i: int, j: int| 0 <= i < j < h.len() implies !key_less(
                (#[trigger] h[j]).0,
                (#[trigger] h[i]).0,
            ) by {
                assert(keys_nondescending(h));
            }
        },
        _ => {
            assert(w == v);
        },
    }
}

/// Whether a value is neither a message nor made of values, nor a number of double precision.
pub open spec fn exact(v: DatumV) -> bool {
    match v {
        DatumV::Text(_) => true,
        DatumV::Bytes(_) => true,
        DatumV::Scalar(s) => !(s is F64),
        _ => false,
    }
}

/// Whether two values differ: in what they are, or in a part in the same place that counts as another.
pub open spec fn differ(v: DatumV, w: DatumV) -> bool {
    ||| (exact(v) || exact(w)) && v != w
    ||| v is Message && w is Message && !alike(v->Message_0, w->Message_0)
    ||| v is Message != w is Message
    ||| v is List != w is List
    ||| v is Entries != w is Entries
    ||| v is List && w is List && (v->List_0.len() != w->List_0.len() || exists|k: int|
        0 <= k < v->List_0.len() && !datum_alike(#[trigger] v->List_0[k], w->List_0[k]))
}

/// Every difference between two messages counts: in their names, their unknown bytes, the number of
/// their fields, and the number or the value of one of these.
pub proof fn every_difference_counts(m: MessageV, n: MessageV, i: int)
    requires
        m.full_name != n.full_name || m.unknown != n.unknown || m.fields.len() != n.fields.len()
            || m.extensions.len() != n.extensions.len() || (0 <= i < m.fields.len() && 0 <= i
            < n.fields.len() && (m.fields[i].0 != n.fields[i].0 || differ(
            m.fields[i].1,
            n.fields[i].1,
        ))) || (0 <= i < m.extensions.len() && 0 <= i < n.extensions.len() && (m.extensions[i].0
            != n.extensions[i].0 || differ(m.extensions[i].1, n.extensions[i].1))),
    ensures
        !alike(m, n),
{
    if alike(m, n) {
        if 0 <= i < m.fields.len() {
            assert(fields_alike(m.fields, n.fields));
            assert(datum_alike(m.fields[i].1, n.fields[i].1));
            differing_values_are_not_alike(m.fields[i].1, n.fields[i].1);
        }
        if 0 <= i < m.extensions.len() {
            assert(fields_alike(m.extensions, n.extensions));
            assert(datum_alike(m.extensions[i].1, n.extensions[i].1));
            differing_values_are_not_alike(m.extensions[i].1, n.extensions[i].1);
        }
    }
}

proof fn differing_values_are_not_alike(v: DatumV, w: DatumV)
    ensures
        differ(v, w) ==> !datum_alike(v, w),
{
    if differ(v, w) && datum_alike(v, w) {
        if v is List && w is List {
            let l = v->List_0;
            let k = w->List_0;
            assert(list_alike(l, k));
        }
    }
}

/// Whether a message holds no number of double precision, at any depth.
pub open spec fn without_doubles(m: MessageV) -> bool
    decreases m,
{
    all_without_doubles(m.fields) && all_without_doubles(m.extensions)
}

/// The same of fields.
pub open spec fn all_without_doubles(f: Seq<(u32, DatumV)>) -> bool
    decreases f,
{
    forall|i: int| 0 <= i < f.len() ==> value_without_doubles((#[trigger] f[i]).1)
}

/// The same of a value.
pub open spec fn value_without_doubles(v: DatumV) -> bool
    decreases v,
{
    match v {
        DatumV::Scalar(s) => !(s is F64),
        DatumV::Message(m) => without_doubles(m),
        DatumV::List(l) => forall|i: int|
            0 <= i < l.len() ==> value_without_doubles(#[trigger] l[i]),
        DatumV::Entries(e) => forall|i: int|
            0 <= i < e.len() ==> value_without_doubles((#[trigger] e[i]).1),
        _ => true,
    }
}

/// A message counts as the same as itself, unless it holds a number of double precision, which may be
/// NaN.
pub proof fn messages_are_like_themselves(m: MessageV)
    requires
        without_doubles(m),
    ensures
        alike(m, m),
    decreases m,
{
    fields_are_like_themselves(m.fields);
    fields_are_like_themselves(m.extensions);
}

proof fn fields_are_like_themselves(f: Seq<(u32, DatumV)>)
    requires
        all_without_doubles(f),
    ensures
        fields_alike(f, f),
    decreases f,
{
    assert forall|i: int| 0 <= i < f.len() implies datum_alike((#[trigger] f[i]).1, f[i].1) by {
        value_is_like_itself(f[i].1);
    }
}

proof fn value_is_like_itself(v: DatumV)
    requires
        value_without_doubles(v),
    ensures
        datum_alike(v, v),
    decreases v,
{
    match v {
        DatumV::Scalar(s) => {
            assert(equal(s, s));
        },
        DatumV::Message(m) => {
            messages_are_like_themselves(m);
        },
        DatumV::List(l) => {
            assert forall|i: int| 0 <= i < l.len() implies datum_alike(#[trigger] l[i], l[i]) by {
                value_is_like_itself(l[i]);
            }
            assert(list_alike(l, l));
        },
        DatumV::Entries(e) => {
            assert forall|i: int| 0 <= i < e.len() implies datum_alike(
                (#[trigger] e[i]).1,
                e[i].1,
            ) by {
                value_is_like_itself(e[i].1);
            }
            assert(entries_alike(e, e));
        },
        _ => {},
    }
}

/// Keys come in this order: false before true, integers by their value, and texts by their characters,
/// the beginning of a text before the text.
pub proof fn keys_come_in_order(a: int, b: int, s: Seq<char>, t: Seq<char>)
    ensures
        key_less(KeyV::Scalar(Scalar::Bool(false)), KeyV::Scalar(Scalar::Bool(true))),
        i32::MIN <= a < b <= i32::MAX ==> key_less(
            KeyV::Scalar(Scalar::I32(a as i32)),
            KeyV::Scalar(Scalar::I32(b as i32)),
        ),
        i64::MIN <= a < b <= i64::MAX ==> key_less(
            KeyV::Scalar(Scalar::I64(a as i64)),
            KeyV::Scalar(Scalar::I64(b as i64)),
        ),
        0 <= a < b <= u64::MAX ==> key_less(
            KeyV::Scalar(Scalar::U64(a as u64)),
            KeyV::Scalar(Scalar::U64(b as u64)),
        ),
        t.len() > 0 ==> key_less(KeyV::Text(s), KeyV::Text(s + t)),
{
    if t.len() > 0 {
        crate::writing::texts_are_ordered_by_characters(s, s + t, s.len() as int);
    }
}

} // verus!
