//! Messages of the private copy of a schema: maps as lists of entries, and those lists in order.
use crate::message::{
    copy_bytes, find_field, Datum, EntryKey, Message, Scalar,
};
use crate::order::find_slot_behind;
use crate::pool::{field_by_name, find_type, key_debug};
use crate::types::{find_numbered, FieldKind, FieldType, MessageType};
use prost_reflect::DescriptorPool;
use vstd::prelude::*;

verus! {

use crate::message::{
    field_value, fields_view, list_view, map_view, message_views, value_views, DatumV, KeyV,
    MessageV,
};
use crate::order::{keys_of, nondescending, nondescending_insert, slot_behind, slot_behind_divides};
use crate::pool::{field_named, key_text, pool_files};
use crate::types::{field_types_view, numbered, FieldKindV, FieldTypeV};
use crate::validate::{extensions_of, fields_of};

/// A map key as a value.
pub open spec fn key_datum(k: KeyV) -> DatumV {
    match k {
        KeyV::Scalar(s) => DatumV::Scalar(s),
        KeyV::Text(t) => DatumV::Text(t),
    }
}

/// An entry of a map as a message.
pub open spec fn entry_message(name: Seq<char>, k: KeyV, v: DatumV) -> MessageV {
    MessageV {
        full_name: name,
        fields: seq![(1u32, key_datum(k)), (2u32, v)],
        extensions: Seq::empty(),
        unknown: Seq::empty(),
    }
}

/// The name of the message type of a field, empty where it has none.
pub open spec fn child_name(types: Seq<FieldTypeV>, number: u32) -> Seq<char> {
    match numbered(types, number) {
        Some(t) => match t.kind {
            FieldKindV::Message(n) => n,
            _ => Seq::empty(),
        },
        None => Seq::empty(),
    }
}

/// The message with each map as a list of entry messages.
pub open spec fn expanded(files: Seq<MessageV>, m: MessageV) -> MessageV
    decreases m,
{
    MessageV {
        full_name: m.full_name,
        fields: expanded_fields(files, fields_of(files, m.full_name), m.fields),
        extensions: expanded_fields(files, extensions_of(files, m.full_name), m.extensions),
        unknown: m.unknown,
    }
}

/// The fields with each map as a list of entry messages.
pub open spec fn expanded_fields(
    files: Seq<MessageV>,
    types: Seq<FieldTypeV>,
    f: Seq<(u32, DatumV)>,
) -> Seq<(u32, DatumV)>
    decreases f,
{
    Seq::new(
        f.len(),
        |i: int|
            if 0 <= i < f.len() {
                (
                    f[i].0,
                    listed(
                        numbered(types, f[i].0),
                        expanded_datum(files, child_name(types, f[i].0), f[i].1),
                    ),
                )
            } else {
                f[i]
            },
    )
}

/// The value of a field of this type; a single value in the place of a list is a list of one, as it
/// is on the wire.
pub open spec fn listed(t: Option<FieldTypeV>, v: DatumV) -> DatumV {
    match t {
        Some(t) => if (t.list || t.map) && !(v is List) {
            DatumV::List(seq![v])
        } else {
            v
        },
        None => v,
    }
}

/// The value with each map as a list of entry messages; a map that it is itself has entries of
/// this name.
pub open spec fn expanded_datum(files: Seq<MessageV>, entry: Seq<char>, v: DatumV) -> DatumV
    decreases v,
{
    match v {
        DatumV::Message(m) => DatumV::Message(expanded(files, m)),
        DatumV::List(l) => DatumV::List(expanded_list(files, entry, l)),
        DatumV::Entries(e) => DatumV::List(expanded_entries(files, entry, e)),
        _ => v,
    }
}

/// The values of a list, each with its maps as lists.
pub open spec fn expanded_list(files: Seq<MessageV>, entry: Seq<char>, l: Seq<DatumV>) -> Seq<
    DatumV,
>
    decreases l,
{
    Seq::new(
        l.len(),
        |i: int|
            if 0 <= i < l.len() {
                expanded_datum(files, entry, l[i])
            } else {
                l[i]
            },
    )
}

/// The entries of a map as messages.
pub open spec fn expanded_entries(
    files: Seq<MessageV>,
    entry: Seq<char>,
    e: Seq<(KeyV, DatumV)>,
) -> Seq<DatumV>
    decreases e,
{
    Seq::new(
        e.len(),
        |i: int|
            if 0 <= i < e.len() {
                DatumV::Message(entry_message(entry, e[i].0, expanded_datum(files, entry, e[i].1)))
            } else {
                e[i].1
            },
    )
}

/// What stands under this number in an entry message, as a key; where it is not set, the default of
/// its field.
pub open spec fn key_at(files: Seq<MessageV>, entry: Seq<char>, number: u32, v: DatumV) -> KeyV {
    let set = match v {
        DatumV::Message(m) => field_value(m.fields, number),
        _ => None,
    };
    match set {
        Some(DatumV::Scalar(s)) => KeyV::Scalar(s),
        Some(DatumV::Text(t)) => KeyV::Text(t),
        _ => match numbered(fields_of(files, entry), number) {
            Some(t) => match t.default {
                DatumV::Scalar(d) => KeyV::Scalar(d),
                DatumV::Text(d) => KeyV::Text(d),
                _ => KeyV::Text(Seq::empty()),
            },
            None => KeyV::Text(Seq::empty()),
        },
    }
}

/// The key of an entry message.
pub open spec fn entry_key(files: Seq<MessageV>, entry: Seq<char>, v: DatumV) -> KeyV {
    key_at(files, entry, 1, v)
}

/// The number of the field of an entry message that is named `key`. The language gives the key of
/// every map that name.
pub open spec fn key_number(files: Seq<MessageV>, entry: Seq<char>) -> u32 {
    match field_named(files, entry, "key"@) {
        Some(t) => t.number,
        None => 1,
    }
}

/// What an entry message is sorted by: its field named `key`.
pub open spec fn sort_key(files: Seq<MessageV>, entry: Seq<char>, v: DatumV) -> KeyV {
    key_at(files, entry, key_number(files, entry), v)
}

/// The texts of pairs.
pub open spec fn texts_of(s: Seq<(Seq<char>, DatumV)>) -> Seq<Seq<char>> {
    Seq::new(s.len(), |i: int| s[i].0)
}

/// The pairs in the order of their texts; those with the same text stay in the order they had.
pub open spec fn by_text(s: Seq<(Seq<char>, DatumV)>) -> Seq<(Seq<char>, DatumV)>
    decreases s.len(),
{
    if s.len() == 0 {
        s
    } else {
        let rest = by_text(s.drop_last());
        rest.insert(slot_behind(texts_of(rest), s.last().0) as int, s.last())
    }
}

/// Entry messages with the texts of their keys.
pub open spec fn keyed(files: Seq<MessageV>, entry: Seq<char>, l: Seq<DatumV>) -> Seq<
    (Seq<char>, DatumV),
> {
    Seq::new(l.len(), |i: int| (key_text(sort_key(files, entry, l[i])), l[i]))
}

/// What pairs hold besides their texts.
pub open spec fn unkeyed(s: Seq<(Seq<char>, DatumV)>) -> Seq<DatumV> {
    Seq::new(s.len(), |i: int| s[i].1)
}

/// The message of the private copy with the entries of each map in the order of the texts of
/// their keys. `name` is the type of the message in the original schema, which says which fields
/// are maps.
pub open spec fn sorted(files: Seq<MessageV>, name: Seq<char>, m: MessageV) -> MessageV
    decreases m,
{
    MessageV {
        full_name: m.full_name,
        fields: sorted_fields(files, fields_of(files, name), m.fields),
        extensions: sorted_fields(files, extensions_of(files, name), m.extensions),
        unknown: m.unknown,
    }
}

/// The fields with the entries of each map in order.
pub open spec fn sorted_fields(
    files: Seq<MessageV>,
    types: Seq<FieldTypeV>,
    f: Seq<(u32, DatumV)>,
) -> Seq<(u32, DatumV)>
    decreases f,
{
    Seq::new(
        f.len(),
        |i: int|
            if 0 <= i < f.len() {
                (f[i].0, sorted_field(files, numbered(types, f[i].0), f[i].1))
            } else {
                f[i]
            },
    )
}

/// The value of a field of this type, with the entries of each map in order.
pub open spec fn sorted_field(files: Seq<MessageV>, t: Option<FieldTypeV>, v: DatumV) -> DatumV
    decreases v,
{
    match t {
        Some(t) => match t.kind {
            FieldKindV::Message(child) => match v {
                DatumV::Message(m) => DatumV::Message(sorted(files, child, m)),
                DatumV::List(l) => if t.map {
                    DatumV::List(
                        unkeyed(by_text(keyed(files, child, sorted_items(files, child, l)))),
                    )
                } else {
                    DatumV::List(sorted_items(files, child, l))
                },
                _ => v,
            },
            _ => v,
        },
        None => v,
    }
}

/// The messages of a list, each with the entries of its maps in order.
pub open spec fn sorted_items(files: Seq<MessageV>, child: Seq<char>, l: Seq<DatumV>) -> Seq<DatumV>
    decreases l,
{
    Seq::new(
        l.len(),
        |i: int|
            if 0 <= i < l.len() {
                sorted_item(files, child, l[i])
            } else {
                l[i]
            },
    )
}

/// A message in a list, with the entries of its maps in order.
pub open spec fn sorted_item(files: Seq<MessageV>, child: Seq<char>, v: DatumV) -> DatumV
    decreases v,
{
    match v {
        DatumV::Message(m) => DatumV::Message(sorted(files, child, m)),
        _ => v,
    }
}

/// Sorting by text keeps the pairs and puts their texts in order.
pub proof fn by_text_sorts(s: Seq<(Seq<char>, DatumV)>)
    ensures
        by_text(s).len() == s.len(),
        nondescending(texts_of(by_text(s))),
        by_text(s).to_multiset() == s.to_multiset(),
    decreases s.len(),
{
    broadcast use vstd::seq_lib::group_to_multiset_ensures;

    if s.len() > 0 {
        let rest = by_text(s.drop_last());
        by_text_sorts(s.drop_last());
        nondescending_insert(texts_of(rest), s.last().0);
        let p = slot_behind(texts_of(rest), s.last().0) as int;
        assert(texts_of(rest.insert(p, s.last())) =~= texts_of(rest).insert(p, s.last().0));
        assert(s =~= s.drop_last().push(s.last()));
        assert(s.to_multiset() == s.drop_last().to_multiset().insert(s.last()));
    }
}

/// What is sorted by text was there before.
pub proof fn by_text_has(s: Seq<(Seq<char>, DatumV)>, i: int)
    requires
        0 <= i < by_text(s).len(),
    ensures
        exists|j: int| 0 <= j < s.len() && #[trigger] s[j] == by_text(s)[i],
    decreases s.len(),
{
    if s.len() > 0 {
        let rest = by_text(s.drop_last());
        by_text_sorts(s.drop_last());
        slot_behind_divides(texts_of(rest), s.last().0);
        let p = slot_behind(texts_of(rest), s.last().0) as int;
        if i == p {
            assert(s[s.len() - 1] == by_text(s)[i]);
        } else {
            let k = if i < p {
                i
            } else {
                i - 1
            };
            by_text_has(s.drop_last(), k);
            let j = choose|j: int|
                0 <= j < s.drop_last().len() && #[trigger] s.drop_last()[j] == rest[k];
            assert(s[j] == by_text(s)[i]);
        }
    }
}

/// Sorting the maps of a message leaves everything else as it is: the same fields are set, and
/// what is neither a message nor a list is the same value.
pub proof fn sorting_keeps_the_rest(files: Seq<MessageV>, name: Seq<char>, m: MessageV, i: int)
    requires
        0 <= i < m.fields.len(),
    ensures
        sorted(files, name, m).full_name == m.full_name,
        sorted(files, name, m).unknown == m.unknown,
        sorted(files, name, m).fields.len() == m.fields.len(),
        sorted(files, name, m).fields[i].0 == m.fields[i].0,
        !(m.fields[i].1 is Message) && !(m.fields[i].1 is List) ==> sorted(
            files,
            name,
            m,
        ).fields[i] == m.fields[i],
{
}

/// The entries of a map stand in the order of the texts of their keys, and they are the entries
/// that the map had, each with its own maps in order.
pub proof fn map_entries_are_sorted(files: Seq<MessageV>, t: FieldTypeV, l: Seq<DatumV>)
    requires
        t.map,
        t.kind is Message,
    ensures
        ({
            let child = t.kind->Message_0;
            &&& sorted_field(files, Some(t), DatumV::List(l)) is List
            &&& ({
                let out = sorted_field(files, Some(t), DatumV::List(l))->List_0;
                &&& nondescending(texts_of(keyed(files, child, out)))
                &&& out.to_multiset() == sorted_items(files, child, l).to_multiset()
            })
        }),
{
    let child = t.kind->Message_0;
    let items = sorted_items(files, child, l);
    let pairs = by_text(keyed(files, child, items));
    by_text_sorts(keyed(files, child, items));
    by_text_keeps_texts(files, child, items);
    let out = unkeyed(pairs);
    assert(keyed(files, child, out) =~= pairs);
    unkeyed_multiset(keyed(files, child, items));
    assert(unkeyed(keyed(files, child, items)) =~= items);
}

/// After sorting, a text still stands with the entry that it is the text of.
proof fn by_text_keeps_texts(files: Seq<MessageV>, child: Seq<char>, l: Seq<DatumV>)
    ensures
        forall|i: int|
            0 <= i < by_text(keyed(files, child, l)).len() ==> (#[trigger] by_text(
                keyed(files, child, l),
            )[i]).0 == key_text(sort_key(files, child, by_text(keyed(files, child, l))[i].1)),
    decreases l.len(),
{
    let s = keyed(files, child, l);
    if l.len() > 0 {
        by_text_keeps_texts(files, child, l.drop_last());
        assert(keyed(files, child, l.drop_last()) =~= s.drop_last());
        let rest = by_text(s.drop_last());
        by_text_sorts(s.drop_last());
        slot_behind_divides(texts_of(rest), s.last().0);
        let p = slot_behind(texts_of(rest), s.last().0) as int;
        let all = rest.insert(p, s.last());
        assert forall|i: int| 0 <= i < all.len() implies (#[trigger] all[i]).0 == key_text(
            sort_key(files, child, all[i].1),
        ) by {
            if i < p {
                assert(all[i] == rest[i]);
            } else if i > p {
                assert(all[i] == rest[i - 1]);
            }
        }
    }
}

/// Sorting pairs keeps what they hold besides their texts.
proof fn unkeyed_multiset(s: Seq<(Seq<char>, DatumV)>)
    ensures
        unkeyed(by_text(s)).to_multiset() == unkeyed(s).to_multiset(),
    decreases s.len(),
{
    broadcast use vstd::seq_lib::group_to_multiset_ensures;

    if s.len() > 0 {
        unkeyed_multiset(s.drop_last());
        let rest = by_text(s.drop_last());
        by_text_sorts(s.drop_last());
        slot_behind_divides(texts_of(rest), s.last().0);
        let p = slot_behind(texts_of(rest), s.last().0) as int;
        assert(unkeyed(rest.insert(p, s.last())) =~= unkeyed(rest).insert(p, s.last().1));
        assert(unkeyed(s) =~= unkeyed(s.drop_last()).push(s.last().1));
    } else {
        assert(by_text(s) =~= s);
    }
}

/// The type of this name, without fields where the schema has none.
pub(crate) fn type_or_none(pool: &DescriptorPool, name: &str) -> (r: MessageType)
    ensures
        r@.fields == fields_of(pool_files(*pool), name@),
        r@.extensions == extensions_of(pool_files(*pool), name@),
{
    match find_type(pool, name) {
        Some(t) => t,
        None => {
            let t = MessageType {
                full_name: String::new(),
                fields: Vec::new(),
                extensions: Vec::new(),
            };
            assert(t@.fields =~= Seq::empty());
            assert(t@.extensions =~= Seq::empty());
            t
        },
    }
}

fn child_name_of(types: &Vec<FieldType>, number: u32) -> (r: String)
    ensures
        r@ == child_name(field_types_view(types@), number),
{
    if let Some(t) = find_numbered(types, number) {
        if let FieldKind::Message(n) = &t.kind {
            return n.clone();
        }
    }
    let r = String::new();
    assert(r@ =~= Seq::empty());
    r
}

fn entry_message_of(name: &str, k: &EntryKey, v: Datum) -> (r: Message)
    ensures
        r@ == entry_message(name@, k@, v@),
{
    broadcast use message_views;

    let ghost vv = v@;
    let key = match k {
        EntryKey::Scalar(s) => Datum::Scalar(*s),
        EntryKey::Text(t) => Datum::Text(t.clone()),
    };
    assert(key@ == key_datum(k@));
    let mut fields: Vec<(u32, Datum)> = Vec::new();
    fields.push((1, key));
    fields.push((2, v));
    let r = Message {
        full_name: name.to_owned(),
        fields,
        extensions: Vec::new(),
        unknown: Vec::new(),
    };
    assert(r@.fields =~= entry_message(name@, k@, vv).fields);
    assert(r@.extensions =~= Seq::empty());
    r
}

/// Turns each map into a list of entry messages.
pub fn expand(pool: &DescriptorPool, m: &Message) -> (r: Message)
    ensures
        r@ == expanded(pool_files(*pool), m@),
    decreases m,
{
    broadcast use message_views;

    let t = type_or_none(pool, m.full_name.as_str());
    Message {
        full_name: m.full_name.clone(),
        fields: expand_fields(pool, &t.fields, &m.fields),
        extensions: expand_fields(pool, &t.extensions, &m.extensions),
        unknown: copy_bytes(&m.unknown),
    }
}

fn expand_fields(pool: &DescriptorPool, types: &Vec<FieldType>, f: &Vec<(u32, Datum)>) -> (r: Vec<
    (u32, Datum),
>)
    ensures
        fields_view(r@) == expanded_fields(
            pool_files(*pool),
            field_types_view(types@),
            fields_view(f@),
        ),
    decreases f,
{
    let ghost want = expanded_fields(
        pool_files(*pool),
        field_types_view(types@),
        fields_view(f@),
    );
    let mut r: Vec<(u32, Datum)> = Vec::new();
    let mut i: usize = 0;
    while i < f.len()
        invariant
            i <= f@.len(),
            want == expanded_fields(
                pool_files(*pool),
                field_types_view(types@),
                fields_view(f@),
            ),
            r@.len() == i,
            forall|k: int| 0 <= k < i ==> (r@[k].0, r@[k].1@) == want[k],
        decreases f@.len() - i,
    {
        let name = child_name_of(types, f[i].0);
        assert(fields_view(f@)[i as int] == (f@[i as int].0, f@[i as int].1@));
        let wide = expand_datum(pool, name.as_str(), &f[i].1);
        r.push((f[i].0, list_of(find_numbered(types, f[i].0), wide)));
        i += 1;
    }
    assert(fields_view(r@) =~= want);
    r
}

fn list_of(t: Option<&FieldType>, v: Datum) -> (r: Datum)
    ensures
        r@ == listed(
            match t {
                Some(t) => Some(t@),
                None => None,
            },
            v@,
        ),
{
    broadcast use value_views;

    if let Some(t) = t {
        if t.list || t.map {
            if let Datum::List(_) = &v {
            } else {
                let ghost one = v@;
                let mut l: Vec<Datum> = Vec::new();
                l.push(v);
                assert(list_view(l@) =~= seq![one]);
                return Datum::List(l);
            }
        }
    }
    v
}

fn expand_datum(pool: &DescriptorPool, entry: &str, v: &Datum) -> (r: Datum)
    ensures
        r@ == expanded_datum(pool_files(*pool), entry@, v@),
    decreases v,
{
    broadcast use value_views;

    let ghost files = pool_files(*pool);
    match v {
        Datum::Message(m) => Datum::Message(expand(pool, m)),
        Datum::List(l) => {
            let ghost want = expanded_list(files, entry@, list_view(l@));
            let mut out: Vec<Datum> = Vec::new();
            let mut i: usize = 0;
            while i < l.len()
                invariant
                    decreases_to!(v => l),
                    i <= l@.len(),
                    files == pool_files(*pool),
                    want == expanded_list(files, entry@, list_view(l@)),
                    out@.len() == i,
                    forall|k: int| 0 <= k < i ==> out@[k]@ == want[k],
                decreases l@.len() - i,
            {
                assert(list_view(l@)[i as int] == l@[i as int]@);
                out.push(expand_datum(pool, entry, &l[i]));
                i += 1;
            }
            assert(list_view(out@) =~= want);
            Datum::List(out)
        },
        Datum::Entries(e) => {
            let ghost want = expanded_entries(files, entry@, map_view(e@));
            let mut out: Vec<Datum> = Vec::new();
            let mut i: usize = 0;
            while i < e.len()
                invariant
                    decreases_to!(v => e),
                    i <= e@.len(),
                    files == pool_files(*pool),
                    want == expanded_entries(files, entry@, map_view(e@)),
                    out@.len() == i,
                    forall|k: int| 0 <= k < i ==> out@[k]@ == want[k],
                decreases e@.len() - i,
            {
                assert(map_view(e@)[i as int] == (e@[i as int].0@, e@[i as int].1@));
                let value = expand_datum(pool, entry, &e[i].1);
                let item = Datum::Message(entry_message_of(entry, &e[i].0, value));
                assert(item@ == want[i as int]);
                out.push(item);
                i += 1;
            }
            assert(list_view(out@) =~= want);
            Datum::List(out)
        },
        other => other.copy(),
    }
}

fn key_number_of(pool: &DescriptorPool, entry: &str) -> (r: u32)
    ensures
        r == key_number(pool_files(*pool), entry@),
{
    match field_by_name(pool, entry, "key") {
        Some(t) => t.number,
        None => 1,
    }
}

fn key_of(
    pool: &DescriptorPool,
    types: &Vec<FieldType>,
    entry: &str,
    number: u32,
    v: &Datum,
) -> (r: EntryKey)
    requires
        field_types_view(types@) == fields_of(pool_files(*pool), entry@),
    ensures
        r@ == key_at(pool_files(*pool), entry@, number, v@),
{
    broadcast use message_views;

    if let Datum::Message(m) = v {
        let i = find_field(&m.fields, number);
        assert(v@ == DatumV::Message(m@));
        if i < m.fields.len() {
            assert(field_value(m@.fields, number) == Some(m.fields@[i as int].1@));
            match &m.fields[i].1 {
                Datum::Scalar(s) => {
                    return EntryKey::Scalar(*s);
                },
                Datum::Text(t) => {
                    return EntryKey::Text(t.clone());
                },
                _ => {},
            }
        }
    }
    if let Some(t) = find_numbered(types, number) {
        match &t.default {
            Datum::Scalar(d) => {
                return EntryKey::Scalar(*d);
            },
            Datum::Text(d) => {
                return EntryKey::Text(d.clone());
            },
            _ => {},
        }
    }
    let empty = String::new();
    assert(empty@ =~= Seq::empty());
    EntryKey::Text(empty)
}

/// Puts the entries of each map in the order of the texts of their keys.
pub fn sort_maps(pool: &DescriptorPool, name: &str, m: &Message) -> (r: Message)
    ensures
        r@ == sorted(pool_files(*pool), name@, m@),
    decreases m, 0nat,
{
    broadcast use message_views;

    let t = type_or_none(pool, name);
    Message {
        full_name: m.full_name.clone(),
        fields: sort_fields(pool, &t.fields, &m.fields),
        extensions: sort_fields(pool, &t.extensions, &m.extensions),
        unknown: copy_bytes(&m.unknown),
    }
}

fn sort_fields(pool: &DescriptorPool, types: &Vec<FieldType>, f: &Vec<(u32, Datum)>) -> (r: Vec<
    (u32, Datum),
>)
    ensures
        fields_view(r@) == sorted_fields(
            pool_files(*pool),
            field_types_view(types@),
            fields_view(f@),
        ),
    decreases f, 0nat,
{
    let ghost want = sorted_fields(pool_files(*pool), field_types_view(types@), fields_view(f@));
    let mut r: Vec<(u32, Datum)> = Vec::new();
    let mut i: usize = 0;
    while i < f.len()
        invariant
            i <= f@.len(),
            want == sorted_fields(pool_files(*pool), field_types_view(types@), fields_view(f@)),
            r@.len() == i,
            forall|k: int| 0 <= k < i ==> (r@[k].0, r@[k].1@) == want[k],
        decreases f@.len() - i,
    {
        assert(fields_view(f@)[i as int] == (f@[i as int].0, f@[i as int].1@));
        let value = match find_numbered(types, f[i].0) {
            Some(t) => match &t.kind {
                FieldKind::Message(child) => sort_datum(pool, child.as_str(), t.map, &f[i].1),
                _ => f[i].1.copy(),
            },
            None => f[i].1.copy(),
        };
        assert(value@ == want[i as int].1);
        r.push((f[i].0, value));
        i += 1;
    }
    assert(fields_view(r@) =~= want);
    r
}

fn sort_datum(pool: &DescriptorPool, child: &str, map: bool, v: &Datum) -> (r: Datum)
    ensures
        r@ == (match v@ {
            DatumV::Message(m) => DatumV::Message(sorted(pool_files(*pool), child@, m)),
            DatumV::List(l) => {
                let items = sorted_items(pool_files(*pool), child@, l);
                if map {
                    DatumV::List(unkeyed(by_text(keyed(pool_files(*pool), child@, items))))
                } else {
                    DatumV::List(items)
                }
            },
            _ => v@,
        }),
    decreases v, 1nat,
{
    broadcast use value_views;

    let ghost files = pool_files(*pool);
    match v {
        Datum::Message(m) => Datum::Message(sort_maps(pool, child, m)),
        Datum::List(l) => {
            let ghost want = sorted_items(files, child@, list_view(l@));
            let mut out: Vec<Datum> = Vec::new();
            let mut i: usize = 0;
            while i < l.len()
                invariant
                    decreases_to!(v => l),
                    i <= l@.len(),
                    files == pool_files(*pool),
                    want == sorted_items(files, child@, list_view(l@)),
                    out@.len() == i,
                    forall|k: int| 0 <= k < i ==> out@[k]@ == want[k],
                decreases l@.len() - i,
            {
                assert(list_view(l@)[i as int] == l@[i as int]@);
                let item = match &l[i] {
                    Datum::Message(m) => Datum::Message(sort_maps(pool, child, m)),
                    other => other.copy(),
                };
                assert(item@ == sorted_item(files, child@, l@[i as int]@));
                out.push(item);
                i += 1;
            }
            assert(list_view(out@) =~= want);
            if map {
                Datum::List(sort_entries(pool, child, out))
            } else {
                Datum::List(out)
            }
        },
        other => other.copy(),
    }
}

fn sort_entries(pool: &DescriptorPool, entry: &str, items: Vec<Datum>) -> (r: Vec<Datum>)
    ensures
        list_view(r@) == unkeyed(by_text(keyed(pool_files(*pool), entry@, list_view(items@)))),
{
    let ghost files = pool_files(*pool);
    let ghost all = keyed(files, entry@, list_view(items@));
    let t = type_or_none(pool, entry);
    let mut texts: Vec<(String, ())> = Vec::new();
    let mut data: Vec<Datum> = Vec::new();
    let number = key_number_of(pool, entry);
    let mut i: usize = 0;
    assert(all.take(0) =~= Seq::empty());
    assert(keys_of(texts@) =~= texts_of(by_text(all.take(0))));
    assert(list_view(data@) =~= unkeyed(by_text(all.take(0))));
    while i < items.len()
        invariant
            i <= items@.len(),
            files == pool_files(*pool),
            field_types_view(t.fields@) == fields_of(files, entry@),
            number == key_number(files, entry@),
            all == keyed(files, entry@, list_view(items@)),
            keys_of(texts@) == texts_of(by_text(all.take(i as int))),
            list_view(data@) == unkeyed(by_text(all.take(i as int))),
        decreases items@.len() - i,
    {
        let ghost before = by_text(all.take(i as int));
        let key = key_of(pool, &t.fields, entry, number, &items[i]);
        let text = key_debug(&key);
        let item = items[i].copy();
        let ghost pair = (text@, item@);
        assert(list_view(items@)[i as int] == items@[i as int]@);
        assert(pair == all[i as int]);
        assert(all.take(i + 1).drop_last() =~= all.take(i as int));
        assert(all.take(i + 1).last() == pair);
        proof {
            by_text_sorts(all.take(i as int));
        }
        let p = find_slot_behind(&texts, text.as_str());
        assert(texts@.len() == keys_of(texts@).len());
        assert(data@.len() == list_view(data@).len());
        let ghost old_data = list_view(data@);
        let ghost old_keys = keys_of(texts@);
        texts.insert(p, (text, ()));
        data.insert(p, item);
        let ghost after = before.insert(p as int, pair);
        assert(keys_of(texts@) =~= old_keys.insert(p as int, pair.0));
        assert(list_view(data@) =~= old_data.insert(p as int, pair.1));
        assert(texts_of(after) =~= old_keys.insert(p as int, pair.0));
        assert(unkeyed(after) =~= old_data.insert(p as int, pair.1));
        i += 1;
    }
    assert(all.take(items@.len() as int) =~= all);
    data
}

} // verus!
