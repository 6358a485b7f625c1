//! Maps declared as groups: the wire form of their entries is not the one that a list of groups is
//! read from.
use crate::message::{Datum, EntryKey, Message};
use crate::normalize::type_or_none;
use crate::types::{find_numbered, FieldType};
use prost_reflect::DescriptorPool;
use vstd::prelude::*;

verus! {

use crate::message::{
    fields_view, list_view, map_view, message_views, value_views, DatumV, KeyV, MessageV,
};
use crate::pool::pool_files;
use crate::types::{field_types_view, numbered, FieldTypeV};
use crate::validate::{extensions_of, fields_of};

/// Whether a part of a message is a map declared as a group, with entries. The schema language has
/// no such maps.
pub open spec fn grouped(files: Seq<MessageV>, m: MessageV) -> bool
    decreases m,
{
    grouped_fields(files, fields_of(files, m.full_name), m.fields) || grouped_fields(
        files,
        extensions_of(files, m.full_name),
        m.extensions,
    )
}

/// The same of fields of these types.
pub open spec fn grouped_fields(
    files: Seq<MessageV>,
    types: Seq<FieldTypeV>,
    f: Seq<(u32, DatumV)>,
) -> bool
    decreases f,
{
    exists|i: int|
        0 <= i < f.len() && (group_entries(numbered(types, f[i].0), f[i].1) || grouped_datum(
            files,
            (#[trigger] f[i]).1,
        ))
}

/// Whether a value holds the entries of a map declared as a group.
pub open spec fn group_entries(t: Option<FieldTypeV>, v: DatumV) -> bool {
    match (t, v) {
        (Some(t), DatumV::Entries(e)) => t.map && t.group && e.len() > 0,
        _ => false,
    }
}

/// The same of a value.
pub open spec fn grouped_datum(files: Seq<MessageV>, v: DatumV) -> bool
    decreases v,
{
    match v {
        DatumV::Message(m) => grouped(files, m),
        DatumV::List(l) => grouped_list(files, l),
        DatumV::Entries(e) => grouped_entries(files, e),
        _ => false,
    }
}

/// The same of the values of a list.
pub open spec fn grouped_list(files: Seq<MessageV>, l: Seq<DatumV>) -> bool
    decreases l,
{
    exists|i: int| 0 <= i < l.len() && grouped_datum(files, #[trigger] l[i])
}

/// The same of the values of a map.
pub open spec fn grouped_entries(files: Seq<MessageV>, e: Seq<(KeyV, DatumV)>) -> bool
    decreases e,
{
    exists|i: int| 0 <= i < e.len() && grouped_datum(files, (#[trigger] e[i]).1)
}

/// Whether a part of a message is a map declared as a group, with entries.
pub fn has_groups(pool: &DescriptorPool, m: &Message) -> (r: bool)
    ensures
        r == grouped(pool_files(*pool), m@),
    decreases m,
{
    broadcast use message_views;

    let t = type_or_none(pool, m.full_name.as_str());
    fields_have_groups(pool, &t.fields, &m.fields) || fields_have_groups(
        pool,
        &t.extensions,
        &m.extensions,
    )
}

fn fields_have_groups(
    pool: &DescriptorPool,
    types: &Vec<FieldType>,
    f: &Vec<(u32, Datum)>,
) -> (r: bool)
    ensures
        r == grouped_fields(pool_files(*pool), field_types_view(types@), fields_view(f@)),
    decreases f,
{
    let ghost v = fields_view(f@);
    let mut i: usize = 0;
    while i < f.len()
        invariant
            i <= f@.len(),
            v == fields_view(f@),
            forall|k: int|
                0 <= k < i ==> !group_entries(
                    numbered(field_types_view(types@), v[k].0),
                    v[k].1,
                ) && !grouped_datum(pool_files(*pool), (#[trigger] v[k]).1),
        decreases f@.len() - i,
    {
        assert(v[i as int] == (f@[i as int].0, f@[i as int].1@));
        if holds_group_entries(find_numbered(types, f[i].0), &f[i].1) || datum_has_groups(
            pool,
            &f[i].1,
        ) {
            return true;
        }
        i += 1;
    }
    false
}

fn holds_group_entries(t: Option<&FieldType>, v: &Datum) -> (r: bool)
    ensures
        r == group_entries(
            match t {
                Some(t) => Some(t@),
                None => None,
            },
            v@,
        ),
{
    broadcast use value_views;

    match (t, v) {
        (Some(t), Datum::Entries(e)) => t.map && t.group && e.len() > 0,
        _ => false,
    }
}

fn datum_has_groups(pool: &DescriptorPool, v: &Datum) -> (r: bool)
    ensures
        r == grouped_datum(pool_files(*pool), v@),
    decreases v,
{
    broadcast use value_views;

    match v {
        Datum::Message(m) => has_groups(pool, m),
        Datum::List(l) => list_has_groups(pool, l),
        Datum::Entries(e) => entries_have_groups(pool, e),
        _ => false,
    }
}

fn list_has_groups(pool: &DescriptorPool, l: &Vec<Datum>) -> (r: bool)
    ensures
        r == grouped_list(pool_files(*pool), list_view(l@)),
    decreases l,
{
    let ghost v = list_view(l@);
    let mut i: usize = 0;
    while i < l.len()
        invariant
            i <= l@.len(),
            v == list_view(l@),
            forall|k: int| 0 <= k < i ==> !grouped_datum(pool_files(*pool), #[trigger] v[k]),
        decreases l@.len() - i,
    {
        assert(v[i as int] == l@[i as int]@);
        if datum_has_groups(pool, &l[i]) {
            return true;
        }
        i += 1;
    }
    false
}

fn entries_have_groups(pool: &DescriptorPool, e: &Vec<(EntryKey, Datum)>) -> (r: bool)
    ensures
        r == grouped_entries(pool_files(*pool), map_view(e@)),
    decreases e,
{
    let ghost v = map_view(e@);
    let mut i: usize = 0;
    while i < e.len()
        invariant
            i <= e@.len(),
            v == map_view(e@),
            forall|k: int| 0 <= k < i ==> !grouped_datum(pool_files(*pool), (#[trigger] v[k]).1),
        decreases e@.len() - i,
    {
        assert(v[i as int] == (e@[i as int].0@, e@[i as int].1@));
        if datum_has_groups(pool, &e[i].1) {
            return true;
        }
        i += 1;
    }
    false
}

} // verus!
