//! The private copy of a schema, and the files of descriptor sets: what changes in them, and that
//! nothing else does.
use vstd::prelude::*;

verus! {

use crate::accepting::{compiled_file, compiled_files_are_accepted, imports_publicly};
use crate::codec::{bare, merged_sets, schema_of};
use crate::determinism::same_place;
use crate::equality::alike;
use crate::error::Fault;
use crate::merge::names_differ;
use crate::message::{
    field_index, field_index_divides, field_index_is, field_value, with_field, without_field,
    DatumV, MessageV, Scalar,
};
use crate::once::{files_once, numbers_differ};
use crate::order::{ascending, ascending_insert, slot, slot_divides};
use crate::pool::{message_type, resolves, set_files};
use crate::schema::{
    file_index, file_name, index_names, indexed, indexed_sets, merged, normalized_field, normalized_file, normalized_files,
    normalized_message, private_references, private_service, shown_name, without_source,
};
use crate::sound::{sound, with_field_keeps};
use crate::text::{text_less_irreflexive, trimmed};

/// Setting a field: it holds the value afterwards, and all others hold what they held.
pub proof fn setting_a_field(f: Seq<(u32, DatumV)>, number: u32, v: DatumV, other: u32)
    ensures
        field_value(with_field(f, number, v), number) == Some(v),
        other != number ==> field_value(with_field(f, number, v), other) == field_value(f, other),
{
    field_index_divides(f, number);
    let p = field_index(f, number) as int;
    let h = with_field(f, number, v);
    field_index_is(h, number, p);
    if other != number {
        with_field_keeps(f, number, v, other);
    }
}

/// Taking a field away: it is not there afterwards, where no number stands twice, and all others hold
/// what they held.
pub proof fn taking_a_field_away(f: Seq<(u32, DatumV)>, number: u32, other: u32)
    ensures
        numbers_differ(f) ==> field_value(without_field(f, number), number) is None,
        other != number ==> field_value(without_field(f, number), other) == field_value(f, other),
{
    field_index_divides(f, number);
    field_index_divides(f, other);
    let q = field_index(f, number) as int;
    let p = field_index(f, other) as int;
    let h = without_field(f, number);
    if q < f.len() {
        if other != number {
            let r = if p < q {
                p
            } else if p == f.len() {
                h.len() as int
            } else {
                p - 1
            };
            assert forall|i: int| 0 <= i < r implies h[i].0 != other by {
                if i < q {
                    assert(h[i] == f[i]);
                } else {
                    assert(h[i] == f[i + 1]);
                }
            }
            field_index_is(h, other, r);
        }
        if numbers_differ(f) {
            assert forall|i: int| 0 <= i < h.len() implies h[i].0 != number by {
                if i < q {
                    assert(f[i].0 != f[q].0);
                } else {
                    assert(f[q].0 != f[i + 1].0);
                }
            }
            field_index_is(h, number, h.len() as int);
        }
    }
}

/// A file without its source locations is the same file in all else.
pub proof fn only_source_locations_are_left_out(f: MessageV, other: u32)
    requires
        numbers_differ(f.fields),
    ensures
        field_value(without_source(f).fields, 9) is None,
        other != 9 ==> field_value(without_source(f).fields, other) == field_value(f.fields, other),
        field_value(f.fields, 9) is None ==> without_source(f) == f,
        without_source(f).full_name == f.full_name,
        without_source(f).unknown == f.unknown,
        without_source(f).extensions == f.extensions,
{
    taking_a_field_away(f.fields, 9, other);
}

/// A text without the dots in front.
proof fn dots_are_trimmed(name: Seq<char>)
    requires
        name.len() > 0 ==> name[0] != '.',
    ensures
        trimmed(name, '.') == name,
        trimmed(seq!['.'] + name, '.') == name,
{
    let s = seq!['.'] + name;
    assert(s.drop_first() =~= name);
    assert(trimmed(s, '.') == trimmed(s.drop_first(), '.'));
}

/// Whether a reference to a type is that to its private copy.
pub open spec fn made_private(old_value: Option<DatumV>, new_value: Option<DatumV>) -> bool {
    match old_value {
        Some(DatumV::Text(t)) => forall|name: Seq<char>|
            (name.len() > 0 ==> name[0] != '.') && (t == name || t == #[trigger] (seq!['.'] + name))
                ==> new_value == Some(DatumV::Text(".protolark_internal."@ + name)),
        _ => new_value == old_value,
    }
}

proof fn reference_is_private(v: DatumV)
    ensures
        made_private(Some(v), Some(crate::schema::private_value(v))),
{
    if let DatumV::Text(t) = v {
        reveal_strlit(".");
        reveal_strlit("protolark_internal");
        reveal_strlit(".protolark_internal.");
        assert("."@ + "protolark_internal"@ + "."@ =~= ".protolark_internal."@);
        assert forall|name: Seq<char>|
            (name.len() > 0 ==> name[0] != '.') && (t == name || t == #[trigger] (seq!['.']
                + name)) implies Some(crate::schema::private_value(v)) == Some(
            DatumV::Text(".protolark_internal."@ + name),
        ) by {
            dots_are_trimmed(name);
        }
    }
}

proof fn references_are_private(m: MessageV, a: u32, b: u32, other: u32)
    ensures
        made_private(
            field_value(m.fields, a),
            field_value(private_references(m, a, b).fields, a),
        ),
        made_private(
            field_value(m.fields, b),
            field_value(private_references(m, a, b).fields, b),
        ),
        other != a && other != b ==> field_value(private_references(m, a, b).fields, other)
            == field_value(m.fields, other),
{
    let f = m.fields;
    let g = private_references(m, a, b).fields;
    assert forall|i: int| 0 <= i < f.len() implies (#[trigger] f[i]).0 == g[i].0 by {}
    same_place(f, g, a);
    same_place(f, g, b);
    same_place(f, g, other);
    field_index_divides(f, a);
    field_index_divides(f, b);
    field_index_divides(f, other);
    let p = field_index(f, a) as int;
    let q = field_index(f, b) as int;
    if p < f.len() {
        reference_is_private(f[p].1);
    }
    if q < f.len() {
        reference_is_private(f[q].1);
    }
}

/// A field of the private copy for structural input: it refers to the private copies of its type and
/// of the message that it extends, its JSON name is its name, and all else is as it was. For
/// ProtoJSON it is the same field.
pub proof fn fields_of_private_copies(f: MessageV, other: u32)
    requires
        numbers_differ(f.fields),
    ensures
        normalized_field(f, false) == f,
        normalized_field(f, true).full_name == f.full_name,
        made_private(field_value(f.fields, 6), field_value(normalized_field(f, true).fields, 6)),
        made_private(field_value(f.fields, 2), field_value(normalized_field(f, true).fields, 2)),
        field_value(normalized_field(f, true).fields, 10) == field_value(f.fields, 1),
        other != 2 && other != 6 && other != 10 ==> field_value(
            normalized_field(f, true).fields,
            other,
        ) == field_value(f.fields, other),
{
    let g = private_references(f, 6, 2).fields;
    references_are_private(f, 6, 2, other);
    assert(numbers_differ(g)) by {
        assert forall|i: int, j: int| 0 <= i < j < g.len() implies (#[trigger] g[i]).0 != (
        #[trigger] g[j]).0 by {
            assert(f.fields[i].0 != f.fields[j].0);
        }
    }
    match field_value(f.fields, 1) {
        Some(name) => {
            setting_a_field(g, 10, name, other);
            setting_a_field(g, 10, name, 2);
            setting_a_field(g, 10, name, 6);
        },
        None => {
            taking_a_field_away(g, 10, other);
            taking_a_field_away(g, 10, 2);
            taking_a_field_away(g, 10, 6);
        },
    }
}

/// Whether a list holds what the items of another one become: each in its place.
pub open spec fn fields_itemwise(
    old_value: Option<DatumV>,
    new_value: Option<DatumV>,
    structural: bool,
) -> bool {
    match old_value {
        Some(DatumV::List(l)) => new_value matches Some(DatumV::List(k)) && k.len() == l.len()
            && forall|i: int|
            0 <= i < l.len() ==> match #[trigger] l[i] {
                DatumV::Message(f) => k[i] == DatumV::Message(normalized_field(f, structural)),
                _ => k[i] == l[i],
            },
        _ => new_value == old_value,
    }
}

/// The same of lists of descriptors of messages.
pub open spec fn messages_itemwise(
    old_value: Option<DatumV>,
    new_value: Option<DatumV>,
    structural: bool,
) -> bool {
    match old_value {
        Some(DatumV::List(l)) => new_value matches Some(DatumV::List(k)) && k.len() == l.len()
            && forall|i: int|
            0 <= i < l.len() ==> match #[trigger] l[i] {
                DatumV::Message(m) => k[i] == DatumV::Message(normalized_message(m, structural)),
                _ => k[i] == l[i],
            },
        _ => new_value == old_value,
    }
}

/// Whether options are others without the mark of map entries, and the same in all else.
pub open spec fn loses_its_mark(
    old_value: Option<DatumV>,
    new_value: Option<DatumV>,
    other: u32,
) -> bool {
    match old_value {
        Some(DatumV::Message(o)) => new_value matches Some(DatumV::Message(n)) && n.full_name
            == o.full_name && n.unknown == o.unknown && n.extensions == o.extensions
            && field_value(n.fields, 7) == Some(DatumV::Scalar(Scalar::Bool(false))) && (other != 7
            ==> field_value(n.fields, other) == field_value(o.fields, other)),
        _ => new_value == old_value,
    }
}

/// A message of the private copy: its fields, extensions and nested types are those of the private
/// copy, each in its place, it is not marked as a map entry, and all else is as it was.
pub proof fn messages_of_private_copies(m: MessageV, structural: bool, other: u32)
    ensures
        ({
            let n = normalized_message(m, structural);
            &&& n.full_name == m.full_name
            &&& n.fields.len() == m.fields.len()
            &&& fields_itemwise(field_value(m.fields, 2), field_value(n.fields, 2), structural)
            &&& fields_itemwise(field_value(m.fields, 6), field_value(n.fields, 6), structural)
            &&& messages_itemwise(field_value(m.fields, 3), field_value(n.fields, 3), structural)
            &&& loses_its_mark(field_value(m.fields, 7), field_value(n.fields, 7), other)
            &&& other != 2 && other != 3 && other != 6 && other != 7 ==> field_value(
                n.fields,
                other,
            ) == field_value(m.fields, other)
        }),
{
    let f = m.fields;
    let g = normalized_message(m, structural).fields;
    assert forall|i: int| 0 <= i < f.len() implies (#[trigger] f[i]).0 == g[i].0 by {}
    same_place(f, g, 2);
    same_place(f, g, 3);
    same_place(f, g, 6);
    same_place(f, g, 7);
    same_place(f, g, other);
    field_index_divides(f, 2);
    field_index_divides(f, 3);
    field_index_divides(f, 6);
    field_index_divides(f, 7);
    field_index_divides(f, other);
    if let Some(DatumV::Message(o)) = field_value(f, 7) {
        setting_a_field(o.fields, 7, DatumV::Scalar(Scalar::Bool(false)), other);
    }
    if let Some(DatumV::List(l)) = field_value(f, 3) {
        let k = crate::schema::normalized_message_items(l, structural);
        assert(field_value(g, 3) == Some(DatumV::List(k)));
        assert forall|i: int| 0 <= i < l.len() implies match #[trigger] l[i] {
            DatumV::Message(m) => k[i] == DatumV::Message(normalized_message(m, structural)),
            _ => k[i] == l[i],
        } by {
            assert(k[i] == crate::schema::normalized_message_item(l[i], structural));
        }
    }
}

/// Whether services are others whose methods take and give the private copies of their types, and
/// are the same in all else.
pub open spec fn services_itemwise(
    old_value: Option<DatumV>,
    new_value: Option<DatumV>,
    structural: bool,
) -> bool {
    match old_value {
        Some(DatumV::List(l)) => new_value matches Some(DatumV::List(k)) && k.len() == l.len() && (
        !structural ==> k == l) && forall|i: int|
            0 <= i < l.len() ==> #[trigger] l[i] is Message == k[i] is Message && (l[i] is Message
                ==> k[i]->Message_0.full_name == l[i]->Message_0.full_name && field_value(
                k[i]->Message_0.fields,
                1,
            ) == field_value(l[i]->Message_0.fields, 1) && field_value(k[i]->Message_0.fields, 3)
                == field_value(l[i]->Message_0.fields, 3)),
        _ => new_value == old_value,
    }
}

/// The package of the private copy of a file.
pub open spec fn private_package_of(old_value: Option<DatumV>) -> Seq<char> {
    match old_value {
        Some(DatumV::Text(p)) => if p.len() > 0 {
            "protolark_internal."@ + p
        } else {
            "protolark_internal"@
        },
        _ => "protolark_internal"@,
    }
}

/// A file of the private copy: its messages and extensions are those of the private copy, each in its
/// place, its package is private for structural input, and all else is as it was, its services but
/// for the types of their methods.
pub proof fn files_of_private_copies(f: MessageV, structural: bool, other: u32)
    ensures
        ({
            let n = normalized_file(f, structural);
            &&& n.full_name == f.full_name
            &&& messages_itemwise(field_value(f.fields, 4), field_value(n.fields, 4), structural)
            &&& fields_itemwise(field_value(f.fields, 7), field_value(n.fields, 7), structural)
            &&& services_itemwise(field_value(f.fields, 6), field_value(n.fields, 6), structural)
            &&& structural ==> field_value(n.fields, 2) == Some(
                DatumV::Text(private_package_of(field_value(f.fields, 2))),
            )
            &&& !structural ==> field_value(n.fields, 2) == field_value(f.fields, 2)
            &&& other != 2 && other != 4 && other != 6 && other != 7 ==> field_value(
                n.fields,
                other,
            ) == field_value(f.fields, other)
        }),
{
    let old_fields = f.fields;
    let g = normalized_file(f, structural).fields;
    let parts = Seq::new(
        f.fields.len(),
        |i: int|
            {
                let number = f.fields[i].0;
                (
                    number,
                    if number == 4 {
                        crate::schema::normalized_message_list(f.fields[i].1, structural)
                    } else if number == 7 {
                        crate::schema::normalized_field_list(f.fields[i].1, structural)
                    } else if number == 6 {
                        crate::schema::normalized_services(f.fields[i].1, structural)
                    } else {
                        f.fields[i].1
                    },
                )
            },
    );
    assert forall|i: int| 0 <= i < old_fields.len() implies (#[trigger] old_fields[i]).0
        == parts[i].0 by {}
    same_place(old_fields, parts, 2);
    same_place(old_fields, parts, 4);
    same_place(old_fields, parts, 6);
    same_place(old_fields, parts, 7);
    same_place(old_fields, parts, other);
    field_index_divides(old_fields, 2);
    field_index_divides(old_fields, 4);
    field_index_divides(old_fields, 6);
    field_index_divides(old_fields, 7);
    field_index_divides(old_fields, other);
    if structural {
        let package = crate::schema::normalized_package(field_value(f.fields, 2));
        reveal_strlit("protolark_internal");
        reveal_strlit("protolark_internal.");
        reveal_strlit(".");
        assert("protolark_internal"@ + "."@ =~= "protolark_internal."@);
        assert(package == private_package_of(field_value(f.fields, 2)));
        assert(g =~= with_field(parts, 2, DatumV::Text(package)));
        setting_a_field(parts, 2, DatumV::Text(package), other);
        setting_a_field(parts, 2, DatumV::Text(package), 4);
        setting_a_field(parts, 2, DatumV::Text(package), 6);
        setting_a_field(parts, 2, DatumV::Text(package), 7);
    } else {
        assert(g =~= parts);
    }
    if let Some(DatumV::List(l)) = field_value(old_fields, 4) {
        let k = crate::schema::normalized_message_items(l, structural);
        assert(field_value(g, 4) == Some(DatumV::List(k)));
        assert forall|i: int| 0 <= i < l.len() implies match #[trigger] l[i] {
            DatumV::Message(m) => k[i] == DatumV::Message(normalized_message(m, structural)),
            _ => k[i] == l[i],
        } by {
            assert(k[i] == crate::schema::normalized_message_item(l[i], structural));
        }
    }
    if let Some(DatumV::List(l)) = field_value(old_fields, 6) {
        let k = field_value(g, 6)->Some_0->List_0;
        if structural {
            assert forall|i: int| 0 <= i < l.len() implies #[trigger] l[i] is Message == k[i]
                is Message && (l[i] is Message ==> k[i]->Message_0.full_name
                == l[i]->Message_0.full_name && field_value(k[i]->Message_0.fields, 1)
                == field_value(l[i]->Message_0.fields, 1) && field_value(
                k[i]->Message_0.fields,
                3,
            ) == field_value(l[i]->Message_0.fields, 3)) by {
                assert(k[i] == private_service(l[i]));
                if let DatumV::Message(s) = l[i] {
                    let t = k[i]->Message_0.fields;
                    assert forall|j: int| 0 <= j < s.fields.len() implies (
                    #[trigger] s.fields[j]).0 == t[j].0 by {}
                    same_place(s.fields, t, 1);
                    same_place(s.fields, t, 3);
                    field_index_divides(s.fields, 1);
                    field_index_divides(s.fields, 3);
                }
            }
        }
    }
}

/// The private copy has a file for each file, in its place.
pub proof fn private_copies_have_all_files(files: Seq<MessageV>, structural: bool, i: int)
    requires
        0 <= i < files.len(),
    ensures
        normalized_files(files, structural).len() == files.len(),
        normalized_files(files, structural)[i] == normalized_file(files[i], structural),
{
}

/// The methods of a service in the private copy for structural input: as many as before, each with
/// the private copies of the types that it takes and gives, and the same in all else.
pub proof fn methods_of_private_copies(
    s: MessageV,
    i: int,
    l: Seq<DatumV>,
    j: int,
    m: MessageV,
    other: u32,
)
    requires
        0 <= i < s.fields.len(),
        s.fields[i] == (2u32, DatumV::List(l)),
        0 <= j < l.len(),
        l[j] == DatumV::Message(m),
    ensures
        ({
            let t = private_service(DatumV::Message(s))->Message_0;
            let k = t.fields[i].1->List_0;
            &&& private_service(DatumV::Message(s)) is Message
            &&& t.fields.len() == s.fields.len()
            &&& t.fields[i].1 is List && k.len() == l.len()
            &&& k[j] is Message
            &&& made_private(field_value(m.fields, 2), field_value(k[j]->Message_0.fields, 2))
            &&& made_private(field_value(m.fields, 3), field_value(k[j]->Message_0.fields, 3))
            &&& other != 2 && other != 3 ==> field_value(k[j]->Message_0.fields, other)
                == field_value(m.fields, other)
        }),
{
    references_are_private(m, 2, 3, other);
}

/// Adding a file to others: one of a new name comes behind them, without its source locations; one
/// that counts as the same as the one of its name changes nothing; and any other is a conflict.
pub proof fn adding_a_file(files: Seq<MessageV>, f: MessageV, i: int)
    requires
        names_differ(files),
    ensures
        (forall|k: int|
            0 <= k < files.len() ==> file_name(#[trigger] files[k]) != file_name(without_source(f)))
            ==> merged(files, seq![f], 1) == Ok::<Seq<MessageV>, Fault>(
            files.push(without_source(f)),
        ),
        0 <= i < files.len() && file_name(files[i]) == file_name(without_source(f)) && alike(
            files[i],
            without_source(f),
        ) ==> merged(files, seq![f], 1) == Ok::<Seq<MessageV>, Fault>(files),
        0 <= i < files.len() && file_name(files[i]) == file_name(without_source(f)) && !alike(
            files[i],
            without_source(f),
        ) ==> merged(files, seq![f], 1) == Err::<Seq<MessageV>, Fault>(
            Fault::Conflict(shown_name(without_source(f))),
        ),
{
    let more = seq![f];
    let name = file_name(without_source(f));
    assert(more[0] == f);
    assert(merged(files, more, 0) == Ok::<Seq<MessageV>, Fault>(files));
    place_of_file(files, name);
    let p = file_index(files, name) as int;
    if p < files.len() && 0 <= i < files.len() && file_name(files[i]) == name {
        if p < i {
            assert(file_name(files[p]) != file_name(files[i]));
        } else if i < p {
            assert(file_name(files[i]) != file_name(files[p]));
        }
    }
}

proof fn place_of_file(files: Seq<MessageV>, name: Option<Seq<char>>)
    ensures
        file_index(files, name) <= files.len(),
        file_index(files, name) < files.len() ==> file_name(files[file_index(files, name) as int])
            == name,
        file_index(files, name) == files.len() ==> forall|i: int|
            0 <= i < files.len() ==> file_name(#[trigger] files[i]) != name,
    decreases files.len(),
{
    if files.len() > 0 && file_name(files[0]) != name {
        place_of_file(files.drop_first(), name);
        if file_index(files, name) == files.len() {
            assert forall|i: int| 0 <= i < files.len() implies file_name(#[trigger] files[i])
                != name by {
                if i > 0 {
                    assert(files[i] == files.drop_first()[i - 1]);
                }
            }
        }
    }
}

/// Files are added one after another, and the first that cannot be added is what all are refused for.
pub proof fn files_are_added_in_turn(files: Seq<MessageV>, more: Seq<MessageV>, n: nat)
    requires
        n < more.len(),
    ensures
        merged(files, more, 0) == Ok::<Seq<MessageV>, Fault>(files),
        merged(files, more, n) matches Ok(all) ==> merged(files, more, n + 1) == merged(
            all,
            seq![more[n as int]],
            1,
        ),
        merged(files, more, n) is Err ==> merged(files, more, n + 1) == merged(files, more, n),
{
    if let Ok(all) = merged(files, more, n) {
        let one = seq![more[n as int]];
        assert(one[0] == more[n as int]);
        assert(merged(all, one, 0) == Ok::<Seq<MessageV>, Fault>(all));
    }
}

/// Descriptor sets are added one after another: one that cannot be read is refused under its place.
pub proof fn sets_are_added_in_turn(sets: Seq<Seq<u8>>, n: nat)
    requires
        n < sets.len(),
    ensures
        merged_sets(sets, 0) == Ok::<Seq<MessageV>, Fault>(Seq::empty()),
        merged_sets(sets, n) matches Ok(files) ==> match set_files(sets[n as int]) {
            Some(more) => merged_sets(sets, n + 1) == merged(files, more, more.len()),
            None => merged_sets(sets, n + 1) == Err::<Seq<MessageV>, Fault>(
                Fault::DescriptorSet(n),
            ),
        },
        merged_sets(sets, n) is Err ==> merged_sets(sets, n + 1) == merged_sets(sets, n),
{
}

/// What descriptor sets are refused for: there are none, they cannot be merged, the names in them do
/// not resolve, or they lack the type. Those that a compiler makes are not refused for their form.
pub proof fn compiled_sets_are_taken(sets: Seq<Seq<u8>>, name: Seq<char>, files: Seq<MessageV>)
    requires
        sets.len() > 0,
        merged_sets(sets, sets.len()) == Ok::<Seq<MessageV>, Fault>(files),
        files_once(files, false),
        forall|i: int| 0 <= i < files.len() ==> compiled_file(#[trigger] files[i]),
        forall|i: int, j: int|
            0 <= i < files.len() && 0 <= j < files.len() && imports_publicly(
                #[trigger] files[i],
                #[trigger] files[j],
            ) ==> j < i,
    ensures
        resolves(files) && message_type(files, bare(name)) is Some ==> schema_of(sets, name) == Ok::<
            Seq<MessageV>,
            Fault,
        >(files),
        !resolves(files) ==> schema_of(sets, name) == Err::<Seq<MessageV>, Fault>(
            Fault::Unresolved,
        ),
        resolves(files) && message_type(files, bare(name)) is None ==> schema_of(sets, name)
            == Err::<Seq<MessageV>, Fault>(Fault::UnknownMessage(name)),
        schema_of(Seq::empty(), name) == Err::<Seq<MessageV>, Fault>(Fault::NoDescriptorSet),
{
    compiled_files_are_accepted(files);
    assert(sound(files));
}

/// Adding a file to an index: one without a name is refused; one of a new name comes to stand in the
/// order of names, without its source locations, and all others stay; one that counts as the same as
/// the one of its name changes nothing; and any other is a conflict.
pub proof fn adding_to_an_index(index: Seq<(Seq<char>, MessageV)>, f: MessageV, i: int)
    requires
        ascending(index_names(index)),
    ensures
        ({
            let r = indexed(index, seq![f], 1);
            let g = without_source(f);
            &&& file_name(g) is None ==> r == Err::<Seq<(Seq<char>, MessageV)>, Fault>(
                Fault::MissingFilename,
            )
            &&& file_name(g) matches Some(name) ==> {
                &&& (forall|k: int| 0 <= k < index.len() ==> (#[trigger] index[k]).0 != name) ==> (
                r matches Ok(all) && all.len() == index.len() + 1 && ascending(index_names(all))
                    && all.contains((name, g)) && forall|x: (Seq<char>, MessageV)|
                    index.contains(x) ==> #[trigger] all.contains(x))
                &&& 0 <= i < index.len() && index[i].0 == name && alike(index[i].1, g) ==> r == Ok::<
                    Seq<(Seq<char>, MessageV)>,
                    Fault,
                >(index)
                &&& 0 <= i < index.len() && index[i].0 == name && !alike(index[i].1, g) ==> r
                    == Err::<Seq<(Seq<char>, MessageV)>, Fault>(Fault::Conflict(name))
            }
        }),
{
    let more = seq![f];
    assert(more[0] == f);
    assert(indexed(index, more, 0) == Ok::<Seq<(Seq<char>, MessageV)>, Fault>(index));
    let g = without_source(f);
    if let Some(name) = file_name(g) {
        let keys = index_names(index);
        slot_divides(keys, name);
        text_less_irreflexive(name);
        let p = slot(keys, name) as int;
        if 0 <= i < index.len() && index[i].0 == name {
            assert(keys[i] == name);
            if p < i {
                assert(crate::text::text_less(keys[p], keys[i]));
            } else if i < p {
                assert(crate::text::text_less(keys[i], name));
            }
            assert(p == i);
        }
        if forall|k: int| 0 <= k < index.len() ==> (#[trigger] index[k]).0 != name {
            let all = index.insert(p, (name, g));
            assert(!keys.contains(name)) by {
                if keys.contains(name) {
                    let k = choose|k: int| 0 <= k < keys.len() && keys[k] == name;
                    assert(index[k].0 == name);
                }
            }
            ascending_insert(keys, name);
            assert(index_names(all) =~= keys.insert(p, name));
            assert(all[p] == (name, g));
            assert forall|x: (Seq<char>, MessageV)| index.contains(x) implies
                #[trigger] all.contains(x) by {
                let k = choose|k: int| 0 <= k < index.len() && index[k] == x;
                assert(all[if k < p {
                    k
                } else {
                    k + 1
                }] == x);
            }
        }
    }
}

/// Files and sets are added to an index one after another, and the first that cannot be added is what
/// all are refused for. A set that cannot be read is refused under its place.
pub proof fn indexes_grow_in_turn(
    index: Seq<(Seq<char>, MessageV)>,
    more: Seq<MessageV>,
    sets: Seq<Seq<u8>>,
    n: nat,
)
    ensures
        n < more.len() ==> (indexed(index, more, n) matches Ok(all) ==> indexed(index, more, n + 1)
            == indexed(all, seq![more[n as int]], 1)),
        n < more.len() && indexed(index, more, n) is Err ==> indexed(index, more, n + 1) == indexed(
            index,
            more,
            n,
        ),
        indexed_sets(sets, 0) == Ok::<Seq<(Seq<char>, MessageV)>, Fault>(Seq::empty()),
        n < sets.len() ==> (indexed_sets(sets, n) matches Ok(all) ==> match set_files(
            sets[n as int],
        ) {
            Some(files) => indexed_sets(sets, n + 1) == indexed(all, files, files.len()),
            None => indexed_sets(sets, n + 1) == Err::<Seq<(Seq<char>, MessageV)>, Fault>(
                Fault::DescriptorSet(n),
            ),
        }),
        n < sets.len() && indexed_sets(sets, n) is Err ==> indexed_sets(sets, n + 1)
            == indexed_sets(sets, n),
{
    if n < more.len() {
        if let Ok(all) = indexed(index, more, n) {
            let one = seq![more[n as int]];
            assert(one[0] == more[n as int]);
            assert(indexed(all, one, 0) == Ok::<Seq<(Seq<char>, MessageV)>, Fault>(all));
        }
    }
}

} // verus!
