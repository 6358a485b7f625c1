//! Unknown fields: a message without them breaks the same rules, so that a reader who leaves them
//! out sees the same.
use vstd::prelude::*;

verus! {

use crate::determinism::{same_missing, same_place};
use crate::message::{DatumV, KeyV, MessageV};
use crate::payload::without_unknown;
use crate::pool::key_text;
use crate::text::{begins_with, decimal_text};
use crate::types::FieldTypeV;
use crate::validate::{
    datum_problem, entries_problem, extensions_of, fields_of, fields_problem, list_problem,
    member_path, name_of, problem, well_known_problem,
};

/// The message without unknown fields, in the messages in it too.
pub open spec fn known_only(m: MessageV) -> MessageV
    decreases m,
{
    MessageV {
        full_name: m.full_name,
        fields: known_fields(m.fields),
        extensions: known_fields(m.extensions),
        unknown: Seq::empty(),
    }
}

/// The same of fields.
pub open spec fn known_fields(f: Seq<(u32, DatumV)>) -> Seq<(u32, DatumV)>
    decreases f,
{
    Seq::new(
        f.len(),
        |i: int|
            if 0 <= i < f.len() {
                (f[i].0, known_datum(f[i].1))
            } else {
                f[i]
            },
    )
}

/// The same of a value.
pub open spec fn known_datum(v: DatumV) -> DatumV
    decreases v,
{
    match v {
        DatumV::Message(m) => DatumV::Message(known_only(m)),
        DatumV::List(l) => DatumV::List(known_list(l)),
        DatumV::Entries(e) => DatumV::Entries(known_entries(e)),
        _ => v,
    }
}

/// The same of the values of a list.
pub open spec fn known_list(l: Seq<DatumV>) -> Seq<DatumV>
    decreases l,
{
    Seq::new(
        l.len(),
        |i: int|
            if 0 <= i < l.len() {
                known_datum(l[i])
            } else {
                l[i]
            },
    )
}

/// The same of the entries of a map.
pub open spec fn known_entries(e: Seq<(KeyV, DatumV)>) -> Seq<(KeyV, DatumV)>
    decreases e,
{
    Seq::new(
        e.len(),
        |i: int|
            if 0 <= i < e.len() {
                (e[i].0, known_datum(e[i].1))
            } else {
                e[i]
            },
    )
}

/// Whether no unknown field stands in a message of the package of the well-known types, or in a
/// message in one.
pub open spec fn unknown_outside(m: MessageV) -> bool
    decreases m,
{
    if begins_with(m.full_name, "google.protobuf."@) {
        without_unknown(m)
    } else {
        fields_unknown_outside(m.fields) && fields_unknown_outside(m.extensions)
    }
}

/// The same of fields.
pub open spec fn fields_unknown_outside(f: Seq<(u32, DatumV)>) -> bool
    decreases f,
{
    forall|i: int| 0 <= i < f.len() ==> datum_unknown_outside((#[trigger] f[i]).1)
}

/// The same of a value.
pub open spec fn datum_unknown_outside(v: DatumV) -> bool
    decreases v,
{
    match v {
        DatumV::Message(m) => unknown_outside(m),
        DatumV::List(l) => forall|i: int|
            0 <= i < l.len() ==> datum_unknown_outside(#[trigger] l[i]),
        DatumV::Entries(e) => forall|i: int|
            0 <= i < e.len() ==> datum_unknown_outside((#[trigger] e[i]).1),
        _ => true,
    }
}

/// A message breaks the same rules without its unknown fields.
pub proof fn unknown_fields_break_no_rule(
    files: Seq<MessageV>,
    structural: bool,
    path: Seq<char>,
    m: MessageV,
)
    ensures
        problem(files, structural, path, known_only(m)) == problem(files, structural, path, m),
    decreases m, 0nat,
{
    let types = fields_of(files, m.full_name);
    let f = m.fields;
    let g = known_fields(f);
    same_missing(types, f, g, types.len());
    same_place(f, g, 1);
    same_place(f, g, 2);
    assert(well_known_problem(known_only(m), structural) == well_known_problem(m, structural));
    fields_the_same(files, structural, path, types, false, f, f.len());
    fields_the_same(
        files,
        structural,
        path,
        extensions_of(files, m.full_name),
        true,
        m.extensions,
        m.extensions.len(),
    );
}

proof fn fields_the_same(
    files: Seq<MessageV>,
    structural: bool,
    path: Seq<char>,
    types: Seq<FieldTypeV>,
    extension: bool,
    f: Seq<(u32, DatumV)>,
    n: nat,
)
    requires
        n <= f.len(),
    ensures
        fields_problem(files, structural, path, types, extension, known_fields(f), n)
            == fields_problem(files, structural, path, types, extension, f, n),
    decreases f, n,
{
    if n > 0 {
        fields_the_same(files, structural, path, types, extension, f, (n - 1) as nat);
        datum_the_same(
            files,
            structural,
            member_path(path, name_of(types, f[n - 1].0), extension),
            f[n - 1].1,
        );
    }
}

proof fn datum_the_same(files: Seq<MessageV>, structural: bool, path: Seq<char>, v: DatumV)
    ensures
        datum_problem(files, structural, path, known_datum(v)) == datum_problem(
            files,
            structural,
            path,
            v,
        ),
    decreases v, 0nat,
{
    match v {
        DatumV::Message(m) => {
            unknown_fields_break_no_rule(files, structural, path, m);
        },
        DatumV::List(l) => {
            list_the_same(files, structural, path, l, l.len());
        },
        DatumV::Entries(e) => {
            entries_the_same(files, structural, path, e, e.len());
        },
        _ => {},
    }
}

proof fn list_the_same(
    files: Seq<MessageV>,
    structural: bool,
    path: Seq<char>,
    l: Seq<DatumV>,
    n: nat,
)
    requires
        n <= l.len(),
    ensures
        list_problem(files, structural, path, known_list(l), n) == list_problem(
            files,
            structural,
            path,
            l,
            n,
        ),
    decreases l, n,
{
    if n > 0 {
        list_the_same(files, structural, path, l, (n - 1) as nat);
        datum_the_same(
            files,
            structural,
            path + "["@ + decimal_text((n - 1) as nat) + "]"@,
            l[n - 1],
        );
    }
}

proof fn entries_the_same(
    files: Seq<MessageV>,
    structural: bool,
    path: Seq<char>,
    e: Seq<(KeyV, DatumV)>,
    n: nat,
)
    requires
        n <= e.len(),
    ensures
        entries_problem(files, structural, path, known_entries(e), n) == entries_problem(
            files,
            structural,
            path,
            e,
            n,
        ),
    decreases e, n,
{
    if n > 0 {
        entries_the_same(files, structural, path, e, (n - 1) as nat);
        datum_the_same(files, structural, path + "["@ + key_text(e[n - 1].0) + "]"@, e[n - 1].1);
    }
}

} // verus!
