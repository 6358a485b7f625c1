//! The rules that messages keep, and where a broken one is found.
use vstd::prelude::*;

verus! {

use crate::codec::{
    bare, config, config_is_kept, config_message_read, known_files, protojson, schema_of, shown,
    structural_files,
};
use crate::error::{Fault, Rule};
use crate::json::JsonV;
use crate::message::{field_value, DatumV, KeyV, MessageV, Scalar};
use crate::pool::{json_message, key_text, message_json, message_type};
use crate::text::{begins_with, decimal_text};
use crate::types::{numbered, FieldTypeV};
use crate::validate::{
    datum_kept, datum_problem, entries_problem, extensions_of, fields_kept, fields_of, fields_problem, finite,
    kept, list_problem, missing, no_problem_iff_kept, problem, public_name, well_known_problem,
};

/// A double is finite if, and only if, its exponent is not all ones, whatever its sign and its
/// fraction.
pub proof fn finite_goes_by_the_exponent(bits: u64)
    ensures
        finite(bits) <==> (bits >> 52) & 0x7ff != 0x7ff,
        finite(bits) == finite(bits ^ 0x8000_0000_0000_0000),
        finite(bits) == finite(bits & 0x7ff0_0000_0000_0000),
{
    assert((bits / 0x10_0000_0000_0000) % 2048 == (bits >> 52) & 0x7ff) by (bit_vector);
    let a = bits ^ 0x8000_0000_0000_0000;
    assert((a / 0x10_0000_0000_0000) % 2048 == (bits >> 52) & 0x7ff) by (bit_vector)
        requires
            a == bits ^ 0x8000_0000_0000_0000,
    ;
    let b = bits & 0x7ff0_0000_0000_0000;
    assert((b / 0x10_0000_0000_0000) % 2048 == (bits >> 52) & 0x7ff) by (bit_vector)
        requires
            b == bits & 0x7ff0_0000_0000_0000,
    ;
}

/// Whether a type is a well-known one of this name, in the private copy for structural input too.
pub open spec fn is_well_known(name: Seq<char>, structural: bool, well_known: Seq<char>) -> bool {
    name == well_known || (structural && name == "protolark_internal."@ + well_known)
}

/// Whether a message keeps the rule of its type, were it well known: a timestamp is in the years 1
/// to 9999, with nanos from 0 on; a duration is within 10000 years, with nanos that do not point the
/// other way; and a value is of some kind, and is no number that is infinite or NaN.
pub open spec fn keeps_its_rule(m: MessageV, structural: bool) -> bool {
    &&& is_well_known(m.full_name, structural, "google.protobuf.Timestamp"@) ==> (
    field_value(m.fields, 1) matches Some(DatumV::Scalar(Scalar::I64(n))) ==> -62_135_596_800 <= n
        <= 253_402_300_799) && (field_value(m.fields, 2) matches Some(
        DatumV::Scalar(Scalar::I32(n)),
    ) ==> 0 <= n < 1_000_000_000)
    &&& is_well_known(m.full_name, structural, "google.protobuf.Duration"@) ==> {
        let s = match field_value(m.fields, 1) {
            Some(DatumV::Scalar(Scalar::I64(n))) => n as int,
            _ => 0,
        };
        let n = match field_value(m.fields, 2) {
            Some(DatumV::Scalar(Scalar::I32(n))) => n as int,
            _ => 0,
        };
        &&& -315_576_000_000 <= s <= 315_576_000_000
        &&& -1_000_000_000 < n < 1_000_000_000
        &&& s > 0 ==> n >= 0
        &&& s < 0 ==> n <= 0
    }
    &&& is_well_known(m.full_name, structural, "google.protobuf.Value"@) ==> m.fields.len() > 0 && (
    field_value(m.fields, 2) matches Some(DatumV::Scalar(Scalar::F64(bits))) ==> (bits >> 52)
        & 0x7ff != 0x7ff)
}

/// Whether a message, and all messages in it, keep the rules: what is required is set, and the rule
/// of a well-known type is kept.
pub open spec fn obeys(files: Seq<MessageV>, structural: bool, m: MessageV) -> bool
    decreases m,
{
    &&& match message_type(files, m.full_name) {
        Some(t) => forall|i: int|
            0 <= i < t.fields.len() && (#[trigger] t.fields[i]).required ==> exists|j: int|
                0 <= j < m.fields.len() && (#[trigger] m.fields[j]).0 == t.fields[i].number,
        None => true,
    }
    &&& keeps_its_rule(m, structural)
    &&& all_obey(files, structural, m.fields)
    &&& all_obey(files, structural, m.extensions)
}

/// The same of fields.
pub open spec fn all_obey(files: Seq<MessageV>, structural: bool, f: Seq<(u32, DatumV)>) -> bool
    decreases f,
{
    forall|i: int| 0 <= i < f.len() ==> value_obeys(files, structural, (#[trigger] f[i]).1)
}

/// The same of a value.
pub open spec fn value_obeys(files: Seq<MessageV>, structural: bool, v: DatumV) -> bool
    decreases v,
{
    match v {
        DatumV::Message(m) => obeys(files, structural, m),
        DatumV::List(l) => forall|i: int|
            0 <= i < l.len() ==> value_obeys(files, structural, #[trigger] l[i]),
        DatumV::Entries(e) => forall|i: int|
            0 <= i < e.len() ==> value_obeys(files, structural, (#[trigger] e[i]).1),
        _ => true,
    }
}

proof fn well_known_names(name: Seq<char>, structural: bool, well_known: Seq<char>)
    requires
        well_known.len() > 0,
        well_known[0] == 'g',
    ensures
        is_well_known(name, structural, well_known) <==> public_name(name, structural)
            == well_known,
{
    reveal_strlit("protolark_internal.");
    let prefix = "protolark_internal."@;
    assert(prefix[0] == 'p');
    if structural && begins_with(name, prefix) {
        let rest = name.skip(prefix.len() as int);
        assert(name =~= name.take(prefix.len() as int) + rest);
        assert(name == prefix + rest);
        assert(name[0] == 'p');
        if name == prefix + well_known {
            assert(rest =~= well_known);
        }
    } else if structural && name == prefix + well_known {
        assert(name.take(prefix.len() as int) =~= prefix);
    }
}

/// A message breaks the rule of its well-known type if, and only if, it does so by these bounds.
pub proof fn well_known_rules_are_exact(m: MessageV, structural: bool)
    ensures
        well_known_problem(m, structural) is None <==> keeps_its_rule(m, structural),
{
    reveal_strlit("google.protobuf.Timestamp");
    reveal_strlit("google.protobuf.Duration");
    reveal_strlit("google.protobuf.Value");
    assert("google.protobuf.Timestamp"@.len() == 25);
    assert("google.protobuf.Duration"@.len() == 24);
    assert("google.protobuf.Value"@.len() == 21);
    well_known_names(m.full_name, structural, "google.protobuf.Timestamp"@);
    well_known_names(m.full_name, structural, "google.protobuf.Duration"@);
    well_known_names(m.full_name, structural, "google.protobuf.Value"@);
    if let Some(DatumV::Scalar(Scalar::F64(bits))) = field_value(m.fields, 2) {
        finite_goes_by_the_exponent(bits);
    }
}

proof fn set_means_there(f: Seq<(u32, DatumV)>, number: u32)
    ensures
        field_value(f, number) is Some <==> exists|j: int|
            0 <= j < f.len() && (#[trigger] f[j]).0 == number,
{
    crate::message::field_index_divides(f, number);
    let i = crate::message::field_index(f, number) as int;
    if field_value(f, number) is Some {
        assert(f[i].0 == number);
    }
}

/// No problem is found with a message if, and only if, it obeys the rules: no other message is
/// refused.
pub proof fn rules_are_exact(files: Seq<MessageV>, structural: bool, path: Seq<char>, m: MessageV)
    ensures
        problem(files, structural, path, m) is None <==> obeys(files, structural, m),
{
    no_problem_iff_kept(files, structural, path, m);
    kept_means_obeyed(files, structural, m);
}

proof fn kept_means_obeyed(files: Seq<MessageV>, structural: bool, m: MessageV)
    ensures
        kept(files, structural, m) == obeys(files, structural, m),
    decreases m,
{
    well_known_rules_are_exact(m, structural);
    let types = fields_of(files, m.full_name);
    assert forall|i: int| 0 <= i < types.len() && (#[trigger] types[i]).required implies (
    field_value(m.fields, types[i].number) is Some <==> exists|j: int|
        0 <= j < m.fields.len() && (#[trigger] m.fields[j]).0 == types[i].number) by {
        set_means_there(m.fields, types[i].number);
    }
    fields_kept_means_obeyed(files, structural, m.fields);
    fields_kept_means_obeyed(files, structural, m.extensions);
}

proof fn fields_kept_means_obeyed(files: Seq<MessageV>, structural: bool, f: Seq<(u32, DatumV)>)
    ensures
        fields_kept(files, structural, f) == all_obey(files, structural, f),
    decreases f,
{
    assert forall|i: int| 0 <= i < f.len() implies datum_kept(
        files,
        structural,
        (#[trigger] f[i]).1,
    ) == value_obeys(files, structural, f[i].1) by {
        datum_kept_means_obeyed(files, structural, f[i].1);
    }
}

proof fn datum_kept_means_obeyed(files: Seq<MessageV>, structural: bool, v: DatumV)
    ensures
        datum_kept(files, structural, v) == value_obeys(files, structural, v),
    decreases v,
{
    match v {
        DatumV::Message(m) => {
            kept_means_obeyed(files, structural, m);
        },
        DatumV::List(l) => {
            assert forall|i: int| 0 <= i < l.len() implies datum_kept(
                files,
                structural,
                #[trigger] l[i],
            ) == value_obeys(files, structural, l[i]) by {
                datum_kept_means_obeyed(files, structural, l[i]);
            }
        },
        DatumV::Entries(e) => {
            assert forall|i: int| 0 <= i < e.len() implies datum_kept(
                files,
                structural,
                (#[trigger] e[i]).1,
            ) == value_obeys(files, structural, e[i].1) by {
                datum_kept_means_obeyed(files, structural, e[i].1);
            }
        },
        _ => {},
    }
}

/// A required field that is not set is found first, under its name.
pub proof fn what_is_missing_is_named(
    files: Seq<MessageV>,
    structural: bool,
    path: Seq<char>,
    m: MessageV,
    i: int,
)
    requires
        message_type(files, m.full_name) is Some,
        0 <= i < message_type(files, m.full_name)->Some_0.fields.len(),
        message_type(files, m.full_name)->Some_0.fields[i].required,
        forall|j: int|
            0 <= j < m.fields.len() ==> (#[trigger] m.fields[j]).0 != message_type(
                files,
                m.full_name,
            )->Some_0.fields[i].number,
        forall|k: int|
            0 <= k < i && (#[trigger] message_type(
                files,
                m.full_name,
            )->Some_0.fields[k]).required ==> exists|j: int|
                0 <= j < m.fields.len() && (#[trigger] m.fields[j]).0 == message_type(
                    files,
                    m.full_name,
                )->Some_0.fields[k].number,
    ensures
        problem(files, structural, path, m) == Some(
            (
                path + seq!['.'] + message_type(files, m.full_name)->Some_0.fields[i].name,
                Rule::Required,
            ),
        ),
{
    let types = fields_of(files, m.full_name);
    reveal_strlit(".");
    assert("."@ =~= seq!['.']);
    set_means_there(m.fields, types[i].number);
    assert forall|k: int| 0 <= k < i && (#[trigger] types[k]).required implies field_value(
        m.fields,
        types[k].number,
    ) is Some by {
        set_means_there(m.fields, types[k].number);
    }
    first_missing(types, m.fields, i, types.len());
}

proof fn first_missing(types: Seq<FieldTypeV>, f: Seq<(u32, DatumV)>, i: int, n: nat)
    requires
        0 <= i < types.len(),
        n <= types.len(),
        types[i].required,
        field_value(f, types[i].number) is None,
        forall|k: int|
            0 <= k < i && (#[trigger] types[k]).required ==> field_value(f, types[k].number) is Some,
    ensures
        n > i ==> missing(types, f, n) == Some(types[i].name),
        n <= i ==> missing(types, f, n) is None,
    decreases n,
{
    if n > 0 {
        first_missing(types, f, i, (n - 1) as nat);
        if n - 1 < i {
            let t = types[n - 1];
        }
    }
}

/// The name under which a field is found.
pub open spec fn shown_field(path: Seq<char>, types: Seq<FieldTypeV>, number: u32) -> Seq<char> {
    path + seq!['.'] + match numbered(types, number) {
        Some(t) => t.name,
        None => Seq::empty(),
    }
}

/// A rule that is broken in a field is found under the name of the field, if the message itself
/// keeps its rule and the fields before it obey. In a list it is found under its place, and in a map
/// under its key.
pub proof fn problems_are_found_at_their_places(
    files: Seq<MessageV>,
    structural: bool,
    path: Seq<char>,
    m: MessageV,
    i: int,
)
    requires
        0 <= i < m.fields.len(),
        keeps_its_rule(m, structural),
        forall|k: int|
            0 <= k < fields_of(files, m.full_name).len() && (#[trigger] fields_of(
                files,
                m.full_name,
            )[k]).required ==> field_value(m.fields, fields_of(files, m.full_name)[k].number)
                is Some,
        forall|k: int| 0 <= k < i ==> value_obeys(files, structural, (#[trigger] m.fields[k]).1),
        !value_obeys(files, structural, m.fields[i].1),
    ensures
        problem(files, structural, path, m) == datum_problem(
            files,
            structural,
            shown_field(path, fields_of(files, m.full_name), m.fields[i].0),
            m.fields[i].1,
        ),
        problem(files, structural, path, m) is Some,
{
    let types = fields_of(files, m.full_name);
    reveal_strlit(".");
    assert("."@ =~= seq!['.']);
    well_known_rules_are_exact(m, structural);
    none_missing(types, m.fields, types.len());
    first_problem(files, structural, path, types, m.fields, i, m.fields.len());
}

proof fn none_missing(types: Seq<FieldTypeV>, f: Seq<(u32, DatumV)>, n: nat)
    requires
        n <= types.len(),
        forall|k: int|
            0 <= k < n && (#[trigger] types[k]).required ==> field_value(f, types[k].number) is Some,
    ensures
        missing(types, f, n) is None,
    decreases n,
{
    if n > 0 {
        none_missing(types, f, (n - 1) as nat);
        let t = types[n - 1];
    }
}

proof fn obeyed_means_no_problem(
    files: Seq<MessageV>,
    structural: bool,
    path: Seq<char>,
    v: DatumV,
)
    ensures
        datum_problem(files, structural, path, v) is None <==> value_obeys(files, structural, v),
    decreases v, 0nat,
{
    match v {
        DatumV::Message(m) => {
            rules_are_exact(files, structural, path, m);
        },
        DatumV::List(l) => {
            list_obeyed(files, structural, path, l, l.len());
        },
        DatumV::Entries(e) => {
            entries_obeyed(files, structural, path, e, e.len());
        },
        _ => {},
    }
}

proof fn list_obeyed(
    files: Seq<MessageV>,
    structural: bool,
    path: Seq<char>,
    l: Seq<DatumV>,
    n: nat,
)
    requires
        n <= l.len(),
    ensures
        list_problem(files, structural, path, l, n) is None <==> forall|i: int|
            0 <= i < n ==> value_obeys(files, structural, #[trigger] l[i]),
    decreases l, n,
{
    if n > 0 {
        list_obeyed(files, structural, path, l, (n - 1) as nat);
        obeyed_means_no_problem(
            files,
            structural,
            path + "["@ + decimal_text((n - 1) as nat) + "]"@,
            l[n - 1],
        );
    }
}

proof fn entries_obeyed(
    files: Seq<MessageV>,
    structural: bool,
    path: Seq<char>,
    e: Seq<(KeyV, DatumV)>,
    n: nat,
)
    requires
        n <= e.len(),
    ensures
        entries_problem(files, structural, path, e, n) is None <==> forall|i: int|
            0 <= i < n ==> value_obeys(files, structural, (#[trigger] e[i]).1),
    decreases e, n,
{
    if n > 0 {
        entries_obeyed(files, structural, path, e, (n - 1) as nat);
        obeyed_means_no_problem(
            files,
            structural,
            path + "["@ + key_text(e[n - 1].0) + "]"@,
            e[n - 1].1,
        );
    }
}

proof fn first_problem(
    files: Seq<MessageV>,
    structural: bool,
    path: Seq<char>,
    types: Seq<FieldTypeV>,
    f: Seq<(u32, DatumV)>,
    i: int,
    n: nat,
)
    requires
        0 <= i < f.len(),
        n <= f.len(),
        forall|k: int| 0 <= k < i ==> value_obeys(files, structural, (#[trigger] f[k]).1),
        !value_obeys(files, structural, f[i].1),
    ensures
        n <= i ==> fields_problem(files, structural, path, types, false, f, n) is None,
        n > i ==> fields_problem(files, structural, path, types, false, f, n) == datum_problem(
            files,
            structural,
            path + "."@ + match numbered(types, f[i].0) {
                Some(t) => t.name,
                None => Seq::empty(),
            },
            f[i].1,
        ) && fields_problem(files, structural, path, types, false, f, n) is Some,
    decreases n,
{
    if n > 0 {
        first_problem(files, structural, path, types, f, i, (n - 1) as nat);
        let at = path + "."@ + match numbered(types, f[n - 1].0) {
            Some(t) => t.name,
            None => Seq::empty(),
        };
        obeyed_means_no_problem(files, structural, at, f[n - 1].1);
    }
}

/// Where a broken rule in a list or a map is found: under the place of the first value that does not
/// obey, or under its key.
pub proof fn problems_in_lists_have_places(
    files: Seq<MessageV>,
    structural: bool,
    path: Seq<char>,
    l: Seq<DatumV>,
    e: Seq<(KeyV, DatumV)>,
    i: int,
)
    ensures
        0 <= i < l.len() && !value_obeys(files, structural, l[i]) && (forall|k: int|
            0 <= k < i ==> value_obeys(files, structural, #[trigger] l[k])) ==> datum_problem(
            files,
            structural,
            path,
            DatumV::List(l),
        ) == datum_problem(
            files,
            structural,
            path + seq!['['] + decimal_text(i as nat) + seq![']'],
            l[i],
        ),
        0 <= i < e.len() && !value_obeys(files, structural, e[i].1) && (forall|k: int|
            0 <= k < i ==> value_obeys(files, structural, (#[trigger] e[k]).1)) ==> datum_problem(
            files,
            structural,
            path,
            DatumV::Entries(e),
        ) == datum_problem(
            files,
            structural,
            path + seq!['['] + key_text(e[i].0) + seq![']'],
            e[i].1,
        ),
{
    reveal_strlit("[");
    reveal_strlit("]");
    assert("["@ =~= seq!['[']);
    assert("]"@ =~= seq![']']);
    if 0 <= i < l.len() && !value_obeys(files, structural, l[i]) && (forall|k: int|
        0 <= k < i ==> value_obeys(files, structural, #[trigger] l[k])) {
        first_in_list(files, structural, path, l, i, l.len());
    }
    if 0 <= i < e.len() && !value_obeys(files, structural, e[i].1) && (forall|k: int|
        0 <= k < i ==> value_obeys(files, structural, (#[trigger] e[k]).1)) {
        first_in_map(files, structural, path, e, i, e.len());
    }
}

proof fn first_in_list(
    files: Seq<MessageV>,
    structural: bool,
    path: Seq<char>,
    l: Seq<DatumV>,
    i: int,
    n: nat,
)
    requires
        0 <= i < n <= l.len(),
        !value_obeys(files, structural, l[i]),
        forall|k: int| 0 <= k < i ==> value_obeys(files, structural, #[trigger] l[k]),
    ensures
        list_problem(files, structural, path, l, n) == datum_problem(
            files,
            structural,
            path + "["@ + decimal_text(i as nat) + "]"@,
            l[i],
        ),
        list_problem(files, structural, path, l, n) is Some,
    decreases n,
{
    if i == n - 1 {
        list_obeyed(files, structural, path, l, (n - 1) as nat);
        obeyed_means_no_problem(
            files,
            structural,
            path + "["@ + decimal_text(i as nat) + "]"@,
            l[i],
        );
    } else {
        first_in_list(files, structural, path, l, i, (n - 1) as nat);
    }
}

proof fn first_in_map(
    files: Seq<MessageV>,
    structural: bool,
    path: Seq<char>,
    e: Seq<(KeyV, DatumV)>,
    i: int,
    n: nat,
)
    requires
        0 <= i < n <= e.len(),
        !value_obeys(files, structural, e[i].1),
        forall|k: int| 0 <= k < i ==> value_obeys(files, structural, (#[trigger] e[k]).1),
    ensures
        entries_problem(files, structural, path, e, n) == datum_problem(
            files,
            structural,
            path + "["@ + key_text(e[i].0) + "]"@,
            e[i].1,
        ),
        entries_problem(files, structural, path, e, n) is Some,
    decreases n,
{
    if i == n - 1 {
        entries_obeyed(files, structural, path, e, (n - 1) as nat);
        obeyed_means_no_problem(
            files,
            structural,
            path + "["@ + key_text(e[i].0) + "]"@,
            e[i].1,
        );
    } else {
        first_in_map(files, structural, path, e, i, (n - 1) as nat);
    }
}

/// A rule that is broken in an extension is found under its full name in brackets, if the message
/// itself keeps the rules and its fields and the extensions before it obey.
pub proof fn problems_in_extensions_have_names(
    files: Seq<MessageV>,
    structural: bool,
    path: Seq<char>,
    m: MessageV,
    i: int,
)
    requires
        0 <= i < m.extensions.len(),
        obeys(files, structural, MessageV { extensions: Seq::empty(), ..m }),
        forall|k: int| 0 <= k < i ==> value_obeys(files, structural, (#[trigger] m.extensions[k]).1),
        !value_obeys(files, structural, m.extensions[i].1),
    ensures
        problem(files, structural, path, m) == datum_problem(
            files,
            structural,
            path + seq!['.', '['] + match numbered(
                extensions_of(files, m.full_name),
                m.extensions[i].0,
            ) {
                Some(t) => t.name,
                None => Seq::empty(),
            } + seq![']'],
            m.extensions[i].1,
        ),
        problem(files, structural, path, m) is Some,
{
    reveal_strlit(".[");
    reveal_strlit("]");
    assert(".["@ =~= seq!['.', '[']);
    assert("]"@ =~= seq![']']);
    let n = MessageV { extensions: Seq::<(u32, DatumV)>::empty(), ..m };
    rules_are_exact(files, structural, path, n);
    assert(well_known_problem(n, structural) == well_known_problem(m, structural));
    first_extension(
        files,
        structural,
        path,
        extensions_of(files, m.full_name),
        m.extensions,
        i,
        m.extensions.len(),
    );
}

proof fn first_extension(
    files: Seq<MessageV>,
    structural: bool,
    path: Seq<char>,
    types: Seq<FieldTypeV>,
    f: Seq<(u32, DatumV)>,
    i: int,
    n: nat,
)
    requires
        0 <= i < f.len(),
        n <= f.len(),
        forall|k: int| 0 <= k < i ==> value_obeys(files, structural, (#[trigger] f[k]).1),
        !value_obeys(files, structural, f[i].1),
    ensures
        n <= i ==> fields_problem(files, structural, path, types, true, f, n) is None,
        n > i ==> fields_problem(files, structural, path, types, true, f, n) == datum_problem(
            files,
            structural,
            path + ".["@ + match numbered(types, f[i].0) {
                Some(t) => t.name,
                None => Seq::empty(),
            } + "]"@,
            f[i].1,
        ) && fields_problem(files, structural, path, types, true, f, n) is Some,
    decreases n,
{
    if n > 0 {
        first_extension(files, structural, path, types, f, i, (n - 1) as nat);
        let at = path + ".["@ + match numbered(types, f[n - 1].0) {
            Some(t) => t.name,
            None => Seq::empty(),
        } + "]"@;
        obeyed_means_no_problem(files, structural, at, f[n - 1].1);
    }
}

/// A configuration that was read is encoded if, and only if, it obeys the rules; one that does not
/// is refused for the rule that it breaks.
pub proof fn configurations_that_obey_are_encoded(sets: Seq<Seq<u8>>, name: Seq<char>, value: JsonV)
    requires
        config_message_read(sets, name, value) is Ok,
        config_is_kept(sets, name, value),
    ensures
        config(sets, name, value) is Ok <==> obeys(
            structural_files(known_files(sets, name)),
            true,
            config_message_read(sets, name, value)->Ok_0,
        ),
        config(sets, name, value) is Err ==> config(sets, name, value)->Err_0 is Broken,
{
    let m = config_message_read(sets, name, value)->Ok_0;
    rules_are_exact(structural_files(known_files(sets, name)), true, name, m);
}

/// ProtoJSON, and messages that were read from bytes or text, are refused for a broken rule if, and
/// only if, the message does not obey the rules.
pub proof fn messages_that_obey_are_not_refused(
    sets: Seq<Seq<u8>>,
    name: Seq<char>,
    value: JsonV,
    m: MessageV,
)
    requires
        schema_of(sets, name) is Ok,
    ensures
        json_message(known_files(sets, name), bare(name), value) == Some(m) && !obeys(
            known_files(sets, name),
            false,
            m,
        ) ==> (protojson(sets, name, value) matches Err(e) && e is Broken),
        obeys(known_files(sets, name), false, m) ==> shown(known_files(sets, name), name, m)
            == match message_json(known_files(sets, name), m) {
            Some(j) => Ok::<JsonV, Fault>(j),
            None => Err::<JsonV, Fault>(Fault::Serialize),
        },
        !obeys(known_files(sets, name), false, m) ==> (shown(
            known_files(sets, name),
            name,
            m,
        ) matches Err(e) && e is Broken),
{
    rules_are_exact(known_files(sets, name), false, name, m);
}

/// Whether no field of a type is required.
pub open spec fn nothing_required(types: Seq<FieldTypeV>) -> bool {
    forall|i: int| 0 <= i < types.len() ==> !(#[trigger] types[i]).required
}

/// A configured `Value` that holds a number is encoded if, and only if, the number is neither
/// infinite nor NaN, whatever its sign.
pub proof fn numbers_are_encoded_unless_infinite(
    sets: Seq<Seq<u8>>,
    name: Seq<char>,
    value: JsonV,
    bits: u64,
)
    requires
        config_is_kept(sets, name, value),
        config_message_read(sets, name, value) matches Ok(m) && m.full_name
            == "protolark_internal.google.protobuf.Value"@ && m.fields == seq![
            (2u32, DatumV::Scalar(Scalar::F64(bits))),
        ] && m.extensions.len() == 0 && nothing_required(
            fields_of(structural_files(known_files(sets, name)), m.full_name),
        ),
    ensures
        config(sets, name, value) is Ok <==> (bits >> 52) & 0x7ff != 0x7ff,
{
    let m = config_message_read(sets, name, value)->Ok_0;
    let files = structural_files(known_files(sets, name));
    configurations_that_obey_are_encoded(sets, name, value);
    reveal_strlit("protolark_internal.");
    reveal_strlit("google.protobuf.Value");
    reveal_strlit("google.protobuf.Timestamp");
    reveal_strlit("google.protobuf.Duration");
    reveal_strlit("protolark_internal.google.protobuf.Value");
    assert("protolark_internal."@ + "google.protobuf.Value"@ =~= m.full_name);
    assert(m.full_name.len() == 40);
    assert(("protolark_internal."@ + "google.protobuf.Timestamp"@).len() == 44);
    assert(("protolark_internal."@ + "google.protobuf.Duration"@).len() == 43);
    crate::message::field_index_is(m.fields, 2, 0);
    assert(field_value(m.fields, 2) == Some(DatumV::Scalar(Scalar::F64(bits))));
    assert(value_obeys(files, true, m.fields[0].1));
}

} // verus!
