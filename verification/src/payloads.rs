//! Replacing payloads: they keep their contents, and once is enough.
use vstd::prelude::*;

verus! {

use crate::determinism::{any_fields_keep, same_place};
use crate::error::Fault;
use crate::message::{
    field_index, field_index_divides, field_index_is, field_value, with_field, without_field,
    DatumV, KeyV, MessageV,
};
use crate::payload::{
    any_datum, any_entries, any_fields, any_list, any_name, any_normalized, datum_without_any,
    each_held, each_in, each_in_fields, each_payload, fields_without_any, normal_bytes,
    payload_bytes, payload_type, same_held, standard_any, type_url, with_bytes, with_payload,
    without_any,
};
use crate::pool::{field_named, message_type, wire_message};
use crate::types::{
    conforms, field_conforms, fields_conform, kind_conforms, numbered, FieldKindV, FieldTypeV,
};
use crate::validate::{datum_kept, fields_of, kept, no_problem_iff_kept, problem};

/// What the fields are once payloads in them are replaced, one by one.
proof fn fields_at(files: Seq<MessageV>, f: Seq<(u32, DatumV)>, n: nat, left: nat)
    requires
        n <= f.len(),
        any_fields(files, f, n, left) is Ok,
    ensures
        any_fields(files, f, n, left)->Ok_0.len() == n,
        forall|i: int|
            0 <= i < n ==> any_datum(files, (#[trigger] f[i]).1, left) is Ok && any_fields(
                files,
                f,
                n,
                left,
            )->Ok_0[i] == (f[i].0, any_datum(files, f[i].1, left)->Ok_0),
    decreases n,
{
    if n > 0 {
        fields_at(files, f, (n - 1) as nat, left);
    }
}

/// The same of lists.
proof fn list_at(files: Seq<MessageV>, l: Seq<DatumV>, n: nat, left: nat)
    requires
        n <= l.len(),
        any_list(files, l, n, left) is Ok,
    ensures
        any_list(files, l, n, left)->Ok_0.len() == n,
        forall|i: int|
            0 <= i < n ==> any_datum(files, #[trigger] l[i], left) is Ok && any_list(
                files,
                l,
                n,
                left,
            )->Ok_0[i] == any_datum(files, l[i], left)->Ok_0,
    decreases n,
{
    if n > 0 {
        list_at(files, l, (n - 1) as nat, left);
    }
}

/// The same of maps.
proof fn entries_at(files: Seq<MessageV>, e: Seq<(KeyV, DatumV)>, n: nat, left: nat)
    requires
        n <= e.len(),
        any_entries(files, e, n, left) is Ok,
    ensures
        any_entries(files, e, n, left)->Ok_0.len() == n,
        forall|i: int|
            0 <= i < n ==> any_datum(files, (#[trigger] e[i]).1, left) is Ok && any_entries(
                files,
                e,
                n,
                left,
            )->Ok_0[i] == (e[i].0, any_datum(files, e[i].1, left)->Ok_0),
    decreases n,
{
    if n > 0 {
        entries_at(files, e, (n - 1) as nat, left);
    }
}

/// Fields whose values stay as they are stay as they are.
proof fn fields_stay(files: Seq<MessageV>, f: Seq<(u32, DatumV)>, n: nat, left: nat)
    requires
        n <= f.len(),
        forall|i: int|
            0 <= i < n ==> any_datum(files, (#[trigger] f[i]).1, left) == Ok::<DatumV, Fault>(
                f[i].1,
            ),
    ensures
        any_fields(files, f, n, left) == Ok::<Seq<(u32, DatumV)>, Fault>(f.take(n as int)),
    decreases n,
{
    if n > 0 {
        fields_stay(files, f, (n - 1) as nat, left);
        assert(f.take(n as int) =~= f.take(n - 1).push(f[n - 1]));
    } else {
        assert(f.take(0) =~= Seq::empty());
    }
}

/// The same of lists.
proof fn list_stays(files: Seq<MessageV>, l: Seq<DatumV>, n: nat, left: nat)
    requires
        n <= l.len(),
        forall|i: int|
            0 <= i < n ==> any_datum(files, #[trigger] l[i], left) == Ok::<DatumV, Fault>(l[i]),
    ensures
        any_list(files, l, n, left) == Ok::<Seq<DatumV>, Fault>(l.take(n as int)),
    decreases n,
{
    if n > 0 {
        list_stays(files, l, (n - 1) as nat, left);
        assert(l.take(n as int) =~= l.take(n - 1).push(l[n - 1]));
    } else {
        assert(l.take(0) =~= Seq::empty());
    }
}

/// The same of maps.
proof fn entries_stay(files: Seq<MessageV>, e: Seq<(KeyV, DatumV)>, n: nat, left: nat)
    requires
        n <= e.len(),
        forall|i: int|
            0 <= i < n ==> any_datum(files, (#[trigger] e[i]).1, left) == Ok::<DatumV, Fault>(
                e[i].1,
            ),
    ensures
        any_entries(files, e, n, left) == Ok::<Seq<(KeyV, DatumV)>, Fault>(e.take(n as int)),
    decreases n,
{
    if n > 0 {
        entries_stay(files, e, (n - 1) as nat, left);
        assert(e.take(n as int) =~= e.take(n - 1).push(e[n - 1]));
    } else {
        assert(e.take(0) =~= Seq::empty());
    }
}

/// The names of the types that rules are about are not that of the type that holds payloads.
proof fn payloads_have_no_rule()
    ensures
        any_name() != "google.protobuf.Timestamp"@,
        any_name() != "google.protobuf.Duration"@,
        any_name() != "google.protobuf.Value"@,
{
    reveal_strlit("google.protobuf.Any");
    reveal_strlit("google.protobuf.Timestamp");
    reveal_strlit("google.protobuf.Duration");
    reveal_strlit("google.protobuf.Value");
    assert("google.protobuf.Any"@.len() != "google.protobuf.Timestamp"@.len());
    assert("google.protobuf.Any"@.len() != "google.protobuf.Duration"@.len());
    assert("google.protobuf.Any"@.len() != "google.protobuf.Value"@.len());
}

/// A message that keeps the rules still does when payloads in it are replaced.
pub proof fn replacing_keeps_the_rules(files: Seq<MessageV>, m: MessageV, left: nat)
    requires
        standard_any(files),
        kept(files, false, m),
        any_normalized(files, m, left) is Ok,
    ensures
        kept(files, false, any_normalized(files, m, left)->Ok_0),
    decreases m,
{
    let less = (left - 1) as nat;
    let f = any_fields(files, m.fields, m.fields.len(), less)->Ok_0;
    let x = any_fields(files, m.extensions, m.extensions.len(), less)->Ok_0;
    let c = MessageV { fields: f, extensions: x, ..m };
    let n = any_normalized(files, m, left)->Ok_0;
    let types = fields_of(files, m.full_name);
    fields_at(files, m.fields, m.fields.len(), less);
    fields_at(files, m.extensions, m.extensions.len(), less);
    any_fields_keep(files, m.fields, m.fields.len(), less);
    assert forall|i: int| 0 <= i < m.fields.len() implies (#[trigger] m.fields[i]).0 == f[i].0 by {
        assert(f[i].0 == m.fields[i].0);
    }
    assert forall|i: int| 0 <= i < f.len() implies datum_kept(files, false, (#[trigger] f[i]).1) by {
        assert(datum_kept(files, false, m.fields[i].1));
        datum_keeps_the_rules(files, m.fields[i].1, less);
    }
    assert forall|i: int| 0 <= i < x.len() implies datum_kept(files, false, (#[trigger] x[i]).1) by {
        assert(datum_kept(files, false, m.extensions[i].1));
        datum_keeps_the_rules(files, m.extensions[i].1, less);
    }
    assert forall|i: int|
        0 <= i < types.len() && (#[trigger] types[i]).required implies field_value(
        c.fields,
        types[i].number,
    ) is Some by {
        same_place(m.fields, f, types[i].number);
        assert(field_value(m.fields, types[i].number) is Some);
    }
    same_place(m.fields, f, 1);
    same_place(m.fields, f, 2);
    field_index_divides(m.fields, 1);
    field_index_divides(m.fields, 2);
    let p = field_index(m.fields, 1) as int;
    let q = field_index(m.fields, 2) as int;
    if p < m.fields.len() {
        assert(f[p].0 == m.fields[p].0);
    }
    if q < m.fields.len() {
        assert(f[q].0 == m.fields[q].0);
    }
    assert(kept(files, false, c));
    if n != c {
        payloads_have_no_rule();
        let number = (payload_type(files, c)->Some_0).0;
        if let Some(t) = message_type(files, any_name()) {
            assert(!t.fields[0].required && !t.fields[1].required);
        }
        field_index_divides(c.fields, number);
        let k = field_index(c.fields, number) as int;
        assert forall|i: int| 0 <= i < n.fields.len() implies datum_kept(
            files,
            false,
            (#[trigger] n.fields[i]).1,
        ) by {
            if n.fields.len() < c.fields.len() {
                assert(n.fields[i] == c.fields[if i < k {
                    i
                } else {
                    i + 1
                }]);
            } else if i != k {
                assert(n.fields[i] == c.fields[i]);
            }
        }
    }
}

proof fn datum_keeps_the_rules(files: Seq<MessageV>, v: DatumV, left: nat)
    requires
        standard_any(files),
        datum_kept(files, false, v),
        any_datum(files, v, left) is Ok,
    ensures
        datum_kept(files, false, any_datum(files, v, left)->Ok_0),
    decreases v,
{
    match v {
        DatumV::Message(m) => {
            replacing_keeps_the_rules(files, m, left);
        },
        DatumV::List(l) => {
            list_at(files, l, l.len(), left);
            let r = any_list(files, l, l.len(), left)->Ok_0;
            assert forall|i: int| 0 <= i < r.len() implies datum_kept(
                files,
                false,
                #[trigger] r[i],
            ) by {
                datum_keeps_the_rules(files, l[i], left);
            }
        },
        DatumV::Entries(e) => {
            entries_at(files, e, e.len(), left);
            let r = any_entries(files, e, e.len(), left)->Ok_0;
            assert forall|i: int| 0 <= i < r.len() implies datum_kept(
                files,
                false,
                (#[trigger] r[i]).1,
            ) by {
                datum_keeps_the_rules(files, e[i].1, left);
            }
        },
        _ => {},
    }
}

/// Setting or clearing a field leaves another as it is.
proof fn other_field_stays(f: Seq<(u32, DatumV)>, number: u32, v: DatumV, other: u32)
    requires
        number != other,
    ensures
        field_value(with_field(f, number, v), other) == field_value(f, other),
        field_value(without_field(f, number), other) == field_value(f, other),
{
    field_index_divides(f, other);
    field_index_divides(f, number);
    let p = field_index(f, other) as int;
    let k = field_index(f, number) as int;
    let h = with_field(f, number, v);
    field_index_is(
        h,
        other,
        if p == f.len() {
            h.len() as int
        } else {
            p
        },
    );
    if k < f.len() {
        let g = without_field(f, number);
        assert forall|i: int| 0 <= i < g.len() implies g[i] == f[if i < k {
            i
        } else {
            i + 1
        }] by {}
        field_index_is(
            g,
            other,
            if p < k {
                p
            } else {
                p - 1
            },
        );
    }
}

/// A field that is set holds its value; one that is cleared holds none, if it was set once. Doing
/// either again changes nothing.
proof fn own_field_changes(f: Seq<(u32, DatumV)>, number: u32, v: DatumV)
    requires
        forall|i: int, j: int| 0 <= i < j < f.len() ==> f[i].0 != f[j].0,
    ensures
        field_value(with_field(f, number, v), number) == Some(v),
        with_field(with_field(f, number, v), number, v) == with_field(f, number, v),
        field_value(without_field(f, number), number) is None,
        without_field(without_field(f, number), number) == without_field(f, number),
{
    field_index_divides(f, number);
    let k = field_index(f, number) as int;
    let h = with_field(f, number, v);
    field_index_is(h, number, k);
    assert(with_field(h, number, v) =~= h);
    let g = without_field(f, number);
    if k < f.len() {
        assert forall|i: int| 0 <= i < g.len() implies g[i].0 != number by {
            let j = if i < k {
                i
            } else {
                i + 1
            };
            assert(g[i] == f[j]);
            assert(f[k].0 == number);
        }
    }
    field_index_is(g, number, g.len() as int);
}

/// What the well-known type that holds payloads is.
proof fn standard_numbers(files: Seq<MessageV>, c: MessageV)
    requires
        standard_any(files),
        message_type(files, any_name()) is Some,
        payload_type(files, c) is Some,
    ensures
        c.full_name == any_name(),
        field_named(files, any_name(), "type_url"@) is Some,
        field_named(files, any_name(), "value"@) is Some,
        (field_named(files, any_name(), "type_url"@)->Some_0).number == 1,
        (payload_type(files, c)->Some_0).0 == 2,
        (field_named(files, any_name(), "value"@)->Some_0).kind is Bytes,
        !(field_named(files, any_name(), "value"@)->Some_0).list,
        !(field_named(files, any_name(), "value"@)->Some_0).map,
{
}

/// The payload of a message is still one of its type once it is replaced, and is read as what it was
/// made of: the payload with the payloads in it replaced.
proof fn held_is_kept(files: Seq<MessageV>, c: MessageV, left: nat, p: MessageV)
    requires
        standard_any(files),
        message_type(files, any_name()) is Some,
        forall|i: int, j: int| 0 <= i < j < c.fields.len() ==> c.fields[i].0 != c.fields[j].0,
        with_payload(files, c, left) is Ok,
        payload_type(files, c) is Some,
        payload_bytes(files, c, (payload_type(files, c)->Some_0).0) is Some,
        wire_message(
            files,
            (payload_type(files, c)->Some_0).1,
            payload_bytes(files, c, (payload_type(files, c)->Some_0).0)->Some_0,
        ) == Some(p),
        each_held(files, c, left, true),
        each_held(files, c, left, false),
    ensures
        ({
            let n = with_payload(files, c, left)->Ok_0;
            let (number, name) = payload_type(files, c)->Some_0;
            let q = any_normalized(files, p, left)->Ok_0;
            &&& conforms(files, p)
            &&& problem(files, false, name, p) is None
            &&& any_normalized(files, p, left) is Ok
            &&& normal_bytes(files, name, q) is Ok
            &&& n == with_bytes(files, c, number, normal_bytes(files, name, q)->Ok_0)
            &&& payload_type(files, n) == payload_type(files, c)
            &&& payload_bytes(files, n, number) == Some(normal_bytes(files, name, q)->Ok_0)
            &&& wire_message(files, name, normal_bytes(files, name, q)->Ok_0) == Some(q)
            &&& with_bytes(files, n, number, normal_bytes(files, name, q)->Ok_0) == n
        }),
{
    let (number, name) = payload_type(files, c)->Some_0;
    standard_numbers(files, c);
    let q = any_normalized(files, p, left)->Ok_0;
    let b = normal_bytes(files, name, q)->Ok_0;
    let n = with_payload(files, c, left)->Ok_0;
    other_field_stays(c.fields, 2, DatumV::Bytes(b), 1);
    own_field_changes(c.fields, 2, DatumV::Bytes(b));
    assert(type_url(files, n) == type_url(files, c));
    if b.len() == 0 {
        assert(b =~= Seq::empty());
    }
}

/// Replacing the payloads of a message twice does no more than replacing them once. Payloads in it
/// that cannot be read back as they were written are left out.
#[verifier::rlimit(40)]
pub proof fn replacing_twice_changes_nothing(files: Seq<MessageV>, m: MessageV, left: nat)
    requires
        standard_any(files),
        conforms(files, m),
        each_payload(files, m, left, true),
        each_payload(files, m, left, false),
        any_normalized(files, m, left) is Ok,
    ensures
        any_normalized(files, any_normalized(files, m, left)->Ok_0, left) == any_normalized(
            files,
            m,
            left,
        ),
    decreases 2 * left, m, 1nat,
{
    let less = (left - 1) as nat;
    let f = any_fields(files, m.fields, m.fields.len(), less)->Ok_0;
    let x = any_fields(files, m.extensions, m.extensions.len(), less)->Ok_0;
    let c = MessageV { fields: f, extensions: x, ..m };
    let n = any_normalized(files, m, left)->Ok_0;
    let types = message_type(files, m.full_name)->Some_0;
    fields_twice(files, types.fields, m.fields, less);
    fields_twice(files, types.extensions, m.extensions, less);
    any_fields_keep(files, m.fields, m.fields.len(), less);
    same_held(files, m, c, less, true);
    same_held(files, m, c, less, false);
    assert forall|i: int, j: int| 0 <= i < j < c.fields.len() implies c.fields[i].0
        != c.fields[j].0 by {
        assert(m.fields[i].0 < m.fields[j].0);
        assert(c.fields[i].0 == m.fields[i].0 && c.fields[j].0 == m.fields[j].0);
    }
    held_twice(files, c, less);
    assert forall|i: int| 0 <= i < n.fields.len() implies any_datum(
        files,
        (#[trigger] n.fields[i]).1,
        less,
    ) == Ok::<DatumV, Fault>(n.fields[i].1) by {
        if !(n.fields[i].1 is Bytes) {
            assert(c.fields.contains(n.fields[i]));
            let k = c.fields.index_of(n.fields[i]);
            assert(f[k] == n.fields[i]);
        }
    }
    fields_stay(files, n.fields, n.fields.len(), less);
    fields_stay(files, x, x.len(), less);
    assert(n.fields.take(n.fields.len() as int) =~= n.fields);
    assert(x.take(x.len() as int) =~= x);
    assert(MessageV { fields: n.fields, extensions: n.extensions, ..n } == n);
}

proof fn held_twice(files: Seq<MessageV>, c: MessageV, left: nat)
    requires
        standard_any(files),
        message_type(files, c.full_name) is Some,
        forall|i: int, j: int| 0 <= i < j < c.fields.len() ==> c.fields[i].0 != c.fields[j].0,
        each_held(files, c, left, true),
        each_held(files, c, left, false),
        with_payload(files, c, left) is Ok,
    ensures
        ({
            let n = with_payload(files, c, left)->Ok_0;
            &&& with_payload(files, n, left) == Ok::<MessageV, Fault>(n)
            &&& n.extensions == c.extensions
            &&& forall|i: int|
                0 <= i < n.fields.len() ==> (#[trigger] n.fields[i]).1 is Bytes
                    || c.fields.contains(n.fields[i])
        }),
    decreases 2 * left + 1, c, 0nat,
{
    let n = with_payload(files, c, left)->Ok_0;
    if let Some((number, name)) = payload_type(files, c) {
        if let Some(bytes) = payload_bytes(files, c, number) {
            let p = wire_message(files, name, bytes)->Some_0;
            let q = any_normalized(files, p, left)->Ok_0;
            held_is_kept(files, c, left, p);
            replacing_twice_changes_nothing(files, p, left);
            no_problem_iff_kept(files, false, name, p);
            replacing_keeps_the_rules(files, p, left);
            no_problem_iff_kept(files, false, name, q);
            field_index_divides(c.fields, number);
            let k = field_index(c.fields, number) as int;
            assert forall|i: int| 0 <= i < n.fields.len() implies (#[trigger] n.fields[i]).1 is Bytes
                || c.fields.contains(n.fields[i]) by {
                if n.fields.len() < c.fields.len() {
                    assert(n.fields[i] == c.fields[if i < k {
                        i
                    } else {
                        i + 1
                    }]);
                } else if i != k {
                    assert(n.fields[i] == c.fields[i]);
                }
            }
        }
    }
    if n == c {
        assert forall|i: int| 0 <= i < n.fields.len() implies c.fields.contains(
            #[trigger] n.fields[i],
        ) by {}
    }
}

proof fn fields_twice(
    files: Seq<MessageV>,
    types: Seq<FieldTypeV>,
    f: Seq<(u32, DatumV)>,
    left: nat,
)
    requires
        standard_any(files),
        fields_conform(files, types, f),
        each_in_fields(files, f, left, true),
        each_in_fields(files, f, left, false),
        any_fields(files, f, f.len(), left) is Ok,
    ensures
        forall|i: int|
            0 <= i < any_fields(files, f, f.len(), left)->Ok_0.len() ==> any_datum(
                files,
                (#[trigger] any_fields(files, f, f.len(), left)->Ok_0[i]).1,
                left,
            ) == Ok::<DatumV, Fault>(any_fields(files, f, f.len(), left)->Ok_0[i].1),
    decreases 2 * left, f, 2nat,
{
    let g = any_fields(files, f, f.len(), left)->Ok_0;
    fields_at(files, f, f.len(), left);
    assert forall|i: int| 0 <= i < g.len() implies any_datum(files, (#[trigger] g[i]).1, left)
        == Ok::<DatumV, Fault>(g[i].1) by {
        assert(g[i].1 == any_datum(files, f[i].1, left)->Ok_0);
        datum_twice(files, numbered(types, f[i].0)->Some_0, f[i].1, left);
    }
}

proof fn datum_twice(files: Seq<MessageV>, t: FieldTypeV, v: DatumV, left: nat)
    requires
        standard_any(files),
        field_conforms(files, t, v),
        each_in(files, v, left, true),
        each_in(files, v, left, false),
        any_datum(files, v, left) is Ok,
    ensures
        any_datum(files, any_datum(files, v, left)->Ok_0, left) == any_datum(files, v, left),
    decreases 2 * left, v, 1nat,
{
    if t.list {
        let l = v->List_0;
        let r = any_list(files, l, l.len(), left)->Ok_0;
        list_at(files, l, l.len(), left);
        assert forall|i: int| 0 <= i < r.len() implies any_datum(files, #[trigger] r[i], left)
            == Ok::<DatumV, Fault>(r[i]) by {
            assert(r[i] == any_datum(files, l[i], left)->Ok_0);
            kind_twice(files, t.kind, l[i], left);
        }
        list_stays(files, r, r.len(), left);
        assert(r.take(r.len() as int) =~= r);
    } else if t.map {
        let e = v->Entries_0;
        let r = any_entries(files, e, e.len(), left)->Ok_0;
        let kind = (crate::types::entry_types(files, t)->Some_0).1.kind;
        entries_at(files, e, e.len(), left);
        assert forall|i: int| 0 <= i < r.len() implies any_datum(
            files,
            (#[trigger] r[i]).1,
            left,
        ) == Ok::<DatumV, Fault>(r[i].1) by {
            assert(r[i].1 == any_datum(files, e[i].1, left)->Ok_0);
            kind_twice(files, kind, e[i].1, left);
        }
        entries_stay(files, r, r.len(), left);
        assert(r.take(r.len() as int) =~= r);
    } else {
        kind_twice(files, t.kind, v, left);
    }
}

proof fn kind_twice(files: Seq<MessageV>, kind: FieldKindV, v: DatumV, left: nat)
    requires
        standard_any(files),
        kind_conforms(files, kind, v),
        each_in(files, v, left, true),
        each_in(files, v, left, false),
        any_datum(files, v, left) is Ok,
    ensures
        any_datum(files, any_datum(files, v, left)->Ok_0, left) == any_datum(files, v, left),
    decreases 2 * left, v, 0nat,
{
    if let DatumV::Message(m) = v {
        replacing_twice_changes_nothing(files, m, left);
    }
}

/// A payload keeps its contents: once it is replaced it is of the same type, and is read as the
/// payload that it was, with the payloads in it replaced. Payloads that cannot be read back as they
/// were written are left out.
pub proof fn payloads_keep_their_contents(
    files: Seq<MessageV>,
    m: MessageV,
    left: nat,
    p: MessageV,
)
    requires
        standard_any(files),
        conforms(files, m),
        each_payload(files, m, left, true),
        each_payload(files, m, left, false),
        any_normalized(files, m, left) is Ok,
        payload_type(files, m) is Some,
        payload_bytes(files, m, (payload_type(files, m)->Some_0).0) is Some,
        wire_message(
            files,
            (payload_type(files, m)->Some_0).1,
            payload_bytes(files, m, (payload_type(files, m)->Some_0).0)->Some_0,
        ) == Some(p),
    ensures
        ({
            let n = any_normalized(files, m, left)->Ok_0;
            let (number, name) = payload_type(files, m)->Some_0;
            &&& payload_type(files, n) == payload_type(files, m)
            &&& payload_bytes(files, n, number) is Some
            &&& any_normalized(files, p, (left - 1) as nat) is Ok
            &&& wire_message(files, name, payload_bytes(files, n, number)->Some_0) == Some(
                any_normalized(files, p, (left - 1) as nat)->Ok_0,
            )
        }),
{
    let less = (left - 1) as nat;
    let f = any_fields(files, m.fields, m.fields.len(), less)->Ok_0;
    let x = any_fields(files, m.extensions, m.extensions.len(), less)->Ok_0;
    let c = MessageV { fields: f, extensions: x, ..m };
    any_fields_keep(files, m.fields, m.fields.len(), less);
    same_held(files, m, c, less, true);
    same_held(files, m, c, less, false);
    let number = (payload_type(files, m)->Some_0).0;
    assert forall|i: int| 0 <= i < m.fields.len() implies (#[trigger] m.fields[i]).0
        == c.fields[i].0 by {
        assert(c.fields[i].0 == m.fields[i].0);
    }
    same_place(m.fields, c.fields, number);
    let k = field_index(m.fields, number) as int;
    if k < m.fields.len() {
        assert(c.fields[k].0 == m.fields[k].0);
    }
    assert forall|i: int, j: int| 0 <= i < j < c.fields.len() implies c.fields[i].0
        != c.fields[j].0 by {
        assert(m.fields[i].0 < m.fields[j].0);
        assert(c.fields[i].0 == m.fields[i].0 && c.fields[j].0 == m.fields[j].0);
    }
    held_is_kept(files, c, less, p);
}

/// Nothing else changes: a message that holds no payload itself keeps its name, its unknown fields
/// and the numbers of its fields, and a value in it that is neither a message nor holds any stays as
/// it is.
pub proof fn replacing_keeps_the_rest(files: Seq<MessageV>, m: MessageV, left: nat, i: int)
    requires
        any_normalized(files, m, left) is Ok,
        payload_type(files, m) is None,
        0 <= i < m.fields.len(),
    ensures
        ({
            let n = any_normalized(files, m, left)->Ok_0;
            &&& n.full_name == m.full_name
            &&& n.unknown == m.unknown
            &&& n.fields.len() == m.fields.len()
            &&& n.fields[i].0 == m.fields[i].0
            &&& m.fields[i].1 is Message || m.fields[i].1 is List || m.fields[i].1 is Entries
                || n.fields[i] == m.fields[i]
        }),
{
    let less = (left - 1) as nat;
    let f = any_fields(files, m.fields, m.fields.len(), less)->Ok_0;
    let x = any_fields(files, m.extensions, m.extensions.len(), less)->Ok_0;
    let c = MessageV { fields: f, extensions: x, ..m };
    any_fields_keep(files, m.fields, m.fields.len(), less);
    same_held(files, m, c, less, false);
    assert(f[i].0 == m.fields[i].0);
}

/// A message that holds no payload stays as it is, unless it is nested too deep.
pub proof fn without_payloads_nothing_is_replaced(files: Seq<MessageV>, m: MessageV, left: nat)
    requires
        without_any(m),
        any_normalized(files, m, left) is Ok,
    ensures
        any_normalized(files, m, left) == Ok::<MessageV, Fault>(m),
    decreases m,
{
    let less = (left - 1) as nat;
    fields_without_any_stay(files, m.fields, less);
    fields_without_any_stay(files, m.extensions, less);
}

proof fn fields_without_any_stay(files: Seq<MessageV>, f: Seq<(u32, DatumV)>, left: nat)
    requires
        fields_without_any(f),
        any_fields(files, f, f.len(), left) is Ok,
    ensures
        any_fields(files, f, f.len(), left) == Ok::<Seq<(u32, DatumV)>, Fault>(f),
    decreases f,
{
    fields_at(files, f, f.len(), left);
    assert forall|i: int| 0 <= i < f.len() implies any_datum(files, (#[trigger] f[i]).1, left)
        == Ok::<DatumV, Fault>(f[i].1) by {
        datum_without_any_stays(files, f[i].1, left);
    }
    assert(any_fields(files, f, f.len(), left)->Ok_0 =~= f);
}

proof fn datum_without_any_stays(files: Seq<MessageV>, v: DatumV, left: nat)
    requires
        datum_without_any(v),
        any_datum(files, v, left) is Ok,
    ensures
        any_datum(files, v, left) == Ok::<DatumV, Fault>(v),
    decreases v,
{
    match v {
        DatumV::Message(m) => {
            without_payloads_nothing_is_replaced(files, m, left);
        },
        DatumV::List(l) => {
            list_at(files, l, l.len(), left);
            assert forall|i: int| 0 <= i < l.len() implies any_datum(files, #[trigger] l[i], left)
                == Ok::<DatumV, Fault>(l[i]) by {
                datum_without_any_stays(files, l[i], left);
            }
            assert(any_list(files, l, l.len(), left)->Ok_0 =~= l);
        },
        DatumV::Entries(e) => {
            entries_at(files, e, e.len(), left);
            assert forall|i: int| 0 <= i < e.len() implies any_datum(
                files,
                (#[trigger] e[i]).1,
                left,
            ) == Ok::<DatumV, Fault>(e[i].1) by {
                datum_without_any_stays(files, e[i].1, left);
            }
            assert(any_entries(files, e, e.len(), left)->Ok_0 =~= e);
        },
        _ => {},
    }
}

} // verus!
