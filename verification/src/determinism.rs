//! Encoding is deterministic: what differs between two readings of one input, the order of entries
//! in the bytes of payloads, does not show in what is made of it.
use vstd::prelude::*;

verus! {

use crate::error::Fault;
use crate::message::{
    field_index, field_index_divides, field_index_is, with_field, without_field, DatumV, KeyV,
    MessageV,
};
use crate::payload::{
    any_datum, any_entries, any_fields, any_list, any_normalized, normal_bytes, payload_bytes,
    payload_type, related, related_datum, related_field, related_fields, type_url, with_payload,
};
use crate::pool::{field_named, wire_message};
use crate::types::FieldTypeV;
use crate::validate::{
    datum_problem, entries_problem, extensions_of, fields_of, fields_problem, list_problem, missing,
    problem, well_known_problem,
};

/// Fields with the same numbers have each number in the same place.
pub proof fn same_place(f: Seq<(u32, DatumV)>, g: Seq<(u32, DatumV)>, number: u32)
    requires
        f.len() == g.len(),
        forall|i: int| 0 <= i < f.len() ==> (#[trigger] f[i]).0 == g[i].0,
    ensures
        field_index(f, number) == field_index(g, number),
        field_index(f, number) <= f.len(),
{
    field_index_divides(f, number);
    assert forall|i: int| 0 <= i < field_index(f, number) implies g[i].0 != number by {
        assert(f[i].0 != number);
    }
    field_index_is(g, number, field_index(f, number) as int);
}

/// The same required fields are missing.
pub proof fn same_missing(
    types: Seq<FieldTypeV>,
    f: Seq<(u32, DatumV)>,
    g: Seq<(u32, DatumV)>,
    n: nat,
)
    requires
        f.len() == g.len(),
        forall|i: int| 0 <= i < f.len() ==> (#[trigger] f[i]).0 == g[i].0,
    ensures
        missing(types, f, n) == missing(types, g, n),
    decreases n,
{
    if n > 0 && n <= types.len() {
        same_missing(types, f, g, (n - 1) as nat);
        same_place(f, g, types[n - 1].number);
    }
}

/// Messages that are the same but for payloads break the same rules.
pub proof fn same_problem(
    files: Seq<MessageV>,
    structural: bool,
    path: Seq<char>,
    a: MessageV,
    b: MessageV,
    depth: nat,
)
    requires
        related(files, a, b, depth),
        !structural,
    ensures
        problem(files, structural, path, a) == problem(files, structural, path, b),
    decreases a, 0nat,
{
    let types = fields_of(files, a.full_name);
    same_missing(types, a.fields, b.fields, types.len());
    assert(well_known_problem(a, structural) == well_known_problem(b, structural)) by {
        same_place(a.fields, b.fields, 1);
        same_place(a.fields, b.fields, 2);
        if payload_type(files, a) is Some {
            reveal_strlit("google.protobuf.Any");
            reveal_strlit("google.protobuf.Timestamp");
            reveal_strlit("google.protobuf.Duration");
            reveal_strlit("google.protobuf.Value");
            assert(a.full_name.len() == "google.protobuf.Any"@.len());
        } else {
            let i = field_index(a.fields, 1) as int;
            let j = field_index(a.fields, 2) as int;
            if i < a.fields.len() {
                assert(related_field(files, None, a.fields[i].0, a.fields[i].1, b.fields[i].1, depth));
            }
            if j < a.fields.len() {
                assert(related_field(files, None, a.fields[j].0, a.fields[j].1, b.fields[j].1, depth));
            }
        }
    }
    same_fields_problem(
        files,
        structural,
        path,
        types,
        false,
        payload_type(files, a),
        a.fields,
        b.fields,
        a.fields.len(),
        depth,
    );
    same_fields_problem(
        files,
        structural,
        path,
        extensions_of(files, a.full_name),
        true,
        None,
        a.extensions,
        b.extensions,
        a.extensions.len(),
        depth,
    );
}

proof fn same_fields_problem(
    files: Seq<MessageV>,
    structural: bool,
    path: Seq<char>,
    types: Seq<FieldTypeV>,
    extension: bool,
    payload: Option<(u32, Seq<char>)>,
    f: Seq<(u32, DatumV)>,
    g: Seq<(u32, DatumV)>,
    n: nat,
    depth: nat,
)
    requires
        related_fields(files, payload, f, g, depth),
        !structural,
    ensures
        fields_problem(files, structural, path, types, extension, f, n) == fields_problem(
            files,
            structural,
            path,
            types,
            extension,
            g,
            n,
        ),
    decreases f, n,
{
    if 0 < n <= f.len() {
        same_fields_problem(
            files,
            structural,
            path,
            types,
            extension,
            payload,
            f,
            g,
            (n - 1) as nat,
            depth,
        );
        let inner = crate::validate::member_path(
            path,
            crate::validate::name_of(types, f[n - 1].0),
            extension,
        );
        assert(related_field(files, payload, f[n - 1].0, f[n - 1].1, g[n - 1].1, depth));
        assert(f[n - 1].0 == g[n - 1].0);
        if f[n - 1].1 is Bytes && g[n - 1].1 is Bytes {
            assert(datum_problem(files, structural, inner, f[n - 1].1) is None);
            assert(datum_problem(files, structural, inner, g[n - 1].1) is None);
        } else {
            same_datum_problem(files, structural, inner, f[n - 1].1, g[n - 1].1, depth);
        }
    }
}

proof fn same_datum_problem(
    files: Seq<MessageV>,
    structural: bool,
    path: Seq<char>,
    v: DatumV,
    w: DatumV,
    depth: nat,
)
    requires
        related_datum(files, v, w, depth),
        !structural,
    ensures
        datum_problem(files, structural, path, v) == datum_problem(files, structural, path, w),
    decreases v, 0nat,
{
    match (v, w) {
        (DatumV::Message(a), DatumV::Message(b)) => {
            same_problem(files, structural, path, a, b, depth);
        },
        (DatumV::List(l), DatumV::List(k)) => {
            same_list_problem(files, structural, path, l, k, l.len(), depth);
        },
        (DatumV::Entries(e), DatumV::Entries(h)) => {
            same_entries_problem(files, structural, path, e, h, e.len(), depth);
        },
        _ => {},
    }
}

proof fn same_list_problem(
    files: Seq<MessageV>,
    structural: bool,
    path: Seq<char>,
    l: Seq<DatumV>,
    k: Seq<DatumV>,
    n: nat,
    depth: nat,
)
    requires
        l.len() == k.len(),
        forall|i: int| 0 <= i < l.len() ==> related_datum(files, #[trigger] l[i], k[i], depth),
        !structural,
    ensures
        list_problem(files, structural, path, l, n) == list_problem(files, structural, path, k, n),
    decreases l, n,
{
    if 0 < n <= l.len() {
        same_list_problem(files, structural, path, l, k, (n - 1) as nat, depth);
        let inner = path + "["@ + crate::text::decimal_text((n - 1) as nat) + "]"@;
        assert(related_datum(files, l[n - 1], k[n - 1], depth));
        same_datum_problem(files, structural, inner, l[n - 1], k[n - 1], depth);
    }
}

proof fn same_entries_problem(
    files: Seq<MessageV>,
    structural: bool,
    path: Seq<char>,
    e: Seq<(KeyV, DatumV)>,
    h: Seq<(KeyV, DatumV)>,
    n: nat,
    depth: nat,
)
    requires
        e.len() == h.len(),
        forall|i: int|
            0 <= i < e.len() ==> (#[trigger] e[i]).0 == h[i].0 && related_datum(
                files,
                e[i].1,
                h[i].1,
                depth,
            ),
        !structural,
    ensures
        entries_problem(files, structural, path, e, n) == entries_problem(
            files,
            structural,
            path,
            h,
            n,
        ),
    decreases e, n,
{
    if 0 < n <= e.len() {
        same_entries_problem(files, structural, path, e, h, (n - 1) as nat, depth);
        let inner = path + "["@ + crate::pool::key_text(e[n - 1].0) + "]"@;
        assert(e[n - 1].0 == h[n - 1].0);
        same_datum_problem(files, structural, inner, e[n - 1].1, h[n - 1].1, depth);
    }
}

/// Replacing payloads keeps what is no message, list or map.
proof fn any_datum_keeps(files: Seq<MessageV>, v: DatumV, left: nat)
    ensures
        match any_datum(files, v, left) {
            Ok(w) => (v is Message <==> w is Message) && (v is List <==> w is List) && (v is Entries
                <==> w is Entries) && (v is Message || v is List || v is Entries || w == v),
            Err(_) => true,
        },
{
}

/// Whether the fields after replacing payloads in them are the same, but for bytes in the field
/// of a payload, which are as they were.
spec fn same_after(
    payload: Option<(u32, Seq<char>)>,
    f: Seq<(u32, DatumV)>,
    g: Seq<(u32, DatumV)>,
    x: Result<Seq<(u32, DatumV)>, Fault>,
    y: Result<Seq<(u32, DatumV)>, Fault>,
    n: nat,
) -> bool {
    match (x, y) {
        (Ok(x), Ok(y)) => x.len() == n && y.len() == n && forall|i: int|
            0 <= i < n ==> (#[trigger] x[i]).0 == f[i].0 && y[i].0 == f[i].0 && (x[i] == y[i] || (
            payload is Some && f[i].0 == (payload->Some_0).0 && x[i].1 == f[i].1 && y[i].1 == g[i].1
                && f[i].1 is Bytes && g[i].1 is Bytes)),
        (Err(d), Err(e)) => d == e,
        _ => false,
    }
}

/// What replacing payloads keeps of fields.
pub proof fn any_fields_keep(files: Seq<MessageV>, f: Seq<(u32, DatumV)>, n: nat, left: nat)
    requires
        n <= f.len(),
    ensures
        match any_fields(files, f, n, left) {
            Ok(x) => x.len() == n && forall|i: int|
                0 <= i < n ==> (#[trigger] x[i]).0 == f[i].0 && (f[i].1 is Message <==> x[i].1
                    is Message) && (f[i].1 is List <==> x[i].1 is List) && (f[i].1 is Entries
                    <==> x[i].1 is Entries) && (f[i].1 is Message || f[i].1 is List || f[i].1
                    is Entries || x[i].1 == f[i].1),
            Err(_) => true,
        },
    decreases n,
{
    if n > 0 {
        any_fields_keep(files, f, (n - 1) as nat, left);
        any_datum_keeps(files, f[n - 1].1, left);
    }
}

/// Messages that are the same but for payloads are the same once their payloads are replaced.
pub proof fn same_any_normalized(
    files: Seq<MessageV>,
    a: MessageV,
    b: MessageV,
    depth: nat,
    left: nat,
)
    requires
        related(files, a, b, depth),
    ensures
        any_normalized(files, a, left) == any_normalized(files, b, left),
    decreases 2 * left, a, 0nat,
{
    if left > 0 {
        let less = (left - 1) as nat;
        let payload = payload_type(files, a);
        same_any_fields(files, payload, a.fields, b.fields, a.fields.len(), depth, less);
        same_any_fields(files, None, a.extensions, b.extensions, a.extensions.len(), depth, less);
        let f = any_fields(files, a.fields, a.fields.len(), less);
        let g = any_fields(files, b.fields, b.fields.len(), less);
        let x = any_fields(files, a.extensions, a.extensions.len(), less);
        let y = any_fields(files, b.extensions, b.extensions.len(), less);
        if f is Ok && x is Ok {
            assert(x->Ok_0 =~= y->Ok_0);
            let c = MessageV { fields: f->Ok_0, extensions: x->Ok_0, ..a };
            let d = MessageV { fields: g->Ok_0, extensions: y->Ok_0, ..b };
            any_fields_keep(files, a.fields, a.fields.len(), less);
            any_fields_keep(files, b.fields, b.fields.len(), less);
            same_payload_type(files, a, c);
            same_with_payload(files, a, b, c, d, depth, less);
        }
    }
}

/// Replacing payloads inside a message does not change which payload it holds itself.
pub proof fn same_payload_type(files: Seq<MessageV>, a: MessageV, c: MessageV)
    requires
        a.full_name == c.full_name,
        a.fields.len() == c.fields.len(),
        forall|i: int|
            0 <= i < a.fields.len() ==> (#[trigger] c.fields[i]).0 == a.fields[i].0 && (
            a.fields[i].1 is Message <==> c.fields[i].1 is Message) && (a.fields[i].1 is List
                <==> c.fields[i].1 is List) && (a.fields[i].1 is Entries <==> c.fields[i].1
                is Entries) && (a.fields[i].1 is Message || a.fields[i].1 is List || a.fields[i].1
                is Entries || c.fields[i].1 == a.fields[i].1),
    ensures
        payload_type(files, a) == payload_type(files, c),
        type_url(files, a) == type_url(files, c),
{
    if let Some(t) = field_named(files, a.full_name, "type_url"@) {
        assert forall|i: int| 0 <= i < a.fields.len() implies (#[trigger] a.fields[i]).0
            == c.fields[i].0 by {
            assert(c.fields[i].0 == a.fields[i].0);
        }
        same_place(a.fields, c.fields, t.number);
        let i = field_index(a.fields, t.number) as int;
        if i < a.fields.len() {
            assert(c.fields[i].0 == a.fields[i].0);
        }
    }
}

proof fn same_with_payload(
    files: Seq<MessageV>,
    a: MessageV,
    b: MessageV,
    c: MessageV,
    d: MessageV,
    depth: nat,
    left: nat,
)
    requires
        related(files, a, b, depth),
        c.full_name == a.full_name,
        d.full_name == b.full_name,
        c.extensions == d.extensions,
        c.unknown == a.unknown,
        d.unknown == b.unknown,
        payload_type(files, c) == payload_type(files, a),
        same_after(
            payload_type(files, a),
            a.fields,
            b.fields,
            Ok(c.fields),
            Ok(d.fields),
            a.fields.len(),
        ),
        forall|i: int|
            0 <= i < c.fields.len() ==> (#[trigger] c.fields[i]).0 == a.fields[i].0 && (
            a.fields[i].1 is Message || a.fields[i].1 is List || a.fields[i].1 is Entries
                || c.fields[i].1 == a.fields[i].1),
    ensures
        with_payload(files, c, left) == with_payload(files, d, left),
    decreases 2 * left + 1, a, 0nat,
{
    let payload = payload_type(files, a);
    assert forall|i: int| 0 <= i < c.fields.len() implies (#[trigger] c.fields[i]).0
        == d.fields[i].0 by {}
    match payload {
        None => {
            assert(c.fields =~= d.fields);
        },
        Some((number, name)) => {
            // The type URL is a text, and so the same in both.
            if let Some(t) = field_named(files, a.full_name, "type_url"@) {
                same_place(c.fields, d.fields, t.number);
                let i = field_index(c.fields, t.number) as int;
                if i < c.fields.len() {
                    assert(c.fields[i].0 == d.fields[i].0);
                }
            }
            assert(payload_type(files, d) == payload);
            same_place(c.fields, d.fields, number);
            let p = field_index(c.fields, number) as int;
            field_index_divides(c.fields, number);
            assert forall|i: int| 0 <= i < c.fields.len() && i != p implies c.fields[i]
                == d.fields[i] by {
                if c.fields[i].0 == number {
                    if i < p {
                        assert(c.fields[i].0 != number);
                    } else {
                        assert(a.fields[p].0 == c.fields[p].0);
                        assert(a.fields[i].0 == c.fields[i].0);
                        assert(a.fields[p].0 != a.fields[i].0);
                    }
                }
            }
            if p >= c.fields.len() || c.fields[p] == d.fields[p] {
                assert(c.fields =~= d.fields);
            } else {
                assert(c.fields[p].0 == number);
                assert(related_field(
                    files,
                    payload,
                    a.fields[p].0,
                    a.fields[p].1,
                    b.fields[p].1,
                    depth,
                ));
                let x = c.fields[p].1->Bytes_0;
                let y = d.fields[p].1->Bytes_0;
                assert(payload_bytes(files, c, number) == Some(x));
                assert(payload_bytes(files, d, number) == Some(y));
                match (wire_message(files, name, x), wire_message(files, name, y)) {
                    (Some(m), Some(n)) => {
                        let under = (depth - 1) as nat;
                        same_problem(files, false, name, m, n, under);
                        same_any_normalized(files, m, n, under, left);
                        if let Ok(q) = any_normalized(files, m, left) {
                            if let Ok(bytes) = normal_bytes(files, name, q) {
                                let v = DatumV::Bytes(bytes);
                                assert(with_field(c.fields, number, v) =~= with_field(
                                    d.fields,
                                    number,
                                    v,
                                ));
                                assert(without_field(c.fields, number) =~= without_field(
                                    d.fields,
                                    number,
                                ));
                            }
                        }
                    },
                    _ => {},
                }
            }
        },
    }
}

proof fn same_any_fields(
    files: Seq<MessageV>,
    payload: Option<(u32, Seq<char>)>,
    f: Seq<(u32, DatumV)>,
    g: Seq<(u32, DatumV)>,
    n: nat,
    depth: nat,
    left: nat,
)
    requires
        related_fields(files, payload, f, g, depth),
        n <= f.len(),
    ensures
        same_after(
            payload,
            f,
            g,
            any_fields(files, f, n, left),
            any_fields(files, g, n, left),
            n,
        ),
    decreases 2 * left, f, n,
{
    if n > 0 {
        same_any_fields(files, payload, f, g, (n - 1) as nat, depth, left);
        assert(f[n - 1].0 == g[n - 1].0);
        assert(related_field(files, payload, f[n - 1].0, f[n - 1].1, g[n - 1].1, depth));
        if !(f[n - 1].1 is Bytes && g[n - 1].1 is Bytes) {
            same_any_datum(files, f[n - 1].1, g[n - 1].1, depth, left);
        } else {
            assert(any_datum(files, f[n - 1].1, left) == Ok::<DatumV, Fault>(f[n - 1].1));
            assert(any_datum(files, g[n - 1].1, left) == Ok::<DatumV, Fault>(g[n - 1].1));
        }
    }
}

proof fn same_any_datum(files: Seq<MessageV>, v: DatumV, w: DatumV, depth: nat, left: nat)
    requires
        related_datum(files, v, w, depth),
    ensures
        any_datum(files, v, left) == any_datum(files, w, left),
    decreases 2 * left, v, 0nat,
{
    match (v, w) {
        (DatumV::Message(a), DatumV::Message(b)) => {
            same_any_normalized(files, a, b, depth, left);
        },
        (DatumV::List(l), DatumV::List(k)) => {
            same_any_list(files, l, k, l.len(), depth, left);
        },
        (DatumV::Entries(e), DatumV::Entries(h)) => {
            same_any_entries(files, e, h, e.len(), depth, left);
        },
        _ => {},
    }
}

proof fn same_any_list(
    files: Seq<MessageV>,
    l: Seq<DatumV>,
    k: Seq<DatumV>,
    n: nat,
    depth: nat,
    left: nat,
)
    requires
        l.len() == k.len(),
        forall|i: int| 0 <= i < l.len() ==> related_datum(files, #[trigger] l[i], k[i], depth),
    ensures
        any_list(files, l, n, left) == any_list(files, k, n, left),
    decreases 2 * left, l, n,
{
    if 0 < n <= l.len() {
        same_any_list(files, l, k, (n - 1) as nat, depth, left);
        assert(related_datum(files, l[n - 1], k[n - 1], depth));
        same_any_datum(files, l[n - 1], k[n - 1], depth, left);
    }
}

proof fn same_any_entries(
    files: Seq<MessageV>,
    e: Seq<(KeyV, DatumV)>,
    h: Seq<(KeyV, DatumV)>,
    n: nat,
    depth: nat,
    left: nat,
)
    requires
        e.len() == h.len(),
        forall|i: int|
            0 <= i < e.len() ==> (#[trigger] e[i]).0 == h[i].0 && related_datum(
                files,
                e[i].1,
                h[i].1,
                depth,
            ),
    ensures
        any_entries(files, e, n, left) == any_entries(files, h, n, left),
    decreases 2 * left, e, n,
{
    if 0 < n <= e.len() {
        same_any_entries(files, e, h, (n - 1) as nat, depth, left);
        assert(e[n - 1].0 == h[n - 1].0);
        same_any_datum(files, e[n - 1].1, h[n - 1].1, depth, left);
    }
}

} // verus!
