//! Messages that are the same but for payloads: the relation can be looked at to any greater depth,
//! and it is transitive.
use vstd::prelude::*;

verus! {

use crate::determinism::same_place;
use crate::message::{field_index, DatumV, MessageV};
use crate::payload::{
    payload_type, related, related_datum, related_field, related_fields, same_payloads,
};
use crate::pool::{field_named, wire_message};

proof fn deeper(files: Seq<MessageV>, a: MessageV, b: MessageV, d: nat, e: nat)
    requires
        related(files, a, b, d),
        d <= e,
    ensures
        related(files, a, b, e),
    decreases d, a, 0nat,
{
    deeper_fields(files, payload_type(files, a), a.fields, b.fields, d, e);
    deeper_fields(files, None, a.extensions, b.extensions, d, e);
}

proof fn deeper_fields(
    files: Seq<MessageV>,
    payload: Option<(u32, Seq<char>)>,
    f: Seq<(u32, DatumV)>,
    g: Seq<(u32, DatumV)>,
    d: nat,
    e: nat,
)
    requires
        related_fields(files, payload, f, g, d),
        d <= e,
    ensures
        related_fields(files, payload, f, g, e),
    decreases d, f, 0nat,
{
    assert forall|i: int| 0 <= i < f.len() implies (#[trigger] f[i]).0 == g[i].0 && related_field(
        files,
        payload,
        f[i].0,
        f[i].1,
        g[i].1,
        e,
    ) by {
        deeper_field(files, payload, f[i].0, f[i].1, g[i].1, d, e);
    }
}

proof fn deeper_field(
    files: Seq<MessageV>,
    payload: Option<(u32, Seq<char>)>,
    number: u32,
    v: DatumV,
    w: DatumV,
    d: nat,
    e: nat,
)
    requires
        related_field(files, payload, number, v, w, d),
        d <= e,
    ensures
        related_field(files, payload, number, v, w, e),
    decreases d, v, 1nat,
{
    match (payload, v, w) {
        (Some((n, name)), DatumV::Bytes(x), DatumV::Bytes(y)) => {
            if x != y {
                if let (Some(p), Some(q)) = (
                    wire_message(files, name, x),
                    wire_message(files, name, y),
                ) {
                    deeper(files, p, q, (d - 1) as nat, (e - 1) as nat);
                }
            }
        },
        _ => {
            deeper_datum(files, v, w, d, e);
        },
    }
}

proof fn deeper_datum(files: Seq<MessageV>, v: DatumV, w: DatumV, d: nat, e: nat)
    requires
        related_datum(files, v, w, d),
        d <= e,
    ensures
        related_datum(files, v, w, e),
    decreases d, v, 0nat,
{
    match (v, w) {
        (DatumV::Message(a), DatumV::Message(b)) => {
            deeper(files, a, b, d, e);
        },
        (DatumV::List(l), DatumV::List(k)) => {
            assert forall|i: int| 0 <= i < l.len() implies related_datum(
                files,
                #[trigger] l[i],
                k[i],
                e,
            ) by {
                deeper_datum(files, l[i], k[i], d, e);
            }
        },
        (DatumV::Entries(x), DatumV::Entries(h)) => {
            assert forall|i: int| 0 <= i < x.len() implies (#[trigger] x[i]).0 == h[i].0
                && related_datum(files, x[i].1, h[i].1, e) by {
                deeper_datum(files, x[i].1, h[i].1, d, e);
            }
        },
        _ => {},
    }
}

proof fn same_type(files: Seq<MessageV>, a: MessageV, b: MessageV, d: nat)
    requires
        related(files, a, b, d),
    ensures
        payload_type(files, a) == payload_type(files, b),
{
    if let Some(t) = field_named(files, a.full_name, "type_url"@) {
        assert forall|i: int| 0 <= i < a.fields.len() implies (#[trigger] a.fields[i]).0
            == b.fields[i].0 by {}
        same_place(a.fields, b.fields, t.number);
        let i = field_index(a.fields, t.number) as int;
        if i < a.fields.len() {
            assert(related_field(
                files,
                payload_type(files, a),
                a.fields[i].0,
                a.fields[i].1,
                b.fields[i].1,
                d,
            ));
        }
    }
}

proof fn linked(files: Seq<MessageV>, a: MessageV, b: MessageV, c: MessageV, d: nat)
    requires
        related(files, a, b, d),
        related(files, b, c, d),
    ensures
        related(files, a, c, d),
    decreases d, a, 0nat,
{
    same_type(files, a, b, d);
    linked_fields(files, payload_type(files, a), a.fields, b.fields, c.fields, d);
    linked_fields(files, None, a.extensions, b.extensions, c.extensions, d);
}

proof fn linked_fields(
    files: Seq<MessageV>,
    payload: Option<(u32, Seq<char>)>,
    f: Seq<(u32, DatumV)>,
    g: Seq<(u32, DatumV)>,
    h: Seq<(u32, DatumV)>,
    d: nat,
)
    requires
        related_fields(files, payload, f, g, d),
        related_fields(files, payload, g, h, d),
    ensures
        related_fields(files, payload, f, h, d),
    decreases d, f, 0nat,
{
    assert forall|i: int| 0 <= i < f.len() implies (#[trigger] f[i]).0 == h[i].0 && related_field(
        files,
        payload,
        f[i].0,
        f[i].1,
        h[i].1,
        d,
    ) by {
        assert(g[i].0 == h[i].0 && related_field(files, payload, g[i].0, g[i].1, h[i].1, d));
        linked_field(files, payload, f[i].0, f[i].1, g[i].1, h[i].1, d);
    }
}

proof fn linked_field(
    files: Seq<MessageV>,
    payload: Option<(u32, Seq<char>)>,
    number: u32,
    u: DatumV,
    v: DatumV,
    w: DatumV,
    d: nat,
)
    requires
        related_field(files, payload, number, u, v, d),
        related_field(files, payload, number, v, w, d),
    ensures
        related_field(files, payload, number, u, w, d),
    decreases d, u, 1nat,
{
    match (payload, u, v, w) {
        (Some((n, name)), DatumV::Bytes(x), DatumV::Bytes(y), DatumV::Bytes(z)) => {
            if x != y && y != z {
                if let (Some(p), Some(q), Some(r)) = (
                    wire_message(files, name, x),
                    wire_message(files, name, y),
                    wire_message(files, name, z),
                ) {
                    linked(files, p, q, r, (d - 1) as nat);
                }
            }
        },
        _ => {
            if !(u is Bytes) {
                linked_datum(files, u, v, w, d);
            }
        },
    }
}

proof fn linked_datum(files: Seq<MessageV>, u: DatumV, v: DatumV, w: DatumV, d: nat)
    requires
        related_datum(files, u, v, d),
        related_datum(files, v, w, d),
    ensures
        related_datum(files, u, w, d),
    decreases d, u, 0nat,
{
    match (u, v, w) {
        (DatumV::Message(a), DatumV::Message(b), DatumV::Message(c)) => {
            linked(files, a, b, c, d);
        },
        (DatumV::List(l), DatumV::List(k), DatumV::List(j)) => {
            assert forall|i: int| 0 <= i < l.len() implies related_datum(
                files,
                #[trigger] l[i],
                j[i],
                d,
            ) by {
                assert(related_datum(files, k[i], j[i], d));
                linked_datum(files, l[i], k[i], j[i], d);
            }
        },
        (DatumV::Entries(x), DatumV::Entries(y), DatumV::Entries(z)) => {
            assert forall|i: int| 0 <= i < x.len() implies (#[trigger] x[i]).0 == z[i].0
                && related_datum(files, x[i].1, z[i].1, d) by {
                assert(y[i].0 == z[i].0 && related_datum(files, y[i].1, z[i].1, d));
                linked_datum(files, x[i].1, y[i].1, z[i].1, d);
            }
        },
        _ => {},
    }
}

/// Messages that are the same but for payloads as a third one are so to each other.
pub proof fn same_payloads_are_transitive(
    files: Seq<MessageV>,
    a: MessageV,
    b: MessageV,
    c: MessageV,
)
    requires
        same_payloads(files, a, b),
        same_payloads(files, b, c),
    ensures
        same_payloads(files, a, c),
{
    let d = choose|d: nat| related(files, a, b, d);
    let e = choose|e: nat| related(files, b, c, e);
    let f = if d < e {
        e
    } else {
        d
    };
    deeper(files, a, b, d, f);
    deeper(files, b, c, e, f);
    linked(files, a, b, c, f);
}

} // verus!
