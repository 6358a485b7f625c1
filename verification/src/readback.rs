//! Reading back: what is read from the wire bytes that were written.
use vstd::prelude::*;

verus! {

use crate::error::Fault;
use crate::message::{
    field_index, field_index_divides, field_value, key_slot, DatumV, KeyV, MessageV, Scalar,
};
use crate::normalize::{
    by_text, by_text_has, by_text_sorts, entry_key, expanded, keyed, sorted, sorted_field, sorted_fields,
    sorted_items, unkeyed,
};
use crate::payload::{
    any_datum, any_entries, any_fields, any_list, any_name, any_normalized, datum_without_unknown,
    fields_without_unknown, payload_type, private_files, standard_any, with_payload,
    without_unknown,
};
use crate::pool::{built, field_named, message_type};
use crate::types::{
    conforms, counts, default_datum, entry_types, field_conforms, fields_conform, kind_conforms, numbered,
    shaped, shaped_datum, shaped_field, shaped_fields, FieldKindV, FieldTypeV,
};
use crate::validate::{extensions_of, fields_of, finite};

/// Whether no entry of a map has a negative zero for its value. In a schema without presence such
/// a value is not written, and zero is read in its place.
pub open spec fn without_negative_zero(m: MessageV) -> bool
    decreases m,
{
    fields_without_negative_zero(m.fields) && fields_without_negative_zero(m.extensions)
}

/// The same of fields.
pub open spec fn fields_without_negative_zero(f: Seq<(u32, DatumV)>) -> bool
    decreases f,
{
    forall|i: int| 0 <= i < f.len() ==> datum_without_negative_zero((#[trigger] f[i]).1)
}

/// The same of a value.
pub open spec fn datum_without_negative_zero(v: DatumV) -> bool
    decreases v,
{
    match v {
        DatumV::Message(m) => without_negative_zero(m),
        DatumV::List(l) => forall|i: int|
            0 <= i < l.len() ==> datum_without_negative_zero(#[trigger] l[i]),
        DatumV::Entries(e) => forall|i: int|
            0 <= i < e.len() ==> (#[trigger] e[i]).1 != DatumV::Scalar(Scalar::F32(0x8000_0000))
                && e[i].1 != DatumV::Scalar(Scalar::F64(0x8000_0000_0000_0000))
                && datum_without_negative_zero(e[i].1),
        _ => true,
    }
}

/// Whether no part of a message is a map.
pub open spec fn without_maps(m: MessageV) -> bool
    decreases m,
{
    fields_without_maps(m.fields) && fields_without_maps(m.extensions)
}

/// The same of fields.
pub open spec fn fields_without_maps(f: Seq<(u32, DatumV)>) -> bool
    decreases f,
{
    forall|i: int| 0 <= i < f.len() ==> datum_without_maps((#[trigger] f[i]).1)
}

/// The same of a value.
pub open spec fn datum_without_maps(v: DatumV) -> bool
    decreases v,
{
    match v {
        DatumV::Message(m) => without_maps(m),
        DatumV::List(l) => forall|i: int| 0 <= i < l.len() ==> datum_without_maps(#[trigger] l[i]),
        DatumV::Entries(_) => false,
        _ => true,
    }
}

/// Whether a message of a private copy for ProtoJSON is the one that stands for `m`.
pub open spec fn stands_for(
    files: Seq<MessageV>,
    m: MessageV,
    private: Seq<MessageV>,
    b: MessageV,
) -> bool {
    &&& private == private_files(files)
    &&& conforms(files, m)
    &&& without_negative_zero(m)
    &&& built(private, sorted(files, m.full_name, expanded(files, m))) == Some(b)
}

/// The message of a schema that a message of its private copy stands for: lists of entries are
/// maps again, and of two entries with the same key the last one holds. `name` is the type in the
/// schema.
pub open spec fn folded(files: Seq<MessageV>, name: Seq<char>, m: MessageV) -> MessageV
    decreases m, 0nat,
{
    MessageV {
        full_name: name,
        fields: folded_fields(files, fields_of(files, name), m.fields),
        extensions: folded_fields(files, extensions_of(files, name), m.extensions),
        unknown: m.unknown,
    }
}

/// The same of fields.
pub open spec fn folded_fields(
    files: Seq<MessageV>,
    types: Seq<FieldTypeV>,
    f: Seq<(u32, DatumV)>,
) -> Seq<(u32, DatumV)>
    decreases f, 0nat,
{
    Seq::new(
        f.len(),
        |i: int|
            if 0 <= i < f.len() {
                (f[i].0, folded_field(files, numbered(types, f[i].0), f[i].1))
            } else {
                f[i]
            },
    )
}

/// The same of the value of a field of this type.
pub open spec fn folded_field(files: Seq<MessageV>, t: Option<FieldTypeV>, v: DatumV) -> DatumV
    decreases v, 1nat,
{
    match t {
        Some(t) => match (t.kind, v) {
            (FieldKindV::Message(child), DatumV::List(l)) => if t.map {
                DatumV::Entries(folded_entries(files, child, l, l.len()))
            } else {
                DatumV::List(folded_items(files, child, l))
            },
            (FieldKindV::Message(child), _) => folded_item(files, child, v),
            _ => v,
        },
        None => v,
    }
}

/// The same of the messages of a list.
pub open spec fn folded_items(files: Seq<MessageV>, child: Seq<char>, l: Seq<DatumV>) -> Seq<DatumV>
    decreases l, 0nat,
{
    Seq::new(
        l.len(),
        |i: int|
            if 0 <= i < l.len() {
                folded_item(files, child, l[i])
            } else {
                l[i]
            },
    )
}

/// The same of one message.
pub open spec fn folded_item(files: Seq<MessageV>, child: Seq<char>, v: DatumV) -> DatumV
    decreases v, 0nat,
{
    match v {
        DatumV::Message(m) => DatumV::Message(folded(files, child, m)),
        _ => v,
    }
}

/// The value of an entry message.
pub open spec fn entry_value(files: Seq<MessageV>, entry: Seq<char>, v: DatumV) -> DatumV
    decreases v, 0nat,
{
    let t = numbered(fields_of(files, entry), 2);
    match v {
        DatumV::Message(m) => {
            let set = folded_fields(files, fields_of(files, entry), m.fields);
            match (field_value(set, 2), t) {
                (Some(x), _) => x,
                (None, Some(t)) => default_datum(t.kind),
                _ => v,
            }
        },
        _ => v,
    }
}

/// The first `n` entry messages as a map, in the order of its keys.
pub open spec fn folded_entries(
    files: Seq<MessageV>,
    entry: Seq<char>,
    l: Seq<DatumV>,
    n: nat,
) -> Seq<(KeyV, DatumV)>
    decreases l, n,
{
    if n == 0 || n > l.len() {
        Seq::empty()
    } else {
        let done = folded_entries(files, entry, l, (n - 1) as nat);
        with_entry(done, entry_key(files, entry, l[n - 1]), entry_value(files, entry, l[n - 1]))
    }
}

/// The entries with this one, in the place of the one that has its key, or else in order.
pub open spec fn with_entry(e: Seq<(KeyV, DatumV)>, k: KeyV, v: DatumV) -> Seq<(KeyV, DatumV)> {
    if exists|i: int| 0 <= i < e.len() && e[i].0 == k {
        let i = choose|i: int| 0 <= i < e.len() && e[i].0 == k;
        e.update(i, (k, v))
    } else {
        e.insert(key_slot(e, k) as int, (k, v))
    }
}

/// Sorting its maps leaves a message one of the private copy.
pub proof fn sorting_keeps_conforming(
    private: Seq<MessageV>,
    files: Seq<MessageV>,
    name: Seq<char>,
    m: MessageV,
)
    requires
        conforms(private, m),
    ensures
        conforms(private, sorted(files, name, m)),
    decreases m, 2nat,
{
    let t = message_type(private, m.full_name)->Some_0;
    sorted_fields_conform(private, t.fields, files, fields_of(files, name), m.fields);
    sorted_fields_conform(private, t.extensions, files, extensions_of(files, name), m.extensions);
}

proof fn sorted_fields_conform(
    private: Seq<MessageV>,
    own: Seq<FieldTypeV>,
    files: Seq<MessageV>,
    types: Seq<FieldTypeV>,
    f: Seq<(u32, DatumV)>,
)
    requires
        fields_conform(private, own, f),
    ensures
        fields_conform(private, own, sorted_fields(files, types, f)),
    decreases f, 1nat,
{
    let g = sorted_fields(files, types, f);
    assert forall|i: int| 0 <= i < g.len() implies match numbered(own, (#[trigger] g[i]).0) {
        Some(t) => counts(t, g[i].1) && field_conforms(private, t, g[i].1),
        None => false,
    } by {
        assert(g[i].0 == f[i].0);
        sorted_field_conforms(
            private,
            numbered(own, f[i].0)->Some_0,
            files,
            numbered(types, f[i].0),
            f[i].1,
        );
    }
    assert forall|i: int, j: int| 0 <= i < j < g.len() implies g[i].0 < g[j].0 by {
        assert(f[i].0 < f[j].0);
    }
    assert forall|i: int, j: int|
        #![trigger g[i], g[j]]
        0 <= i < j < g.len() implies match (numbered(own, g[i].0), numbered(own, g[j].0)) {
        (Some(a), Some(b)) => a.oneof is None || a.oneof != b.oneof,
        _ => false,
    } by {
        assert(g[i].0 == f[i].0 && g[j].0 == f[j].0);
    }
}

proof fn sorted_field_conforms(
    private: Seq<MessageV>,
    own: FieldTypeV,
    files: Seq<MessageV>,
    t: Option<FieldTypeV>,
    v: DatumV,
)
    requires
        counts(own, v),
        field_conforms(private, own, v),
    ensures
        counts(own, sorted_field(files, t, v)),
        field_conforms(private, own, sorted_field(files, t, v)),
    decreases v, 0nat,
{
    if let Some(t) = t {
        if let FieldKindV::Message(child) = t.kind {
            if let DatumV::Message(m) = v {
                sorting_keeps_conforming(private, files, child, m);
            } else if let DatumV::List(l) = v {
                let items = sorted_items(files, child, l);
                assert forall|i: int| 0 <= i < items.len() implies kind_conforms(
                    private,
                    own.kind,
                    #[trigger] items[i],
                ) by {
                    assert(kind_conforms(private, own.kind, l[i]));
                    if let DatumV::Message(m) = l[i] {
                        sorting_keeps_conforming(private, files, child, m);
                    }
                }
                let pairs = keyed(files, child, items);
                let out = unkeyed(by_text(pairs));
                by_text_sorts(pairs);
                assert forall|i: int| 0 <= i < out.len() implies kind_conforms(
                    private,
                    own.kind,
                    #[trigger] out[i],
                ) by {
                    by_text_has(pairs, i);
                    let j = choose|j: int|
                        0 <= j < pairs.len() && #[trigger] pairs[j] == by_text(pairs)[i];
                    assert(out[i] == items[j]);
                }
            }
        }
    }
}

/// Whether a name is a plain identifier: letters, digits and underscores, no digit in front.
pub open spec fn identifier(s: Seq<char>) -> bool {
    &&& s.len() > 0
    &&& !('0' <= s[0] <= '9')
    &&& forall|i: int|
        0 <= i < s.len() ==> 'a' <= #[trigger] s[i] <= 'z' || 'A' <= s[i] <= 'Z' || '0' <= s[i]
            <= '9' || s[i] == '_'
}

/// Whether a descriptor is one of a message, a field, an enum or a value of an enum.
pub open spec fn declares(full_name: Seq<char>) -> bool {
    full_name == "google.protobuf.DescriptorProto"@ || full_name
        == "google.protobuf.FieldDescriptorProto"@ || full_name
        == "google.protobuf.EnumDescriptorProto"@ || full_name
        == "google.protobuf.EnumValueDescriptorProto"@
}

/// Whether all messages, fields, enums and values of enums that a descriptor declares have plain
/// identifiers for their names, and no field is a group.
pub open spec fn plain_names(m: MessageV) -> bool
    decreases m,
{
    &&& declares(m.full_name) ==> match field_value(m.fields, 1) {
        Some(DatumV::Text(t)) => identifier(t),
        _ => false,
    }
    &&& m.full_name == "google.protobuf.FieldDescriptorProto"@ ==> field_value(m.fields, 5) != Some(
        DatumV::Scalar(Scalar::Enum(10)),
    )
    &&& fields_plain_names(m.fields)
}

/// The same of fields of a descriptor.
pub open spec fn fields_plain_names(f: Seq<(u32, DatumV)>) -> bool
    decreases f,
{
    forall|i: int| 0 <= i < f.len() ==> datum_plain_names((#[trigger] f[i]).1)
}

/// The same of a value in a descriptor.
pub open spec fn datum_plain_names(v: DatumV) -> bool
    decreases v,
{
    match v {
        DatumV::Message(m) => plain_names(m),
        DatumV::List(l) => forall|i: int| 0 <= i < l.len() ==> datum_plain_names(#[trigger] l[i]),
        _ => true,
    }
}

/// The same of all files of a schema.
pub open spec fn plain_schema(files: Seq<MessageV>) -> bool {
    forall|i: int| 0 <= i < files.len() ==> plain_names(#[trigger] files[i])
}

/// Whether the text of a message of a private copy for structural input says all that it holds: it
/// has no extensions, whose names are private, and no unknown fields, no NaN but the usual one, and
/// no floats of single precision, which are read through double precision and may come out rounded
/// otherwise. The same holds of the messages in it.
pub open spec fn plain_text(m: MessageV) -> bool
    decreases m,
{
    &&& m.unknown.len() == 0
    &&& m.extensions.len() == 0
    &&& fields_plain_text(m.fields)
}

/// The same of fields.
pub open spec fn fields_plain_text(f: Seq<(u32, DatumV)>) -> bool
    decreases f,
{
    forall|i: int| 0 <= i < f.len() ==> datum_plain_text((#[trigger] f[i]).1)
}

/// The same of a value.
pub open spec fn datum_plain_text(v: DatumV) -> bool
    decreases v,
{
    match v {
        DatumV::Scalar(Scalar::F32(_)) => false,
        DatumV::Scalar(Scalar::F64(bits)) => finite(bits) || bits as int % 0x10_0000_0000_0000 == 0
            || bits == 0x7ff8_0000_0000_0000,
        DatumV::Message(m) => plain_text(m),
        DatumV::List(l) => forall|i: int| 0 <= i < l.len() ==> datum_plain_text(#[trigger] l[i]),
        DatumV::Entries(_) => false,
        _ => true,
    }
}

/// Replacing payloads takes no unknown fields away.
pub proof fn any_keeps_unknown(files: Seq<MessageV>, m: MessageV, left: nat)
    requires
        any_normalized(files, m, left) is Ok,
        without_unknown(any_normalized(files, m, left)->Ok_0),
    ensures
        without_unknown(m),
    decreases m, 0nat,
{
    let less = (left - 1) as nat;
    let f = any_fields(files, m.fields, m.fields.len(), less);
    let x = any_fields(files, m.extensions, m.extensions.len(), less);
    let inner = MessageV { fields: f->Ok_0, extensions: x->Ok_0, ..m };
    let n = any_normalized(files, m, left)->Ok_0;
    assert(with_payload(files, inner, less) == Ok::<MessageV, Fault>(n));
    assert(n.extensions == inner.extensions && n.unknown == m.unknown);
    assert(fields_without_unknown(inner.fields)) by {
        payload_keeps_unknown(files, inner, n, less);
    }
    any_fields_keep_unknown(files, m.fields, m.fields.len(), less);
    any_fields_keep_unknown(files, m.extensions, m.extensions.len(), less);
}

proof fn payload_keeps_unknown(files: Seq<MessageV>, m: MessageV, n: MessageV, left: nat)
    requires
        with_payload(files, m, left) == Ok::<MessageV, Fault>(n),
        fields_without_unknown(n.fields),
    ensures
        fields_without_unknown(m.fields),
{
    if n != m {
        let number = (payload_type(files, m)->Some_0).0;
        field_index_divides(m.fields, number);
        let p = field_index(m.fields, number) as int;
        assert forall|i: int| 0 <= i < m.fields.len() implies datum_without_unknown(
            (#[trigger] m.fields[i]).1,
        ) by {
            if i < p {
                assert(n.fields[i] == m.fields[i]);
            } else if i == p {
                assert(m.fields[i].1 is Bytes);
            } else if n.fields.len() == m.fields.len() {
                assert(n.fields[i] == m.fields[i]);
            } else {
                assert(n.fields[i - 1] == m.fields[i]);
            }
        }
    }
}

proof fn any_fields_keep_unknown(files: Seq<MessageV>, f: Seq<(u32, DatumV)>, n: nat, left: nat)
    requires
        n <= f.len(),
        any_fields(files, f, n, left) is Ok,
        fields_without_unknown(any_fields(files, f, n, left)->Ok_0),
    ensures
        any_fields(files, f, n, left)->Ok_0.len() == n,
        forall|i: int| 0 <= i < n ==> datum_without_unknown((#[trigger] f[i]).1),
    decreases f, n,
{
    if n > 0 {
        let all = any_fields(files, f, n, left)->Ok_0;
        let done = any_fields(files, f, (n - 1) as nat, left)->Ok_0;
        assert(all == done.push((f[n - 1].0, any_datum(files, f[n - 1].1, left)->Ok_0)));
        assert forall|i: int| 0 <= i < done.len() implies datum_without_unknown(
            (#[trigger] done[i]).1,
        ) by {
            assert(all[i] == done[i]);
        }
        any_fields_keep_unknown(files, f, (n - 1) as nat, left);
        assert(datum_without_unknown(all[n - 1].1));
        any_datum_keeps_unknown(files, f[n - 1].1, left);
    }
}

proof fn any_datum_keeps_unknown(files: Seq<MessageV>, v: DatumV, left: nat)
    requires
        any_datum(files, v, left) is Ok,
        datum_without_unknown(any_datum(files, v, left)->Ok_0),
    ensures
        datum_without_unknown(v),
    decreases v, 0nat,
{
    match v {
        DatumV::Message(m) => {
            any_keeps_unknown(files, m, left);
        },
        DatumV::List(l) => {
            let r = any_list(files, l, l.len(), left)->Ok_0;
            assert(datum_without_unknown(DatumV::List(r)));
            assert forall|i: int| 0 <= i < r.len() implies datum_without_unknown(
                #[trigger] r[i],
            ) by {}
            any_list_keeps_unknown(files, l, l.len(), left);
        },
        DatumV::Entries(e) => {
            let r = any_entries(files, e, e.len(), left)->Ok_0;
            assert(datum_without_unknown(DatumV::Entries(r)));
            assert forall|i: int| 0 <= i < r.len() implies datum_without_unknown(
                (#[trigger] r[i]).1,
            ) by {}
            any_entries_keep_unknown(files, e, e.len(), left);
        },
        _ => {},
    }
}

proof fn any_list_keeps_unknown(files: Seq<MessageV>, l: Seq<DatumV>, n: nat, left: nat)
    requires
        n <= l.len(),
        any_list(files, l, n, left) is Ok,
        forall|i: int|
            0 <= i < any_list(files, l, n, left)->Ok_0.len() ==> datum_without_unknown(
                #[trigger] any_list(files, l, n, left)->Ok_0[i],
            ),
    ensures
        any_list(files, l, n, left)->Ok_0.len() == n,
        forall|i: int| 0 <= i < n ==> datum_without_unknown(#[trigger] l[i]),
    decreases l, n,
{
    if n > 0 {
        let all = any_list(files, l, n, left)->Ok_0;
        let done = any_list(files, l, (n - 1) as nat, left)->Ok_0;
        assert(all == done.push(any_datum(files, l[n - 1], left)->Ok_0));
        assert forall|i: int| 0 <= i < done.len() implies datum_without_unknown(
            #[trigger] done[i],
        ) by {
            assert(all[i] == done[i]);
        }
        any_list_keeps_unknown(files, l, (n - 1) as nat, left);
        assert(datum_without_unknown(all[n - 1]));
        any_datum_keeps_unknown(files, l[n - 1], left);
    }
}

proof fn any_entries_keep_unknown(
    files: Seq<MessageV>,
    e: Seq<(KeyV, DatumV)>,
    n: nat,
    left: nat,
)
    requires
        n <= e.len(),
        any_entries(files, e, n, left) is Ok,
        forall|i: int|
            0 <= i < any_entries(files, e, n, left)->Ok_0.len() ==> datum_without_unknown(
                (#[trigger] any_entries(files, e, n, left)->Ok_0[i]).1,
            ),
    ensures
        any_entries(files, e, n, left)->Ok_0.len() == n,
        forall|i: int| 0 <= i < n ==> datum_without_unknown((#[trigger] e[i]).1),
    decreases e, n,
{
    if n > 0 {
        let all = any_entries(files, e, n, left)->Ok_0;
        let done = any_entries(files, e, (n - 1) as nat, left)->Ok_0;
        assert(all == done.push((e[n - 1].0, any_datum(files, e[n - 1].1, left)->Ok_0)));
        assert forall|i: int| 0 <= i < done.len() implies datum_without_unknown(
            (#[trigger] done[i]).1,
        ) by {
            assert(all[i] == done[i]);
        }
        any_entries_keep_unknown(files, e, (n - 1) as nat, left);
        assert(datum_without_unknown(all[n - 1].1));
        any_datum_keeps_unknown(files, e[n - 1].1, left);
    }
}

/// Replacing payloads changes no list or map into anything else.
pub proof fn any_keeps_shape(files: Seq<MessageV>, m: MessageV, left: nat)
    requires
        standard_any(files),
        any_normalized(files, m, left) is Ok,
        shaped(files, any_normalized(files, m, left)->Ok_0),
    ensures
        shaped(files, m),
    decreases m, 0nat,
{
    let less = (left - 1) as nat;
    let f = any_fields(files, m.fields, m.fields.len(), less)->Ok_0;
    let x = any_fields(files, m.extensions, m.extensions.len(), less)->Ok_0;
    let inner = MessageV { fields: f, extensions: x, ..m };
    let n = any_normalized(files, m, left)->Ok_0;
    let t = message_type(files, m.full_name)->Some_0;
    payload_keeps_shape(files, inner, n, less);
    any_fields_keep_shape(files, t.fields, m.fields, m.fields.len(), less);
    any_fields_keep_shape(files, t.extensions, m.extensions, m.extensions.len(), less);
}

proof fn payload_keeps_shape(files: Seq<MessageV>, m: MessageV, n: MessageV, left: nat)
    requires
        standard_any(files),
        with_payload(files, m, left) == Ok::<MessageV, Fault>(n),
        shaped(files, n),
    ensures
        n.full_name == m.full_name,
        n.extensions == m.extensions,
        shaped(files, m),
{
    if n != m {
        let t = message_type(files, any_name())->Some_0;
        let value = field_named(files, any_name(), "value"@)->Some_0;
        reveal_with_fuel(crate::types::type_index, 3);
        assert(t.fields[0].number == 1 && t.fields[1].number == 2);
        assert(t.fields.drop_first()[0] == t.fields[1]);
        assert(numbered(t.fields, 2) == Some(value));
        field_index_divides(m.fields, 2);
        let p = field_index(m.fields, 2) as int;
        assert forall|i: int| 0 <= i < m.fields.len() implies shaped_field(
            files,
            numbered(t.fields, (#[trigger] m.fields[i]).0),
            m.fields[i].1,
        ) by {
            if i < p {
                assert(n.fields[i] == m.fields[i]);
            } else if i == p {
                assert(m.fields[i].1 is Bytes);
            } else if n.fields.len() == m.fields.len() {
                assert(n.fields[i] == m.fields[i]);
            } else {
                assert(n.fields[i - 1] == m.fields[i]);
            }
        }
    }
}

proof fn any_fields_keep_shape(
    files: Seq<MessageV>,
    types: Seq<FieldTypeV>,
    f: Seq<(u32, DatumV)>,
    n: nat,
    left: nat,
)
    requires
        standard_any(files),
        n <= f.len(),
        any_fields(files, f, n, left) is Ok,
        shaped_fields(files, types, any_fields(files, f, n, left)->Ok_0),
    ensures
        any_fields(files, f, n, left)->Ok_0.len() == n,
        forall|i: int|
            0 <= i < n ==> shaped_field(files, numbered(types, (#[trigger] f[i]).0), f[i].1),
    decreases f, n,
{
    if n > 0 {
        let all = any_fields(files, f, n, left)->Ok_0;
        let done = any_fields(files, f, (n - 1) as nat, left)->Ok_0;
        assert(all == done.push((f[n - 1].0, any_datum(files, f[n - 1].1, left)->Ok_0)));
        assert forall|i: int| 0 <= i < done.len() implies shaped_field(
            files,
            numbered(types, (#[trigger] done[i]).0),
            done[i].1,
        ) by {
            assert(all[i] == done[i]);
        }
        any_fields_keep_shape(files, types, f, (n - 1) as nat, left);
        assert(shaped_field(files, numbered(types, all[n - 1].0), all[n - 1].1));
        any_datum_keeps_shape(files, f[n - 1].1, left);
    }
}

proof fn any_datum_keeps_shape(files: Seq<MessageV>, v: DatumV, left: nat)
    requires
        standard_any(files),
        any_datum(files, v, left) is Ok,
        shaped_datum(files, any_datum(files, v, left)->Ok_0),
    ensures
        shaped_datum(files, v),
    decreases v, 0nat,
{
    match v {
        DatumV::Message(m) => {
            any_keeps_shape(files, m, left);
        },
        DatumV::List(l) => {
            let r = any_list(files, l, l.len(), left)->Ok_0;
            assert(shaped_datum(files, DatumV::List(r)));
            assert forall|i: int| 0 <= i < r.len() implies shaped_datum(files, #[trigger] r[i]) by {
            }
            any_list_keeps_shape(files, l, l.len(), left);
        },
        DatumV::Entries(e) => {
            let r = any_entries(files, e, e.len(), left)->Ok_0;
            assert(shaped_datum(files, DatumV::Entries(r)));
            assert forall|i: int| 0 <= i < r.len() implies shaped_datum(
                files,
                (#[trigger] r[i]).1,
            ) by {}
            any_entries_keep_shape(files, e, e.len(), left);
        },
        _ => {},
    }
}

proof fn any_list_keeps_shape(files: Seq<MessageV>, l: Seq<DatumV>, n: nat, left: nat)
    requires
        standard_any(files),
        n <= l.len(),
        any_list(files, l, n, left) is Ok,
        forall|i: int|
            0 <= i < any_list(files, l, n, left)->Ok_0.len() ==> shaped_datum(
                files,
                #[trigger] any_list(files, l, n, left)->Ok_0[i],
            ),
    ensures
        any_list(files, l, n, left)->Ok_0.len() == n,
        forall|i: int| 0 <= i < n ==> shaped_datum(files, #[trigger] l[i]),
    decreases l, n,
{
    if n > 0 {
        let all = any_list(files, l, n, left)->Ok_0;
        let done = any_list(files, l, (n - 1) as nat, left)->Ok_0;
        assert(all == done.push(any_datum(files, l[n - 1], left)->Ok_0));
        assert forall|i: int| 0 <= i < done.len() implies shaped_datum(
            files,
            #[trigger] done[i],
        ) by {
            assert(all[i] == done[i]);
        }
        any_list_keeps_shape(files, l, (n - 1) as nat, left);
        assert(shaped_datum(files, all[n - 1]));
        any_datum_keeps_shape(files, l[n - 1], left);
    }
}

proof fn any_entries_keep_shape(
    files: Seq<MessageV>,
    e: Seq<(KeyV, DatumV)>,
    n: nat,
    left: nat,
)
    requires
        standard_any(files),
        n <= e.len(),
        any_entries(files, e, n, left) is Ok,
        forall|i: int|
            0 <= i < any_entries(files, e, n, left)->Ok_0.len() ==> shaped_datum(
                files,
                (#[trigger] any_entries(files, e, n, left)->Ok_0[i]).1,
            ),
    ensures
        any_entries(files, e, n, left)->Ok_0.len() == n,
        forall|i: int| 0 <= i < n ==> shaped_datum(files, (#[trigger] e[i]).1),
    decreases e, n,
{
    if n > 0 {
        let all = any_entries(files, e, n, left)->Ok_0;
        let done = any_entries(files, e, (n - 1) as nat, left)->Ok_0;
        assert(all == done.push((e[n - 1].0, any_datum(files, e[n - 1].1, left)->Ok_0)));
        assert forall|i: int| 0 <= i < done.len() implies shaped_datum(
            files,
            (#[trigger] done[i]).1,
        ) by {
            assert(all[i] == done[i]);
        }
        any_entries_keep_shape(files, e, (n - 1) as nat, left);
        assert(shaped_datum(files, all[n - 1].1));
        any_datum_keeps_shape(files, e[n - 1].1, left);
    }
}

/// A message that conforms to the schema still does when its payloads are replaced.
pub proof fn any_keeps_conforming(files: Seq<MessageV>, m: MessageV, left: nat)
    requires
        standard_any(files),
        conforms(files, m),
        any_normalized(files, m, left) is Ok,
    ensures
        conforms(files, any_normalized(files, m, left)->Ok_0),
        any_normalized(files, m, left)->Ok_0.full_name == m.full_name,
    decreases m, 0nat,
{
    let less = (left - 1) as nat;
    let types = message_type(files, m.full_name)->Some_0;
    any_fields_keep_conforming(files, types.fields, m.fields, less);
    any_fields_keep_conforming(files, types.extensions, m.extensions, less);
    let f = any_fields(files, m.fields, m.fields.len(), less)->Ok_0;
    let x = any_fields(files, m.extensions, m.extensions.len(), less)->Ok_0;
    let inner = MessageV { fields: f, extensions: x, ..m };
    assert(conforms(files, inner));
    payload_keeps_conforming(files, inner, less);
}

proof fn payload_keeps_conforming(files: Seq<MessageV>, m: MessageV, left: nat)
    requires
        standard_any(files),
        conforms(files, m),
        with_payload(files, m, left) is Ok,
    ensures
        conforms(files, with_payload(files, m, left)->Ok_0),
        with_payload(files, m, left)->Ok_0.full_name == m.full_name,
{
    let n = with_payload(files, m, left)->Ok_0;
    if n != m {
        let t = message_type(files, any_name())->Some_0;
        let value = field_named(files, any_name(), "value"@)->Some_0;
        let f = m.fields;
        field_index_divides(f, 2);
        let p = field_index(f, 2) as int;
        reveal_with_fuel(crate::types::type_index, 3);
        assert(t.fields[0].number == 1 && t.fields[1].number == 2);
        assert(t.fields.drop_first()[0] == t.fields[1]);
        assert(numbered(t.fields, 2) == Some(value));
        assert forall|i: int| 0 <= i < f.len() implies (#[trigger] f[i]).0 == 1 || f[i].0 == 2 by {
            assert(numbered(t.fields, f[i].0) is Some);
            assert(t.fields.drop_first().drop_first().len() == 0);
        }
        let g = n.fields;
        if g.len() < f.len() {
            assert(g == f.remove(p));
            assert forall|i: int| 0 <= i < g.len() implies g[i] == f[if i < p {
                i
            } else {
                i + 1
            }] by {}
        }
        assert(fields_conform(files, t.fields, g));
    }
}

proof fn any_fields_keep_conforming(
    files: Seq<MessageV>,
    types: Seq<FieldTypeV>,
    f: Seq<(u32, DatumV)>,
    left: nat,
)
    requires
        standard_any(files),
        fields_conform(files, types, f),
        any_fields(files, f, f.len(), left) is Ok,
    ensures
        fields_conform(files, types, any_fields(files, f, f.len(), left)->Ok_0),
    decreases f, 1nat + f.len(),
{
    first_fields_keep_conforming(files, types, f, f.len(), left);
    let g = any_fields(files, f, f.len(), left)->Ok_0;
    assert forall|i: int, j: int| 0 <= i < j < g.len() implies g[i].0 < g[j].0 by {
        assert(g[i].0 == f[i].0 && g[j].0 == f[j].0);
    }
    assert forall|i: int, j: int|
        #![trigger g[i], g[j]]
        0 <= i < j < g.len() implies match (numbered(types, g[i].0), numbered(types, g[j].0)) {
        (Some(a), Some(b)) => a.oneof is None || a.oneof != b.oneof,
        _ => false,
    } by {
        assert(g[i].0 == f[i].0 && g[j].0 == f[j].0);
    }
}

/// Whether the first `n` fields have their numbers, and values that can stand there.
spec fn still_conform(
    files: Seq<MessageV>,
    types: Seq<FieldTypeV>,
    f: Seq<(u32, DatumV)>,
    g: Seq<(u32, DatumV)>,
    n: nat,
) -> bool {
    g.len() == n && forall|i: int|
        0 <= i < n ==> (#[trigger] g[i]).0 == f[i].0 && match numbered(types, g[i].0) {
            Some(t) => counts(t, g[i].1) && field_conforms(files, t, g[i].1),
            None => false,
        }
}

proof fn first_fields_keep_conforming(
    files: Seq<MessageV>,
    types: Seq<FieldTypeV>,
    f: Seq<(u32, DatumV)>,
    n: nat,
    left: nat,
)
    requires
        standard_any(files),
        fields_conform(files, types, f),
        n <= f.len(),
        any_fields(files, f, n, left) is Ok,
    ensures
        still_conform(files, types, f, any_fields(files, f, n, left)->Ok_0, n),
    decreases f, n,
{
    if n > 0 {
        first_fields_keep_conforming(files, types, f, (n - 1) as nat, left);
        let done = any_fields(files, f, (n - 1) as nat, left)->Ok_0;
        let g = any_fields(files, f, n, left)->Ok_0;
        let w = any_datum(files, f[n - 1].1, left)->Ok_0;
        assert(g == done.push((f[n - 1].0, w)));
        let t = numbered(types, f[n - 1].0)->Some_0;
        any_datum_keeps_conforming(files, t, f[n - 1].1, left);
        assert forall|i: int| 0 <= i < n implies (#[trigger] g[i]).0 == f[i].0 && match numbered(
            types,
            g[i].0,
        ) {
            Some(t) => counts(t, g[i].1) && field_conforms(files, t, g[i].1),
            None => false,
        } by {
            if i < n - 1 {
                assert(g[i] == done[i]);
            }
        }
    }
}

proof fn any_datum_keeps_conforming(files: Seq<MessageV>, t: FieldTypeV, v: DatumV, left: nat)
    requires
        standard_any(files),
        field_conforms(files, t, v),
        counts(t, v),
        any_datum(files, v, left) is Ok,
    ensures
        field_conforms(files, t, any_datum(files, v, left)->Ok_0),
        counts(t, any_datum(files, v, left)->Ok_0),
    decreases v, 1nat,
{
    match v {
        DatumV::List(l) => {
            any_list_keeps_conforming(files, t.kind, l, l.len(), left);
        },
        DatumV::Entries(e) => {
            let value = entry_types(files, t)->Some_0.1;
            any_entries_keep_conforming(files, value.kind, e, e.len(), left);
            let r = any_entries(files, e, e.len(), left)->Ok_0;
            assert forall|i: int, j: int| 0 <= i < j < r.len() implies r[i].0 != r[j].0 by {
                assert(r[i].0 == e[i].0 && r[j].0 == e[j].0);
            }
            assert forall|i: int, j: int|
                0 <= i < j < r.len() implies !crate::message::key_less(r[j].0, r[i].0) by {
                assert(r[i].0 == e[i].0 && r[j].0 == e[j].0);
            }
            assert forall|i: int|
                0 <= i < r.len() implies crate::types::key_conforms(
                entry_types(files, t)->Some_0.0.kind,
                (#[trigger] r[i]).0,
            ) by {
                assert(r[i].0 == e[i].0);
            }
        },
        _ => {
            any_kind_keeps_conforming(files, t.kind, v, left);
        },
    }
}

proof fn any_kind_keeps_conforming(files: Seq<MessageV>, kind: FieldKindV, v: DatumV, left: nat)
    requires
        standard_any(files),
        kind_conforms(files, kind, v),
        any_datum(files, v, left) is Ok,
    ensures
        kind_conforms(files, kind, any_datum(files, v, left)->Ok_0),
    decreases v, 0nat,
{
    if let DatumV::Message(m) = v {
        any_keeps_conforming(files, m, left);
    }
}

proof fn any_list_keeps_conforming(
    files: Seq<MessageV>,
    kind: FieldKindV,
    l: Seq<DatumV>,
    n: nat,
    left: nat,
)
    requires
        standard_any(files),
        forall|i: int| 0 <= i < l.len() ==> kind_conforms(files, kind, #[trigger] l[i]),
        n <= l.len(),
        any_list(files, l, n, left) is Ok,
    ensures
        any_list(files, l, n, left)->Ok_0.len() == n,
        forall|i: int|
            0 <= i < n ==> kind_conforms(
                files,
                kind,
                #[trigger] any_list(files, l, n, left)->Ok_0[i],
            ),
    decreases l, n,
{
    if n > 0 {
        any_list_keeps_conforming(files, kind, l, (n - 1) as nat, left);
        assert(kind_conforms(files, kind, l[n - 1]));
        any_kind_keeps_conforming(files, kind, l[n - 1], left);
    }
}

proof fn any_entries_keep_conforming(
    files: Seq<MessageV>,
    kind: FieldKindV,
    e: Seq<(KeyV, DatumV)>,
    n: nat,
    left: nat,
)
    requires
        standard_any(files),
        forall|i: int| 0 <= i < e.len() ==> kind_conforms(files, kind, (#[trigger] e[i]).1),
        n <= e.len(),
        any_entries(files, e, n, left) is Ok,
    ensures
        any_entries(files, e, n, left)->Ok_0.len() == n,
        forall|i: int|
            0 <= i < n ==> (#[trigger] any_entries(files, e, n, left)->Ok_0[i]).0 == e[i].0
                && kind_conforms(files, kind, any_entries(files, e, n, left)->Ok_0[i].1),
    decreases e, n,
{
    if n > 0 {
        any_entries_keep_conforming(files, kind, e, (n - 1) as nat, left);
        assert(kind_conforms(files, kind, e[n - 1].1));
        any_kind_keeps_conforming(files, kind, e[n - 1].1, left);
    }
}

} // verus!
