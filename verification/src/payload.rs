//! Payloads of `google.protobuf.Any`: the bytes of a message inside a message.
//!
//! ProtoJSON and text hold such a payload as a message, and the protobuf library turns it into
//! bytes with the entries of its maps in the order of a hash map. The library puts them in order,
//! so that the same input gives the same bytes. Bytes that a structural configuration gives stay
//! as they are.
use crate::error::CodecError;
use crate::groups::has_groups;
use crate::message::{find_field, put_field, remove_field, Datum, EntryKey, Message};
use crate::normalize::{expand, sort_maps};
use crate::pool::{
    build_pool, decode_wire, dynamic_of, encode_wire, field_by_name, find_type, message_of,
    pool_protos,
};
use crate::schema::normalize_files;
use crate::text::{after_last, text_eq};
use crate::types::FieldKind;
use crate::validate::validate;
use prost_reflect::{DescriptorPool, DynamicMessage};
use vstd::prelude::*;

verus! {

use crate::determinism::{any_fields_keep, same_payload_type, same_place};
use crate::error::Fault;
use crate::groups::grouped;
use crate::message::{
    field_index, field_value, fields_view, list_view, map_view, message_views, value_views, with_field,
    without_field, DatumV, KeyV, MessageV,
};
use crate::normalize::{expanded, sorted};
use crate::pool::{
    built, dynamic_contents, dynamic_files, field_named, message_type, pool_files, resolved_files,
    resolves, wire_bytes, wire_message,
};
use crate::schema::{messages_view, normalized_files, private_name};
use crate::sound::{private_copy_is_sound, sound};
use crate::text::{begins_with, last_part, optional_text};
use crate::validate::problem;
use crate::readback::{any_keeps_conforming, stands_for, without_maps, without_negative_zero};
use crate::types::{conforms, dotted, tidy};

/// The full name of the type that holds payloads.
pub open spec fn any_name() -> Seq<char> {
    "google.protobuf.Any"@
}

/// Whether the schema's `Any`, if it has one, is the well-known one: a text and bytes.
pub open spec fn standard_any(files: Seq<MessageV>) -> bool {
    match message_type(files, any_name()) {
        None => true,
        Some(t) => match (
            field_named(files, any_name(), "type_url"@),
            field_named(files, any_name(), "value"@),
        ) {
            (Some(url), Some(value)) => {
                &&& t.fields == seq![url, value]
                &&& url.number == 1 && url.kind is Text
                &&& value.number == 2 && value.kind is Bytes
                &&& !url.list && !url.map && url.oneof is None
                &&& !value.list && !value.map && value.oneof is None
                &&& !url.required && !value.required
            },
            _ => false,
        },
    }
}

/// The type URL of a message, where it has a text for one.
pub open spec fn type_url(files: Seq<MessageV>, m: MessageV) -> Option<Seq<char>> {
    match field_named(files, m.full_name, "type_url"@) {
        Some(t) => match field_value(m.fields, t.number) {
            Some(DatumV::Text(url)) => Some(url),
            Some(_) => None,
            None => if t.kind is Text && !t.list && !t.map {
                Some(Seq::empty())
            } else {
                None
            },
        },
        None => None,
    }
}

/// The number of the field that holds a payload and the type of the payload, in a message that
/// holds one of a type that the schema knows.
pub open spec fn payload_type(files: Seq<MessageV>, m: MessageV) -> Option<(u32, Seq<char>)> {
    if m.full_name == any_name() {
        match (type_url(files, m), field_named(files, m.full_name, "value"@)) {
            (Some(url), Some(value)) => if message_type(files, last_part(url, '/')) is Some {
                Some((value.number, last_part(url, '/')))
            } else {
                None
            },
            _ => None,
        }
    } else {
        None
    }
}

/// Whether two messages are the same but for payloads, to this depth of payloads in payloads,
/// that are different bytes for messages that are the same in this sense.
pub open spec fn related(files: Seq<MessageV>, a: MessageV, b: MessageV, depth: nat) -> bool
    decreases depth, a, 0nat,
{
    &&& a.full_name == b.full_name
    &&& a.unknown == b.unknown
    &&& related_fields(files, payload_type(files, a), a.fields, b.fields, depth)
    &&& related_fields(files, None, a.extensions, b.extensions, depth)
}

/// The same of fields.
pub open spec fn related_fields(
    files: Seq<MessageV>,
    payload: Option<(u32, Seq<char>)>,
    f: Seq<(u32, DatumV)>,
    g: Seq<(u32, DatumV)>,
    depth: nat,
) -> bool
    decreases depth, f, 0nat,
{
    &&& f.len() == g.len()
    &&& forall|i: int, j: int| 0 <= i < j < f.len() ==> f[i].0 != f[j].0
    &&& forall|i: int|
        0 <= i < f.len() ==> (#[trigger] f[i]).0 == g[i].0 && related_field(
            files,
            payload,
            f[i].0,
            f[i].1,
            g[i].1,
            depth,
        )
}

/// The same of the values of one field.
pub open spec fn related_field(
    files: Seq<MessageV>,
    payload: Option<(u32, Seq<char>)>,
    number: u32,
    v: DatumV,
    w: DatumV,
    depth: nat,
) -> bool
    decreases depth, v, 1nat,
{
    match (payload, v, w) {
        (Some((n, name)), DatumV::Bytes(x), DatumV::Bytes(y)) => x == y || (n == number && depth > 0
            && match (wire_message(files, name, x), wire_message(files, name, y)) {
            (Some(p), Some(q)) => related(files, p, q, (depth - 1) as nat),
            (None, None) => true,
            _ => false,
        }),
        _ => related_datum(files, v, w, depth),
    }
}

/// The same of values.
pub open spec fn related_datum(files: Seq<MessageV>, v: DatumV, w: DatumV, depth: nat) -> bool
    decreases depth, v, 0nat,
{
    match (v, w) {
        (DatumV::Message(a), DatumV::Message(b)) => related(files, a, b, depth),
        (DatumV::List(l), DatumV::List(k)) => l.len() == k.len() && forall|i: int|
            0 <= i < l.len() ==> related_datum(files, #[trigger] l[i], k[i], depth),
        (DatumV::Entries(e), DatumV::Entries(h)) => e.len() == h.len() && forall|i: int|
            0 <= i < e.len() ==> (#[trigger] e[i]).0 == h[i].0 && related_datum(
                files,
                e[i].1,
                h[i].1,
                depth,
            ),
        _ => v == w,
    }
}

/// Whether two messages are the same but for the order of entries in the bytes of payloads.
pub open spec fn same_payloads(files: Seq<MessageV>, a: MessageV, b: MessageV) -> bool {
    exists|depth: nat| related(files, a, b, depth)
}

/// Whether no part of a message can hold a payload.
pub open spec fn without_any(m: MessageV) -> bool
    decreases m,
{
    m.full_name != any_name() && fields_without_any(m.fields) && fields_without_any(m.extensions)
}

/// The same of fields.
pub open spec fn fields_without_any(f: Seq<(u32, DatumV)>) -> bool
    decreases f,
{
    forall|i: int| 0 <= i < f.len() ==> datum_without_any((#[trigger] f[i]).1)
}

/// The same of a value.
pub open spec fn datum_without_any(v: DatumV) -> bool
    decreases v,
{
    match v {
        DatumV::Message(m) => without_any(m),
        DatumV::List(l) => forall|i: int| 0 <= i < l.len() ==> datum_without_any(#[trigger] l[i]),
        DatumV::Entries(e) => forall|i: int|
            0 <= i < e.len() ==> datum_without_any((#[trigger] e[i]).1),
        _ => true,
    }
}

/// Whether no part of a message has fields that the schema does not know.
pub open spec fn without_unknown(m: MessageV) -> bool
    decreases m,
{
    m.unknown.len() == 0 && fields_without_unknown(m.fields) && fields_without_unknown(
        m.extensions,
    )
}

/// The same of fields.
pub open spec fn fields_without_unknown(f: Seq<(u32, DatumV)>) -> bool
    decreases f,
{
    forall|i: int| 0 <= i < f.len() ==> datum_without_unknown((#[trigger] f[i]).1)
}

/// The same of a value.
pub open spec fn datum_without_unknown(v: DatumV) -> bool
    decreases v,
{
    match v {
        DatumV::Message(m) => without_unknown(m),
        DatumV::List(l) => forall|i: int|
            0 <= i < l.len() ==> datum_without_unknown(#[trigger] l[i]),
        DatumV::Entries(e) => forall|i: int|
            0 <= i < e.len() ==> datum_without_unknown((#[trigger] e[i]).1),
        _ => true,
    }
}

/// The files of the private copy of a schema for ProtoJSON.
pub open spec fn private_files(files: Seq<MessageV>) -> Seq<MessageV> {
    normalized_files(resolved_files(files), false)
}

/// The message of the private copy that stands for a message: maps are lists, in order. There is
/// none where the schema has no private copy, the copy lacks the type, a value does not fit, or
/// the wire form of the message cannot be read: it is nested too deep, or has the entries of a map
/// that is declared as a group.
pub open spec fn normal_form(files: Seq<MessageV>, name: Seq<char>, m: MessageV) -> Result<
    MessageV,
    Fault,
> {
    let private = private_files(files);
    if !resolves(private) {
        Err(Fault::Unnormalized)
    } else if message_type(private, name) is None {
        Err(Fault::NormalizedMissing)
    } else {
        match built(private, sorted(files, name, expanded(files, m))) {
            None => Err(Fault::Unfit),
            Some(b) => if grouped(files, m) || wire_message(
                private,
                name,
                wire_bytes(private, b),
            ) is None {
                Err(Fault::Unreadable)
            } else {
                Ok(b)
            },
        }
    }
}

/// The wire bytes of the message of the private copy that stands for a message.
pub open spec fn normal_bytes(files: Seq<MessageV>, name: Seq<char>, m: MessageV) -> Result<
    Seq<u8>,
    Fault,
> {
    match normal_form(files, name, m) {
        Ok(b) => Ok(wire_bytes(private_files(files), b)),
        Err(e) => Err(e),
    }
}

/// The bytes of the payload of a message.
pub open spec fn payload_bytes(files: Seq<MessageV>, m: MessageV, number: u32) -> Option<Seq<u8>> {
    match field_value(m.fields, number) {
        Some(DatumV::Bytes(b)) => Some(b),
        Some(_) => None,
        None => match field_named(files, m.full_name, "value"@) {
            Some(t) => if t.kind is Bytes && !t.list && !t.map {
                Some(Seq::empty())
            } else {
                None
            },
            None => None,
        },
    }
}

/// The fields of a message with this payload. An empty payload is not set in a field without
/// presence.
pub open spec fn with_bytes(
    files: Seq<MessageV>,
    m: MessageV,
    number: u32,
    bytes: Seq<u8>,
) -> MessageV {
    let presence = match field_named(files, m.full_name, "value"@) {
        Some(t) => t.presence,
        None => true,
    };
    MessageV {
        fields: if bytes.len() == 0 && !presence {
            without_field(m.fields, number)
        } else {
            with_field(m.fields, number, DatumV::Bytes(bytes))
        },
        ..m
    }
}

/// The message with each payload in it replaced by the wire bytes of its normal form, `left`
/// levels of messages deep.
pub open spec fn any_normalized(files: Seq<MessageV>, m: MessageV, left: nat) -> Result<
    MessageV,
    Fault,
>
    decreases 2 * left, m, 0nat,
{
    if left == 0 {
        Err(Fault::AnyDepth)
    } else {
        match any_fields(files, m.fields, m.fields.len(), (left - 1) as nat) {
            Err(e) => Err(e),
            Ok(f) => match any_fields(files, m.extensions, m.extensions.len(), (left - 1) as nat) {
                Err(e) => Err(e),
                Ok(x) => with_payload(
                    files,
                    MessageV { fields: f, extensions: x, ..m },
                    (left - 1) as nat,
                ),
            },
        }
    }
}

/// The first `n` fields with each payload in them replaced.
pub open spec fn any_fields(files: Seq<MessageV>, f: Seq<(u32, DatumV)>, n: nat, left: nat) -> Result<
    Seq<(u32, DatumV)>,
    Fault,
>
    decreases 2 * left, f, n,
{
    if n == 0 || n > f.len() {
        Ok(Seq::empty())
    } else {
        match any_fields(files, f, (n - 1) as nat, left) {
            Err(e) => Err(e),
            Ok(done) => match any_datum(files, f[n - 1].1, left) {
                Err(e) => Err(e),
                Ok(v) => Ok(done.push((f[n - 1].0, v))),
            },
        }
    }
}

/// A value with each payload in it replaced.
pub open spec fn any_datum(files: Seq<MessageV>, v: DatumV, left: nat) -> Result<DatumV, Fault>
    decreases 2 * left, v, 0nat,
{
    match v {
        DatumV::Message(m) => match any_normalized(files, m, left) {
            Ok(r) => Ok(DatumV::Message(r)),
            Err(e) => Err(e),
        },
        DatumV::List(l) => match any_list(files, l, l.len(), left) {
            Ok(r) => Ok(DatumV::List(r)),
            Err(e) => Err(e),
        },
        DatumV::Entries(e) => match any_entries(files, e, e.len(), left) {
            Ok(r) => Ok(DatumV::Entries(r)),
            Err(e) => Err(e),
        },
        _ => Ok(v),
    }
}

/// The first `n` values of a list with each payload in them replaced.
pub open spec fn any_list(files: Seq<MessageV>, l: Seq<DatumV>, n: nat, left: nat) -> Result<
    Seq<DatumV>,
    Fault,
>
    decreases 2 * left, l, n,
{
    if n == 0 || n > l.len() {
        Ok(Seq::empty())
    } else {
        match any_list(files, l, (n - 1) as nat, left) {
            Err(e) => Err(e),
            Ok(done) => match any_datum(files, l[n - 1], left) {
                Err(e) => Err(e),
                Ok(v) => Ok(done.push(v)),
            },
        }
    }
}

/// The first `n` entries of a map with each payload in them replaced.
pub open spec fn any_entries(files: Seq<MessageV>, e: Seq<(KeyV, DatumV)>, n: nat, left: nat) -> Result<
    Seq<(KeyV, DatumV)>,
    Fault,
>
    decreases 2 * left, e, n,
{
    if n == 0 || n > e.len() {
        Ok(Seq::empty())
    } else {
        match any_entries(files, e, (n - 1) as nat, left) {
            Err(x) => Err(x),
            Ok(done) => match any_datum(files, e[n - 1].1, left) {
                Err(x) => Err(x),
                Ok(v) => Ok(done.push((e[n - 1].0, v))),
            },
        }
    }
}

/// The message with its own payload replaced, if it holds one of a type that the schema knows.
pub open spec fn with_payload(files: Seq<MessageV>, m: MessageV, left: nat) -> Result<
    MessageV,
    Fault,
>
    decreases 2 * left + 1, m, 0nat,
{
    match payload_type(files, m) {
        None => Ok(m),
        Some((number, name)) => match payload_bytes(files, m, number) {
            None => Ok(m),
            Some(bytes) => match wire_message(files, name, bytes) {
                None => Err(Fault::AnyPayload(name)),
                Some(p) => match problem(files, false, name, p) {
                    Some((path, rule)) => Err(Fault::Broken(path, rule)),
                    None => match any_normalized(files, p, left) {
                        Err(e) => Err(e),
                        Ok(q) => match normal_bytes(files, name, q) {
                            Err(e) => Err(e),
                            Ok(b) => Ok(with_bytes(files, m, number, b)),
                        },
                    },
                },
            },
        },
    }
}

/// Whether a payload can be read back from its normal form: the schema is one that the language can
/// declare, with the well-known `Any`, and the payload has no unknown fields, nor a negative zero in
/// a map.
pub open spec fn fit_to_read(
    files: Seq<MessageV>,
    name: Seq<char>,
    p: MessageV,
    q: MessageV,
) -> bool {
    standard_any(files) && resolves(files) && tidy(files) && !dotted(name) && without_unknown(p)
        && without_negative_zero(q)
}

/// Whether the normal form of a payload is read as what it was made of: the payload with the
/// payloads in it replaced.
pub open spec fn is_read_back(
    files: Seq<MessageV>,
    name: Seq<char>,
    p: MessageV,
    q: MessageV,
) -> bool {
    conforms(files, p) && wire_message(files, name, normal_bytes(files, name, q)->Ok_0) == Some(q)
}

/// Whether each payload in a message, and in the payloads in it, is fit to be read back; or else,
/// whether each that is fit is read back.
pub open spec fn each_payload(files: Seq<MessageV>, m: MessageV, left: nat, fit: bool) -> bool
    decreases 2 * left, m, 0nat,
{
    left > 0 && each_in_fields(files, m.fields, (left - 1) as nat, fit) && each_in_fields(
        files,
        m.extensions,
        (left - 1) as nat,
        fit,
    ) && each_held(files, m, (left - 1) as nat, fit)
}

/// The same of fields.
pub open spec fn each_in_fields(
    files: Seq<MessageV>,
    f: Seq<(u32, DatumV)>,
    left: nat,
    fit: bool,
) -> bool
    decreases 2 * left, f, 0nat,
{
    forall|i: int| 0 <= i < f.len() ==> each_in(files, (#[trigger] f[i]).1, left, fit)
}

/// The same of a value.
pub open spec fn each_in(files: Seq<MessageV>, v: DatumV, left: nat, fit: bool) -> bool
    decreases 2 * left, v, 0nat,
{
    match v {
        DatumV::Message(m) => each_payload(files, m, left, fit),
        DatumV::List(l) => forall|i: int|
            0 <= i < l.len() ==> each_in(files, #[trigger] l[i], left, fit),
        DatumV::Entries(e) => forall|i: int|
            0 <= i < e.len() ==> each_in(files, (#[trigger] e[i]).1, left, fit),
        _ => true,
    }
}

/// The same of the payload that a message holds itself.
pub open spec fn each_held(files: Seq<MessageV>, m: MessageV, left: nat, fit: bool) -> bool
    decreases 2 * left + 1, m, 0nat,
{
    match payload_type(files, m) {
        None => true,
        Some((number, name)) => match payload_bytes(files, m, number) {
            None => true,
            Some(bytes) => match wire_message(files, name, bytes) {
                None => true,
                Some(p) => each_payload(files, p, left, fit) && match any_normalized(
                    files,
                    p,
                    left,
                ) {
                    Ok(q) => if fit {
                        fit_to_read(files, name, p, q)
                    } else {
                        fit_to_read(files, name, p, q) ==> is_read_back(files, name, p, q)
                    },
                    Err(_) => true,
                },
            },
        },
    }
}

/// Replacing payloads inside a message does not change which payload it holds itself.
pub proof fn same_held(files: Seq<MessageV>, a: MessageV, c: MessageV, left: nat, fit: bool)
    requires
        a.full_name == c.full_name,
        a.fields.len() == c.fields.len(),
        forall|i: int|
            0 <= i < a.fields.len() ==> (#[trigger] c.fields[i]).0 == a.fields[i].0 && (
            a.fields[i].1 is Message <==> c.fields[i].1 is Message) && (a.fields[i].1 is List
                <==> c.fields[i].1 is List) && (a.fields[i].1 is Entries <==> c.fields[i].1
                is Entries) && (a.fields[i].1 is Message || a.fields[i].1 is List || a.fields[i].1
                is Entries || c.fields[i].1 == a.fields[i].1),
    ensures
        each_held(files, a, left, fit) == each_held(files, c, left, fit),
        payload_type(files, a) == payload_type(files, c),
{
    same_payload_type(files, a, c);
    if let Some((number, name)) = payload_type(files, a) {
        assert forall|i: int| 0 <= i < a.fields.len() implies (#[trigger] a.fields[i]).0
            == c.fields[i].0 by {
            assert(c.fields[i].0 == a.fields[i].0);
        }
        same_place(a.fields, c.fields, number);
        let i = field_index(a.fields, number) as int;
        if i < a.fields.len() {
            assert(c.fields[i].0 == a.fields[i].0);
        }
    }
}

/// Makes the private copy of a schema.
pub(crate) fn private_pool(pool: &DescriptorPool, structural: bool) -> (r: Result<
    DescriptorPool,
    String,
>)
    requires
        sound(pool_files(*pool)),
    ensures
        match r {
            Ok(p) => sound(pool_files(p)) && resolves(
                normalized_files(resolved_files(pool_files(*pool)), structural),
            ) && pool_files(p) == normalized_files(
                resolved_files(pool_files(*pool)),
                structural,
            ) && (resolves(pool_files(*pool)) && tidy(pool_files(*pool)) ==> tidy(pool_files(p)))
                && (structural ==> forall|name: Seq<char>|
                !dotted(name) && #[trigger] message_type(pool_files(p), name) is Some
                    ==> begins_with(name, private_name(Seq::empty()))),
            Err(_) => !resolves(normalized_files(resolved_files(pool_files(*pool)), structural)),
        },
{
    let files = pool_protos(pool);
    let copy = normalize_files(&files, structural);
    proof {
        private_copy_is_sound(messages_view(files@), structural);
    }
    build_pool(&copy)
}

/// Makes the message of the private copy that stands for a message, and its wire bytes.
pub(crate) fn normal_form_of(
    pool: &DescriptorPool,
    private: &Result<DescriptorPool, String>,
    name: &str,
    m: &Message,
) -> (r: Result<(DynamicMessage, Vec<u8>), CodecError>)
    requires
        is_private_copy(pool_files(*pool), *private),
    ensures
        match (r, normal_form(pool_files(*pool), name@, m@)) {
            (Ok((d, bytes)), Ok(b)) => dynamic_contents(d) == b && dynamic_files(d)
                == private_files(pool_files(*pool)) && sound(dynamic_files(d)) && normal_bytes(
                pool_files(*pool),
                name@,
                m@,
            ) == Ok::<Seq<u8>, Fault>(bytes@) && (resolves(pool_files(*pool)) && tidy(
                pool_files(*pool),
            ) && conforms(pool_files(*pool), m@) && without_negative_zero(m@) && m@.full_name == name@ ==> wire_message(
                pool_files(*pool),
                name@,
                bytes@,
            ) == Some(m@) && (without_maps(m@) ==> bytes@ == wire_bytes(pool_files(*pool), m@))),
            (Err(e), Err(f)) => e@ == f,
            _ => false,
        },
{
    let ghost files = pool_files(*pool);
    let private = match private {
        Ok(p) => p,
        Err(e) => {
            return Err(CodecError::Unnormalized(e.clone()));
        },
    };
    if find_type(private, name).is_none() {
        return Err(CodecError::NormalizedMissing);
    }
    let wide = expand(pool, m);
    let ordered = sort_maps(pool, name, &wide);
    let d = match dynamic_of(private, &ordered) {
        Some(d) => d,
        None => {
            return Err(CodecError::Unfit);
        },
    };
    proof {
        assert(private_files(files) == normalized_files(resolved_files(files), false));
    }
    if has_groups(pool, m) {
        return Err(
            CodecError::Unreadable(
                "invalid wire type: LengthDelimited (expected StartGroup)".to_owned(),
            ),
        );
    }
    let bytes = encode_wire(&d);
    proof {
        if conforms(files, m@) && without_negative_zero(m@) && m@.full_name == name@ {
            assert(stands_for(files, m@, dynamic_files(d), dynamic_contents(d)));
        }
    }
    match decode_wire(private, name, bytes.as_slice()) {
        Ok(_) => Ok((d, bytes)),
        Err(e) => Err(CodecError::Unreadable(e)),
    }
}

proof fn any_fields_stop(files: Seq<MessageV>, f: Seq<(u32, DatumV)>, k: nat, n: nat, left: nat)
    requires
        k <= n <= f.len(),
        any_fields(files, f, k, left) is Err,
    ensures
        any_fields(files, f, n, left) == any_fields(files, f, k, left),
    decreases n,
{
    if k < n {
        any_fields_stop(files, f, k, (n - 1) as nat, left);
    }
}

proof fn any_list_stop(files: Seq<MessageV>, l: Seq<DatumV>, k: nat, n: nat, left: nat)
    requires
        k <= n <= l.len(),
        any_list(files, l, k, left) is Err,
    ensures
        any_list(files, l, n, left) == any_list(files, l, k, left),
    decreases n,
{
    if k < n {
        any_list_stop(files, l, k, (n - 1) as nat, left);
    }
}

proof fn any_entries_stop(files: Seq<MessageV>, e: Seq<(KeyV, DatumV)>, k: nat, n: nat, left: nat)
    requires
        k <= n <= e.len(),
        any_entries(files, e, k, left) is Err,
    ensures
        any_entries(files, e, n, left) == any_entries(files, e, k, left),
    decreases n,
{
    if k < n {
        any_entries_stop(files, e, k, (n - 1) as nat, left);
    }
}

/// Whether what came of making the private copy of a sound schema is what the schema says.
pub open spec fn is_private_copy(
    files: Seq<MessageV>,
    private: Result<DescriptorPool, String>,
) -> bool {
    sound(files) && match private {
        Ok(p) => resolves(private_files(files)) && pool_files(p) == private_files(files) && sound(
            pool_files(p),
        ),
        Err(_) => !resolves(private_files(files)),
    }
}

/// Replaces each payload in a message by the wire bytes of its normal form.
pub(crate) fn normalize_any_payloads(
    pool: &DescriptorPool,
    private: &Result<DescriptorPool, String>,
    m: &Message,
    left: usize,
) -> (r: Result<Message, CodecError>)
    requires
        is_private_copy(pool_files(*pool), *private),
    ensures
        match (r, any_normalized(pool_files(*pool), m@, left as nat)) {
            (Ok(n), Ok(v)) => n@ == v,
            (Err(e), Err(f)) => e@ == f,
            _ => false,
        },
        r is Ok ==> each_payload(pool_files(*pool), m@, left as nat, false),
    decreases 2 * left, m, 0nat,
{
    broadcast use message_views;

    if left == 0 {
        return Err(CodecError::AnyDepth);
    }
    let fields = match normalize_any_fields(pool, private, &m.fields, left - 1) {
        Ok(f) => f,
        Err(e) => {
            return Err(e);
        },
    };
    let extensions = match normalize_any_fields(pool, private, &m.extensions, left - 1) {
        Ok(f) => f,
        Err(e) => {
            return Err(e);
        },
    };
    let rest = m.copy();
    let inner = Message { full_name: rest.full_name, fields, extensions, unknown: rest.unknown };
    proof {
        let files = pool_files(*pool);
        any_fields_keep(files, m@.fields, m@.fields.len(), (left - 1) as nat);
        same_held(files, m@, inner@, (left - 1) as nat, false);
    }
    normalize_payload(pool, private, inner, left - 1)
}

fn normalize_any_fields(
    pool: &DescriptorPool,
    private: &Result<DescriptorPool, String>,
    f: &Vec<(u32, Datum)>,
    left: usize,
) -> (r: Result<Vec<(u32, Datum)>, CodecError>)
    requires
        is_private_copy(pool_files(*pool), *private),
    ensures
        match (r, any_fields(pool_files(*pool), fields_view(f@), f@.len(), left as nat)) {
            (Ok(g), Ok(v)) => fields_view(g@) == v,
            (Err(e), Err(x)) => e@ == x,
            _ => false,
        },
        r is Ok ==> each_in_fields(pool_files(*pool), fields_view(f@), left as nat, false),
    decreases 2 * left, f, 0nat,
{
    let ghost files = pool_files(*pool);
    let ghost fv = fields_view(f@);
    let mut out: Vec<(u32, Datum)> = Vec::new();
    assert(fields_view(out@) =~= Seq::empty());
    let mut i: usize = 0;
    while i < f.len()
        invariant
            i <= f@.len(),
            files == pool_files(*pool),
            is_private_copy(files, *private),
            fv == fields_view(f@),
            forall|k: int|
                0 <= k < i ==> each_in(files, (#[trigger] fv[k]).1, left as nat, false),
            any_fields(files, fv, i as nat, left as nat) == Ok::<Seq<(u32, DatumV)>, Fault>(
                fields_view(out@),
            ),
        decreases f@.len() - i,
    {
        assert(fv[i as int] == (f@[i as int].0, f@[i as int].1@));
        let v = match normalize_any_datum(pool, private, &f[i].1, left) {
            Ok(v) => v,
            Err(e) => {
                proof {
                    any_fields_stop(files, fv, (i + 1) as nat, fv.len(), left as nat);
                }
                return Err(e);
            },
        };
        let ghost before = fields_view(out@);
        let ghost pair = (f@[i as int].0, v@);
        out.push((f[i].0, v));
        assert(fields_view(out@) =~= before.push(pair));
        i += 1;
    }
    Ok(out)
}

fn normalize_any_datum(
    pool: &DescriptorPool,
    private: &Result<DescriptorPool, String>,
    v: &Datum,
    left: usize,
) -> (r: Result<Datum, CodecError>)
    requires
        is_private_copy(pool_files(*pool), *private),
    ensures
        match (r, any_datum(pool_files(*pool), v@, left as nat)) {
            (Ok(w), Ok(x)) => w@ == x,
            (Err(e), Err(x)) => e@ == x,
            _ => false,
        },
        r is Ok ==> each_in(pool_files(*pool), v@, left as nat, false),
    decreases 2 * left, v, 0nat,
{
    broadcast use value_views;

    let ghost files = pool_files(*pool);
    match v {
        Datum::Message(m) => match normalize_any_payloads(pool, private, m, left) {
            Ok(r) => Ok(Datum::Message(r)),
            Err(e) => Err(e),
        },
        Datum::List(l) => {
            let ghost lv = list_view(l@);
            let mut out: Vec<Datum> = Vec::new();
            assert(list_view(out@) =~= Seq::empty());
            let mut i: usize = 0;
            while i < l.len()
                invariant
                    decreases_to!(v => l),
                    i <= l@.len(),
                    files == pool_files(*pool),
                    is_private_copy(files, *private),
                    lv == list_view(l@),
                    v@ == DatumV::List(lv),
                    forall|k: int|
                        0 <= k < i ==> each_in(files, #[trigger] lv[k], left as nat, false),
                    any_list(files, lv, i as nat, left as nat) == Ok::<Seq<DatumV>, Fault>(
                        list_view(out@),
                    ),
                decreases l@.len() - i,
            {
                assert(lv[i as int] == l@[i as int]@);
                let item = match normalize_any_datum(pool, private, &l[i], left) {
                    Ok(item) => item,
                    Err(e) => {
                        proof {
                            any_list_stop(files, lv, (i + 1) as nat, lv.len(), left as nat);
                        }
                        return Err(e);
                    },
                };
                let ghost before = list_view(out@);
                let ghost iv = item@;
                out.push(item);
                assert(list_view(out@) =~= before.push(iv));
                i += 1;
            }
            Ok(Datum::List(out))
        },
        Datum::Entries(entries) => {
            let ghost ev = map_view(entries@);
            let mut out: Vec<(EntryKey, Datum)> = Vec::new();
            assert(map_view(out@) =~= Seq::empty());
            let mut i: usize = 0;
            while i < entries.len()
                invariant
                    decreases_to!(v => entries),
                    i <= entries@.len(),
                    files == pool_files(*pool),
                    is_private_copy(files, *private),
                    ev == map_view(entries@),
                    v@ == DatumV::Entries(ev),
                    forall|k: int|
                        0 <= k < i ==> each_in(files, (#[trigger] ev[k]).1, left as nat, false),
                    any_entries(files, ev, i as nat, left as nat) == Ok::<
                        Seq<(KeyV, DatumV)>,
                        Fault,
                    >(map_view(out@)),
                decreases entries@.len() - i,
            {
                assert(ev[i as int] == (entries@[i as int].0@, entries@[i as int].1@));
                let item = match normalize_any_datum(pool, private, &entries[i].1, left) {
                    Ok(item) => item,
                    Err(e) => {
                        proof {
                            any_entries_stop(files, ev, (i + 1) as nat, ev.len(), left as nat);
                        }
                        return Err(e);
                    },
                };
                let ghost before = map_view(out@);
                let key = entries[i].0.copy();
                let ghost pair = (key@, item@);
                out.push((key, item));
                assert(map_view(out@) =~= before.push(pair));
                i += 1;
            }
            Ok(Datum::Entries(out))
        },
        other => Ok(other.copy()),
    }
}

fn type_url_of(pool: &DescriptorPool, m: &Message) -> (r: Option<String>)
    ensures
        optional_text(r) == type_url(pool_files(*pool), m@),
{
    broadcast use message_views;

    let t = match field_by_name(pool, m.full_name.as_str(), "type_url") {
        Some(t) => t,
        None => {
            return None;
        },
    };
    let i = find_field(&m.fields, t.number);
    if i < m.fields.len() {
        match &m.fields[i].1 {
            Datum::Text(url) => Some(url.clone()),
            _ => None,
        }
    } else if let FieldKind::Text = &t.kind {
        if !t.list && !t.map {
            let empty = String::new();
            assert(empty@ =~= Seq::empty());
            Some(empty)
        } else {
            None
        }
    } else {
        None
    }
}

/// Replaces the payload of a message by the wire bytes of its normal form.
fn normalize_payload(
    pool: &DescriptorPool,
    private: &Result<DescriptorPool, String>,
    m: Message,
    left: usize,
) -> (r: Result<Message, CodecError>)
    requires
        is_private_copy(pool_files(*pool), *private),
    ensures
        match (r, with_payload(pool_files(*pool), m@, left as nat)) {
            (Ok(n), Ok(v)) => n@ == v,
            (Err(e), Err(f)) => e@ == f,
            _ => false,
        },
        r is Ok ==> each_held(pool_files(*pool), m@, left as nat, false),
    decreases 2 * left + 1, m, 0nat,
{
    broadcast use message_views;

    let ghost files = pool_files(*pool);
    if !text_eq(m.full_name.as_str(), "google.protobuf.Any") {
        return Ok(m);
    }
    let url = match type_url_of(pool, &m) {
        Some(url) => url,
        None => {
            return Ok(m);
        },
    };
    let value = match field_by_name(pool, m.full_name.as_str(), "value") {
        Some(t) => t,
        None => {
            return Ok(m);
        },
    };
    let name = after_last(url.as_str(), '/');
    if find_type(pool, name.as_str()).is_none() {
        return Ok(m);
    }
    assert(payload_type(files, m@) == Some((value.number, name@)));
    let i = find_field(&m.fields, value.number);
    let d = if i < m.fields.len() {
        match &m.fields[i].1 {
            Datum::Bytes(b) => {
                assert(payload_bytes(files, m@, value.number) == Some(b@));
                decode_wire(pool, name.as_str(), b.as_slice())
            },
            _ => {
                return Ok(m);
            },
        }
    } else if let FieldKind::Bytes = &value.kind {
        if value.list || value.map {
            return Ok(m);
        }
        let empty: Vec<u8> = Vec::new();
        assert(empty@ =~= Seq::empty());
        assert(payload_bytes(files, m@, value.number) == Some(empty@));
        decode_wire(pool, name.as_str(), empty.as_slice())
    } else {
        return Ok(m);
    };
    let payload = match d {
        Ok(d) => message_of(&d).canonical(),
        Err(e) => {
            return Err(CodecError::AnyPayload(name, e));
        },
    };
    if let Err(e) = validate(pool, false, name.as_str(), &payload) {
        return Err(e);
    }
    let inner = match normalize_any_payloads(pool, private, &payload, left) {
        Ok(inner) => inner,
        Err(e) => {
            return Err(e);
        },
    };
    proof {
        if fit_to_read(files, name@, payload@, inner@) {
            any_keeps_conforming(files, payload@, left as nat);
        }
    }
    let bytes = match normal_form_of(pool, private, name.as_str(), &inner) {
        Ok(x) => x.1,
        Err(e) => {
            return Err(e);
        },
    };
    let mut out = m;
    let ghost before = out@;
    if bytes.len() == 0 && !value.presence {
        remove_field(&mut out.fields, value.number);
    } else {
        let datum = Datum::Bytes(bytes);
        assert(datum@ == DatumV::Bytes(bytes@));
        put_field(&mut out.fields, value.number, datum);
    }
    assert(out@ == with_bytes(files, before, value.number, bytes@));
    Ok(out)
}

} // verus!
