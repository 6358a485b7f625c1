//! What the text of a message says: which messages are read from their text as they were.
use vstd::prelude::*;

verus! {

use crate::message::{DatumV, MessageV};
use crate::payload::{any_name, payload_bytes, payload_type, same_payloads, type_url, without_any};
use crate::pool::{field_named, text_message, wire_message};
use crate::readback::{datum_plain_text, identifier, without_negative_zero};
use crate::types::{numbered, FieldTypeV};
use crate::validate::extensions_of;

/// Whether a name consists of plain identifiers with dots between them.
pub open spec fn dotted_identifier(s: Seq<char>) -> bool
    decreases s.len(),
{
    identifier(s) || exists|k: int|
        0 <= k < s.len() && #[trigger] s[k] == '.' && identifier(s.take(k)) && dotted_identifier(
            s.skip(k + 1),
        )
}

/// Whether a type URL is a host and the name of a type, both of them plain.
pub open spec fn plain_url(url: Seq<char>) -> bool {
    exists|k: int|
        0 <= k < url.len() && #[trigger] url[k] == '/' && dotted_identifier(url.take(k))
            && dotted_identifier(url.skip(k + 1))
}

/// Whether the text of a message of a private copy says all that it holds: it has no unknown
/// fields, its extensions have plain names, and so have the types of its payloads, whose text says
/// all as well. Floats of single precision are left out, which are read through double precision
/// and may come out rounded otherwise. `depth` is how many payloads are in payloads.
pub open spec fn says_all(
    files: Seq<MessageV>,
    private: Seq<MessageV>,
    m: MessageV,
    depth: nat,
) -> bool
    decreases depth, m, 0nat,
{
    &&& m.unknown.len() == 0
    &&& fields_say_all(files, private, m.fields, depth)
    &&& fields_say_all(files, private, m.extensions, depth)
    &&& extensions_plain(extensions_of(files, m.full_name), m.extensions)
    &&& m.full_name == any_name() ==> match payload_type(files, m) {
        None => true,
        Some((number, name)) => {
            let bytes = payload_bytes(files, m, number);
            &&& m.extensions.len() == 0
            &&& value_without_presence(files)
            &&& type_url(files, m) is Some && plain_url(type_url(files, m)->Some_0)
            &&& bytes is Some
            &&& depth > 0
            &&& match (
                wire_message(private, name, bytes->Some_0),
                wire_message(files, name, bytes->Some_0),
            ) {
                (Some(body), Some(p)) => {
                    &&& says_all(files, private, body, (depth - 1) as nat)
                    &&& without_negative_zero(p)
                    &&& bytes->Some_0.len() > 0 ==> body.fields.len() + body.extensions.len() > 0
                },
                (Some(_), None) => false,
                (None, _) => true,
            }
        },
    }
}

/// Whether an empty payload of an `Any` counts as none.
pub open spec fn value_without_presence(files: Seq<MessageV>) -> bool {
    match field_named(files, any_name(), "value"@) {
        Some(t) => !t.presence,
        None => false,
    }
}

/// Whether the extensions that are set have plain names.
pub open spec fn extensions_plain(types: Seq<FieldTypeV>, f: Seq<(u32, DatumV)>) -> bool {
    forall|i: int|
        0 <= i < f.len() ==> match numbered(types, (#[trigger] f[i]).0) {
            Some(t) => dotted_identifier(t.name),
            None => false,
        }
}

/// The same of fields.
pub open spec fn fields_say_all(
    files: Seq<MessageV>,
    private: Seq<MessageV>,
    f: Seq<(u32, DatumV)>,
    depth: nat,
) -> bool
    decreases depth, f, 0nat,
{
    forall|i: int| 0 <= i < f.len() ==> value_says_all(files, private, (#[trigger] f[i]).1, depth)
}

/// The same of a value.
pub open spec fn value_says_all(
    files: Seq<MessageV>,
    private: Seq<MessageV>,
    v: DatumV,
    depth: nat,
) -> bool
    decreases depth, v, 0nat,
{
    match v {
        DatumV::Message(m) => says_all(files, private, m, depth),
        DatumV::List(l) => forall|i: int|
            0 <= i < l.len() ==> value_says_all(files, private, #[trigger] l[i], depth),
        DatumV::Entries(_) => false,
        _ => datum_plain_text(v),
    }
}

/// The same, however many payloads are in payloads.
pub open spec fn text_says_all(files: Seq<MessageV>, private: Seq<MessageV>, m: MessageV) -> bool {
    exists|depth: nat| says_all(files, private, m, depth)
}

/// Whether text is read as a message, but for the order of entries in the bytes of its payloads.
pub open spec fn text_reads_as(
    files: Seq<MessageV>,
    name: Seq<char>,
    text: Seq<char>,
    m: MessageV,
) -> bool {
    match text_message(files, name, text) {
        Some(x) => same_payloads(files, x, m) && (without_any(m) ==> x == m),
        None => false,
    }
}

} // verus!
