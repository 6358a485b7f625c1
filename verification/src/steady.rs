//! JSON that is read in one way: the protobuf library puts the members of an `Any` that come before
//! its type by, and reads them in no order of its own.
use vstd::prelude::*;

verus! {

use crate::json::JsonV;
use crate::message::MessageV;
use crate::payload::standard_any;
use crate::pool::message_type;
use crate::readback::identifier;
use crate::types::MessageTypeV;

/// Whether in each object at most one member comes before the type of a payload.
pub open spec fn types_come_first(v: JsonV) -> bool
    decreases v,
{
    match v {
        JsonV::Array(a) => forall|i: int| 0 <= i < a.len() ==> types_come_first(#[trigger] a[i]),
        JsonV::Object(o) => forall|i: int|
            0 <= i < o.len() ==> types_come_first((#[trigger] o[i]).1) && (i > 1 ==> o[i].0
                != "@type"@),
        _ => true,
    }
}

/// Whether the names of all fields of a type are identifiers, which come behind `@type`.
pub open spec fn fields_are_identifiers(t: MessageTypeV) -> bool {
    forall|i: int| 0 <= i < t.fields.len() ==> identifier((#[trigger] t.fields[i]).name)
}

/// The same of all types of a schema.
pub open spec fn names_are_identifiers(files: Seq<MessageV>) -> bool {
    forall|name: Seq<char>|
        (#[trigger] message_type(files, name)) is Some ==> fields_are_identifiers(
            message_type(files, name)->Some_0,
        )
}

/// Whether payloads in JSON are read in one way. No compiler makes a schema in which they are not:
/// either its `Any` is declared in a way of its own, or a field has a name that is no identifier.
pub open spec fn steady(files: Seq<MessageV>, value: JsonV) -> bool {
    standard_any(files) && (names_are_identifiers(files) || types_come_first(value))
}

} // verus!
