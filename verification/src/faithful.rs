//! Which messages ProtoJSON says all of, so that they can be read from it again.
use vstd::prelude::*;

verus! {

use crate::equality::is_nan;
use crate::json::JsonV;
use crate::message::{field_value, DatumV, MessageV, Scalar};
use crate::payload::{any_name, datum_without_any, fields_without_any, without_any};
use crate::pool::{field_json_named, field_named, json_message, message_type};
use crate::schema::{FILE_MESSAGE, FILE_PACKAGE, MESSAGE_FIELD};
use crate::sound::{values_in, ENUM_NAME, FIELD_KIND, MESSAGE_NAME};
use crate::types::{conforms, tidy, FieldKindV, MessageTypeV};
use crate::validate::{duration_problem, finite, timestamp_problem};

/// The enums of a file.
pub const FILE_ENUM: u32 = 5;

/// Whether a value describes an enum of this name.
pub open spec fn is_enum(v: DatumV, name: Seq<char>) -> bool {
    match v {
        DatumV::Message(m) => field_value(m.fields, ENUM_NAME) == Some(DatumV::Text(name)),
        _ => false,
    }
}

/// Whether a file declares `google.protobuf.NullValue` in its package.
pub open spec fn declares_null(f: MessageV) -> bool {
    field_value(f.fields, FILE_PACKAGE) == Some(DatumV::Text("google.protobuf"@)) && exists|i: int|
        0 <= i < values_in(f, FILE_ENUM).len() && is_enum(
            #[trigger] values_in(f, FILE_ENUM)[i],
            "NullValue"@,
        )
}

/// Whether no enum of a schema is `google.protobuf.NullValue`, which is shown as null whatever its
/// number.
pub open spec fn no_null_enum(files: Seq<MessageV>) -> bool {
    message_type(files, "google.protobuf"@) is None && forall|i: int|
        0 <= i < files.len() ==> !declares_null(#[trigger] files[i])
}

/// Whether the fields of a type are found by their names, and its extensions by theirs: none has
/// the JSON name of another.
pub open spec fn found_by_name(files: Seq<MessageV>, name: Seq<char>, t: MessageTypeV) -> bool {
    &&& forall|i: int|
        0 <= i < t.fields.len() ==> match field_json_named(
            files,
            name,
            (#[trigger] t.fields[i]).name,
        ) {
            Some(u) => u.number == t.fields[i].number,
            None => true,
        }
    &&& forall|i: int|
        0 <= i < t.extensions.len() ==> {
            let shown = "["@ + (#[trigger] t.extensions[i]).name + "]"@;
            field_json_named(files, name, shown) is None && field_named(files, name, shown) is None
        }
}

/// The same of all types of a schema.
pub open spec fn all_found_by_name(files: Seq<MessageV>) -> bool {
    forall|name: Seq<char>|
        (#[trigger] message_type(files, name)) is Some ==> found_by_name(
            files,
            name,
            message_type(files, name)->Some_0,
        )
}

/// The kind of the value that a well-known type wraps. Those of single precision are left out.
pub open spec fn wrapped(name: Seq<char>) -> Option<FieldKindV> {
    if name == "google.protobuf.BoolValue"@ {
        Some(FieldKindV::Scalar(Scalar::Bool(false)))
    } else if name == "google.protobuf.Int32Value"@ {
        Some(FieldKindV::Scalar(Scalar::I32(0)))
    } else if name == "google.protobuf.Int64Value"@ {
        Some(FieldKindV::Scalar(Scalar::I64(0)))
    } else if name == "google.protobuf.UInt32Value"@ {
        Some(FieldKindV::Scalar(Scalar::U32(0)))
    } else if name == "google.protobuf.UInt64Value"@ {
        Some(FieldKindV::Scalar(Scalar::U64(0)))
    } else if name == "google.protobuf.DoubleValue"@ {
        Some(FieldKindV::Scalar(Scalar::F64(0)))
    } else if name == "google.protobuf.StringValue"@ {
        Some(FieldKindV::Text)
    } else if name == "google.protobuf.BytesValue"@ {
        Some(FieldKindV::Bytes)
    } else {
        None
    }
}

/// Whether a type has one field, which holds a value of this kind.
pub open spec fn wraps(t: MessageTypeV, kind: FieldKindV) -> bool {
    &&& t.extensions.len() == 0
    &&& t.fields.len() == 1
    &&& t.fields[0].number == 1
    &&& t.fields[0].kind == kind
    &&& !t.fields[0].list
    &&& !t.fields[0].map
    &&& !t.fields[0].presence
    &&& t.fields[0].oneof is None
}

/// Whether a type has two fields, for seconds and nanos.
pub open spec fn holds_seconds_and_nanos(t: MessageTypeV) -> bool {
    &&& t.extensions.len() == 0
    &&& t.fields.len() == 2
    &&& t.fields[0].number == 1
    &&& t.fields[0].kind == FieldKindV::Scalar(Scalar::I64(0))
    &&& t.fields[1].number == 2
    &&& t.fields[1].kind == FieldKindV::Scalar(Scalar::I32(0))
    &&& forall|i: int|
        0 <= i < 2 ==> !(#[trigger] t.fields[i]).list && !t.fields[i].map && !t.fields[i].presence
            && t.fields[i].oneof is None
}

/// Whether a value describes a field that is a plain integer, of type `int64` or `int32`.
pub open spec fn is_plain_integer(v: DatumV) -> bool {
    match v {
        DatumV::Message(f) => {
            let kind = field_value(f.fields, FIELD_KIND);
            kind == Some(DatumV::Scalar(Scalar::Enum(3))) || kind == Some(
                DatumV::Scalar(Scalar::Enum(5)),
            )
        },
        _ => false,
    }
}

/// Whether a value describes a message of this name whose fields are plain integers.
pub open spec fn is_of_integers(v: DatumV, name: Seq<char>) -> bool {
    match v {
        DatumV::Message(m) => field_value(m.fields, MESSAGE_NAME) == Some(DatumV::Text(name))
            && forall|i: int|
            0 <= i < values_in(m, MESSAGE_FIELD).len() ==> is_plain_integer(
                #[trigger] values_in(m, MESSAGE_FIELD)[i],
            ),
        _ => false,
    }
}

/// Whether a file declares a well-known type with plain integers for its fields.
pub open spec fn declares_integers(f: MessageV, name: Seq<char>) -> bool {
    field_value(f.fields, FILE_PACKAGE) == Some(DatumV::Text("google.protobuf"@)) && exists|i: int|
        0 <= i < values_in(f, FILE_MESSAGE).len() && is_of_integers(
            #[trigger] values_in(f, FILE_MESSAGE)[i],
            name,
        )
}

/// Whether a schema declares a well-known type with plain integers for its fields.
pub open spec fn has_integers(files: Seq<MessageV>, name: Seq<char>) -> bool {
    exists|i: int| 0 <= i < files.len() && declares_integers(#[trigger] files[i], name)
}

/// Whether a path of a field mask can be read from the form in which it is shown, where commas part
/// the paths, and a capital letter stands for an underscore and the small letter behind it.
pub open spec fn plain_path(path: Seq<char>) -> bool {
    path.len() > 0 && forall|i: int|
        0 <= i < path.len() ==> #[trigger] path[i] != ',' && (path[i] == '_' ==> i + 1 < path.len()
            && 'a' <= path[i + 1] <= 'z')
}

/// Whether a message is a mask of such paths.
pub open spec fn plain_mask(t: MessageTypeV, m: MessageV) -> bool {
    &&& t.extensions.len() == 0
    &&& t.fields.len() == 1
    &&& t.fields[0].number == 1
    &&& t.fields[0].kind is Text
    &&& t.fields[0].list
    &&& forall|i: int|
        0 <= i < values_in(m, 1).len() ==> match #[trigger] values_in(m, 1)[i] {
            DatumV::Text(path) => plain_path(path),
            _ => false,
        }
}

/// Whether a value is a message of this type.
pub open spec fn is_message(v: DatumV, name: Seq<char>) -> bool {
    match v {
        DatumV::Message(m) => m.full_name == name,
        _ => false,
    }
}

/// Whether a message holds a JSON value: null, a number, text, a boolean, an object or an array.
pub open spec fn plain_value(m: MessageV) -> bool {
    m.fields.len() == 1 && match (m.fields[0].0, m.fields[0].1) {
        (1, DatumV::Scalar(Scalar::Enum(n))) => n == 0,
        (2, DatumV::Scalar(Scalar::F64(bits))) => finite(bits),
        (3, DatumV::Text(_)) => true,
        (4, DatumV::Scalar(Scalar::Bool(_))) => true,
        (5, v) => is_message(v, "google.protobuf.Struct"@),
        (6, v) => is_message(v, "google.protobuf.ListValue"@),
        _ => false,
    }
}

/// Whether a message holds a JSON object.
pub open spec fn plain_struct(m: MessageV) -> bool {
    m.fields.len() == 0 || (m.fields.len() == 1 && m.fields[0].0 == 1 && match m.fields[0].1 {
        DatumV::Entries(e) => forall|i: int|
            0 <= i < e.len() ==> (#[trigger] e[i]).0 is Text && is_message(
                e[i].1,
                "google.protobuf.Value"@,
            ),
        _ => false,
    })
}

/// Whether a message holds a JSON array.
pub open spec fn plain_list(m: MessageV) -> bool {
    m.fields.len() == 0 || (m.fields.len() == 1 && m.fields[0].0 == 1 && match m.fields[0].1 {
        DatumV::List(l) => forall|i: int|
            0 <= i < l.len() ==> is_message(#[trigger] l[i], "google.protobuf.Value"@),
        _ => false,
    })
}

/// Whether a message, but for the messages in it, is shown in a form from which it is read again:
/// by its fields or, where its type is well known, in the form of this type.
pub open spec fn shown_in_full(files: Seq<MessageV>, m: MessageV) -> bool {
    let name = m.full_name;
    match message_type(files, name) {
        None => false,
        Some(t) => if wrapped(name) is Some {
            wraps(t, wrapped(name)->Some_0) && forall|i: int|
                0 <= i < m.fields.len() ==> !infinite((#[trigger] m.fields[i]).1)
        } else if name == "google.protobuf.Empty"@ {
            t.fields.len() == 0 && t.extensions.len() == 0
        } else if name == "google.protobuf.Timestamp"@ {
            holds_seconds_and_nanos(t) && has_integers(files, "Timestamp"@) && timestamp_problem(m)
                is None
        } else if name == "google.protobuf.Duration"@ {
            holds_seconds_and_nanos(t) && has_integers(files, "Duration"@) && duration_problem(m)
                is None
        } else if name == "google.protobuf.FieldMask"@ {
            plain_mask(t, m)
        } else if name == "google.protobuf.Value"@ {
            t.extensions.len() == 0 && plain_value(m)
        } else if name == "google.protobuf.Struct"@ {
            t.extensions.len() == 0 && plain_struct(m)
        } else if name == "google.protobuf.ListValue"@ {
            t.extensions.len() == 0 && plain_list(m)
        } else {
            name != "google.protobuf.FloatValue"@ && name != any_name()
        },
    }
}

/// Whether a value is a number that is no JSON number.
pub open spec fn infinite(v: DatumV) -> bool {
    v == DatumV::Scalar(Scalar::F64(0x7ff0_0000_0000_0000)) || v == DatumV::Scalar(
        Scalar::F64(0xfff0_0000_0000_0000),
    )
}

/// Whether ProtoJSON says all that a message holds. Left out are floats of single precision, which
/// are read through double precision, NaN, which has many forms, and payloads. Well-known types
/// have to be declared as they are read.
pub open spec fn json_says_all(files: Seq<MessageV>, m: MessageV) -> bool
    decreases m,
{
    &&& shown_in_full(files, m)
    &&& json_says_fields(files, m.fields)
    &&& json_says_fields(files, m.extensions)
}

/// The same of fields.
pub open spec fn json_says_fields(files: Seq<MessageV>, f: Seq<(u32, DatumV)>) -> bool
    decreases f,
{
    forall|i: int| 0 <= i < f.len() ==> json_says_value(files, (#[trigger] f[i]).1)
}

/// The same of a value.
pub open spec fn json_says_value(files: Seq<MessageV>, v: DatumV) -> bool
    decreases v,
{
    match v {
        DatumV::Scalar(Scalar::F32(_)) => false,
        DatumV::Scalar(Scalar::F64(x)) => !is_nan(x),
        DatumV::Scalar(Scalar::Enum(n)) => n == 0 || no_null_enum(files),
        DatumV::Message(m) => json_says_all(files, m),
        DatumV::List(l) => forall|i: int|
            0 <= i < l.len() ==> json_says_value(files, #[trigger] l[i]),
        DatumV::Entries(e) => forall|i: int|
            0 <= i < e.len() ==> json_says_value(files, (#[trigger] e[i]).1),
        _ => true,
    }
}

/// Whether a message can be read from its ProtoJSON again.
pub open spec fn faithful(files: Seq<MessageV>, m: MessageV) -> bool {
    tidy(files) && all_found_by_name(files) && conforms(files, m) && json_says_all(files, m)
}

/// Whether JSON is read as the message again that it was made of.
pub open spec fn json_reads_back(files: Seq<MessageV>, m: MessageV, shown: JsonV) -> bool {
    faithful(files, m) ==> json_message(files, m.full_name, shown) == Some(m)
}

/// A message that ProtoJSON says all of holds no payload.
pub proof fn said_without_any(files: Seq<MessageV>, m: MessageV)
    requires
        json_says_all(files, m),
    ensures
        without_any(m),
    decreases m,
{
    reveal_strlit("google.protobuf.Any");
    reveal_strlit("google.protobuf.Empty");
    reveal_strlit("google.protobuf.BoolValue");
    reveal_strlit("google.protobuf.Int32Value");
    reveal_strlit("google.protobuf.Int64Value");
    reveal_strlit("google.protobuf.UInt32Value");
    reveal_strlit("google.protobuf.UInt64Value");
    reveal_strlit("google.protobuf.DoubleValue");
    reveal_strlit("google.protobuf.StringValue");
    reveal_strlit("google.protobuf.BytesValue");
    reveal_strlit("google.protobuf.Timestamp");
    reveal_strlit("google.protobuf.Duration");
    reveal_strlit("google.protobuf.FieldMask");
    reveal_strlit("google.protobuf.Value");
    reveal_strlit("google.protobuf.Struct");
    reveal_strlit("google.protobuf.ListValue");
    assert(any_name().len() == 19);
    fields_said_without_any(files, m.fields);
    fields_said_without_any(files, m.extensions);
}

proof fn fields_said_without_any(files: Seq<MessageV>, f: Seq<(u32, DatumV)>)
    requires
        json_says_fields(files, f),
    ensures
        fields_without_any(f),
    decreases f,
{
    assert forall|i: int| 0 <= i < f.len() implies datum_without_any((#[trigger] f[i]).1) by {
        value_said_without_any(files, f[i].1);
    }
}

proof fn value_said_without_any(files: Seq<MessageV>, v: DatumV)
    requires
        json_says_value(files, v),
    ensures
        datum_without_any(v),
    decreases v,
{
    match v {
        DatumV::Message(m) => {
            said_without_any(files, m);
        },
        DatumV::List(l) => {
            assert forall|i: int| 0 <= i < l.len() implies datum_without_any(#[trigger] l[i]) by {
                value_said_without_any(files, l[i]);
            }
        },
        DatumV::Entries(e) => {
            assert forall|i: int| 0 <= i < e.len() implies datum_without_any(
                (#[trigger] e[i]).1,
            ) by {
                value_said_without_any(files, e[i].1);
            }
        },
        _ => {},
    }
}

} // verus!
