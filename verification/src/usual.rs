//! Usual schemas: those in which what is said of encoding and decoding is said without reserve.
use vstd::prelude::*;

verus! {

use crate::codec::{
    bare, decodes, decodes_text, known_files, protojson, protojson_outcome, schema_of, shows,
};
use crate::error::Fault;
use crate::json::JsonV;
use crate::message::{DatumV, MessageV};
use crate::payload::{
    any_name, datum_without_any, fields_without_any, standard_any, without_any,
};
use crate::pool::{field_named, json_message, message_json, message_type, text_message, wire_message};
use crate::rules::{obeys, rules_are_exact};
use crate::steady::steady;
use crate::text::begins_with;
use crate::types::{declared_as_read, entry_types, FieldKindV, FieldTypeV, MessageTypeV};

/// Whether a name is made of letters, digits and underscores, with no digit in front.
pub open spec fn plain_word(s: Seq<char>) -> bool {
    s.len() > 0 && !('0' <= s[0] <= '9') && forall|i: int|
        0 <= i < s.len() ==> ('a' <= #[trigger] s[i] <= 'z') || ('A' <= s[i] <= 'Z') || ('0' <= s[i]
            <= '9') || s[i] == '_'
}

/// Whether all fields of a type have such names.
pub open spec fn plain_words(t: MessageTypeV) -> bool {
    forall|i: int| 0 <= i < t.fields.len() ==> plain_word((#[trigger] t.fields[i]).name)
}

/// Whether the fields of a type hold no messages but those of other well-known types that do not stand
/// for JSON, and extensions of it have the numbers that the types of options leave to them.
pub open spec fn without_messages(t: MessageTypeV) -> bool {
    &&& forall|i: int|
        0 <= i < t.extensions.len() ==> 1000 <= (#[trigger] t.extensions[i]).number
    &&& forall|i: int|
        0 <= i < t.fields.len() ==> ((#[trigger] t.fields[i]).kind matches FieldKindV::Message(n)
            ==> !t.fields[i].map && begins_with(n, "google.protobuf."@) && n
            != "google.protobuf.Value"@ && n != "google.protobuf.ListValue"@ && !begins_with(
            n,
            "google.protobuf.Struct"@,
        ))
}

/// Whether a field of the type for JSON values holds no messages but an object or an array.
pub open spec fn field_of_value(t: FieldTypeV) -> bool {
    t.kind is Message ==> !t.list && !t.map && ((t.number == 5 && t.kind == FieldKindV::Message(
        "google.protobuf.Struct"@,
    )) || (t.number == 6 && t.kind == FieldKindV::Message("google.protobuf.ListValue"@)))
}

/// Whether a well-known type is declared as ever: those for JSON hold one another, and all others
/// hold no messages that stand for JSON.
pub open spec fn as_ever(files: Seq<MessageV>, name: Seq<char>, t: MessageTypeV) -> bool {
    if name == "google.protobuf.Value"@ {
        t.extensions.len() == 0 && forall|i: int|
            0 <= i < t.fields.len() ==> field_of_value(#[trigger] t.fields[i])
    } else if name == "google.protobuf.ListValue"@ {
        t.extensions.len() == 0 && t.fields.len() == 1 && t.fields[0].number == 1 && t.fields[0].list
            && !t.fields[0].map && t.fields[0].kind == FieldKindV::Message(
            "google.protobuf.Value"@,
        )
    } else if name == "google.protobuf.Struct"@ {
        t.extensions.len() == 0 && t.fields.len() == 1 && t.fields[0].number == 1 && t.fields[0].map
            && (entry_types(files, t.fields[0]) matches Some((key, value)) && !value.list
            && !value.map && value.kind == FieldKindV::Message("google.protobuf.Value"@))
    } else {
        without_messages(t)
    }
}

/// A schema that has no well-known types, or those that it has declared as ever, declares them as
/// they are read.
pub proof fn schemas_declare_types_as_read(files: Seq<MessageV>)
    requires
        forall|name: Seq<char>|
            (#[trigger] message_type(files, name)) is Some && begins_with(name, "google.protobuf."@)
                && !begins_with(name, "google.protobuf.Struct."@) ==> as_ever(
                files,
                name,
                message_type(files, name)->Some_0,
            ),
    ensures
        declared_as_read(files),
{
    reveal_strlit("google.protobuf.Value");
    reveal_strlit("google.protobuf.ListValue");
    reveal_strlit("google.protobuf.Struct");
    assert("google.protobuf.Value"@.len() == 21);
    assert("google.protobuf.ListValue"@.len() == 25);
    assert("google.protobuf.Struct"@.len() == 22);
    assert forall|name: Seq<char>|
        (#[trigger] message_type(files, name)) is Some && begins_with(name, "google.protobuf."@)
            && !begins_with(name, "google.protobuf.Struct."@) implies crate::types::type_as_read(
        files,
        name,
        message_type(files, name)->Some_0,
    ) by {
        let t = message_type(files, name)->Some_0;
        assert(as_ever(files, name, t));
        assert forall|i: int| 0 <= i < t.fields.len() implies crate::types::field_as_read(
            files,
            name,
            #[trigger] t.fields[i],
        ) by {
            if name == "google.protobuf.Value"@ {
                assert(field_of_value(t.fields[i]));
            } else if name == "google.protobuf.ListValue"@ || name == "google.protobuf.Struct"@ {
                assert(i == 0);
            }
        }
    }
}

/// A schema has the well-known `Any` if it has none, or one of a text and bytes.
pub proof fn schemas_have_the_usual_any(files: Seq<MessageV>, url: FieldTypeV, value: FieldTypeV)
    ensures
        message_type(files, "google.protobuf.Any"@) is None ==> standard_any(files),
        message_type(files, "google.protobuf.Any"@) matches Some(t) ==> (t.fields == seq![url, value]
            && field_named(files, "google.protobuf.Any"@, "type_url"@) == Some(url) && field_named(
            files,
            "google.protobuf.Any"@,
            "value"@,
        ) == Some(value) && url.number == 1 && url.kind is Text && value.number == 2 && value.kind
            is Bytes && !url.list && !url.map && url.oneof is None && !value.list && !value.map
            && value.oneof is None && !url.required && !value.required ==> standard_any(files)),
{
}

/// Payloads in JSON are read in one way in a schema with the well-known `Any` whose fields have plain
/// names.
pub proof fn payloads_are_read_in_one_way(files: Seq<MessageV>, value: JsonV)
    requires
        standard_any(files),
        forall|name: Seq<char>|
            (#[trigger] message_type(files, name)) is Some ==> plain_words(
                message_type(files, name)->Some_0,
            ),
    ensures
        steady(files, value),
{
    assert forall|name: Seq<char>| (#[trigger] message_type(files, name)) is Some implies
        crate::steady::fields_are_identifiers(message_type(files, name)->Some_0) by {
        let t = message_type(files, name)->Some_0;
        assert(plain_words(t));
        assert forall|i: int| 0 <= i < t.fields.len() implies crate::readback::identifier(
            (#[trigger] t.fields[i]).name,
        ) by {
            assert(plain_word(t.fields[i].name));
        }
    }
}

/// Whether a value is no message, and holds none.
pub open spec fn without_any_message(v: DatumV) -> bool {
    match v {
        DatumV::Message(_) => false,
        DatumV::List(l) => forall|i: int| 0 <= i < l.len() ==> !(#[trigger] l[i] is Message) && !(l[i]
            is List) && !(l[i] is Entries),
        DatumV::Entries(e) => forall|i: int|
            0 <= i < e.len() ==> !((#[trigger] e[i]).1 is Message) && !(e[i].1 is List) && !(e[i].1
                is Entries),
        _ => true,
    }
}

/// A message of another type than `google.protobuf.Any` that holds no messages holds no payload, and
/// neither does one that holds only messages that hold none.
pub proof fn messages_without_payloads(m: MessageV)
    requires
        m.full_name != "google.protobuf.Any"@,
        forall|i: int|
            0 <= i < m.fields.len() ==> without_any_message((#[trigger] m.fields[i]).1) || (
            m.fields[i].1 matches DatumV::Message(c) && without_any(c)),
        forall|i: int|
            0 <= i < m.extensions.len() ==> without_any_message((#[trigger] m.extensions[i]).1) || (
            m.extensions[i].1 matches DatumV::Message(c) && without_any(c)),
    ensures
        without_any(m),
{
    assert forall|i: int| 0 <= i < m.fields.len() implies datum_without_any(
        (#[trigger] m.fields[i]).1,
    ) by {
        flat_values_hold_no_payload(m.fields[i].1);
    }
    assert forall|i: int| 0 <= i < m.extensions.len() implies datum_without_any(
        (#[trigger] m.extensions[i]).1,
    ) by {
        flat_values_hold_no_payload(m.extensions[i].1);
    }
    assert(fields_without_any(m.fields));
    assert(fields_without_any(m.extensions));
}

proof fn flat_values_hold_no_payload(v: DatumV)
    requires
        without_any_message(v) || (v matches DatumV::Message(c) && without_any(c)),
    ensures
        datum_without_any(v),
{
    match v {
        DatumV::List(l) => {
            assert forall|i: int| 0 <= i < l.len() implies datum_without_any(#[trigger] l[i]) by {
                assert(!(l[i] is Message) && !(l[i] is List) && !(l[i] is Entries));
            }
        },
        DatumV::Entries(e) => {
            assert forall|i: int| 0 <= i < e.len() implies datum_without_any(
                (#[trigger] e[i]).1,
            ) by {
                assert(!(e[i].1 is Message) && !(e[i].1 is List) && !(e[i].1 is Entries));
            }
        },
        _ => {},
    }
}

/// In a usual schema bytes that are read are shown as the JSON of the message that they hold, if that
/// obeys the rules, and bytes that cannot be read are refused under the name of the type.
pub proof fn bytes_are_shown_as_their_message(
    sets: Seq<Seq<u8>>,
    name: Seq<char>,
    bytes: Seq<u8>,
    out: Result<JsonV, Fault>,
)
    requires
        schema_of(sets, name) is Ok,
        declared_as_read(known_files(sets, name)),
        decodes(sets, name, bytes, out),
    ensures
        ({
            let files = known_files(sets, name);
            match wire_message(files, bare(name), bytes) {
                None => out == Err::<JsonV, Fault>(Fault::Wire(name)),
                Some(m) => {
                    &&& obeys(files, false, m) ==> match message_json(files, m) {
                        Some(j) => out == Ok::<JsonV, Fault>(j),
                        None => out == Err::<JsonV, Fault>(Fault::Serialize),
                    }
                    &&& !obeys(files, false, m) ==> (out matches Err(e) && e is Broken)
                },
            }
        }),
{
    let files = known_files(sets, name);
    if let Some(m) = wire_message(files, bare(name), bytes) {
        rules_are_exact(files, false, name, m);
    }
}

/// The same of text.
pub proof fn text_is_shown_as_its_message(
    sets: Seq<Seq<u8>>,
    name: Seq<char>,
    text: Seq<char>,
    out: Result<JsonV, Fault>,
)
    requires
        schema_of(sets, name) is Ok,
        declared_as_read(known_files(sets, name)),
        standard_any(known_files(sets, name)),
        decodes_text(sets, name, text, out),
    ensures
        ({
            let files = known_files(sets, name);
            match text_message(files, bare(name), text) {
                None => out == Err::<JsonV, Fault>(Fault::Text(name)),
                Some(m) => {
                    &&& obeys(files, false, m) ==> match message_json(files, m) {
                        Some(j) => out == Ok::<JsonV, Fault>(j),
                        None => out == Err::<JsonV, Fault>(Fault::Serialize),
                    }
                    &&& !obeys(files, false, m) ==> (out matches Err(e) && e is Broken)
                },
            }
        }),
{
    let files = known_files(sets, name);
    if let Some(m) = text_message(files, bare(name), text) {
        rules_are_exact(files, false, name, m);
    }
}

/// ProtoJSON that is not read is refused under the name of the type, and what is read without a
/// payload and obeys the rules is written as the message of the private copy that stands for it.
pub proof fn protojson_is_written_as_its_message(
    sets: Seq<Seq<u8>>,
    name: Seq<char>,
    value: JsonV,
    out: Result<MessageV, Fault>,
)
    requires
        schema_of(sets, name) is Ok,
        protojson_outcome(sets, name, value, out),
    ensures
        ({
            let files = known_files(sets, name);
            match json_message(files, bare(name), value) {
                None => out == Err::<MessageV, Fault>(Fault::Json(name)),
                Some(m) => without_any(m) && obeys(files, false, m) && crate::writing::depth_within(
                    m,
                    65,
                ) ==> out == crate::payload::normal_form(files, bare(name), m),
            }
        }),
        steady(known_files(sets, name), value) ==> out == protojson(sets, name, value),
{
    let files = known_files(sets, name);
    if let Some(m) = json_message(files, bare(name), value) {
        rules_are_exact(files, false, name, m);
        if without_any(m) && obeys(files, false, m) {
            crate::writing::messages_nest_64_levels(files, name, m);
        }
    }
}

/// What comes of a message that is shown, whatever the schema: JSON, the rule that it breaks, or that
/// it cannot be shown.
pub proof fn messages_are_shown_or_refused(
    files: Seq<MessageV>,
    name: Seq<char>,
    m: MessageV,
    out: Result<JsonV, Fault>,
)
    requires
        shows(files, name, m, out),
    ensures
        out is Ok ==> obeys(files, false, m),
        out matches Err(e) ==> e is Broken || e is Serialize,
        out matches Err(Fault::Broken(_, _)) ==> !obeys(files, false, m),
{
    rules_are_exact(files, false, name, m);
}

/// The type that holds payloads.
pub proof fn payloads_are_in_any()
    ensures
        any_name() == "google.protobuf.Any"@,
{
}

} // verus!
