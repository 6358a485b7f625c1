//! The protobuf library: schemas, messages, and the wire, text and JSON forms.
use crate::json::Json;
use crate::message::{Datum, EntryKey, Message, Scalar};
use crate::types::{FieldKind, FieldType, MessageType};
use prost::bytes::Buf;
use prost::Message as _;
use prost_reflect::{DescriptorPool, DynamicMessage, ReflectMessage};
use vstd::prelude::*;

verus! {

use crate::faithful::json_reads_back;
use crate::integers::{holds_integers, of_integers};
use crate::json::JsonV;
use crate::known::{known_only, unknown_outside};
use crate::merge::same_members;
use crate::message::{canonical, KeyV, MessageV};
use crate::nulls::{null_at, without_member, without_nulls};
use crate::once::files_once;
use crate::payload::{any_name, same_payloads, standard_any, without_any, without_unknown};
use crate::reading::parts_read;
use crate::readback::{folded, plain_schema, plain_text, stands_for, without_maps};
use crate::records::{is_record, record, undeclared, Load};
use crate::schema::{messages_view, normalized_files, private, private_name};
use crate::sound::{sound, usable};
use crate::steady::steady;
use crate::text::{begins_with, integer_text, quoted_text};
use crate::textual::{text_reads_as, text_says_all};
use crate::types::{
    conforms, declared_as_read, dotted, shaped, tidy, undotted, FieldTypeV, MessageTypeV,
};

/// A schema of `prost-reflect`.
#[verifier::external_type_specification]
#[verifier::external_body]
pub struct ExDescriptorPool(prost_reflect::DescriptorPool);

/// A message of `prost-reflect`.
#[verifier::external_type_specification]
#[verifier::external_body]
pub struct ExDynamicMessage(prost_reflect::DynamicMessage);

/// A value of `prost-reflect`.
#[verifier::external_type_specification]
#[verifier::external_body]
pub struct ExValue(prost_reflect::Value);

/// A map key of `prost-reflect`.
#[verifier::external_type_specification]
#[verifier::external_body]
pub struct ExMapKey(prost_reflect::MapKey);

/// A kind of `prost-reflect`.
#[verifier::external_type_specification]
#[verifier::external_body]
pub struct ExKind(prost_reflect::Kind);

/// A field descriptor of `prost-reflect`.
#[verifier::external_type_specification]
#[verifier::external_body]
pub struct ExFieldDescriptor(prost_reflect::FieldDescriptor);

/// An extension descriptor of `prost-reflect`.
#[verifier::external_type_specification]
#[verifier::external_body]
pub struct ExExtensionDescriptor(prost_reflect::ExtensionDescriptor);

/// A descriptor file of `prost-types`.
#[verifier::external_type_specification]
#[verifier::external_body]
pub struct ExFileDescriptorProto(prost_types::FileDescriptorProto);

/// A JSON value of `serde_json`.
#[verifier::external_type_specification]
#[verifier::external_body]
pub struct ExJsonValue(serde_json::Value);

/// The descriptor files that a schema was made from.
pub uninterp spec fn pool_files(pool: DescriptorPool) -> Seq<MessageV>;

/// The descriptor files of the schema that a message belongs to.
pub uninterp spec fn dynamic_files(d: DynamicMessage) -> Seq<MessageV>;

/// What a message holds, with the entries of its maps in the order of their keys.
pub uninterp spec fn dynamic_contents(d: DynamicMessage) -> MessageV;

/// The files of a serialized `FileDescriptorSet`, where the bytes are one.
pub uninterp spec fn set_files(bytes: Seq<u8>) -> Option<Seq<MessageV>>;

/// Whether descriptor files make a schema.
pub uninterp spec fn resolves(files: Seq<MessageV>) -> bool;

/// The descriptor files of a schema with all names resolved.
pub uninterp spec fn resolved_files(files: Seq<MessageV>) -> Seq<MessageV>;

/// The message type of this full name, where the schema has it.
pub uninterp spec fn message_type(files: Seq<MessageV>, name: Seq<char>) -> Option<MessageTypeV>;

/// The field of this name in a message type.
pub uninterp spec fn field_named(
    files: Seq<MessageV>,
    message: Seq<char>,
    name: Seq<char>,
) -> Option<FieldTypeV>;

/// The field of this JSON name in a message type.
pub uninterp spec fn field_json_named(
    files: Seq<MessageV>,
    message: Seq<char>,
    name: Seq<char>,
) -> Option<FieldTypeV>;

/// What a message of the schema made from this message holds, where its values fit.
pub uninterp spec fn built(files: Seq<MessageV>, m: MessageV) -> Option<MessageV>;

/// The scalar that a value of `prost-reflect` is, if it is one.
#[verifier::external_body]
fn scalar_of(v: &prost_reflect::Value) -> (r: Option<Scalar>) {
    match v {
        prost_reflect::Value::Bool(x) => Some(Scalar::Bool(*x)),
        prost_reflect::Value::I32(x) => Some(Scalar::I32(*x)),
        prost_reflect::Value::I64(x) => Some(Scalar::I64(*x)),
        prost_reflect::Value::U32(x) => Some(Scalar::U32(*x)),
        prost_reflect::Value::U64(x) => Some(Scalar::U64(*x)),
        prost_reflect::Value::F32(x) => Some(Scalar::F32(x.to_bits())),
        prost_reflect::Value::F64(x) => Some(Scalar::F64(x.to_bits())),
        prost_reflect::Value::EnumNumber(x) => Some(Scalar::Enum(*x)),
        _ => None,
    }
}

/// A map key of `prost-reflect` as plain data.
#[verifier::external_body]
fn key_of(k: &prost_reflect::MapKey) -> (r: EntryKey) {
    match k {
        prost_reflect::MapKey::Bool(x) => EntryKey::Scalar(Scalar::Bool(*x)),
        prost_reflect::MapKey::I32(x) => EntryKey::Scalar(Scalar::I32(*x)),
        prost_reflect::MapKey::I64(x) => EntryKey::Scalar(Scalar::I64(*x)),
        prost_reflect::MapKey::U32(x) => EntryKey::Scalar(Scalar::U32(*x)),
        prost_reflect::MapKey::U64(x) => EntryKey::Scalar(Scalar::U64(*x)),
        prost_reflect::MapKey::String(x) => EntryKey::Text(x.clone()),
    }
}

/// A value of `prost-reflect` as plain data.
#[verifier::external_body]
fn datum_of(v: &prost_reflect::Value) -> (r: Datum) {
    match v {
        prost_reflect::Value::String(x) => Datum::Text(x.clone()),
        prost_reflect::Value::Bytes(x) => Datum::Bytes(x.to_vec()),
        prost_reflect::Value::Message(x) => Datum::Message(message_of(x)),
        prost_reflect::Value::List(x) => Datum::List(x.iter().map(datum_of).collect()),
        prost_reflect::Value::Map(x) => Datum::Entries(
            x.iter().map(|(k, v)| (key_of(k), datum_of(v))).collect(),
        ),
        scalar => Datum::Scalar(scalar_of(scalar).unwrap()),
    }
}

/// Reads a `DynamicMessage` with `fields`, `extensions` and `unknown_fields`. The fields and
/// extensions that count as set come in ascending order of their numbers; the entries of a map
/// come in any order.
#[verifier::external_body]
pub(crate) fn message_of(d: &DynamicMessage) -> (r: Message)
    ensures
        canonical(r@) == dynamic_contents(*d),
{
    let mut unknown = Vec::new();
    for field in d.unknown_fields() {
        field.encode(&mut unknown);
    }
    Message {
        full_name: d.descriptor().full_name().to_owned(),
        fields: d.fields().map(|(f, v)| (f.number(), datum_of(v))).collect(),
        extensions: d.extensions().map(|(f, v)| (f.number(), datum_of(v))).collect(),
        unknown,
    }
}

/// A scalar as a value of `prost-reflect`.
#[verifier::external_body]
fn scalar_value(s: Scalar) -> (r: prost_reflect::Value) {
    match s {
        Scalar::Bool(x) => prost_reflect::Value::Bool(x),
        Scalar::I32(x) => prost_reflect::Value::I32(x),
        Scalar::I64(x) => prost_reflect::Value::I64(x),
        Scalar::U32(x) => prost_reflect::Value::U32(x),
        Scalar::U64(x) => prost_reflect::Value::U64(x),
        Scalar::F32(x) => prost_reflect::Value::F32((&x.to_le_bytes()[..]).get_f32_le()),
        Scalar::F64(x) => prost_reflect::Value::F64((&x.to_le_bytes()[..]).get_f64_le()),
        Scalar::Enum(x) => prost_reflect::Value::EnumNumber(x),
    }
}

/// A map key as one of `prost-reflect`, if it can be one.
#[verifier::external_body]
fn key_value(k: &EntryKey) -> (r: Option<prost_reflect::MapKey>) {
    match k {
        EntryKey::Scalar(s) => scalar_value(*s).into_map_key(),
        EntryKey::Text(x) => Some(prost_reflect::MapKey::String(x.clone())),
    }
}

/// Plain data as a value of `prost-reflect`, if it can be one in this schema.
#[verifier::external_body]
fn datum_value(pool: &DescriptorPool, v: &Datum) -> (r: Option<prost_reflect::Value>) {
    Some(
        match v {
            Datum::Scalar(s) => scalar_value(*s),
            Datum::Text(x) => prost_reflect::Value::String(x.clone()),
            Datum::Bytes(x) => prost_reflect::Value::Bytes(x.clone().into()),
            Datum::Message(x) => prost_reflect::Value::Message(dynamic_of(pool, x)?),
            Datum::List(x) => prost_reflect::Value::List(
                x.iter().map(|v| datum_value(pool, v)).collect::<Option<_>>()?,
            ),
            Datum::Entries(x) => prost_reflect::Value::Map(
                x.iter().map(|(k, v)| Some((key_value(k)?, datum_value(pool, v)?)))
                    .collect::<Option<_>>()?,
            ),
        },
    )
}

/// Makes a `DynamicMessage`: calls `try_set_field_by_number` for each field, `set_extension` for
/// each extension whose value `is_valid_for_extension` admits, and `merge` with the bytes of the
/// unknown fields. There is none where the schema lacks a type or a number, or a value does not
/// fit. What the message holds is a function of the schema and of the plain message, and it holds
/// what the plain message does where that is a message of the schema. Of a schema that the
/// language cannot declare the latter is not claimed.
#[verifier::external_body]
pub(crate) fn dynamic_of(pool: &DescriptorPool, m: &Message) -> (r: Option<DynamicMessage>)
    requires
        sound(pool_files(*pool)),
    ensures
        match r {
            Some(d) => built(pool_files(*pool), m@) == Some(dynamic_contents(d)) && dynamic_files(d)
                == pool_files(*pool),
            None => built(pool_files(*pool), m@) is None,
        },
        tidy(pool_files(*pool)) && conforms(pool_files(*pool), m@) ==> match r {
            Some(d) => dynamic_contents(d) == m@,
            None => false,
        },
{
    let desc = pool.get_message_by_name(&m.full_name)?;
    let mut d = DynamicMessage::new(desc.clone());
    for (n, v) in &m.fields {
        d.try_set_field_by_number(*n, datum_value(pool, v)?).ok()?;
    }
    for (n, v) in &m.extensions {
        let e = desc.get_extension(*n)?;
        d.set_extension(&e, datum_value(pool, v).filter(|v| v.is_valid_for_extension(&e))?);
    }
    d.merge(m.unknown.as_slice()).ok()?;
    Some(d)
}

/// Calls `FileDescriptorSet::decode` of `prost-types`, and `transcode_to_dynamic` of
/// `prost-reflect` on each file. A message has each field once, and in the form that is declared,
/// and `prost-types` keeps no fields that it does not know.
#[verifier::external_body]
pub(crate) fn read_set(bytes: &Vec<u8>) -> (r: Result<Vec<Message>, String>)
    ensures
        match r {
            Ok(files) => set_files(bytes@) == Some(messages_view(files@)) && files_once(
                messages_view(files@),
                false,
            ),
            Err(_) => set_files(bytes@) is None,
        },
{
    let set = prost_types::FileDescriptorSet::decode(bytes.as_slice()).map_err(|e| e.to_string())?;
    Ok(set.file.iter().map(|f| message_of(&f.transcode_to_dynamic())).collect())
}

/// A descriptor file as a message of `prost-types`, if it is one.
#[verifier::external_body]
fn file_of(m: &Message) -> (r: Option<prost_types::FileDescriptorProto>) {
    dynamic_of(&DescriptorPool::global(), m)?.transcode_to().ok()
}

/// Calls `DescriptorPool::from_file_descriptor_set` of `prost-reflect`. It panics on a syntax that
/// it does not know, on escapes in defaults that stand for no byte, and on options that it cannot
/// read again, and follows public imports without end; sound files have none of these. The full
/// name of a type begins with the package of its file, so in the private copy for structural input
/// all names are private; a name may be looked up with a dot in front, of which this says nothing.
/// Without the marks of map entries, and with other names, fields are still ones that the language
/// can declare. All names are collected before any is looked up, so the order of the files does
/// not matter to whether they make a schema.
#[verifier::external_body]
pub(crate) fn build_pool(files: &Vec<Message>) -> (r: Result<DescriptorPool, String>)
    requires
        sound(messages_view(files@)),
    ensures
        r matches Ok(pool) ==> forall|original: Seq<MessageV>, name: Seq<char>|
            pool_files(pool) == #[trigger] normalized_files(original, true) && !dotted(name)
                && #[trigger] message_type(pool_files(pool), name) is Some ==> begins_with(
                name,
                private_name(Seq::empty()),
            ),
        r matches Ok(pool) ==> forall|original: Seq<MessageV>, structural: bool|
            usable(original) && pool_files(pool) == #[trigger] normalized_files(
                resolved_files(original),
                structural,
            ) ==> tidy(pool_files(pool)),
        match r {
            Ok(pool) => resolves(messages_view(files@)) && pool_files(pool) == messages_view(files@),
            Err(_) => !resolves(messages_view(files@)),
        },
        forall|other: Seq<MessageV>| #[trigger]
            same_members(messages_view(files@), other) ==> resolves(other) == (r is Ok),
{
    let file = files.iter().map(file_of).collect::<Option<_>>().ok_or("not a descriptor file")?;
    let set = prost_types::FileDescriptorSet { file };
    DescriptorPool::from_file_descriptor_set(set).map_err(|e| e.to_string())
}

/// Calls `file_descriptor_protos` of a `DescriptorPool`, and `transcode_to_dynamic` on each file.
/// Names and options are resolved in them. What makes files sound, the marks of map entries and
/// the numbers, labels and kinds of fields, stays as it is where no option of a message is left to
/// be interpreted.
#[verifier::external_body]
pub(crate) fn pool_protos(pool: &DescriptorPool) -> (r: Vec<Message>)
    requires
        sound(pool_files(*pool)),
    ensures
        messages_view(r@) == resolved_files(pool_files(*pool)),
        sound(messages_view(r@)),
{
    pool.file_descriptor_protos().map(|f| message_of(&f.transcode_to_dynamic())).collect()
}

/// A kind of `prost-reflect` as plain data.
#[verifier::external_body]
fn kind_of(kind: prost_reflect::Kind) -> (r: FieldKind) {
    match kind {
        prost_reflect::Kind::Message(m) => FieldKind::Message(m.full_name().to_owned()),
        prost_reflect::Kind::String => FieldKind::Text,
        prost_reflect::Kind::Bytes => FieldKind::Bytes,
        other => FieldKind::Scalar(scalar_of(&other.default_value()).unwrap()),
    }
}

/// A field descriptor as plain data.
#[verifier::external_body]
fn field_type_of(f: &prost_reflect::FieldDescriptor) -> (r: FieldType) {
    FieldType {
        number: f.number(),
        name: f.name().to_owned(),
        kind: kind_of(f.kind()),
        list: f.is_list(),
        map: f.is_map(),
        required: f.is_required(),
        presence: f.supports_presence(),
        group: f.is_group(),
        oneof: f.containing_oneof().map(|o| o.full_name().to_owned()),
        default: datum_of(&f.default_value()),
    }
}

/// An extension descriptor as plain data.
#[verifier::external_body]
fn extension_type_of(f: &prost_reflect::ExtensionDescriptor) -> (r: FieldType) {
    FieldType {
        number: f.number(),
        name: f.full_name().to_owned(),
        kind: kind_of(f.kind()),
        list: f.is_list(),
        map: f.is_map(),
        required: false,
        presence: f.supports_presence(),
        group: f.is_group(),
        oneof: None,
        default: datum_of(&f.default_value()),
    }
}

/// Calls `get_message_by_name` of a `DescriptorPool`, and reads the descriptor's fields and
/// extensions. The lookup takes a dot off the front of the name. Which types there are does not
/// depend on the order of the files; the order of extensions does.
#[verifier::external_body]
pub(crate) fn find_type(pool: &DescriptorPool, name: &str) -> (r: Option<MessageType>)
    ensures
        match r {
            Some(t) => message_type(pool_files(*pool), name@) == Some(t@) && t.full_name@
                == undotted(name@),
            None => message_type(pool_files(*pool), name@) is None,
        },
        forall|other: Seq<MessageV>| #[trigger]
            same_members(pool_files(*pool), other) ==> (message_type(other, name@) is Some) == (r
                is Some),
{
    let desc = pool.get_message_by_name(name)?;
    Some(
        MessageType {
            full_name: desc.full_name().to_owned(),
            fields: desc.fields().map(|f| field_type_of(&f)).collect(),
            extensions: desc.extensions().map(|f| extension_type_of(&f)).collect(),
        },
    )
}

/// Calls `get_field_by_name` of a `MessageDescriptor`.
#[verifier::external_body]
pub(crate) fn field_by_name(pool: &DescriptorPool, message: &str, name: &str) -> (r: Option<
    FieldType,
>)
    ensures
        match r {
            Some(t) => field_named(pool_files(*pool), message@, name@) == Some(t@),
            None => field_named(pool_files(*pool), message@, name@) is None,
        },
{
    Some(field_type_of(&pool.get_message_by_name(message)?.get_field_by_name(name)?))
}

/// Calls `get_field_by_json_name` of a `MessageDescriptor`.
#[verifier::external_body]
pub(crate) fn field_by_json_name(pool: &DescriptorPool, message: &str, name: &str) -> (r: Option<
    FieldType,
>)
    ensures
        match r {
            Some(t) => field_json_named(pool_files(*pool), message@, name@) == Some(t@),
            None => field_json_named(pool_files(*pool), message@, name@) is None,
        },
{
    Some(field_type_of(&pool.get_message_by_name(message)?.get_field_by_json_name(name)?))
}

/// What `Debug` makes of a map key of `prost-reflect`: the name of its kind, and the key in round
/// brackets. A key that no map can have has no text.
pub open spec fn key_text(k: KeyV) -> Seq<char> {
    match k {
        KeyV::Scalar(Scalar::Bool(b)) => if b {
            "Bool(true)"@
        } else {
            "Bool(false)"@
        },
        KeyV::Scalar(Scalar::I32(n)) => "I32("@ + integer_text(n as int) + ")"@,
        KeyV::Scalar(Scalar::I64(n)) => "I64("@ + integer_text(n as int) + ")"@,
        KeyV::Scalar(Scalar::U32(n)) => "U32("@ + integer_text(n as int) + ")"@,
        KeyV::Scalar(Scalar::U64(n)) => "U64("@ + integer_text(n as int) + ")"@,
        KeyV::Scalar(_) => Seq::empty(),
        KeyV::Text(t) => "String("@ + quoted_text(t) + ")"@,
    }
}

/// Formats a map key with `{:?}`, that is, calls `Debug` of `prost-reflect`'s `MapKey`. A key
/// that no map can have is given an empty text.
#[verifier::external_body]
pub(crate) fn key_debug(k: &EntryKey) -> (r: String)
    ensures
        r@ == key_text(k@),
{
    key_value(k).map(|k| format!("{k:?}")).unwrap_or_default()
}

/// What a JSON value of `serde_json` holds.
pub uninterp spec fn value_contents(v: serde_json::Value) -> JsonV;

/// The message that wire bytes hold, where they hold one of this type.
pub uninterp spec fn wire_message(
    files: Seq<MessageV>,
    name: Seq<char>,
    bytes: Seq<u8>,
) -> Option<MessageV>;

/// A message that ProtoJSON holds, where it holds one of this type.
pub uninterp spec fn json_message(
    files: Seq<MessageV>,
    name: Seq<char>,
    value: JsonV,
) -> Option<MessageV>;

/// A message that text holds, where it holds one of this type.
pub uninterp spec fn text_message(
    files: Seq<MessageV>,
    name: Seq<char>,
    text: Seq<char>,
) -> Option<MessageV>;

/// The wire bytes of a message that holds no maps: those of a schema without maps hold none.
pub uninterp spec fn wire_bytes(files: Seq<MessageV>, m: MessageV) -> Seq<u8>;

/// The text of a message of a schema without maps.
pub uninterp spec fn text_form(files: Seq<MessageV>, m: MessageV) -> Seq<char>;

/// The ProtoJSON of a message, under the names of the schema, where it has one.
pub uninterp spec fn message_json(files: Seq<MessageV>, m: MessageV) -> Option<JsonV>;

/// Whether what came of showing a message is this JSON, or none.
pub open spec fn shown_as(r: Result<serde_json::Value, String>, json: Option<JsonV>) -> bool {
    match r {
        Ok(v) => json == Some(value_contents(v)),
        Err(_) => json is None,
    }
}

/// Makes a `serde_json::Value` that holds a JSON value. Its objects hold their names in
/// ascending order, as `serde_json::Map` does.
#[verifier::external_body]
pub(crate) fn json_value(j: &Json) -> (r: serde_json::Value)
    requires
        j@.ordered(),
    ensures
        value_contents(r) == j@,
{
    match j {
        Json::Null => serde_json::Value::Null,
        Json::Bool(b) => serde_json::Value::Bool(*b),
        Json::Number(n) => serde_json::Value::Number(n.clone()),
        Json::Text(s) => serde_json::Value::String(s.clone()),
        Json::Array(v) => serde_json::Value::Array(v.iter().map(json_value).collect()),
        Json::Object(o) => serde_json::Value::Object(
            o.iter().map(|(k, v)| (k.clone(), json_value(v))).collect(),
        ),
    }
}

/// Reads a `serde_json::Value`. Its objects are walked in ascending order of their names, as
/// `serde_json::Map` is.
#[verifier::external_body]
pub(crate) fn json_of(v: &serde_json::Value) -> (r: Json)
    ensures
        r@ == value_contents(*v),
        r@.ordered(),
{
    match v {
        serde_json::Value::Null => Json::Null,
        serde_json::Value::Bool(b) => Json::Bool(*b),
        serde_json::Value::Number(n) => Json::Number(n.clone()),
        serde_json::Value::String(s) => Json::Text(s.clone()),
        serde_json::Value::Array(v) => Json::Array(v.iter().map(json_of).collect()),
        serde_json::Value::Object(o) => Json::Object(
            o.iter().map(|(k, v)| (k.clone(), json_of(v))).collect(),
        ),
    }
}

/// Calls `DynamicMessage::decode` with the message type of this name. It panics on map entries
/// without a key or a value, which a sound schema does not have. In a schema that the language can
/// declare, a message without unknown fields conforms to the schema. Bytes with one more record, of
/// a number that the type does not declare, are read as well, and differ in unknown fields alone.
#[verifier::external_body]
pub(crate) fn decode_wire(pool: &DescriptorPool, name: &str, bytes: &[u8]) -> (r: Result<
    DynamicMessage,
    String,
>)
    requires
        sound(pool_files(*pool)),
    ensures
        match r {
            Ok(d) => wire_message(pool_files(*pool), name@, bytes@) == Some(dynamic_contents(d))
                && dynamic_files(d) == pool_files(*pool) && dynamic_contents(d).full_name == undotted(
                name@,
            ),
            Err(_) => wire_message(pool_files(*pool), name@, bytes@) is None,
        },
        r matches Ok(d) ==> (tidy(pool_files(*pool)) && without_unknown(dynamic_contents(d))
            ==> conforms(pool_files(*pool), dynamic_contents(d))),
        r matches Ok(d) ==> forall|number: u32, load: Load|
            is_record(number, load) && undeclared(
                pool_files(*pool),
                dynamic_contents(d).full_name,
                number,
            ) ==> match wire_message(
                pool_files(*pool),
                name@,
                bytes@ + #[trigger] record(number, load),
            ) {
                Some(x) => known_only(x) == known_only(dynamic_contents(d)),
                None => false,
            },
{
    let desc = pool.get_message_by_name(name).ok_or("unknown message type")?;
    DynamicMessage::decode(desc, bytes).map_err(|e| e.to_string())
}

/// Calls `DynamicMessage::deserialize` with the message type of this name. The bytes of a
/// payload in an `Any` come from messages with hash maps, so two calls may give messages that
/// differ in the order of entries there; a message without `Any` does not differ. Members of an
/// `Any` that come before its type are read in the order of a hash map too, which shows where two
/// of them stand for one field. In a schema that the language can declare, a message without
/// unknown fields whose lists are lists conforms to the schema. Only well-known types can have
/// unknown fields, where a schema declares them otherwise than they are read, and only for `null`
/// in the place of a list of them does a single value come, so neither comes about in a private
/// copy for structural input, which has no well-known names. There each object is a message and a
/// member that is null is passed over, so the same message comes without such members, and without
/// a single one of them that has the name of a field the same comes of it, an error as well. An
/// object whose members are integers that their fields can hold is read as these. The items of a
/// list of messages are read one by one, each as it is read alone, and so is a single message, where
/// the language can declare the schema.
/// Nothing more is stated of a schema with an `Any` of its own making.
#[verifier::external_body]
pub(crate) fn parse_json(pool: &DescriptorPool, name: &str, value: &serde_json::Value) -> (r:
    Result<DynamicMessage, String>)
    requires
        sound(pool_files(*pool)),
    ensures
        match r {
            Ok(d) => dynamic_files(d) == pool_files(*pool) && dynamic_contents(d).full_name
                == undotted(name@) && (tidy(pool_files(*pool)) && without_unknown(
                dynamic_contents(d),
            ) && shaped(pool_files(*pool), dynamic_contents(d)) ==> conforms(
                pool_files(*pool),
                dynamic_contents(d),
            )) && match json_message(pool_files(*pool), name@, value_contents(*value)) {
                Some(m) => (steady(pool_files(*pool), value_contents(*value)) ==> same_payloads(
                    pool_files(*pool),
                    dynamic_contents(d),
                    m,
                )) && (message_type(pool_files(*pool), any_name()) is None || without_any(m)
                    || without_any(dynamic_contents(d)) ==> m == dynamic_contents(d)),
                None => false,
            },
            Err(_) => json_message(pool_files(*pool), name@, value_contents(*value)) is None,
        },
        r matches Ok(d) ==> forall|original: Seq<MessageV>|
            pool_files(*pool) == #[trigger] normalized_files(original, true) ==> without_unknown(
                dynamic_contents(d),
            ) && shaped(pool_files(*pool), dynamic_contents(d)) && json_message(
                pool_files(*pool),
                name@,
                without_nulls(value_contents(*value)),
            ) == Some(dynamic_contents(d)),
        forall|files: Seq<MessageV>, message: Seq<char>, numbers: Seq<int>|
            resolves(files) && pool_files(*pool) == normalized_files(resolved_files(files), true)
                && name@ == private_name(message) && message_type(pool_files(*pool), name@) is Some
                && #[trigger] of_integers(files, message, value_contents(*value), numbers) ==> match r {
                Ok(d) => holds_integers(
                    files,
                    message,
                    value_contents(*value),
                    numbers,
                    dynamic_contents(d),
                ),
                Err(_) => false,
            },
        r matches Ok(d) ==> forall|files: Seq<MessageV>, message: Seq<char>|
            usable(files) && !dotted(message) && pool_files(*pool) == normalized_files(
                resolved_files(files),
                true,
            ) && name@ == private_name(message) ==> #[trigger] parts_read(
                files,
                message,
                value_contents(*value),
                dynamic_contents(d),
            ),
        forall|files: Seq<MessageV>, message: Seq<char>, i: int|
            resolves(files) && pool_files(*pool) == normalized_files(resolved_files(files), true)
                && name@ == private_name(message) && #[trigger] null_at(
                files,
                message,
                value_contents(*value),
                i,
            ) ==> json_message(
                pool_files(*pool),
                name@,
                without_member(value_contents(*value), i),
            ) == match r {
                Ok(d) => Some(dynamic_contents(d)),
                Err(_) => None,
            },
{
    let desc = pool.get_message_by_name(name).ok_or("unknown message type")?;
    DynamicMessage::deserialize(desc, value).map_err(|e| e.to_string())
}

/// Calls `DynamicMessage::parse_text_format` with the message type of this name. As in ProtoJSON,
/// the bytes of a payload in an `Any` may differ from call to call in the order of entries.
#[verifier::external_body]
pub(crate) fn parse_text(pool: &DescriptorPool, name: &str, text: &str) -> (r: Result<
    DynamicMessage,
    String,
>)
    requires
        sound(pool_files(*pool)),
    ensures
        match r {
            Ok(d) => dynamic_files(d) == pool_files(*pool) && dynamic_contents(d).full_name
                == undotted(name@) && match text_message(pool_files(*pool), name@, text@) {
                Some(m) => (standard_any(pool_files(*pool)) ==> same_payloads(
                    pool_files(*pool),
                    dynamic_contents(d),
                    m,
                )) && (without_any(m) || without_any(dynamic_contents(d)) ==> m
                    == dynamic_contents(d)),
                None => false,
            },
            Err(_) => text_message(pool_files(*pool), name@, text@) is None,
        },
{
    let desc = pool.get_message_by_name(name).ok_or("unknown message type")?;
    DynamicMessage::parse_text_format(desc, text).map_err(|e| e.to_string())
}

/// Calls `encode_to_vec` of `prost` on a `DynamicMessage` of a private copy, whose schema has no
/// maps: fields are written in ascending order of their numbers. Numbers, kinds and presence in
/// the copy are those of the schema that it was made from, and an entry message is written as an
/// entry of a map is, so `DynamicMessage::decode` with the schema reads the message that the
/// written one stands for. It does so where it can read the bytes with the copy at all: how deep
/// messages may be nested is limited, and the copy has one more level for each entry. For the same
/// reason `encode_to_vec` with the schema gives these very bytes for a message that holds no maps.
/// Nothing is claimed of a schema that the language cannot declare.
#[verifier::external_body]
pub(crate) fn encode_wire(d: &DynamicMessage) -> (r: Vec<u8>)
    requires
        private(dynamic_files(*d)),
        sound(dynamic_files(*d)),
    ensures
        r@ == wire_bytes(dynamic_files(*d), dynamic_contents(*d)),
        forall|files: Seq<MessageV>, m: MessageV|
            usable(files) && #[trigger] stands_for(
                files,
                m,
                dynamic_files(*d),
                dynamic_contents(*d),
            ) && wire_message(dynamic_files(*d), m.full_name, r@) is Some ==> wire_message(
                files,
                m.full_name,
                r@,
            ) == Some(m),
        forall|files: Seq<MessageV>, m: MessageV|
            usable(files) && #[trigger] stands_for(
                files,
                m,
                dynamic_files(*d),
                dynamic_contents(*d),
            ) && without_maps(m) ==> r@ == wire_bytes(files, m),
        forall|files: Seq<MessageV>, name: Seq<char>|
            usable(files) && !dotted(name) && message_type(files, name) is Some
                && dynamic_files(*d) == normalized_files(resolved_files(files), true) && dynamic_contents(*d).full_name
                == private_name(name) && conforms(dynamic_files(*d), dynamic_contents(*d))
                && wire_message(dynamic_files(*d), private_name(name), r@) is Some ==> wire_message(
                files,
                name,
                r@,
            ) == Some(#[trigger] folded(files, name, dynamic_contents(*d))),
        forall|files: Seq<MessageV>, name: Seq<char>|
            usable(files) && !dotted(name) && message_type(files, name) is Some
                && dynamic_files(*d) == normalized_files(resolved_files(files), true) && dynamic_contents(*d).full_name
                == private_name(name) && conforms(dynamic_files(*d), dynamic_contents(*d))
                && without_maps(#[trigger] folded(files, name, dynamic_contents(*d))) ==> r@
                == wire_bytes(files, folded(files, name, dynamic_contents(*d))),
{
    d.encode_to_vec()
}

/// Calls `to_text_format` on a `DynamicMessage` of a private copy, whose schema has no maps. The
/// text holds the names of fields and of values of enums, which the copy has from the schema, and
/// the full names of extensions, and an entry message is written as an entry of a map is, so
/// `DynamicMessage::parse_text_format` with the schema reads the message that the written one
/// stands for. The payload of an `Any` is written as a message under its type URL, and the reader
/// makes bytes of it again, in which the entries of maps may come in another order. Nothing is
/// claimed of a schema that the language cannot declare, where names in the schema are no
/// identifiers, or where the text does not say all that the message holds.
#[verifier::external_body]
pub(crate) fn format_text(d: &DynamicMessage) -> (r: String)
    requires
        private(dynamic_files(*d)),
        sound(dynamic_files(*d)),
    ensures
        r@ == text_form(dynamic_files(*d), dynamic_contents(*d)),
        forall|files: Seq<MessageV>, m: MessageV|
            usable(files) && standard_any(files) && plain_schema(files) && text_says_all(
                files,
                dynamic_files(*d),
                dynamic_contents(*d),
            ) && #[trigger] stands_for(files, m, dynamic_files(*d), dynamic_contents(*d))
                ==> text_reads_as(files, m.full_name, r@, m),
        forall|files: Seq<MessageV>, name: Seq<char>|
            usable(files) && plain_schema(files) && plain_text(
                dynamic_contents(*d),
            ) && !dotted(name) && message_type(files, name) is Some && dynamic_files(*d) == normalized_files(
                resolved_files(files),
                true,
            ) && dynamic_contents(*d).full_name == private_name(name) && conforms(
                dynamic_files(*d),
                dynamic_contents(*d),
            ) ==> text_message(files, name, r@) == Some(
                #[trigger] folded(files, name, dynamic_contents(*d)),
            ),
{
    d.to_text_format()
}

/// Calls `serialize_with_options` of a `DynamicMessage`, with the names of the schema for those
/// of fields. Claims that the schema and the message decide what comes of it, where the schema
/// declares the well-known types as they are read: they are shown by way of their wire bytes, and
/// the entries of a map have no order there. The payload of an `Any` is shown as a message, so the
/// order of the entries in its bytes does not show. Unknown fields do not show either; of those in
/// well-known types nothing is claimed. A message whose JSON says all of it is read from the JSON
/// again by `DynamicMessage::deserialize`: each field is written under its name, integers and
/// doubles as digits that are read exactly, bytes in base64, enums by name, and well-known types,
/// if they are declared as they are read, in their own forms. Nothing of the kind is claimed of
/// payloads in an `Any`, of floats of single precision, and of NaN.
#[verifier::external_body]
pub(crate) fn serialize_json(d: &DynamicMessage) -> (r: Result<serde_json::Value, String>)
    requires
        sound(dynamic_files(*d)),
    ensures
        declared_as_read(dynamic_files(*d)) ==> shown_as(
            r,
            message_json(dynamic_files(*d), dynamic_contents(*d)),
        ),
        forall|m: MessageV|
            declared_as_read(dynamic_files(*d)) && standard_any(dynamic_files(*d))
                && #[trigger] same_payloads(dynamic_files(*d), dynamic_contents(*d), m) ==> shown_as(
                r,
                message_json(dynamic_files(*d), m),
            ),
        declared_as_read(dynamic_files(*d)) && unknown_outside(dynamic_contents(*d)) ==> shown_as(
            r,
            message_json(dynamic_files(*d), known_only(dynamic_contents(*d))),
        ),
        r matches Ok(v) ==> json_reads_back(
            dynamic_files(*d),
            dynamic_contents(*d),
            value_contents(v),
        ),
{
    let options = prost_reflect::SerializeOptions::new().use_proto_field_name(true);
    d.serialize_with_options(serde_json::value::Serializer, &options).map_err(|e| e.to_string())
}

} // verus!
