//! Message types: what a schema says of the fields of a message.
use crate::message::{Datum, Scalar};
use vstd::prelude::*;

verus! {

use crate::message::{keys_distinct, keys_nondescending, scalar_rank, KeyV, MessageV, DatumV};
use crate::pool::message_type;
use crate::text::begins_with;

/// What one value of a field is. A scalar kind is known by its default.
pub enum FieldKind {
    Message(String),
    Text,
    Bytes,
    Scalar(Scalar),
}

/// A field of a message type, or an extension, whose name is its full name.
pub struct FieldType {
    pub number: u32,
    pub name: String,
    pub kind: FieldKind,
    pub list: bool,
    pub map: bool,
    pub required: bool,
    pub presence: bool,
    pub group: bool,
    pub oneof: Option<String>,
    pub default: Datum,
}

/// A message type.
pub struct MessageType {
    pub full_name: String,
    pub fields: Vec<FieldType>,
    pub extensions: Vec<FieldType>,
}

/// What a kind is.
pub enum FieldKindV {
    Message(Seq<char>),
    Text,
    Bytes,
    Scalar(Scalar),
}

/// What a field of a message type is.
pub struct FieldTypeV {
    pub number: u32,
    pub name: Seq<char>,
    pub kind: FieldKindV,
    pub list: bool,
    pub map: bool,
    pub required: bool,
    pub presence: bool,
    pub group: bool,
    pub oneof: Option<Seq<char>>,
    pub default: DatumV,
}

/// What a message type is.
pub struct MessageTypeV {
    pub full_name: Seq<char>,
    pub fields: Seq<FieldTypeV>,
    pub extensions: Seq<FieldTypeV>,
}

impl View for FieldKind {
    type V = FieldKindV;

    open spec fn view(&self) -> FieldKindV {
        match self {
            FieldKind::Message(n) => FieldKindV::Message(n@),
            FieldKind::Text => FieldKindV::Text,
            FieldKind::Bytes => FieldKindV::Bytes,
            FieldKind::Scalar(s) => FieldKindV::Scalar(*s),
        }
    }
}

impl View for FieldType {
    type V = FieldTypeV;

    open spec fn view(&self) -> FieldTypeV {
        FieldTypeV {
            number: self.number,
            name: self.name@,
            kind: self.kind@,
            list: self.list,
            map: self.map,
            required: self.required,
            presence: self.presence,
            group: self.group,
            oneof: crate::text::optional_text(self.oneof),
            default: self.default@,
        }
    }
}

/// What field types are.
pub open spec fn field_types_view(f: Seq<FieldType>) -> Seq<FieldTypeV> {
    Seq::new(f.len(), |i: int| f[i]@)
}

impl View for MessageType {
    type V = MessageTypeV;

    open spec fn view(&self) -> MessageTypeV {
        MessageTypeV {
            full_name: self.full_name@,
            fields: field_types_view(self.fields@),
            extensions: field_types_view(self.extensions@),
        }
    }
}

/// How many field types at the front have another number.
pub open spec fn type_index(f: Seq<FieldTypeV>, number: u32) -> nat
    decreases f.len(),
{
    if f.len() == 0 || f[0].number == number {
        0
    } else {
        1 + type_index(f.drop_first(), number)
    }
}

/// The type of the field with this number.
pub open spec fn numbered(f: Seq<FieldTypeV>, number: u32) -> Option<FieldTypeV> {
    let i = type_index(f, number) as int;
    if i < f.len() {
        Some(f[i])
    } else {
        None
    }
}

proof fn type_index_is(f: Seq<FieldTypeV>, number: u32, p: int)
    requires
        0 <= p <= f.len(),
        forall|i: int| 0 <= i < p ==> f[i].number != number,
        p < f.len() ==> f[p].number == number,
    ensures
        type_index(f, number) == p,
    decreases p,
{
    if p > 0 {
        assert(f[0].number != number);
        type_index_is(f.drop_first(), number, p - 1);
    }
}

/// Finds the type of the field with this number.
pub fn find_numbered(f: &Vec<FieldType>, number: u32) -> (r: Option<&FieldType>)
    ensures
        match r {
            Some(t) => numbered(field_types_view(f@), number) == Some(t@),
            None => numbered(field_types_view(f@), number) is None,
        },
{
    let mut i: usize = 0;
    while i < f.len()
        invariant
            i <= f@.len(),
            forall|k: int| 0 <= k < i ==> f@[k].number != number,
        decreases f@.len() - i,
    {
        if f[i].number == number {
            proof {
                type_index_is(field_types_view(f@), number, i as int);
            }
            return Some(&f[i]);
        }
        i += 1;
    }
    proof {
        type_index_is(field_types_view(f@), number, i as int);
    }
    None
}

/// Whether a scalar counts as the default: the two zeros of floating point are one default.
pub open spec fn is_default(default: Scalar, s: Scalar) -> bool {
    s == default || (default == Scalar::F32(0) && s == Scalar::F32(0x8000_0000)) || (default
        == Scalar::F64(0) && s == Scalar::F64(0x8000_0000_0000_0000))
}

/// Whether a value counts as set in a field of this type.
pub open spec fn counts(t: FieldTypeV, v: DatumV) -> bool {
    t.presence || match (t.kind, v) {
        (FieldKindV::Scalar(d), DatumV::Scalar(s)) => !is_default(d, s),
        (_, DatumV::Text(x)) => x.len() > 0,
        (_, DatumV::Bytes(x)) => x.len() > 0,
        (_, DatumV::List(x)) => x.len() > 0,
        (_, DatumV::Entries(x)) => x.len() > 0,
        _ => true,
    }
}

/// Whether a key is one of this kind.
pub open spec fn key_conforms(kind: FieldKindV, k: KeyV) -> bool {
    match (kind, k) {
        (FieldKindV::Scalar(d), KeyV::Scalar(s)) => scalar_rank(d) == scalar_rank(s),
        (FieldKindV::Text, KeyV::Text(_)) => true,
        _ => false,
    }
}

/// Whether a single value is one of this kind.
pub open spec fn kind_conforms(files: Seq<MessageV>, kind: FieldKindV, v: DatumV) -> bool
    decreases v, 0nat,
{
    match (kind, v) {
        (FieldKindV::Message(n), DatumV::Message(m)) => m.full_name == n && conforms(files, m),
        (FieldKindV::Text, DatumV::Text(_)) => true,
        (FieldKindV::Bytes, DatumV::Bytes(_)) => true,
        (FieldKindV::Scalar(d), DatumV::Scalar(s)) => scalar_rank(d) == scalar_rank(s),
        _ => false,
    }
}

/// Whether a value can stand in a field of this type.
pub open spec fn field_conforms(files: Seq<MessageV>, t: FieldTypeV, v: DatumV) -> bool
    decreases v, 1nat,
{
    if t.list {
        match v {
            DatumV::List(l) => forall|i: int|
                0 <= i < l.len() ==> kind_conforms(files, t.kind, #[trigger] l[i]),
            _ => false,
        }
    } else if t.map {
        match (entry_types(files, t), v) {
            (Some((key, value)), DatumV::Entries(e)) => keys_distinct(e) && keys_nondescending(e)
                && forall|i: int|
                0 <= i < e.len() ==> key_conforms(key.kind, (#[trigger] e[i]).0) && kind_conforms(
                    files,
                    value.kind,
                    e[i].1,
                ),
            _ => false,
        }
    } else {
        kind_conforms(files, t.kind, v)
    }
}

/// The types of the key and of the value of a map field.
pub open spec fn entry_types(files: Seq<MessageV>, t: FieldTypeV) -> Option<
    (FieldTypeV, FieldTypeV),
> {
    match t.kind {
        FieldKindV::Message(n) => match message_type(files, n) {
            Some(entry) => match (numbered(entry.fields, 1), numbered(entry.fields, 2)) {
                (Some(key), Some(value)) => Some((key, value)),
                _ => None,
            },
            None => None,
        },
        _ => None,
    }
}

/// Whether each field in a sequence stands for a field type, in ascending order of numbers, with
/// a value that can stand there and counts as set.
pub open spec fn fields_conform(
    files: Seq<MessageV>,
    types: Seq<FieldTypeV>,
    f: Seq<(u32, DatumV)>,
) -> bool
    decreases f, 2nat,
{
    &&& forall|i: int, j: int| 0 <= i < j < f.len() ==> f[i].0 < f[j].0
    &&& forall|i: int|
        0 <= i < f.len() ==> match numbered(types, (#[trigger] f[i]).0) {
            Some(t) => counts(t, f[i].1) && field_conforms(files, t, f[i].1),
            None => false,
        }
    &&& forall|i: int, j: int|
        #![trigger f[i], f[j]]
        0 <= i < j < f.len() ==> match (numbered(types, f[i].0), numbered(types, f[j].0)) {
            (Some(a), Some(b)) => a.oneof is None || a.oneof != b.oneof,
            _ => false,
        }
}

/// Whether a message is one of the schema, with no field that the schema does not know.
pub open spec fn conforms(files: Seq<MessageV>, m: MessageV) -> bool
    decreases m, 3nat,
{
    match message_type(files, m.full_name) {
        Some(t) => t.full_name == m.full_name && fields_conform(files, t.fields, m.fields)
            && fields_conform(files, t.extensions, m.extensions) && m.unknown.len() == 0,
        None => false,
    }
}

/// Whether a name begins with a dot. A lookup takes one such dot off.
pub open spec fn dotted(name: Seq<char>) -> bool {
    name.len() > 0 && name[0] == '.'
}

/// The name that a lookup goes by.
pub open spec fn undotted(name: Seq<char>) -> Seq<char> {
    if dotted(name) {
        name.skip(1)
    } else {
        name
    }
}

/// The value of a kind where none is set.
pub open spec fn default_datum(kind: FieldKindV) -> DatumV {
    match kind {
        FieldKindV::Message(n) => DatumV::Message(
            MessageV {
                full_name: n,
                fields: Seq::empty(),
                extensions: Seq::empty(),
                unknown: Seq::empty(),
            },
        ),
        FieldKindV::Text => DatumV::Text(Seq::empty()),
        FieldKindV::Bytes => DatumV::Bytes(Seq::empty()),
        FieldKindV::Scalar(s) => DatumV::Scalar(s),
    }
}

/// Whether a field is one that the language can declare: lists and maps have no presence, a map
/// is no group and its entries have a single key and value, and a field without presence has no
/// default of its own.
pub open spec fn tidy_field(files: Seq<MessageV>, t: FieldTypeV) -> bool {
    &&& t.list || t.map ==> !t.presence
    &&& !t.presence && !t.list && !t.map ==> t.default == default_datum(t.kind)
    &&& t.map ==> !t.group && match entry_types(files, t) {
        Some((key, value)) => single(key) && single(value),
        None => false,
    }
    &&& match t.kind {
        FieldKindV::Message(n) => match message_type(files, n) {
            Some(m) => m.full_name == n,
            None => false,
        },
        _ => true,
    }
}

/// Whether a field holds one value, with no default of its own.
pub open spec fn single(t: FieldTypeV) -> bool {
    !t.list && !t.map && t.oneof is None && t.default == default_datum(t.kind)
}

/// Whether all fields of a message type are ones that the language can declare.
pub open spec fn tidy_type(files: Seq<MessageV>, t: MessageTypeV) -> bool {
    &&& forall|i: int| 0 <= i < t.fields.len() ==> tidy_field(files, #[trigger] t.fields[i])
    &&& forall|i: int| 0 <= i < t.extensions.len() ==> tidy_field(files, #[trigger] t.extensions[i])
}

/// Whether all message types of a schema are ones that the language can declare. A compiler makes
/// no others, but descriptor sets can come from anywhere.
pub open spec fn tidy(files: Seq<MessageV>) -> bool {
    forall|name: Seq<char>|
        (#[trigger] message_type(files, name)) is Some ==> tidy_type(
            files,
            message_type(files, name)->Some_0,
        )
}

/// Whether the lists of a message are lists, and its maps are maps. Protobuf JSON may put a single
/// value in the place of a list of `Value`.
pub open spec fn shaped(files: Seq<MessageV>, m: MessageV) -> bool
    decreases m,
{
    match message_type(files, m.full_name) {
        Some(t) => shaped_fields(files, t.fields, m.fields) && shaped_fields(
            files,
            t.extensions,
            m.extensions,
        ),
        None => false,
    }
}

/// The same of fields.
pub open spec fn shaped_fields(
    files: Seq<MessageV>,
    types: Seq<FieldTypeV>,
    f: Seq<(u32, DatumV)>,
) -> bool
    decreases f,
{
    forall|i: int|
        0 <= i < f.len() ==> shaped_field(files, numbered(types, (#[trigger] f[i]).0), f[i].1)
}

/// The same of the value of a field of this type.
pub open spec fn shaped_field(files: Seq<MessageV>, t: Option<FieldTypeV>, v: DatumV) -> bool
    decreases v, 1nat,
{
    (match t {
        Some(t) => (t.list ==> v is List) && (t.map ==> v is Entries),
        None => true,
    }) && shaped_datum(files, v)
}

/// The same of a value.
pub open spec fn shaped_datum(files: Seq<MessageV>, v: DatumV) -> bool
    decreases v, 0nat,
{
    match v {
        DatumV::Message(m) => shaped(files, m),
        DatumV::List(l) => forall|i: int|
            0 <= i < l.len() ==> shaped_datum(files, #[trigger] l[i]),
        DatumV::Entries(e) => forall|i: int|
            0 <= i < e.len() ==> shaped_datum(files, (#[trigger] e[i]).1),
        _ => true,
    }
}

/// Whether a name is one of the three types that stand for JSON.
pub open spec fn stands_for_json(name: Seq<char>) -> bool {
    name == "google.protobuf.Value"@ || name == "google.protobuf.ListValue"@ || begins_with(
        name,
        "google.protobuf.Struct"@,
    )
}

/// Whether a message in a field of a well-known type is where it is looked for, and no map is but
/// that of a `Struct`.
pub open spec fn field_as_read(files: Seq<MessageV>, name: Seq<char>, t: FieldTypeV) -> bool {
    match t.kind {
        FieldKindV::Message(n) => if name == "google.protobuf.Value"@ {
            !t.list && !t.map && ((t.number == 5 && n == "google.protobuf.Struct"@) || (t.number
                == 6 && n == "google.protobuf.ListValue"@))
        } else if name == "google.protobuf.ListValue"@ {
            !t.map && t.number == 1 && n == "google.protobuf.Value"@
        } else if name == "google.protobuf.Struct"@ {
            t.map && t.number == 1 && match entry_types(files, t) {
                Some((_, value)) => !value.list && !value.map && (value.kind is Message
                    ==> value.kind == FieldKindV::Message("google.protobuf.Value"@)),
                None => false,
            }
        } else {
            !t.map && begins_with(n, "google.protobuf."@) && !stands_for_json(n)
        },
        _ => true,
    }
}

/// Whether a schema declares the well-known types, as far as it does, as they are read.
pub open spec fn declared_as_read(files: Seq<MessageV>) -> bool {
    forall|name: Seq<char>|
        (#[trigger] message_type(files, name)) is Some && begins_with(name, "google.protobuf."@)
            && !begins_with(name, "google.protobuf.Struct."@) ==> type_as_read(
            files,
            name,
            message_type(files, name)->Some_0,
        )
}

/// Whether a well-known type is declared as it is read.
pub open spec fn type_as_read(files: Seq<MessageV>, name: Seq<char>, t: MessageTypeV) -> bool {
    &&& forall|i: int|
        0 <= i < t.fields.len() ==> field_as_read(files, name, #[trigger] t.fields[i])
    &&& forall|i: int|
        0 <= i < t.extensions.len() ==> (#[trigger] t.extensions[i]).number >= 1000
}

} // verus!
