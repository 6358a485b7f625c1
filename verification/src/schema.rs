//! Schemas: descriptor files as messages of `google/protobuf/descriptor.proto`, the merge of
//! descriptor sets, and the private copy of a schema that is used for serialization.
//!
//! `prost-reflect` holds maps in hash maps, and treats the types of `google.protobuf` in a way
//! of their own in JSON. In the private copy map fields are repeated entry messages, whose order
//! the library decides. The copy for structural input has private type names besides, and JSON
//! names that are the names of the fields. Numbers, kinds, cardinalities, packing and defaults
//! stay as they are, and so does the wire format.
use crate::message::{find_field, put_field, remove_field, Message, Scalar, Datum};
use crate::error::CodecError;
use crate::order::find_slot;
use crate::pool::read_set;
use crate::text::{join2, join3, optional_eq, text_eq, trim_start};
use vstd::prelude::*;

verus! {

use crate::message::{
    field_index, field_index_divides, field_index_is, field_value, fields_view, list_view,
    message_views, value_views, with_field, without_field, DatumV, MessageV,
};
use crate::equality::alike;
use crate::error::Fault;
use crate::order::{ascending, ascending_insert, keys_of, slot, slot_divides};
use crate::pool::set_files;
use crate::text::{
    optional_text, text_less, text_less_irreflexive, text_less_total, trimmed,
};

/// `FileDescriptorProto.name`.
pub const FILE_NAME: u32 = 1;

/// `FileDescriptorProto.package`.
pub const FILE_PACKAGE: u32 = 2;

/// `FileDescriptorProto.message_type`.
pub const FILE_MESSAGE: u32 = 4;

/// `FileDescriptorProto.service`.
pub const FILE_SERVICE: u32 = 6;

/// `FileDescriptorProto.extension`.
pub const FILE_EXTENSION: u32 = 7;

/// `FileDescriptorProto.source_code_info`.
pub const FILE_SOURCE_INFO: u32 = 9;

/// `DescriptorProto.field`.
pub const MESSAGE_FIELD: u32 = 2;

/// `DescriptorProto.nested_type`.
pub const MESSAGE_NESTED: u32 = 3;

/// `DescriptorProto.extension`.
pub const MESSAGE_EXTENSION: u32 = 6;

/// `DescriptorProto.options`.
pub const MESSAGE_OPTIONS: u32 = 7;

/// `MessageOptions.map_entry`.
pub const OPTIONS_MAP_ENTRY: u32 = 7;

/// `FieldDescriptorProto.name`.
pub const FIELD_NAME: u32 = 1;

/// `FieldDescriptorProto.extendee`.
pub const FIELD_EXTENDEE: u32 = 2;

/// The name of the field's message or enum type in `FieldDescriptorProto`.
pub const FIELD_TYPE: u32 = 6;

/// `FieldDescriptorProto.json_name`.
pub const FIELD_JSON_NAME: u32 = 10;

/// `ServiceDescriptorProto.method`.
pub const SERVICE_METHOD: u32 = 2;

/// `MethodDescriptorProto.input_type`.
pub const METHOD_INPUT: u32 = 2;

/// `MethodDescriptorProto.output_type`.
pub const METHOD_OUTPUT: u32 = 3;

/// The package of the private copy for structural input.
pub open spec fn private_package() -> Seq<char> {
    "protolark_internal"@
}

/// The name of a type in the private copy, as other parts of the schema refer to it.
pub open spec fn private_reference(name: Seq<char>) -> Seq<char> {
    "."@ + private_package() + "."@ + trimmed(name, '.')
}

/// The full name of a type in the private copy.
pub open spec fn private_name(name: Seq<char>) -> Seq<char> {
    private_package() + "."@ + name
}

/// A reference to a type, made private.
pub open spec fn private_value(v: DatumV) -> DatumV {
    match v {
        DatumV::Text(t) => DatumV::Text(private_reference(t)),
        _ => v,
    }
}

/// The descriptor with the references in two of its fields made private.
pub open spec fn private_references(m: MessageV, a: u32, b: u32) -> MessageV {
    MessageV {
        fields: Seq::new(
            m.fields.len(),
            |i: int|
                if m.fields[i].0 == a || m.fields[i].0 == b {
                    (m.fields[i].0, private_value(m.fields[i].1))
                } else {
                    m.fields[i]
                },
        ),
        ..m
    }
}

/// The descriptor of a field in the private copy.
pub open spec fn normalized_field(f: MessageV, structural: bool) -> MessageV {
    if structural {
        let g = private_references(f, FIELD_TYPE, FIELD_EXTENDEE);
        MessageV {
            fields: match field_value(f.fields, FIELD_NAME) {
                Some(name) => with_field(g.fields, FIELD_JSON_NAME, name),
                None => without_field(g.fields, FIELD_JSON_NAME),
            },
            ..g
        }
    } else {
        f
    }
}

/// Applies to each descriptor of a field in a list.
pub open spec fn normalized_field_list(v: DatumV, structural: bool) -> DatumV {
    match v {
        DatumV::List(l) => DatumV::List(
            Seq::new(
                l.len(),
                |i: int|
                    match l[i] {
                        DatumV::Message(f) => DatumV::Message(normalized_field(f, structural)),
                        other => other,
                    },
            ),
        ),
        _ => v,
    }
}

/// The options of a message, with the mark of a map entry taken off.
pub open spec fn unmarked(v: DatumV) -> DatumV {
    match v {
        DatumV::Message(o) => DatumV::Message(
            MessageV {
                fields: with_field(
                    o.fields,
                    OPTIONS_MAP_ENTRY,
                    DatumV::Scalar(Scalar::Bool(false)),
                ),
                ..o
            },
        ),
        _ => v,
    }
}

/// The descriptor of a message in the private copy.
pub open spec fn normalized_message(m: MessageV, structural: bool) -> MessageV
    decreases m,
{
    MessageV {
        full_name: m.full_name,
        fields: normalized_message_fields(m.fields, structural),
        extensions: m.extensions,
        unknown: m.unknown,
    }
}

/// The fields of the descriptor of a message in the private copy.
pub open spec fn normalized_message_fields(f: Seq<(u32, DatumV)>, structural: bool) -> Seq<
    (u32, DatumV),
>
    decreases f,
{
    Seq::new(
        f.len(),
        |i: int|
            if 0 <= i < f.len() {
                let number = f[i].0;
                (
                    number,
                    if number == MESSAGE_OPTIONS {
                        unmarked(f[i].1)
                    } else if number == MESSAGE_FIELD || number == MESSAGE_EXTENSION {
                        normalized_field_list(f[i].1, structural)
                    } else if number == MESSAGE_NESTED {
                        normalized_message_list(f[i].1, structural)
                    } else {
                        f[i].1
                    },
                )
            } else {
                f[i]
            },
    )
}

/// Applies to each descriptor of a message in a list.
pub open spec fn normalized_message_list(v: DatumV, structural: bool) -> DatumV
    decreases v,
{
    match v {
        DatumV::List(l) => DatumV::List(normalized_message_items(l, structural)),
        _ => v,
    }
}

/// The descriptors of messages, one by one.
pub open spec fn normalized_message_items(l: Seq<DatumV>, structural: bool) -> Seq<DatumV>
    decreases l,
{
    Seq::new(
        l.len(),
        |i: int|
            if 0 <= i < l.len() {
                normalized_message_item(l[i], structural)
            } else {
                l[i]
            },
    )
}

/// The descriptor of a message in a list.
pub open spec fn normalized_message_item(v: DatumV, structural: bool) -> DatumV
    decreases v,
{
    match v {
        DatumV::Message(m) => DatumV::Message(normalized_message(m, structural)),
        _ => v,
    }
}

/// The descriptor of a service, with private references in its methods.
pub open spec fn private_service(v: DatumV) -> DatumV {
    match v {
        DatumV::Message(s) => DatumV::Message(
            MessageV {
                fields: Seq::new(
                    s.fields.len(),
                    |i: int|
                        if s.fields[i].0 == SERVICE_METHOD {
                            (s.fields[i].0, private_methods(s.fields[i].1))
                        } else {
                            s.fields[i]
                        },
                ),
                ..s
            },
        ),
        _ => v,
    }
}

/// The methods of a service, with private references.
pub open spec fn private_methods(v: DatumV) -> DatumV {
    match v {
        DatumV::List(l) => DatumV::List(
            Seq::new(
                l.len(),
                |i: int|
                    match l[i] {
                        DatumV::Message(m) => DatumV::Message(
                            private_references(m, METHOD_INPUT, METHOD_OUTPUT),
                        ),
                        other => other,
                    },
            ),
        ),
        _ => v,
    }
}

/// The services of a file, with private references in the copy for structural input.
pub open spec fn normalized_services(v: DatumV, structural: bool) -> DatumV {
    match v {
        DatumV::List(l) => if structural {
            DatumV::List(Seq::new(l.len(), |i: int| private_service(l[i])))
        } else {
            v
        },
        _ => v,
    }
}

/// The package of a file in the copy for structural input.
pub open spec fn normalized_package(package: Option<DatumV>) -> Seq<char> {
    match package {
        Some(DatumV::Text(p)) => if p.len() == 0 {
            private_package()
        } else {
            private_name(p)
        },
        _ => private_package(),
    }
}

/// A file of the private copy.
pub open spec fn normalized_file(f: MessageV, structural: bool) -> MessageV {
    let fields = Seq::new(
        f.fields.len(),
        |i: int|
            {
                let number = f.fields[i].0;
                (
                    number,
                    if number == FILE_MESSAGE {
                        normalized_message_list(f.fields[i].1, structural)
                    } else if number == FILE_EXTENSION {
                        normalized_field_list(f.fields[i].1, structural)
                    } else if number == FILE_SERVICE {
                        normalized_services(f.fields[i].1, structural)
                    } else {
                        f.fields[i].1
                    },
                )
            },
    );
    MessageV {
        fields: if structural {
            with_field(
                fields,
                FILE_PACKAGE,
                DatumV::Text(normalized_package(field_value(f.fields, FILE_PACKAGE))),
            )
        } else {
            fields
        },
        ..f
    }
}

/// The files of the private copy.
pub open spec fn normalized_files(files: Seq<MessageV>, structural: bool) -> Seq<MessageV> {
    Seq::new(files.len(), |i: int| normalized_file(files[i], structural))
}

/// Whether files are those of a private copy of some schema. Such a schema has no maps: no type
/// of it is marked as a map entry.
pub open spec fn private(files: Seq<MessageV>) -> bool {
    exists|original: Seq<MessageV>, structural: bool|
        files == #[trigger] normalized_files(original, structural)
}

/// What messages are.
pub open spec fn messages_view(v: Seq<Message>) -> Seq<MessageV> {
    Seq::new(v.len(), |i: int| v[i]@)
}

fn private_reference_of(name: &str) -> (r: String)
    ensures
        r@ == private_reference(name@),
{
    let t = trim_start(name, '.');
    let p = join3(".", "protolark_internal", ".");
    join2(p.as_str(), t.as_str())
}

/// The full name of a type in the private copy.
pub fn private_name_of(name: &str) -> (r: String)
    ensures
        r@ == private_name(name@),
{
    join3("protolark_internal", ".", name)
}

fn private_references_of(m: &Message, a: u32, b: u32) -> (r: Message)
    ensures
        r@ == private_references(m@, a, b),
{
    broadcast use message_views;

    let ghost want = private_references(m@, a, b);
    let mut fields: Vec<(u32, Datum)> = Vec::new();
    let mut i: usize = 0;
    while i < m.fields.len()
        invariant
            i <= m.fields@.len(),
            want == private_references(m@, a, b),
            m@.fields == fields_view(m.fields@),
            fields@.len() == i,
            forall|k: int| 0 <= k < i ==> (fields@[k].0, fields@[k].1@) == want.fields[k],
        decreases m.fields@.len() - i,
    {
        let number = m.fields[i].0;
        let value = if number == a || number == b {
            match &m.fields[i].1 {
                Datum::Text(t) => Datum::Text(private_reference_of(t.as_str())),
                other => other.copy(),
            }
        } else {
            m.fields[i].1.copy()
        };
        assert(m@.fields[i as int] == (number, m.fields@[i as int].1@));
        assert((number, value@) == want.fields[i as int]);
        fields.push((number, value));
        i += 1;
    }
    let rest = m.copy();
    let r = Message {
        full_name: rest.full_name,
        fields,
        extensions: rest.extensions,
        unknown: rest.unknown,
    };
    assert(r@.fields =~= want.fields);
    r
}

fn normalized_field_of(f: &Message, structural: bool) -> (r: Message)
    ensures
        r@ == normalized_field(f@, structural),
{
    broadcast use message_views;

    if !structural {
        return f.copy();
    }
    let mut g = private_references_of(f, FIELD_TYPE, FIELD_EXTENDEE);
    let i = find_field(&f.fields, FIELD_NAME);
    if i < f.fields.len() {
        let name = f.fields[i].1.copy();
        assert(field_value(f@.fields, FIELD_NAME) == Some(name@));
        put_field(&mut g.fields, FIELD_JSON_NAME, name);
    } else {
        remove_field(&mut g.fields, FIELD_JSON_NAME);
    }
    g
}

fn normalized_field_list_of(v: &Datum, structural: bool) -> (r: Datum)
    ensures
        r@ == normalized_field_list(v@, structural),
{
    broadcast use value_views;

    match v {
        Datum::List(l) => {
            let ghost want = normalized_field_list(v@, structural);
            let mut out: Vec<Datum> = Vec::new();
            let mut i: usize = 0;
            while i < l.len()
                invariant
                    i <= l@.len(),
                    v@ == DatumV::List(list_view(l@)),
                    want == normalized_field_list(v@, structural),
                    out@.len() == i,
                    forall|k: int| 0 <= k < i ==> out@[k]@ == want->List_0[k],
                decreases l@.len() - i,
            {
                let item = match &l[i] {
                    Datum::Message(f) => Datum::Message(normalized_field_of(f, structural)),
                    other => other.copy(),
                };
                assert(list_view(l@)[i as int] == l@[i as int]@);
                out.push(item);
                i += 1;
            }
            assert(list_view(out@) =~= want->List_0);
            Datum::List(out)
        },
        other => other.copy(),
    }
}

fn unmarked_of(v: &Datum) -> (r: Datum)
    ensures
        r@ == unmarked(v@),
{
    broadcast use message_views;

    match v {
        Datum::Message(o) => {
            let mut r = o.copy();
            let mark = Datum::Scalar(Scalar::Bool(false));
            assert(mark@ == DatumV::Scalar(Scalar::Bool(false)));
            put_field(&mut r.fields, OPTIONS_MAP_ENTRY, mark);
            assert(r@ == unmarked(v@)->Message_0);
            Datum::Message(r)
        },
        other => other.copy(),
    }
}

fn normalized_message_of(m: &Message, structural: bool) -> (r: Message)
    ensures
        r@ == normalized_message(m@, structural),
    decreases m,
{
    broadcast use message_views;

    let ghost want = normalized_message_fields(m@.fields, structural);
    let mut fields: Vec<(u32, Datum)> = Vec::new();
    let mut i: usize = 0;
    while i < m.fields.len()
        invariant
            i <= m.fields@.len(),
            m@.fields == fields_view(m.fields@),
            want == normalized_message_fields(m@.fields, structural),
            fields@.len() == i,
            forall|k: int| 0 <= k < i ==> (fields@[k].0, fields@[k].1@) == want[k],
        decreases m.fields@.len() - i,
    {
        let number = m.fields[i].0;
        let value = if number == MESSAGE_OPTIONS {
            unmarked_of(&m.fields[i].1)
        } else if number == MESSAGE_FIELD || number == MESSAGE_EXTENSION {
            normalized_field_list_of(&m.fields[i].1, structural)
        } else if number == MESSAGE_NESTED {
            normalized_message_list_of(&m.fields[i].1, structural)
        } else {
            m.fields[i].1.copy()
        };
        assert(m@.fields[i as int] == (number, m.fields@[i as int].1@));
        fields.push((number, value));
        i += 1;
    }
    let rest = m.copy();
    let r = Message {
        full_name: rest.full_name,
        fields,
        extensions: rest.extensions,
        unknown: rest.unknown,
    };
    assert(r@.fields =~= want);
    r
}

fn normalized_message_list_of(v: &Datum, structural: bool) -> (r: Datum)
    ensures
        r@ == normalized_message_list(v@, structural),
    decreases v,
{
    broadcast use value_views;

    match v {
        Datum::List(l) => {
            let ghost want = normalized_message_items(list_view(l@), structural);
            let mut out: Vec<Datum> = Vec::new();
            let mut i: usize = 0;
            while i < l.len()
                invariant
                    decreases_to!(v => l),
                    i <= l@.len(),
                    want == normalized_message_items(list_view(l@), structural),
                    out@.len() == i,
                    forall|k: int| 0 <= k < i ==> out@[k]@ == want[k],
                decreases l@.len() - i,
            {
                let item = match &l[i] {
                    Datum::Message(m) => Datum::Message(normalized_message_of(m, structural)),
                    other => other.copy(),
                };
                assert(list_view(l@)[i as int] == l@[i as int]@);
                assert(item@ == normalized_message_item(l@[i as int]@, structural));
                out.push(item);
                i += 1;
            }
            assert(list_view(out@) =~= want);
            Datum::List(out)
        },
        other => other.copy(),
    }
}

fn private_methods_of(v: &Datum) -> (r: Datum)
    ensures
        r@ == private_methods(v@),
{
    broadcast use value_views;

    match v {
        Datum::List(l) => {
            let ghost want = private_methods(v@);
            let mut out: Vec<Datum> = Vec::new();
            let mut i: usize = 0;
            while i < l.len()
                invariant
                    i <= l@.len(),
                    v@ == DatumV::List(list_view(l@)),
                    want == private_methods(v@),
                    out@.len() == i,
                    forall|k: int| 0 <= k < i ==> out@[k]@ == want->List_0[k],
                decreases l@.len() - i,
            {
                let item = match &l[i] {
                    Datum::Message(m) => Datum::Message(
                        private_references_of(m, METHOD_INPUT, METHOD_OUTPUT),
                    ),
                    other => other.copy(),
                };
                assert(list_view(l@)[i as int] == l@[i as int]@);
                out.push(item);
                i += 1;
            }
            assert(list_view(out@) =~= want->List_0);
            Datum::List(out)
        },
        other => other.copy(),
    }
}

fn private_service_of(v: &Datum) -> (r: Datum)
    ensures
        r@ == private_service(v@),
{
    broadcast use message_views;

    match v {
        Datum::Message(s) => {
            let ghost want = private_service(v@)->Message_0;
            let mut fields: Vec<(u32, Datum)> = Vec::new();
            let mut i: usize = 0;
            while i < s.fields.len()
                invariant
                    i <= s.fields@.len(),
                    v@ == DatumV::Message(s@),
                    s@.fields == fields_view(s.fields@),
                    want == private_service(v@)->Message_0,
                    fields@.len() == i,
                    forall|k: int| 0 <= k < i ==> (fields@[k].0, fields@[k].1@) == want.fields[k],
                decreases s.fields@.len() - i,
            {
                let number = s.fields[i].0;
                let value = if number == SERVICE_METHOD {
                    private_methods_of(&s.fields[i].1)
                } else {
                    s.fields[i].1.copy()
                };
                assert(s@.fields[i as int] == (number, s.fields@[i as int].1@));
                fields.push((number, value));
                i += 1;
            }
            let rest = s.copy();
            let r = Message {
                full_name: rest.full_name,
                fields,
                extensions: rest.extensions,
                unknown: rest.unknown,
            };
            assert(r@.fields =~= want.fields);
            Datum::Message(r)
        },
        other => other.copy(),
    }
}

fn normalized_services_of(v: &Datum, structural: bool) -> (r: Datum)
    ensures
        r@ == normalized_services(v@, structural),
{
    broadcast use value_views;

    if !structural {
        return v.copy();
    }
    match v {
        Datum::List(l) => {
            let ghost want = normalized_services(v@, structural);
            let mut out: Vec<Datum> = Vec::new();
            let mut i: usize = 0;
            while i < l.len()
                invariant
                    i <= l@.len(),
                    structural,
                    v@ == DatumV::List(list_view(l@)),
                    want == normalized_services(v@, structural),
                    out@.len() == i,
                    forall|k: int| 0 <= k < i ==> out@[k]@ == want->List_0[k],
                decreases l@.len() - i,
            {
                assert(list_view(l@)[i as int] == l@[i as int]@);
                out.push(private_service_of(&l[i]));
                i += 1;
            }
            assert(list_view(out@) =~= want->List_0);
            Datum::List(out)
        },
        other => other.copy(),
    }
}

fn normalized_package_of(f: &Vec<(u32, Datum)>) -> (r: String)
    ensures
        r@ == normalized_package(field_value(fields_view(f@), FILE_PACKAGE)),
{
    let i = find_field(f, FILE_PACKAGE);
    if i < f.len() {
        if let Datum::Text(p) = &f[i].1 {
            if p.as_str().unicode_len() > 0 {
                return private_name_of(p.as_str());
            }
        }
    }
    "protolark_internal".to_owned()
}

fn normalized_file_of(f: &Message, structural: bool) -> (r: Message)
    ensures
        r@ == normalized_file(f@, structural),
{
    broadcast use message_views;

    let ghost mapped = Seq::new(
        f@.fields.len(),
        |i: int|
            {
                let number = f@.fields[i].0;
                (
                    number,
                    if number == FILE_MESSAGE {
                        normalized_message_list(f@.fields[i].1, structural)
                    } else if number == FILE_EXTENSION {
                        normalized_field_list(f@.fields[i].1, structural)
                    } else if number == FILE_SERVICE {
                        normalized_services(f@.fields[i].1, structural)
                    } else {
                        f@.fields[i].1
                    },
                )
            },
    );
    let mut fields: Vec<(u32, Datum)> = Vec::new();
    let mut i: usize = 0;
    while i < f.fields.len()
        invariant
            i <= f.fields@.len(),
            f@.fields == fields_view(f.fields@),
            mapped.len() == f.fields@.len(),
            forall|k: int|
                0 <= k < mapped.len() ==> {
                    let number = f@.fields[k].0;
                    #[trigger] mapped[k] == (
                        number,
                        if number == FILE_MESSAGE {
                            normalized_message_list(f@.fields[k].1, structural)
                        } else if number == FILE_EXTENSION {
                            normalized_field_list(f@.fields[k].1, structural)
                        } else if number == FILE_SERVICE {
                            normalized_services(f@.fields[k].1, structural)
                        } else {
                            f@.fields[k].1
                        },
                    )
                },
            fields@.len() == i,
            forall|k: int| 0 <= k < i ==> (fields@[k].0, fields@[k].1@) == mapped[k],
        decreases f.fields@.len() - i,
    {
        let number = f.fields[i].0;
        let value = if number == FILE_MESSAGE {
            normalized_message_list_of(&f.fields[i].1, structural)
        } else if number == FILE_EXTENSION {
            normalized_field_list_of(&f.fields[i].1, structural)
        } else if number == FILE_SERVICE {
            normalized_services_of(&f.fields[i].1, structural)
        } else {
            f.fields[i].1.copy()
        };
        assert(f@.fields[i as int] == (number, f.fields@[i as int].1@));
        assert((number, value@) == mapped[i as int]);
        fields.push((number, value));
        i += 1;
    }
    assert(fields_view(fields@) =~= mapped);
    if structural {
        let package = normalized_package_of(&f.fields);
        put_field(&mut fields, FILE_PACKAGE, Datum::Text(package));
    }
    let rest = f.copy();
    Message { full_name: rest.full_name, fields, extensions: rest.extensions, unknown: rest.unknown }
}

/// Makes the private copy of a schema.
pub fn normalize_files(files: &Vec<Message>, structural: bool) -> (r: Vec<Message>)
    ensures
        messages_view(r@) == normalized_files(messages_view(files@), structural),
{
    let mut r: Vec<Message> = Vec::new();
    let mut i: usize = 0;
    while i < files.len()
        invariant
            i <= files@.len(),
            r@.len() == i,
            forall|k: int| 0 <= k < i ==> r@[k]@ == normalized_file(files@[k]@, structural),
        decreases files@.len() - i,
    {
        r.push(normalized_file_of(&files[i], structural));
        i += 1;
    }
    assert(messages_view(r@) =~= normalized_files(messages_view(files@), structural));
    r
}

/// The name of a file.
pub open spec fn file_name(f: MessageV) -> Option<Seq<char>> {
    match field_value(f.fields, FILE_NAME) {
        Some(DatumV::Text(n)) => Some(n),
        _ => None,
    }
}

/// The name of a file, empty where it has none.
pub open spec fn shown_name(f: MessageV) -> Seq<char> {
    match file_name(f) {
        Some(n) => n,
        None => Seq::empty(),
    }
}

/// The file without its source locations, which are no part of the schema.
pub open spec fn without_source(f: MessageV) -> MessageV {
    MessageV { fields: without_field(f.fields, FILE_SOURCE_INFO), ..f }
}

/// How many files at the front have another name.
pub open spec fn file_index(files: Seq<MessageV>, name: Option<Seq<char>>) -> nat
    decreases files.len(),
{
    if files.len() == 0 || file_name(files[0]) == name {
        0
    } else {
        1 + file_index(files.drop_first(), name)
    }
}

/// The files with one more, unless a file of its name is among them: then it must be the same.
pub open spec fn merged_one(files: Seq<MessageV>, f: MessageV) -> Result<Seq<MessageV>, Fault> {
    let g = without_source(f);
    let i = file_index(files, file_name(g)) as int;
    if i < files.len() {
        if alike(files[i], g) {
            Ok(files)
        } else {
            Err(Fault::Conflict(shown_name(g)))
        }
    } else {
        Ok(files.push(g))
    }
}

/// The files with the first `n` of `more`, in the order in which their names came first.
pub open spec fn merged(files: Seq<MessageV>, more: Seq<MessageV>, n: nat) -> Result<
    Seq<MessageV>,
    Fault,
>
    decreases n,
{
    if n == 0 {
        Ok(files)
    } else {
        match merged(files, more, (n - 1) as nat) {
            Ok(all) => merged_one(all, more[n - 1]),
            Err(e) => Err(e),
        }
    }
}

/// What decides where a file stands.
proof fn file_index_is(files: Seq<MessageV>, name: Option<Seq<char>>, p: int)
    requires
        0 <= p <= files.len(),
        forall|i: int| 0 <= i < p ==> file_name(files[i]) != name,
        p < files.len() ==> file_name(files[p]) == name,
    ensures
        file_index(files, name) == p,
    decreases p,
{
    if p > 0 {
        assert(file_name(files[0]) != name);
        file_index_is(files.drop_first(), name, p - 1);
    }
}

fn file_name_of(f: &Message) -> (r: Option<String>)
    ensures
        optional_text(r) == file_name(f@),
{
    broadcast use message_views;

    let i = find_field(&f.fields, FILE_NAME);
    if i < f.fields.len() {
        if let Datum::Text(n) = &f.fields[i].1 {
            return Some(n.clone());
        }
    }
    None
}

fn without_source_of(f: &Message) -> (r: Message)
    ensures
        r@ == without_source(f@),
{
    broadcast use message_views;

    let mut g = f.copy();
    remove_field(&mut g.fields, FILE_SOURCE_INFO);
    g
}

fn find_file(files: &Vec<Message>, name: &Option<String>) -> (r: usize)
    ensures
        r == file_index(messages_view(files@), optional_text(*name)),
        r <= files@.len(),
{
    let ghost all = messages_view(files@);
    let mut i: usize = 0;
    while i < files.len()
        invariant
            i <= files@.len(),
            all == messages_view(files@),
            forall|j: int| 0 <= j < i ==> file_name(all[j]) != optional_text(*name),
        decreases files@.len() - i,
    {
        let other = file_name_of(&files[i]);
        assert(all[i as int] == files@[i as int]@);
        if optional_eq(&other, name) {
            proof {
                file_index_is(all, optional_text(*name), i as int);
            }
            return i;
        }
        i += 1;
    }
    proof {
        file_index_is(all, optional_text(*name), i as int);
    }
    i
}

/// Adds files to those that are there.
pub fn merge_files(files: &mut Vec<Message>, more: &Vec<Message>) -> (r: Result<(), CodecError>)
    ensures
        match merged(messages_view(old(files)@), messages_view(more@), more@.len()) {
            Ok(all) => r is Ok && messages_view(final(files)@) == all,
            Err(e) => r matches Err(x) && x@ == e,
        },
{
    let ghost start = messages_view(files@);
    let ghost new = messages_view(more@);
    let mut k: usize = 0;
    while k < more.len()
        invariant
            k <= more@.len(),
            start == messages_view(old(files)@),
            new == messages_view(more@),
            merged(start, new, k as nat) == Ok::<Seq<MessageV>, Fault>(messages_view(files@)),
        decreases more@.len() - k,
    {
        let g = without_source_of(&more[k]);
        let name = file_name_of(&g);
        let ghost here = messages_view(files@);
        assert(new[k as int] == more@[k as int]@);
        let i = find_file(files, &name);
        if i < files.len() {
            assert(here[i as int] == files@[i as int]@);
            if !files[i].same(&g) {
                let shown = match name {
                    Some(n) => n,
                    None => String::new(),
                };
                assert(shown@ =~= shown_name(g@));
                proof {
                    merged_stays(start, new, (k + 1) as nat, new.len());
                }
                return Err(CodecError::Conflict(shown));
            }
        } else {
            let ghost gv = g@;
            files.push(g);
            assert(messages_view(files@) =~= here.push(gv));
        }
        k += 1;
    }
    Ok(())
}

/// A conflict is not mended by more files.
proof fn merged_stays(files: Seq<MessageV>, more: Seq<MessageV>, k: nat, n: nat)
    requires
        k <= n,
        merged(files, more, k) is Err,
    ensures
        merged(files, more, n) == merged(files, more, k),
    decreases n,
{
    if k < n {
        merged_stays(files, more, k, (n - 1) as nat);
    }
}

/// The names of files with their names.
pub open spec fn index_names(index: Seq<(Seq<char>, MessageV)>) -> Seq<Seq<char>> {
    Seq::new(index.len(), |i: int| index[i].0)
}

/// An index of files by name with one more file, unless one of its name is there: then it must be
/// the same.
pub open spec fn indexed_one(index: Seq<(Seq<char>, MessageV)>, f: MessageV) -> Result<
    Seq<(Seq<char>, MessageV)>,
    Fault,
> {
    let g = without_source(f);
    match file_name(g) {
        None => Err(Fault::MissingFilename),
        Some(name) => {
            let i = slot(index_names(index), name) as int;
            if i < index.len() && index[i].0 == name {
                if alike(index[i].1, g) {
                    Ok(index)
                } else {
                    Err(Fault::Conflict(name))
                }
            } else {
                Ok(index.insert(i, (name, g)))
            }
        },
    }
}

/// An index with the first `n` of more files.
pub open spec fn indexed(index: Seq<(Seq<char>, MessageV)>, more: Seq<MessageV>, n: nat) -> Result<
    Seq<(Seq<char>, MessageV)>,
    Fault,
>
    decreases n,
{
    if n == 0 {
        Ok(index)
    } else {
        match indexed(index, more, (n - 1) as nat) {
            Ok(all) => indexed_one(all, more[n - 1]),
            Err(e) => Err(e),
        }
    }
}

/// The index of the files of the first `n` descriptor sets.
pub open spec fn indexed_sets(sets: Seq<Seq<u8>>, n: nat) -> Result<
    Seq<(Seq<char>, MessageV)>,
    Fault,
>
    decreases n,
{
    if n == 0 {
        Ok(Seq::empty())
    } else {
        match indexed_sets(sets, (n - 1) as nat) {
            Err(e) => Err(e),
            Ok(index) => match set_files(sets[n - 1]) {
                None => Err(Fault::DescriptorSet((n - 1) as nat)),
                Some(more) => indexed(index, more, more.len()),
            },
        }
    }
}

/// What names and files are.
pub open spec fn index_view(v: Seq<(String, Message)>) -> Seq<(Seq<char>, MessageV)> {
    Seq::new(v.len(), |i: int| (v[i].0@, v[i].1@))
}

proof fn indexed_stays(index: Seq<(Seq<char>, MessageV)>, more: Seq<MessageV>, k: nat, n: nat)
    requires
        k <= n,
        indexed(index, more, k) is Err,
    ensures
        indexed(index, more, n) == indexed(index, more, k),
    decreases n,
{
    if k < n {
        indexed_stays(index, more, k, (n - 1) as nat);
    }
}

proof fn indexed_sets_stay(sets: Seq<Seq<u8>>, k: nat, n: nat)
    requires
        k <= n,
        indexed_sets(sets, k) is Err,
    ensures
        indexed_sets(sets, n) == indexed_sets(sets, k),
    decreases n,
{
    if k < n {
        indexed_sets_stay(sets, k, (n - 1) as nat);
    }
}

fn index_files(index: &mut Vec<(String, Message)>, more: &Vec<Message>) -> (r: Result<
    (),
    CodecError,
>)
    requires
        ascending(index_names(index_view(old(index)@))),
    ensures
        match indexed(index_view(old(index)@), messages_view(more@), more@.len()) {
            Ok(all) => r is Ok && index_view(final(index)@) == all && ascending(index_names(all)),
            Err(e) => r matches Err(x) && x@ == e,
        },
{
    let ghost start = index_view(index@);
    let ghost new = messages_view(more@);
    let mut k: usize = 0;
    while k < more.len()
        invariant
            k <= more@.len(),
            start == index_view(old(index)@),
            new == messages_view(more@),
            ascending(index_names(index_view(index@))),
            indexed(start, new, k as nat) == Ok::<Seq<(Seq<char>, MessageV)>, Fault>(
                index_view(index@),
            ),
        decreases more@.len() - k,
    {
        assert(new[k as int] == more@[k as int]@);
        proof {
            if indexed(start, new, (k + 1) as nat) is Err {
                indexed_stays(start, new, (k + 1) as nat, new.len());
            }
        }
        let ghost here = index_view(index@);
        let g = without_source_of(&more[k]);
        let name = match file_name_of(&g) {
            Some(name) => name,
            None => {
                return Err(CodecError::MissingFilename);
            },
        };
        let ghost keys = index_names(here);
        assert(keys =~= keys_of(index@));
        let p = find_slot(index, name.as_str());
        proof {
            slot_divides(keys, name@);
        }
        if p < index.len() && text_eq(index[p].0.as_str(), name.as_str()) {
            assert(here[p as int] == (index@[p as int].0@, index@[p as int].1@));
            if !index[p].1.same(&g) {
                return Err(CodecError::Conflict(name));
            }
        } else {
            proof {
                assert forall|i: int| 0 <= i < keys.len() implies keys[i] != name@ by {
                    text_less_irreflexive(name@);
                    if i == p {
                        assert(keys[i] == index@[i].0@);
                    } else if i > p {
                        text_less_total(keys[p as int], name@);
                        assert(keys[p as int] == index@[p as int].0@);
                        if keys[i] == name@ {
                            assert(text_less(keys[p as int], keys[i]));
                        }
                    }
                }
                ascending_insert(keys, name@);
            }
            let ghost pair = (name@, g@);
            index.insert(p, (name, g));
            assert(index_view(index@) =~= here.insert(p as int, pair));
            assert(index_names(index_view(index@)) =~= keys.insert(p as int, pair.0));
        }
        k += 1;
    }
    Ok(())
}

/// The files of descriptor sets in the order of their names. Source locations are no part of the
/// schema and may vary between sets, so they are left out.
pub fn load_descriptors(sets: &Vec<Vec<u8>>) -> (r: Result<Vec<Message>, CodecError>)
    ensures
        match (r, indexed_sets(sets_view(sets@), sets@.len())) {
            (Ok(files), Ok(index)) => messages_view(files@) == Seq::new(
                index.len(),
                |i: int| index[i].1,
            ) && ascending(index_names(index)),
            (Err(e), Err(f)) => e@ == f,
            _ => false,
        },
{
    let ghost all = sets_view(sets@);
    let mut index: Vec<(String, Message)> = Vec::new();
    assert(index_view(index@) =~= Seq::empty());
    let mut i: usize = 0;
    while i < sets.len()
        invariant
            i <= sets@.len(),
            all == sets_view(sets@),
            ascending(index_names(index_view(index@))),
            indexed_sets(all, i as nat) == Ok::<Seq<(Seq<char>, MessageV)>, Fault>(
                index_view(index@),
            ),
        decreases sets@.len() - i,
    {
        assert(all[i as int] == sets@[i as int]@);
        proof {
            if indexed_sets(all, (i + 1) as nat) is Err {
                indexed_sets_stay(all, (i + 1) as nat, all.len());
            }
        }
        let more = match read_set(&sets[i]) {
            Ok(more) => more,
            Err(e) => {
                return Err(CodecError::DescriptorSet(i, e));
            },
        };
        if let Err(e) = index_files(&mut index, &more) {
            return Err(e);
        }
        i += 1;
    }
    let ghost done = index_view(index@);
    let mut files: Vec<Message> = Vec::new();
    let mut k: usize = 0;
    while k < index.len()
        invariant
            k <= index@.len(),
            done == index_view(index@),
            files@.len() == k,
            forall|j: int| 0 <= j < k ==> files@[j]@ == done[j].1,
        decreases index@.len() - k,
    {
        assert(done[k as int] == (index@[k as int].0@, index@[k as int].1@));
        files.push(index[k].1.copy());
        k += 1;
    }
    assert(messages_view(files@) =~= Seq::new(done.len(), |i: int| done[i].1));
    Ok(files)
}

/// What descriptor sets are.
pub open spec fn sets_view(sets: Seq<Vec<u8>>) -> Seq<Seq<u8>> {
    Seq::new(sets.len(), |i: int| sets[i]@)
}

/// The private copy leaves a field what it is on the wire: its number, label, type, default,
/// options and oneof stay as they are. Only the names of types and the JSON name change, and for
/// ProtoJSON not even those.
pub proof fn normalized_field_keeps_the_wire(f: MessageV, structural: bool, number: u32)
    requires
        number != FIELD_TYPE,
        number != FIELD_EXTENDEE,
        number != FIELD_JSON_NAME,
    ensures
        field_value(normalized_field(f, structural).fields, number) == field_value(
            f.fields,
            number,
        ),
        normalized_field(f, false) == f,
{
    if structural {
        let g = private_references(f, FIELD_TYPE, FIELD_EXTENDEE).fields;
        field_index_divides(f.fields, number);
        let p = field_index(f.fields, number) as int;
        assert forall|i: int| 0 <= i < g.len() implies (#[trigger] g[i]).0 == f.fields[i].0 by {}
        assert forall|i: int| 0 <= i < p implies g[i].0 != number by {
            assert(f.fields[i].0 != number);
        }
        field_index_is(g, number, p);
        field_index_divides(g, FIELD_JSON_NAME);
        let q = field_index(g, FIELD_JSON_NAME) as int;
        match field_value(f.fields, FIELD_NAME) {
            Some(name) => {
                let h = with_field(g, FIELD_JSON_NAME, name);
                field_index_is(
                    h,
                    number,
                    if p == g.len() {
                        h.len() as int
                    } else {
                        p
                    },
                );
            },
            None => {
                let h = without_field(g, FIELD_JSON_NAME);
                if q < g.len() {
                    let r = if p <= q {
                        if p == g.len() {
                            h.len() as int
                        } else {
                            p
                        }
                    } else {
                        p - 1
                    };
                    assert forall|i: int| 0 <= i < r implies h[i].0 != number by {
                        if i < q {
                            assert(h[i] == g[i]);
                        } else {
                            assert(h[i] == g[i + 1]);
                        }
                    }
                    field_index_is(h, number, r);
                }
            },
        }
    }
}

/// The private copy leaves the rest of a message what it is: its name, enums, ranges, oneofs and
/// reserved numbers stay as they are, and it keeps as many fields, extensions and nested types.
pub proof fn normalized_message_keeps_the_rest(m: MessageV, structural: bool, i: int)
    requires
        0 <= i < m.fields.len(),
    ensures
        normalized_message(m, structural).fields.len() == m.fields.len(),
        ({
            let n = normalized_message(m, structural).fields[i];
            &&& n.0 == m.fields[i].0
            &&& n.0 != MESSAGE_OPTIONS && n.0 != MESSAGE_FIELD && n.0 != MESSAGE_EXTENSION && n.0
                != MESSAGE_NESTED ==> n == m.fields[i]
            &&& m.fields[i].1 is List && n.0 != MESSAGE_OPTIONS ==> n.1 is List && n.1->List_0.len()
                == m.fields[i].1->List_0.len()
        }),
{
    let f = m.fields[i].1;
    if let DatumV::List(l) = f {
        assert(normalized_message_items(l, structural).len() == l.len());
    }
}

/// Whether no type in a descriptor of a message is marked as a map entry.
pub open spec fn unmarked_throughout(m: MessageV) -> bool
    decreases m,
{
    unmarked_fields(m.fields)
}

/// The same of the fields of such a descriptor.
pub open spec fn unmarked_fields(f: Seq<(u32, DatumV)>) -> bool
    decreases f,
{
    forall|i: int| 0 <= i < f.len() ==> unmarked_field((#[trigger] f[i]).0, f[i].1)
}

/// The same of one of its fields: the options, or the nested types.
pub open spec fn unmarked_field(number: u32, v: DatumV) -> bool
    decreases v,
{
    match v {
        DatumV::Message(o) => number == MESSAGE_OPTIONS ==> field_value(
            o.fields,
            OPTIONS_MAP_ENTRY,
        ) == Some(DatumV::Scalar(Scalar::Bool(false))),
        DatumV::List(l) => number == MESSAGE_NESTED ==> forall|i: int|
            0 <= i < l.len() ==> unmarked_item(#[trigger] l[i]),
        _ => true,
    }
}

/// The same of a nested type.
pub open spec fn unmarked_item(v: DatumV) -> bool
    decreases v,
{
    match v {
        DatumV::Message(m) => unmarked_throughout(m),
        _ => true,
    }
}

/// No type of the private copy is marked as a map entry, so it has no maps.
pub proof fn private_copy_has_no_maps(m: MessageV, structural: bool)
    ensures
        unmarked_throughout(normalized_message(m, structural)),
    decreases m,
{
    let n = normalized_message(m, structural);
    assert forall|i: int| 0 <= i < n.fields.len() implies unmarked_field(
        (#[trigger] n.fields[i]).0,
        n.fields[i].1,
    ) by {
        let v = m.fields[i].1;
        if n.fields[i].0 == MESSAGE_OPTIONS {
            if let DatumV::Message(o) = v {
                field_index_divides(o.fields, OPTIONS_MAP_ENTRY);
                let p = field_index(o.fields, OPTIONS_MAP_ENTRY) as int;
                let mark = DatumV::Scalar(Scalar::Bool(false));
                let h = with_field(o.fields, OPTIONS_MAP_ENTRY, mark);
                field_index_is(h, OPTIONS_MAP_ENTRY, p);
            }
        } else if n.fields[i].0 == MESSAGE_NESTED {
            if let DatumV::List(l) = v {
                let k = normalized_message_items(l, structural);
                assert(n.fields[i].1 == DatumV::List(k));
                assert forall|j: int| 0 <= j < k.len() implies unmarked_item(#[trigger] k[j]) by {
                    assert(k[j] == normalized_message_item(l[j], structural));
                    if let DatumV::Message(inner) = l[j] {
                        private_copy_has_no_maps(inner, structural);
                    }
                }
            }
        }
    }
}

} // verus!
