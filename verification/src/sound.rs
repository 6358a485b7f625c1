//! Descriptors that the protobuf library can work with: the syntax of a file is known, a type that
//! is marked as a map entry has a key and a value, and where a set declares the types of options
//! itself, they can be read. On others the library panics, or goes on without end.
use crate::imports::check_imports;
use crate::message::{find_field, Datum, Message, Scalar};
use crate::once::check_file;
use crate::schema::{
    FIELD_NAME, FIELD_TYPE, FILE_MESSAGE, FILE_PACKAGE, MESSAGE_FIELD, MESSAGE_NESTED,
    MESSAGE_OPTIONS, OPTIONS_MAP_ENTRY,
};
use crate::text::{join3, join4, text_eq};
use vstd::prelude::*;

verus! {

use crate::determinism::same_place;
use crate::message::{
    field_index, field_index_divides, field_index_is, field_value, fields_view, list_view,
    message_views, value_views, with_field, DatumV, MessageV,
};
use crate::imports::{imports_end, private_imports_end};
use crate::once::{file_once, files_once, private_file_once};
use crate::pool::resolves;
use crate::schema::{
    messages_view, normalized_file, normalized_files,
    normalized_message, normalized_message_fields, normalized_message_items,
};
use crate::types::tidy;

/// The number of a field.
pub const FIELD_NUMBER: u32 = 3;

/// The label of a field: optional, required or repeated.
pub const FIELD_LABEL: u32 = 4;

/// The kind of a field.
pub const FIELD_KIND: u32 = 5;

/// The options that were not interpreted.
pub const OPTIONS_UNINTERPRETED: u32 = 999;

/// The name of a message.
pub const MESSAGE_NAME: u32 = 1;

/// The ranges of numbers that extensions of a message may have.
pub const MESSAGE_RANGE: u32 = 5;

/// The syntax of a file.
pub const FILE_SYNTAX: u32 = 12;

/// The enums that are nested in a message.
pub const MESSAGE_ENUM: u32 = 4;

/// The name of an enum.
pub const ENUM_NAME: u32 = 1;

/// The parts of the name of an option that was not interpreted.
pub const OPTION_NAME: u32 = 2;

/// The name of such a part.
pub const PART_NAME: u32 = 1;

/// The first number of such a range.
pub const RANGE_START: u32 = 1;

/// The message in a field, if there is one.
pub open spec fn message_in(m: MessageV, number: u32) -> Option<MessageV> {
    match field_value(m.fields, number) {
        Some(DatumV::Message(x)) => Some(x),
        _ => None,
    }
}

/// The values of a list in a field; none where there is no list.
pub open spec fn values_in(m: MessageV, number: u32) -> Seq<DatumV> {
    match field_value(m.fields, number) {
        Some(DatumV::List(l)) => l,
        _ => Seq::empty(),
    }
}

/// Whether options leave it open if a message is a map entry: an option of that name is not
/// interpreted yet.
pub open spec fn leaves_open(options: MessageV) -> bool {
    exists|i: int|
        0 <= i < values_in(options, OPTIONS_UNINTERPRETED).len() && names_the_mark(
            #[trigger] values_in(options, OPTIONS_UNINTERPRETED)[i],
        )
}

/// Whether the name of an option that is not interpreted yet begins as that of the mark of map
/// entries.
pub open spec fn names_the_mark(option: DatumV) -> bool {
    match option {
        DatumV::Message(o) => {
            let parts = values_in(o, OPTION_NAME);
            parts.len() > 0 && match parts[0] {
                DatumV::Message(p) => text_in(p, PART_NAME) == "map_entry"@,
                _ => false,
            }
        },
        _ => false,
    }
}

/// Whether a message is marked as a map entry.
pub open spec fn is_entry(m: MessageV) -> bool {
    match message_in(m, MESSAGE_OPTIONS) {
        Some(o) => field_value(o.fields, OPTIONS_MAP_ENTRY) == Some(
            DatumV::Scalar(Scalar::Bool(true)),
        ),
        None => false,
    }
}

/// Whether a kind is one that the key of a map can have: an integer, a boolean or a string.
pub open spec fn is_key_kind(kind: i32) -> bool {
    3 <= kind <= 9 || kind == 13 || 15 <= kind <= 18
}

/// Whether a descriptor is that of the field with this number.
pub open spec fn has_number(v: DatumV, number: i32) -> bool {
    v is Message && field_value(v->Message_0.fields, FIELD_NUMBER) == Some(
        DatumV::Scalar(Scalar::I32(number)),
    )
}

/// Whether a field can be the key of a map. One that names a type has the kind of that type.
pub open spec fn is_key(f: MessageV) -> bool {
    text_in(f, FIELD_TYPE).len() == 0 && match field_value(f.fields, FIELD_KIND) {
        Some(DatumV::Scalar(Scalar::Enum(kind))) => is_key_kind(kind),
        _ => false,
    }
}

/// Whether there are a key and a value among the fields of a map entry.
pub open spec fn entry_fields_sound(fields: Seq<DatumV>) -> bool {
    &&& exists|i: int| 0 <= i < fields.len() && has_number(#[trigger] fields[i], 1)
    &&& exists|i: int| 0 <= i < fields.len() && has_number(#[trigger] fields[i], 2)
    &&& forall|i: int|
        0 <= i < fields.len() && has_number(#[trigger] fields[i], 1) ==> is_key(
            fields[i]->Message_0,
        )
}

/// The text in a field; none where there is no text.
pub open spec fn text_in(m: MessageV, number: u32) -> Seq<char> {
    match field_value(m.fields, number) {
        Some(DatumV::Text(t)) => t,
        _ => Seq::empty(),
    }
}

/// The full name of a message in this scope.
pub open spec fn scoped(scope: Seq<char>, m: MessageV) -> Seq<char> {
    if scope.len() == 0 {
        text_in(m, MESSAGE_NAME)
    } else {
        scope + "."@ + text_in(m, MESSAGE_NAME)
    }
}

/// The kind of an option that is read: a boolean, a string or an enum.
pub open spec fn option_kind(full: Seq<char>, n: i32) -> Option<i32> {
    if full == "google.protobuf.FileOptions"@ {
        if n == 1 || n == 8 || n == 11 || n == 36 || n == 37 || 39 <= n <= 41 || n == 44 || n == 45 {
            Some(9)
        } else if n == 10 || 16 <= n <= 18 || n == 20 || n == 23 || n == 27 || n == 31 || n == 42 {
            Some(8)
        } else if n == 9 {
            Some(14)
        } else {
            None
        }
    } else if full == "google.protobuf.FieldOptions"@ {
        if n == 2 || n == 3 || n == 5 || n == 10 {
            Some(8)
        } else if n == 1 || n == 6 {
            Some(14)
        } else {
            None
        }
    } else if full == "google.protobuf.MethodOptions"@ && n == 34 {
        Some(14)
    } else if full == "google.protobuf.MessageOptions"@ && (1 <= n <= 3 || n == 7) {
        Some(8)
    } else if full == "google.protobuf.EnumOptions"@ && (n == 2 || n == 3) {
        Some(8)
    } else if full == "google.protobuf.EnumValueOptions"@ && n == 1 {
        Some(8)
    } else if (full == "google.protobuf.ServiceOptions"@ || full
        == "google.protobuf.MethodOptions"@) && n == 33 {
        Some(8)
    } else {
        None
    }
}

/// Whether a type of this name is one of options.
pub open spec fn is_options(full: Seq<char>) -> bool {
    full == "google.protobuf.FileOptions"@ || full == "google.protobuf.FieldOptions"@ || full
        == "google.protobuf.MethodOptions"@ || full == "google.protobuf.MessageOptions"@ || full
        == "google.protobuf.EnumOptions"@ || full == "google.protobuf.EnumValueOptions"@ || full
        == "google.protobuf.ServiceOptions"@ || full == "google.protobuf.OneofOptions"@ || full
        == "google.protobuf.ExtensionRangeOptions"@
}

/// Whether a name is that of an enum in the type of this name, with a dot in front.
pub open spec fn names_enum(full: Seq<char>, enums: Seq<DatumV>, name: Seq<char>) -> bool {
    exists|i: int|
        0 <= i < enums.len() && #[trigger] enums[i] is Message && name == "."@ + full + "."@
            + text_in(enums[i]->Message_0, ENUM_NAME)
}

/// Whether a field of a type of this name, with these enums, can be read as the option that it is.
pub open spec fn option_sound(full: Seq<char>, enums: Seq<DatumV>, v: DatumV) -> bool {
    match v {
        DatumV::Message(f) => match field_value(f.fields, FIELD_NUMBER) {
            Some(DatumV::Scalar(Scalar::I32(n))) => match option_kind(full, n) {
                Some(kind) => {
                    &&& field_value(f.fields, FIELD_KIND) == Some(
                        DatumV::Scalar(Scalar::Enum(kind)),
                    )
                    &&& field_value(f.fields, FIELD_LABEL) != Some(DatumV::Scalar(Scalar::Enum(3)))
                    &&& if kind == 14 {
                        names_enum(full, enums, text_in(f, FIELD_TYPE))
                    } else {
                        text_in(f, FIELD_TYPE).len() == 0
                    }
                    &&& full == "google.protobuf.MessageOptions"@ && n == OPTIONS_MAP_ENTRY
                        ==> text_in(f, FIELD_NAME) == "map_entry"@
                },
                None => true,
            },
            _ => true,
        },
        _ => true,
    }
}

/// Whether the extensions of a type of options are no options that are read.
pub open spec fn range_sound(v: DatumV) -> bool {
    match v {
        DatumV::Message(r) => match field_value(r.fields, RANGE_START) {
            Some(DatumV::Scalar(Scalar::I32(n))) => n >= 1000,
            _ => false,
        },
        _ => false,
    }
}

/// Whether a type of options can be read.
pub open spec fn options_sound(
    full: Seq<char>,
    fields: Seq<DatumV>,
    enums: Seq<DatumV>,
    ranges: Seq<DatumV>,
) -> bool {
    is_options(full) ==> (forall|i: int|
        0 <= i < fields.len() ==> option_sound(full, enums, #[trigger] fields[i])) && (forall|
        i: int,
    |
        0 <= i < ranges.len() ==> range_sound(#[trigger] ranges[i]))
}

/// Whether the descriptor of a message in this scope, and those nested in it, are sound.
pub open spec fn sound_message(m: MessageV, scope: Seq<char>) -> bool
    decreases m,
{
    &&& match message_in(m, MESSAGE_OPTIONS) {
        Some(o) => !leaves_open(o),
        None => true,
    }
    &&& is_entry(m) ==> entry_fields_sound(values_in(m, MESSAGE_FIELD))
    &&& options_sound(
        scoped(scope, m),
        values_in(m, MESSAGE_FIELD),
        values_in(m, MESSAGE_ENUM),
        values_in(m, MESSAGE_RANGE),
    )
    &&& sound_parts(m.fields, MESSAGE_NESTED, scoped(scope, m))
}

/// Whether the messages that are listed in the fields with this number are sound.
pub open spec fn sound_parts(f: Seq<(u32, DatumV)>, number: u32, scope: Seq<char>) -> bool
    decreases f,
{
    forall|i: int|
        0 <= i < f.len() ==> ((#[trigger] f[i]).0 == number ==> sound_list(f[i].1, scope))
}

/// Whether the messages of a list are sound.
pub open spec fn sound_list(v: DatumV, scope: Seq<char>) -> bool
    decreases v,
{
    match v {
        DatumV::List(l) => forall|i: int| 0 <= i < l.len() ==> sound_item(#[trigger] l[i], scope),
        _ => true,
    }
}

/// Whether a message in a list is sound.
pub open spec fn sound_item(v: DatumV, scope: Seq<char>) -> bool
    decreases v,
{
    match v {
        DatumV::Message(m) => sound_message(m, scope),
        _ => true,
    }
}

/// Whether the syntax of a file is one that is known.
pub open spec fn syntax_known(f: MessageV) -> bool {
    match field_value(f.fields, FILE_SYNTAX) {
        None => true,
        Some(DatumV::Text(t)) => t == "proto2"@ || t == "proto3"@,
        _ => false,
    }
}

/// Whether the syntax of a file is known, and all its messages are sound.
pub open spec fn sound_file(f: MessageV) -> bool {
    syntax_known(f) && sound_parts(f.fields, FILE_MESSAGE, text_in(f, FILE_PACKAGE))
}

/// Whether all files of a schema are sound, say each thing once and are calm, and public imports
/// come to an end.
pub open spec fn sound(files: Seq<MessageV>) -> bool {
    &&& files_once(files, true)
    &&& imports_end(files)
    &&& forall|i: int| 0 <= i < files.len() ==> sound_file(#[trigger] files[i])
}

/// Whether files make a sound schema that the language can declare.
pub open spec fn usable(files: Seq<MessageV>) -> bool {
    sound(files) && resolves(files) && tidy(files)
}

fn find_message(m: &Message, number: u32) -> (r: Option<&Message>)
    ensures
        match (r, message_in(m@, number)) {
            (Some(x), Some(v)) => x@ == v,
            (None, None) => true,
            _ => false,
        },
{
    broadcast use message_views;
    broadcast use value_views;

    let i = find_field(&m.fields, number);
    if i < m.fields.len() {
        if let Datum::Message(x) = &m.fields[i].1 {
            return Some(x);
        }
    }
    None
}

fn find_values(m: &Message, number: u32) -> (r: Option<&Vec<Datum>>)
    ensures
        match r {
            Some(l) => values_in(m@, number) == list_view(l@),
            None => values_in(m@, number) == Seq::<DatumV>::empty(),
        },
{
    broadcast use message_views;
    broadcast use value_views;

    let i = find_field(&m.fields, number);
    if i < m.fields.len() {
        if let Datum::List(l) = &m.fields[i].1 {
            return Some(l);
        }
    }
    None
}

fn find_scalar(m: &Message, number: u32) -> (r: Option<Scalar>)
    ensures
        r == match field_value(m@.fields, number) {
            Some(DatumV::Scalar(s)) => Some(s),
            _ => None,
        },
{
    broadcast use message_views;
    broadcast use value_views;

    let i = find_field(&m.fields, number);
    if i < m.fields.len() {
        if let Datum::Scalar(s) = &m.fields[i].1 {
            return Some(*s);
        }
    }
    None
}

fn options_leave_open(o: &Message) -> (r: bool)
    ensures
        r == leaves_open(o@),
{
    let ghost options = values_in(o@, OPTIONS_UNINTERPRETED);
    if let Some(l) = find_values(o, OPTIONS_UNINTERPRETED) {
        let mut i: usize = 0;
        while i < l.len()
            invariant
                i <= l@.len(),
                options == list_view(l@),
                options == values_in(o@, OPTIONS_UNINTERPRETED),
                forall|k: int| 0 <= k < i ==> !names_the_mark(#[trigger] options[k]),
            decreases l@.len() - i,
        {
            assert(options[i as int] == l@[i as int]@);
            if option_names_the_mark(&l[i]) {
                return true;
            }
            i += 1;
        }
    }
    false
}

fn option_names_the_mark(v: &Datum) -> (r: bool)
    ensures
        r == names_the_mark(v@),
{
    broadcast use value_views;

    if let Datum::Message(o) = v {
        if let Some(parts) = find_values(o, OPTION_NAME) {
            if parts.len() > 0 {
                assert(list_view(parts@)[0] == parts@[0]@);
                if let Datum::Message(p) = &parts[0] {
                    let name = text_of(p, PART_NAME);
                    return text_eq(name.as_str(), "map_entry");
                }
            }
        }
    }
    false
}

fn number_is(f: &Message, number: i32) -> (r: bool)
    ensures
        r == has_number(DatumV::Message(f@), number),
{
    match find_scalar(f, FIELD_NUMBER) {
        Some(Scalar::I32(n)) => n == number,
        _ => false,
    }
}

fn field_is_key(f: &Message) -> (r: bool)
    ensures
        r == is_key(f@),
{
    let named = text_of(f, FIELD_TYPE);
    named.as_str().unicode_len() == 0 && match find_scalar(f, FIELD_KIND) {
        Some(Scalar::Enum(k)) => (3 <= k && k <= 9) || k == 13 || (15 <= k && k <= 18),
        _ => false,
    }
}

fn check_entry_fields(fields: &Vec<Datum>) -> (r: bool)
    ensures
        r == entry_fields_sound(list_view(fields@)),
{
    broadcast use value_views;

    let ghost all = list_view(fields@);
    let mut key = false;
    let mut value = false;
    let mut i: usize = 0;
    while i < fields.len()
        invariant
            i <= fields@.len(),
            all == list_view(fields@),
            key == exists|k: int| 0 <= k < i && has_number(#[trigger] all[k], 1),
            value == exists|k: int| 0 <= k < i && has_number(#[trigger] all[k], 2),
            forall|k: int|
                0 <= k < i && has_number(#[trigger] all[k], 1) ==> is_key(all[k]->Message_0),
        decreases fields@.len() - i,
    {
        assert(all[i as int] == fields@[i as int]@);
        if let Datum::Message(f) = &fields[i] {
            assert(all[i as int] == DatumV::Message(f@));
            if number_is(f, 1) {
                if !field_is_key(f) {
                    return false;
                }
                key = true;
            }
            if number_is(f, 2) {
                value = true;
            }
        }
        i += 1;
    }
    key && value
}

fn text_of(m: &Message, number: u32) -> (r: String)
    ensures
        r@ == text_in(m@, number),
{
    broadcast use message_views;
    broadcast use value_views;

    let i = find_field(&m.fields, number);
    if i < m.fields.len() {
        if let Datum::Text(t) = &m.fields[i].1 {
            return t.clone();
        }
    }
    let r = String::new();
    assert(r@ =~= Seq::empty());
    r
}

fn scope_of(scope: &str, m: &Message) -> (r: String)
    ensures
        r@ == scoped(scope@, m@),
{
    let name = text_of(m, MESSAGE_NAME);
    if scope.unicode_len() == 0 {
        name
    } else {
        join3(scope, ".", name.as_str())
    }
}

fn option_kind_of(full: &str, n: i32) -> (r: Option<i32>)
    ensures
        r == option_kind(full@, n),
{
    if text_eq(full, "google.protobuf.FileOptions") {
        if n == 1 || n == 8 || n == 11 || n == 36 || n == 37 || (39 <= n && n <= 41) || n == 44
            || n == 45 {
            Some(9)
        } else if n == 10 || (16 <= n && n <= 18) || n == 20 || n == 23 || n == 27 || n == 31
            || n == 42 {
            Some(8)
        } else if n == 9 {
            Some(14)
        } else {
            None
        }
    } else if text_eq(full, "google.protobuf.FieldOptions") {
        if n == 2 || n == 3 || n == 5 || n == 10 {
            Some(8)
        } else if n == 1 || n == 6 {
            Some(14)
        } else {
            None
        }
    } else if text_eq(full, "google.protobuf.MethodOptions") && n == 34 {
        Some(14)
    } else if text_eq(full, "google.protobuf.MessageOptions") && ((1 <= n && n <= 3) || n == 7) {
        Some(8)
    } else if text_eq(full, "google.protobuf.EnumOptions") && (n == 2 || n == 3) {
        Some(8)
    } else if text_eq(full, "google.protobuf.EnumValueOptions") && n == 1 {
        Some(8)
    } else if (text_eq(full, "google.protobuf.ServiceOptions") || text_eq(
        full,
        "google.protobuf.MethodOptions",
    )) && n == 33 {
        Some(8)
    } else {
        None
    }
}

fn names_options(full: &str) -> (r: bool)
    ensures
        r == is_options(full@),
{
    text_eq(full, "google.protobuf.FileOptions") || text_eq(full, "google.protobuf.FieldOptions")
        || text_eq(full, "google.protobuf.MethodOptions") || text_eq(
        full,
        "google.protobuf.MessageOptions",
    ) || text_eq(full, "google.protobuf.EnumOptions") || text_eq(
        full,
        "google.protobuf.EnumValueOptions",
    ) || text_eq(full, "google.protobuf.ServiceOptions") || text_eq(
        full,
        "google.protobuf.OneofOptions",
    ) || text_eq(full, "google.protobuf.ExtensionRangeOptions")
}

fn is_enum_name(full: &str, m: &Message, name: &str) -> (r: bool)
    ensures
        r == names_enum(full@, values_in(m@, MESSAGE_ENUM), name@),
{
    broadcast use value_views;

    let ghost enums = values_in(m@, MESSAGE_ENUM);
    if let Some(l) = find_values(m, MESSAGE_ENUM) {
        let mut i: usize = 0;
        while i < l.len()
            invariant
                i <= l@.len(),
                enums == list_view(l@),
                enums == values_in(m@, MESSAGE_ENUM),
                forall|k: int|
                    0 <= k < i && #[trigger] enums[k] is Message ==> name@ != "."@ + full@ + "."@
                        + text_in(enums[k]->Message_0, ENUM_NAME),
            decreases l@.len() - i,
        {
            assert(enums[i as int] == l@[i as int]@);
            if let Datum::Message(e) = &l[i] {
                assert(enums[i as int] == DatumV::Message(e@));
                let own = text_of(e, ENUM_NAME);
                let whole = join4(".", full, ".", own.as_str());
                if text_eq(name, whole.as_str()) {
                    return true;
                }
            }
            i += 1;
        }
    }
    false
}

fn check_option(full: &str, m: &Message, v: &Datum) -> (r: bool)
    ensures
        r == option_sound(full@, values_in(m@, MESSAGE_ENUM), v@),
{
    let f = match v {
        Datum::Message(f) => f,
        _ => {
            return true;
        },
    };
    let n = match find_scalar(f, FIELD_NUMBER) {
        Some(Scalar::I32(n)) => n,
        _ => {
            return true;
        },
    };
    let kind = match option_kind_of(full, n) {
        Some(kind) => kind,
        None => {
            return true;
        },
    };
    let repeated = match find_scalar(f, FIELD_LABEL) {
        Some(Scalar::Enum(l)) => l == 3,
        _ => false,
    };
    let named = text_of(f, FIELD_TYPE);
    let typed = if kind == 14 {
        is_enum_name(full, m, named.as_str())
    } else {
        named.as_str().unicode_len() == 0
    };
    let name = text_of(f, FIELD_NAME);
    let marked = !text_eq(full, "google.protobuf.MessageOptions") || n != 7 || text_eq(
        name.as_str(),
        "map_entry",
    );
    !repeated && typed && marked && match find_scalar(f, FIELD_KIND) {
        Some(Scalar::Enum(k)) => k == kind,
        _ => false,
    }
}

fn check_range(v: &Datum) -> (r: bool)
    ensures
        r == range_sound(v@),
{
    match v {
        Datum::Message(m) => match find_scalar(m, RANGE_START) {
            Some(Scalar::I32(n)) => n >= 1000,
            _ => false,
        },
        _ => false,
    }
}

fn check_options(full: &str, m: &Message) -> (r: bool)
    ensures
        r == options_sound(
            full@,
            values_in(m@, MESSAGE_FIELD),
            values_in(m@, MESSAGE_ENUM),
            values_in(m@, MESSAGE_RANGE),
        ),
{
    if !names_options(full) {
        return true;
    }
    let ghost fields = values_in(m@, MESSAGE_FIELD);
    let ghost ranges = values_in(m@, MESSAGE_RANGE);
    if let Some(l) = find_values(m, MESSAGE_FIELD) {
        let mut i: usize = 0;
        while i < l.len()
            invariant
                i <= l@.len(),
                fields == list_view(l@),
                fields == values_in(m@, MESSAGE_FIELD),
                is_options(full@),
                forall|k: int|
                    0 <= k < i ==> option_sound(
                        full@,
                        values_in(m@, MESSAGE_ENUM),
                        #[trigger] fields[k],
                    ),
            decreases l@.len() - i,
        {
            assert(fields[i as int] == l@[i as int]@);
            if !check_option(full, m, &l[i]) {
                return false;
            }
            i += 1;
        }
    }
    if let Some(l) = find_values(m, MESSAGE_RANGE) {
        let mut i: usize = 0;
        while i < l.len()
            invariant
                i <= l@.len(),
                ranges == list_view(l@),
                ranges == values_in(m@, MESSAGE_RANGE),
                is_options(full@),
                forall|k: int| 0 <= k < i ==> range_sound(#[trigger] ranges[k]),
            decreases l@.len() - i,
        {
            assert(ranges[i as int] == l@[i as int]@);
            if !check_range(&l[i]) {
                return false;
            }
            i += 1;
        }
    }
    true
}

fn check_message(m: &Message, scope: &str) -> (r: bool)
    ensures
        r == sound_message(m@, scope@),
    decreases m, 1nat,
{
    let mut entry = false;
    if let Some(o) = find_message(m, MESSAGE_OPTIONS) {
        if options_leave_open(o) {
            return false;
        }
        if let Some(Scalar::Bool(b)) = find_scalar(o, OPTIONS_MAP_ENTRY) {
            entry = b;
        }
    }
    assert(entry == is_entry(m@));
    match find_values(m, MESSAGE_FIELD) {
        Some(fields) => {
            if entry && !check_entry_fields(fields) {
                return false;
            }
        },
        None => {
            if entry {
                assert(!entry_fields_sound(values_in(m@, MESSAGE_FIELD)));
                return false;
            }
        },
    }
    let full = scope_of(scope, m);
    check_options(full.as_str(), m) && check_parts(m, MESSAGE_NESTED, full.as_str())
}

fn check_list(v: &Datum, scope: &str) -> (r: bool)
    ensures
        r == sound_list(v@, scope@),
    decreases v, 0nat,
{
    broadcast use value_views;

    let l = match v {
        Datum::List(l) => l,
        _ => {
            return true;
        },
    };
    let ghost lv = list_view(l@);
    assert(v@ == DatumV::List(lv));
    let mut k: usize = 0;
    while k < l.len()
        invariant
            decreases_to!(v => l),
            k <= l@.len(),
            lv == list_view(l@),
            v@ == DatumV::List(lv),
            forall|j: int| 0 <= j < k ==> sound_item(#[trigger] lv[j], scope@),
        decreases l@.len() - k,
    {
        assert(lv[k as int] == l@[k as int]@);
        if let Datum::Message(x) = &l[k] {
            assert(lv[k as int] == DatumV::Message(x@));
            if !check_message(x, scope) {
                assert(!sound_item(v@->List_0[k as int], scope@));
                return false;
            }
        }
        k += 1;
    }
    true
}

fn check_parts(m: &Message, number: u32, scope: &str) -> (r: bool)
    ensures
        r == sound_parts(m@.fields, number, scope@),
    decreases m, 0nat,
{
    broadcast use message_views;

    let f = &m.fields;
    let ghost fv = m@.fields;
    assert(fv == fields_view(f@));
    let mut i: usize = 0;
    while i < f.len()
        invariant
            decreases_to!(m => f),
            i <= f@.len(),
            fv == m@.fields,
            fv == fields_view(f@),
            forall|k: int|
                0 <= k < i ==> ((#[trigger] fv[k]).0 == number ==> sound_list(fv[k].1, scope@)),
        decreases f@.len() - i,
    {
        assert(fv[i as int] == (f@[i as int].0, f@[i as int].1@));
        if f[i].0 == number && !check_list(&f[i].1, scope) {
            return false;
        }
        i += 1;
    }
    true
}

fn check_syntax(f: &Message) -> (r: bool)
    ensures
        r == syntax_known(f@),
{
    broadcast use message_views;
    broadcast use value_views;

    let i = find_field(&f.fields, FILE_SYNTAX);
    if i < f.fields.len() {
        match &f.fields[i].1 {
            Datum::Text(t) => text_eq(t.as_str(), "proto2") || text_eq(t.as_str(), "proto3"),
            _ => false,
        }
    } else {
        true
    }
}

/// Checks that all files of a schema are sound.
pub fn check_files(files: &Vec<Message>) -> (r: bool)
    requires
        files_once(messages_view(files@), false),
    ensures
        r == sound(messages_view(files@)),
{
    let ghost all = messages_view(files@);
    if !check_imports(files) {
        return false;
    }
    let mut i: usize = 0;
    while i < files.len()
        invariant
            i <= files@.len(),
            all == messages_view(files@),
            files_once(all, false),
            imports_end(all),
            forall|k: int| 0 <= k < i ==> sound_file(#[trigger] all[k]),
            forall|k: int| 0 <= k < i ==> file_once(#[trigger] all[k], true),
        decreases files@.len() - i,
    {
        assert(all[i as int] == files@[i as int]@);
        assert(file_once(all[i as int], false));
        if !check_file(&files[i]) {
            assert(!file_once(all[i as int], true));
            return false;
        }
        if !check_syntax(&files[i]) {
            assert(!sound_file(all[i as int]));
            return false;
        }
        let package = text_of(&files[i], FILE_PACKAGE);
        if !check_parts(&files[i], FILE_MESSAGE, package.as_str()) {
            assert(!sound_file(all[i as int]));
            return false;
        }
        i += 1;
    }
    true
}

/// Setting a field leaves the others as they are.
pub proof fn with_field_keeps(f: Seq<(u32, DatumV)>, number: u32, v: DatumV, other: u32)
    requires
        number != other,
    ensures
        field_value(with_field(f, number, v), other) == field_value(f, other),
{
    field_index_divides(f, other);
    field_index_divides(f, number);
    let p = field_index(f, other) as int;
    let h = with_field(f, number, v);
    field_index_is(
        h,
        other,
        if p == f.len() {
            h.len() as int
        } else {
            p
        },
    );
}

/// The private copy of sound files is sound.
pub proof fn private_copy_is_sound(files: Seq<MessageV>, structural: bool)
    requires
        sound(files),
    ensures
        sound(normalized_files(files, structural)),
{
    let copy = normalized_files(files, structural);
    private_imports_end(files, structural);
    assert forall|i: int| 0 <= i < copy.len() implies file_once(#[trigger] copy[i], true) by {
        assert(file_once(files[i], true));
        private_file_once(files[i], structural, true);
    }
    assert forall|i: int| 0 <= i < copy.len() implies sound_file(#[trigger] copy[i]) by {
        assert(sound_file(files[i]));
        file_stays_sound(files[i], structural);
    }
}

/// Whether a scope in the private copy is the one that the schema has, or is private.
spec fn kept_scope(structural: bool, old_scope: Seq<char>, new_scope: Seq<char>) -> bool {
    if structural {
        new_scope.len() > 0 && new_scope[0] == 'p'
    } else {
        new_scope == old_scope
    }
}

proof fn file_stays_sound(f: MessageV, structural: bool)
    requires
        sound_file(f),
    ensures
        sound_file(normalized_file(f, structural)),
{
    let n = normalized_file(f, structural);
    let g = n.fields;
    let parts = Seq::new(
        f.fields.len(),
        |i: int|
            {
                let number = f.fields[i].0;
                (
                    number,
                    if number == FILE_MESSAGE {
                        crate::schema::normalized_message_list(f.fields[i].1, structural)
                    } else if number == crate::schema::FILE_EXTENSION {
                        crate::schema::normalized_field_list(f.fields[i].1, structural)
                    } else if number == crate::schema::FILE_SERVICE {
                        crate::schema::normalized_services(f.fields[i].1, structural)
                    } else {
                        f.fields[i].1
                    },
                )
            },
    );
    let old_scope = text_in(f, FILE_PACKAGE);
    let new_scope = text_in(n, FILE_PACKAGE);
    same_place(f.fields, parts, FILE_SYNTAX);
    field_index_divides(f.fields, FILE_SYNTAX);
    assert(field_value(parts, FILE_SYNTAX) == field_value(f.fields, FILE_SYNTAX));
    if structural {
        let package = crate::schema::normalized_package(field_value(f.fields, FILE_PACKAGE));
        assert(g == with_field(parts, FILE_PACKAGE, DatumV::Text(package)));
        field_index_divides(parts, FILE_PACKAGE);
        let p = field_index(parts, FILE_PACKAGE) as int;
        field_index_is(g, FILE_PACKAGE, p);
        assert(new_scope == package);
        with_field_keeps(parts, FILE_PACKAGE, DatumV::Text(package), FILE_SYNTAX);
        reveal_strlit("protolark_internal");
        assert(package[0] == 'p');
    } else {
        assert(g == parts);
        same_place(f.fields, parts, FILE_PACKAGE);
        field_index_divides(f.fields, FILE_PACKAGE);
        assert(new_scope == old_scope);
    }
    assert forall|i: int| 0 <= i < parts.len() && (
    #[trigger] parts[i]).0 == FILE_MESSAGE implies sound_list(parts[i].1, new_scope) by {
        assert(parts[i].0 == f.fields[i].0);
        list_stays_sound(f.fields[i].1, structural, old_scope, new_scope);
    }
    if structural {
        field_index_divides(parts, FILE_PACKAGE);
        let p = field_index(parts, FILE_PACKAGE) as int;
        assert forall|i: int| 0 <= i < g.len() && (#[trigger] g[i]).0 == FILE_MESSAGE
            implies sound_list(g[i].1, new_scope) by {
            if i != p {
                assert(g[i] == parts[i]);
            }
        }
    }
}

proof fn list_stays_sound(
    v: DatumV,
    structural: bool,
    old_scope: Seq<char>,
    new_scope: Seq<char>,
)
    requires
        sound_list(v, old_scope),
        kept_scope(structural, old_scope, new_scope),
    ensures
        sound_list(crate::schema::normalized_message_list(v, structural), new_scope),
    decreases v, 0nat,
{
    if let DatumV::List(l) = v {
        let k = normalized_message_items(l, structural);
        assert forall|i: int| 0 <= i < k.len() implies sound_item(#[trigger] k[i], new_scope) by {
            assert(sound_item(l[i], old_scope));
            if let DatumV::Message(m) = l[i] {
                message_stays_sound(m, structural, old_scope, new_scope);
            }
        }
    }
}

/// A private name is not that of a type of options.
proof fn private_is_no_option(full: Seq<char>)
    requires
        full.len() > 0,
        full[0] == 'p',
    ensures
        !is_options(full),
{
    reveal_strlit("google.protobuf.FileOptions");
    reveal_strlit("google.protobuf.FieldOptions");
    reveal_strlit("google.protobuf.MethodOptions");
    reveal_strlit("google.protobuf.MessageOptions");
    reveal_strlit("google.protobuf.EnumOptions");
    reveal_strlit("google.protobuf.EnumValueOptions");
    reveal_strlit("google.protobuf.ServiceOptions");
    reveal_strlit("google.protobuf.OneofOptions");
    reveal_strlit("google.protobuf.ExtensionRangeOptions");
}

proof fn message_stays_sound(
    m: MessageV,
    structural: bool,
    old_scope: Seq<char>,
    new_scope: Seq<char>,
)
    requires
        sound_message(m, old_scope),
        kept_scope(structural, old_scope, new_scope),
    ensures
        sound_message(normalized_message(m, structural), new_scope),
    decreases m, 1nat,
{
    let n = normalized_message(m, structural);
    let f = m.fields;
    let g = normalized_message_fields(f, structural);
    same_place(f, g, MESSAGE_OPTIONS);
    same_place(f, g, MESSAGE_FIELD);
    same_place(f, g, MESSAGE_NAME);
    same_place(f, g, MESSAGE_RANGE);
    same_place(f, g, MESSAGE_ENUM);
    field_index_divides(f, MESSAGE_ENUM);
    field_index_divides(f, MESSAGE_OPTIONS);
    field_index_divides(f, MESSAGE_FIELD);
    field_index_divides(f, MESSAGE_NAME);
    field_index_divides(f, MESSAGE_RANGE);
    if let Some(o) = message_in(m, MESSAGE_OPTIONS) {
        let mark = DatumV::Scalar(Scalar::Bool(false));
        let h = with_field(o.fields, OPTIONS_MAP_ENTRY, mark);
        with_field_keeps(o.fields, OPTIONS_MAP_ENTRY, mark, OPTIONS_UNINTERPRETED);
        field_index_divides(o.fields, OPTIONS_MAP_ENTRY);
        field_index_is(h, OPTIONS_MAP_ENTRY, field_index(o.fields, OPTIONS_MAP_ENTRY) as int);
        let q = MessageV { fields: h, ..o };
        assert(message_in(n, MESSAGE_OPTIONS) == Some(q));
        assert(values_in(q, OPTIONS_UNINTERPRETED) == values_in(o, OPTIONS_UNINTERPRETED));
        assert(leaves_open(q) == leaves_open(o));
    } else {
        assert(message_in(n, MESSAGE_OPTIONS) is None);
    }
    assert(!is_entry(n));
    let old_full = scoped(old_scope, m);
    let new_full = scoped(new_scope, n);
    assert(text_in(n, MESSAGE_NAME) == text_in(m, MESSAGE_NAME));
    assert(values_in(n, MESSAGE_RANGE) == values_in(m, MESSAGE_RANGE));
    assert(values_in(n, MESSAGE_ENUM) == values_in(m, MESSAGE_ENUM));
    assert(kept_scope(structural, old_full, new_full));
    if !structural {
        let old_fields = values_in(m, MESSAGE_FIELD);
        let new_fields = values_in(n, MESSAGE_FIELD);
        let enums = values_in(m, MESSAGE_ENUM);
        assert forall|i: int| 0 <= i < new_fields.len() && is_options(new_full)
            implies option_sound(new_full, enums, #[trigger] new_fields[i]) by {
            assert(option_sound(old_full, enums, old_fields[i]));
            assert(new_fields[i] == old_fields[i]);
        }
    } else {
        private_is_no_option(new_full);
    }
    assert forall|i: int| 0 <= i < g.len() && (#[trigger] g[i]).0 == MESSAGE_NESTED
        implies sound_list(g[i].1, new_full) by {
        assert(g[i].0 == f[i].0);
        list_stays_sound(f[i].1, structural, old_full, new_full);
    }
}

} // verus!
