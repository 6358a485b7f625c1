//! Which descriptor files are accepted: all that a compiler makes of valid sources are, whatever
//! they declare.
use vstd::prelude::*;

verus! {

use crate::imports::{chain, imports, imports_end, is_import};
use crate::message::{field_index, field_index_divides, field_value, DatumV, MessageV, Scalar};
use crate::once::{
    datum_once, entries_once, escapes_fit, fields_once, file_once, files_once, items_once, mild,
    octal_at, once, typed, value_typed,
};
use crate::schema::shown_name;
use crate::sound::{
    entry_fields_sound, has_number, is_entry, is_key, is_options, leaves_open, message_in,
    names_the_mark, options_sound, scoped, sound, sound_file, sound_item, sound_list, sound_message, sound_parts,
    syntax_known, text_in, values_in,
};
use crate::text::begins_with;

/// Whether a text has no backslash.
pub open spec fn no_escape(t: Seq<char>) -> bool {
    forall|k: int| 0 <= k < t.len() ==> #[trigger] t[k] != '\\'
}

/// The octal digit of this value.
pub open spec fn octal(d: int) -> char {
    (('0' as int) + d) as char
}

/// Bytes as a compiler writes them in a default, all of them as escapes of three octal digits.
pub open spec fn escaped(b: Seq<u8>) -> Seq<char>
    decreases b.len(),
{
    if b.len() == 0 {
        Seq::empty()
    } else {
        seq!['\\', octal(b[0] as int / 64), octal((b[0] as int / 8) % 8), octal(b[0] as int % 8)]
            + escaped(b.drop_first())
    }
}

/// Texts without escapes can be defaults of bytes, and so can the escapes of any bytes.
pub proof fn defaults_of_bytes_fit(t: Seq<char>, b: Seq<u8>)
    ensures
        no_escape(t) ==> escapes_fit(t),
        escapes_fit(escaped(b)),
{
    if no_escape(t) {
        no_escape_fits(t);
    }
    escaped_fits(b);
}

proof fn no_escape_fits(t: Seq<char>)
    requires
        no_escape(t),
    ensures
        escapes_fit(t),
    decreases t.len(),
{
    if t.len() >= 2 {
        let rest = t.skip(1);
        assert forall|k: int| 0 <= k < rest.len() implies #[trigger] rest[k] != '\\' by {
            assert(rest[k] == t[k + 1]);
        }
        no_escape_fits(rest);
    }
}

proof fn escaped_fits(b: Seq<u8>)
    ensures
        escapes_fit(escaped(b)),
    decreases b.len(),
{
    if b.len() > 0 {
        let s = escaped(b);
        let x = b[0] as int;
        escaped_fits(b.drop_first());
        assert(s.skip(4) =~= escaped(b.drop_first()));
        assert(0 <= x / 64 <= 3);
        assert(0 <= (x / 8) % 8 <= 7);
        assert(0 <= x % 8 <= 7);
        assert(s[1] == octal(x / 64) && s[2] == octal((x / 8) % 8) && s[3] == octal(x % 8));
        assert('0' <= s[1] <= '3');
        assert('0' <= s[2] <= '7');
        assert('0' <= s[3] <= '7');
        assert(octal_at(s, 1) && octal_at(s, 2) && octal_at(s, 3));
        assert(s[0] == '\\');
    }
}

/// Whether an option that is not interpreted yet is no message, has a name of at most 32 parts, and is
/// not the mark of map entries.
pub open spec fn is_short_option(v: DatumV) -> bool {
    match v {
        DatumV::Message(o) => field_value(o.fields, 8) is None && match field_value(o.fields, 2) {
            Some(DatumV::List(parts)) => parts.len() <= 32 && (parts.len() > 0 ==> match parts[0] {
                DatumV::Message(p) => field_value(p.fields, 1) != Some(DatumV::Text("map_entry"@)),
                _ => true,
            }),
            _ => true,
        },
        _ => false,
    }
}

/// Whether options in a descriptor that are not interpreted yet are short, and its defaults of bytes
/// are plain, at any depth.
pub open spec fn settled(m: MessageV) -> bool
    decreases m,
{
    &&& field_value(m.fields, 999) matches Some(v) ==> (v matches DatumV::List(l) && forall|i: int|
        0 <= i < l.len() ==> is_short_option(#[trigger] l[i]))
    &&& field_value(m.fields, 5) == Some(DatumV::Scalar(Scalar::Enum(12))) ==> (field_value(
        m.fields,
        7,
    ) matches Some(DatumV::Text(t)) ==> no_escape(t) || exists|b: Seq<u8>| t == escaped(b))
    &&& all_settled(m.fields)
}

/// The same of the values of fields.
pub open spec fn all_settled(f: Seq<(u32, DatumV)>) -> bool
    decreases f,
{
    forall|i: int| 0 <= i < f.len() ==> value_settled((#[trigger] f[i]).1)
}

/// The same of a value.
pub open spec fn value_settled(v: DatumV) -> bool
    decreases v,
{
    match v {
        DatumV::Message(m) => settled(m),
        DatumV::List(l) => forall|i: int| 0 <= i < l.len() ==> value_settled(#[trigger] l[i]),
        DatumV::Entries(e) => forall|i: int|
            0 <= i < e.len() ==> value_settled((#[trigger] e[i]).1),
        _ => true,
    }
}

/// Descriptors that say each thing once, and are settled, are calm.
proof fn settled_is_calm(m: MessageV)
    requires
        once(m, false),
        settled(m),
    ensures
        once(m, true),
    decreases m,
{
    fields_settled_are_calm(m.fields);
    if field_value(m.fields, 5) == Some(DatumV::Scalar(Scalar::Enum(12))) {
        if let Some(DatumV::Text(t)) = field_value(m.fields, 7) {
            if no_escape(t) {
                defaults_of_bytes_fit(t, Seq::empty());
            } else {
                let b = choose|b: Seq<u8>| t == escaped(b);
                defaults_of_bytes_fit(t, b);
            }
        }
    }
    assert(mild(m.fields));
}

proof fn fields_settled_are_calm(f: Seq<(u32, DatumV)>)
    requires
        fields_once(f, false),
        all_settled(f),
    ensures
        fields_once(f, true),
    decreases f,
{
    assert forall|i: int| 0 <= i < f.len() implies datum_once((#[trigger] f[i]).1, true) by {
        assert(datum_once(f[i].1, false));
        value_settled_is_calm(f[i].1);
    }
}

proof fn value_settled_is_calm(v: DatumV)
    requires
        datum_once(v, false),
        value_settled(v),
    ensures
        datum_once(v, true),
    decreases v,
{
    match v {
        DatumV::Message(m) => {
            settled_is_calm(m);
        },
        DatumV::List(l) => {
            assert forall|i: int| 0 <= i < l.len() implies datum_once(#[trigger] l[i], true) by {
                assert(items_once(l, false));
                value_settled_is_calm(l[i]);
            }
            assert(items_once(l, true));
        },
        DatumV::Entries(e) => {
            assert forall|i: int| 0 <= i < e.len() implies datum_once((#[trigger] e[i]).1, true) by {
                assert(entries_once(e, false));
                value_settled_is_calm(e[i].1);
            }
            assert(entries_once(e, true));
        },
        _ => {},
    }
}

/// The text in a field of a descriptor, empty where there is none.
pub open spec fn text_at(m: MessageV, number: u32) -> Seq<char> {
    match field_value(m.fields, number) {
        Some(DatumV::Text(t)) => t,
        _ => Seq::empty(),
    }
}

/// The full name of a type in a scope.
pub open spec fn full_name(scope: Seq<char>, m: MessageV) -> Seq<char> {
    if scope.len() == 0 {
        text_at(m, 1)
    } else {
        scope + seq!['.'] + text_at(m, 1)
    }
}

/// Whether a name is that of a type of options of descriptors, or looks like one.
pub open spec fn like_options(name: Seq<char>) -> bool {
    begins_with(name, "google.protobuf."@) && name.len() >= 7 && name.skip(name.len() - 7)
        == "Options"@
}

/// Whether a kind of fields can be that of keys: all integers, booleans and strings.
pub open spec fn kind_of_keys(kind: i32) -> bool {
    kind == 3 || kind == 4 || kind == 5 || kind == 6 || kind == 7 || kind == 8 || kind == 9 || kind
        == 13 || kind == 15 || kind == 16 || kind == 17 || kind == 18
}

/// Whether a list describes the key and the value of a map.
pub open spec fn describes_an_entry(v: Option<DatumV>) -> bool {
    match v {
        Some(DatumV::List(l)) => l.len() == 2 && match (l[0], l[1]) {
            (DatumV::Message(key), DatumV::Message(value)) => {
                &&& field_value(key.fields, 3) == Some(DatumV::Scalar(Scalar::I32(1)))
                &&& field_value(value.fields, 3) == Some(DatumV::Scalar(Scalar::I32(2)))
                &&& field_value(key.fields, 6) is None
                &&& field_value(key.fields, 5) matches Some(DatumV::Scalar(Scalar::Enum(kind)))
                    && kind_of_keys(kind)
            },
            _ => false,
        },
        _ => false,
    }
}

/// Whether the descriptor of a message is one that a compiler makes: a map entry has a key and a
/// value, and types of options are left out. Nothing else is asked of what it declares.
pub open spec fn compiled_message(m: MessageV, scope: Seq<char>) -> bool
    decreases m,
{
    &&& field_value(m.fields, 7) matches Some(DatumV::Message(o)) ==> (field_value(o.fields, 7)
        == Some(DatumV::Scalar(Scalar::Bool(true))) ==> describes_an_entry(
        field_value(m.fields, 2),
    ))
    &&& !like_options(full_name(scope, m))
    &&& compiled_parts(m.fields, 3, full_name(scope, m))
}

/// The same of the messages that are listed in the fields with this number.
pub open spec fn compiled_parts(f: Seq<(u32, DatumV)>, number: u32, scope: Seq<char>) -> bool
    decreases f,
{
    forall|i: int|
        0 <= i < f.len() ==> ((#[trigger] f[i]).0 == number ==> compiled_list(f[i].1, scope))
}

/// The same of the messages of a list.
pub open spec fn compiled_list(v: DatumV, scope: Seq<char>) -> bool
    decreases v,
{
    match v {
        DatumV::List(l) => forall|i: int| 0 <= i < l.len() ==> compiled_item(#[trigger] l[i], scope),
        _ => true,
    }
}

/// The same of a message in a list.
pub open spec fn compiled_item(v: DatumV, scope: Seq<char>) -> bool
    decreases v,
{
    match v {
        DatumV::Message(m) => compiled_message(m, scope),
        _ => true,
    }
}

/// Whether a file is one that a compiler makes of a valid source: its syntax is not given, `proto2`
/// or `proto3`, and so are its messages. Nothing is asked of its enums, services, extensions and
/// options, but that options that are not interpreted yet are short.
pub open spec fn compiled_file(f: MessageV) -> bool {
    &&& match field_value(f.fields, 12) {
        None => true,
        Some(v) => v == DatumV::Text("proto2"@) || v == DatumV::Text("proto3"@),
    }
    &&& settled(f)
    &&& compiled_parts(f.fields, 4, text_at(f, 2))
}

/// Whether a file imports another one publicly: a place that it lists as public is that of the name
/// of the other one.
pub open spec fn imports_publicly(f: MessageV, g: MessageV) -> bool {
    match (field_value(f.fields, 10), field_value(f.fields, 3)) {
        (Some(DatumV::List(places)), Some(DatumV::List(names))) => exists|i: int, d: i32|
            #![trigger places[i], names[d as int]]
            0 <= i < places.len() && places[i] == DatumV::Scalar(Scalar::I32(d)) && 0 <= d
                < names.len() && names[d as int] == DatumV::Text(text_at(g, 1)),
        _ => false,
    }
}

/// Files that a compiler makes are accepted: each of them is one of a valid source, and a file that
/// another one imports publicly comes before it.
pub proof fn compiled_files_are_accepted(files: Seq<MessageV>)
    requires
        files_once(files, false),
        forall|i: int| 0 <= i < files.len() ==> compiled_file(#[trigger] files[i]),
        forall|i: int, j: int|
            0 <= i < files.len() && 0 <= j < files.len() && imports_publicly(
                #[trigger] files[i],
                #[trigger] files[j],
            ) ==> j < i,
    ensures
        sound(files),
{
    assert forall|i: int| 0 <= i < files.len() implies file_once(#[trigger] files[i], true) by {
        assert(file_once(files[i], false));
        assert(compiled_file(files[i]));
        settled_is_calm(files[i]);
    }
    assert forall|i: int| 0 <= i < files.len() implies sound_file(#[trigger] files[i]) by {
        let f = files[i];
        assert(compiled_file(f));
        parts_are_sound(f.fields, 4, text_at(f, 2));
        assert(syntax_known(f));
    }
    assert forall|i: int| 0 <= i < files.len() implies !chain(
        files,
        #[trigger] files[i],
        files.len(),
    ) by {
        if chain(files, files[i], files.len()) {
            chains_go_back(files, i, files.len());
        }
    }
    assert(imports_end(files));
}

proof fn imports_are_public(f: MessageV, g: MessageV)
    ensures
        imports(f, g) <==> imports_publicly(f, g),
{
    let places = values_in(f, 10);
    let names = values_in(f, 3);
    if imports(f, g) {
        let i = choose|i: int|
            0 <= i < places.len() && is_import(names, #[trigger] places[i], shown_name(g));
        let d = places[i]->Scalar_0->I32_0;
        assert(places[i] == DatumV::Scalar(Scalar::I32(d)));
        assert(names[d as int] == DatumV::Text(text_at(g, 1)));
    }
    if imports_publicly(f, g) {
        let (i, d) = choose|i: int, d: i32|
            #![trigger places[i], names[d as int]]
            0 <= i < places.len() && places[i] == DatumV::Scalar(Scalar::I32(d)) && 0 <= d
                < names.len() && names[d as int] == DatumV::Text(text_at(g, 1));
        assert(is_import(names, places[i], shown_name(g)));
    }
}

proof fn chains_go_back(files: Seq<MessageV>, i: int, n: nat)
    requires
        0 <= i < files.len(),
        chain(files, files[i], n),
        forall|i: int, j: int|
            0 <= i < files.len() && 0 <= j < files.len() && imports_publicly(
                #[trigger] files[i],
                #[trigger] files[j],
            ) ==> j < i,
    ensures
        n <= i,
    decreases n,
{
    if n > 0 {
        let j = choose|j: int|
            0 <= j < files.len() && imports(files[i], #[trigger] files[j]) && chain(
                files,
                files[j],
                (n - 1) as nat,
            );
        imports_are_public(files[i], files[j]);
        chains_go_back(files, j, (n - 1) as nat);
    }
}

proof fn no_options(full: Seq<char>)
    requires
        !like_options(full),
    ensures
        !is_options(full),
{
    reveal_strlit("google.protobuf.");
    reveal_strlit("Options");
    reveal_strlit("google.protobuf.FileOptions");
    reveal_strlit("google.protobuf.FieldOptions");
    reveal_strlit("google.protobuf.MethodOptions");
    reveal_strlit("google.protobuf.MessageOptions");
    reveal_strlit("google.protobuf.EnumOptions");
    reveal_strlit("google.protobuf.EnumValueOptions");
    reveal_strlit("google.protobuf.ServiceOptions");
    reveal_strlit("google.protobuf.OneofOptions");
    reveal_strlit("google.protobuf.ExtensionRangeOptions");
    if is_options(full) {
        assert(full.take(16) =~= "google.protobuf."@);
        assert(full.skip(full.len() - 7) =~= "Options"@);
    }
}

proof fn message_is_sound(m: MessageV, scope: Seq<char>)
    requires
        settled(m),
        compiled_message(m, scope),
    ensures
        sound_message(m, scope),
    decreases m, 1nat,
{
    reveal_strlit(".");
    assert("."@ =~= seq!['.']);
    let full = full_name(scope, m);
    assert(scoped(scope, m) == full);
    if let Some(DatumV::Message(o)) = field_value(m.fields, 7) {
        field_index_divides(m.fields, 7);
        let i = field_index(m.fields, 7) as int;
        assert(value_settled(m.fields[i].1));
        assert(settled(o));
        reveal_strlit("map_entry");
        let l = values_in(o, 999);
        assert forall|k: int| 0 <= k < l.len() implies !names_the_mark(#[trigger] l[k]) by {
            assert(is_short_option(l[k]));
        }
        assert(!leaves_open(o));
    }
    if is_entry(m) {
        let l = values_in(m, 2);
        assert(has_number(l[0], 1) && is_key(l[0]->Message_0));
        assert(has_number(l[1], 2) && !has_number(l[1], 1));
        assert(entry_fields_sound(l));
    }
    no_options(full);
    assert(options_sound(full, values_in(m, 2), values_in(m, 4), values_in(m, 5)));
    parts_are_sound(m.fields, 3, full);
}

proof fn parts_are_sound(f: Seq<(u32, DatumV)>, number: u32, scope: Seq<char>)
    requires
        all_settled(f),
        compiled_parts(f, number, scope),
    ensures
        sound_parts(f, number, scope),
    decreases f, 0nat,
{
    assert forall|i: int| 0 <= i < f.len() && (#[trigger] f[i]).0 == number implies sound_list(
        f[i].1,
        scope,
    ) by {
        assert(value_settled(f[i].1));
        assert(compiled_list(f[i].1, scope));
        if let DatumV::List(l) = f[i].1 {
            assert forall|k: int| 0 <= k < l.len() implies sound_item(#[trigger] l[k], scope) by {
                assert(value_settled(l[k]));
                assert(compiled_item(l[k], scope));
                if let DatumV::Message(m) = l[k] {
                    message_is_sound(m, scope);
                }
            }
        }
    }
}

/// What is refused: a file of another syntax, and one that imports itself publicly.
pub proof fn what_is_refused(files: Seq<MessageV>, i: int)
    requires
        0 <= i < files.len(),
    ensures
        field_value(files[i].fields, 12) matches Some(v) ==> (v != DatumV::Text("proto2"@) && v
            != DatumV::Text("proto3"@) ==> !sound(files)),
        imports_publicly(files[i], files[i]) ==> !sound(files),
{
    if sound(files) {
        assert(sound_file(files[i]));
        assert(syntax_known(files[i]));
        if imports_publicly(files[i], files[i]) {
            imports_are_public(files[i], files[i]);
            circles_go_on(files, i, files.len());
            assert(!chain(files, files[i], files.len()));
        }
    }
}

proof fn circles_go_on(files: Seq<MessageV>, i: int, n: nat)
    requires
        0 <= i < files.len(),
        imports(files[i], files[i]),
    ensures
        chain(files, files[i], n),
    decreases n,
{
    if n > 0 {
        circles_go_on(files, i, (n - 1) as nat);
    }
}

/// A map entry of files that are accepted has a key and a value, and the key names no type and is of a
/// kind that keys can have. The message is at the outermost level of a file.
pub proof fn accepted_entries_have_keys(
    files: Seq<MessageV>,
    i: int,
    j: int,
    k: int,
    l: Seq<DatumV>,
    m: MessageV,
    o: MessageV,
)
    requires
        0 <= i < files.len(),
        0 <= j < files[i].fields.len(),
        files[i].fields[j] == (4u32, DatumV::List(l)),
        0 <= k < l.len(),
        l[k] == DatumV::Message(m),
        field_value(m.fields, 7) == Some(DatumV::Message(o)),
        field_value(o.fields, 7) == Some(DatumV::Scalar(Scalar::Bool(true))),
        sound(files),
    ensures
        field_value(m.fields, 2) matches Some(DatumV::List(parts)) && (exists|p: int|
            0 <= p < parts.len() && (#[trigger] parts[p] matches DatumV::Message(f) && field_value(
                f.fields,
                3,
            ) == Some(DatumV::Scalar(Scalar::I32(2))))) && (exists|p: int|
            0 <= p < parts.len() && is_plain_key(#[trigger] parts[p])),
{
    assert(sound_file(files[i]));
    assert(sound_list(files[i].fields[j].1, text_in(files[i], 2)));
    assert(sound_item(l[k], text_in(files[i], 2)));
    assert(sound_message(m, text_in(files[i], 2)));
    assert(message_in(m, 7) == Some(o));
    assert(is_entry(m));
    let parts = values_in(m, 2);
    assert(entry_fields_sound(parts));
    let p = choose|p: int| 0 <= p < parts.len() && has_number(#[trigger] parts[p], 1);
    assert(is_key(parts[p]->Message_0));
    assert(is_plain_key(parts[p]));
    let q = choose|q: int| 0 <= q < parts.len() && has_number(#[trigger] parts[q], 2);
    assert(parts[q] matches DatumV::Message(f) && field_value(f.fields, 3) == Some(
        DatumV::Scalar(Scalar::I32(2)),
    ));
}

/// Whether a value describes a key of a map.
pub open spec fn is_plain_key(v: DatumV) -> bool {
    match v {
        DatumV::Message(f) => {
            &&& field_value(f.fields, 3) == Some(DatumV::Scalar(Scalar::I32(1)))
            &&& text_at(f, 6).len() == 0
            &&& field_value(f.fields, 5) matches Some(DatumV::Scalar(Scalar::Enum(kind)))
                && kind_of_keys(kind)
        },
        _ => false,
    }
}

/// Whether a value is a list of descriptors of this type, each of which says each thing once.
pub open spec fn list_of(v: DatumV, name: Seq<char>) -> bool {
    match v {
        DatumV::List(l) => forall|i: int|
            0 <= i < l.len() ==> (#[trigger] l[i] matches DatumV::Message(m) && m.full_name == name
                && once(m, false)),
        _ => false,
    }
}

/// Whether a value is a list of plain values.
pub open spec fn list_of_plain(v: DatumV) -> bool {
    match v {
        DatumV::List(l) => forall|i: int|
            0 <= i < l.len() ==> !(#[trigger] l[i] is Message) && !(l[i] is List) && !(l[i]
                is Entries),
        _ => false,
    }
}

/// Whether a field of a file has the form that it should: messages, enums, services and extensions
/// are lists of descriptors, the options are those of a file, and the rest are names and numbers.
pub open spec fn file_part(x: (u32, DatumV)) -> bool {
    if x.0 == 4 {
        list_of(x.1, "google.protobuf.DescriptorProto"@)
    } else if x.0 == 5 {
        list_of(x.1, "google.protobuf.EnumDescriptorProto"@)
    } else if x.0 == 6 {
        list_of(x.1, "google.protobuf.ServiceDescriptorProto"@)
    } else if x.0 == 7 {
        list_of(x.1, "google.protobuf.FieldDescriptorProto"@)
    } else if x.0 == 8 {
        x.1 matches DatumV::Message(m) && m.full_name == "google.protobuf.FileOptions"@ && once(
            m,
            false,
        )
    } else if x.0 == 3 || x.0 == 10 || x.0 == 11 {
        list_of_plain(x.1)
    } else {
        !(x.1 is Message) && !(x.1 is List) && !(x.1 is Entries)
    }
}

/// A file all of whose parts have the forms that they should, each number once, is taken.
pub proof fn files_of_good_parts_are_taken(f: MessageV)
    requires
        f.full_name == "google.protobuf.FileDescriptorProto"@,
        f.unknown.len() == 0,
        f.extensions.len() == 0,
        forall|i: int, j: int|
            0 <= i < j < f.fields.len() ==> (#[trigger] f.fields[i]).0 != (
            #[trigger] f.fields[j]).0,
        forall|i: int| 0 <= i < f.fields.len() ==> file_part(#[trigger] f.fields[i]),
    ensures
        file_once(f, false),
{
    assert forall|i: int| 0 <= i < f.fields.len() implies datum_once(
        (#[trigger] f.fields[i]).1,
        false,
    ) && value_typed(f.full_name, f.fields[i].0, f.fields[i].1) by {
        let x = f.fields[i];
        assert(file_part(x));
        if let DatumV::List(l) = x.1 {
            assert(items_once(l, false)) by {
                assert forall|k: int| 0 <= k < l.len() implies datum_once(
                    #[trigger] l[k],
                    false,
                ) by {}
            }
        }
    }
    assert(typed(f.full_name, f.fields));
    assert(fields_once(f.fields, false));
}

/// Whether a value is neither a message nor made of values.
pub open spec fn single_value(v: DatumV) -> bool {
    !(v is Message) && !(v is List) && !(v is Entries)
}

/// Whether a value is a descriptor of this type that says each thing once.
pub open spec fn message_of(v: DatumV, name: Seq<char>) -> bool {
    v matches DatumV::Message(m) && m.full_name == name && once(m, false)
}

/// Whether a field of the descriptor of a message has the form that it should.
pub open spec fn message_part(x: (u32, DatumV)) -> bool {
    if x.0 == 2 || x.0 == 6 {
        list_of(x.1, "google.protobuf.FieldDescriptorProto"@)
    } else if x.0 == 3 {
        list_of(x.1, "google.protobuf.DescriptorProto"@)
    } else if x.0 == 4 {
        list_of(x.1, "google.protobuf.EnumDescriptorProto"@)
    } else if x.0 == 5 {
        list_of(x.1, "google.protobuf.DescriptorProto.ExtensionRange"@)
    } else if x.0 == 7 {
        message_of(x.1, "google.protobuf.MessageOptions"@)
    } else if x.0 == 8 {
        list_of(x.1, "google.protobuf.OneofDescriptorProto"@)
    } else if x.0 == 9 {
        list_of(x.1, "google.protobuf.DescriptorProto.ReservedRange"@)
    } else if x.0 == 10 {
        list_of_plain(x.1)
    } else {
        single_value(x.1)
    }
}

/// The same of the descriptor of a field: its options are those of a field.
pub open spec fn field_part(x: (u32, DatumV)) -> bool {
    if x.0 == 8 {
        message_of(x.1, "google.protobuf.FieldOptions"@)
    } else {
        x.0 != 999 && single_value(x.1)
    }
}

/// The same of the descriptor of an enum.
pub open spec fn enum_part(x: (u32, DatumV)) -> bool {
    if x.0 == 2 {
        list_of(x.1, "google.protobuf.EnumValueDescriptorProto"@)
    } else if x.0 == 3 {
        message_of(x.1, "google.protobuf.EnumOptions"@)
    } else if x.0 == 4 {
        list_of(x.1, "google.protobuf.EnumDescriptorProto.EnumReservedRange"@)
    } else if x.0 == 5 {
        list_of_plain(x.1)
    } else {
        single_value(x.1)
    }
}

/// The same of the descriptor of a service.
pub open spec fn service_part(x: (u32, DatumV)) -> bool {
    if x.0 == 2 {
        list_of(x.1, "google.protobuf.MethodDescriptorProto"@)
    } else if x.0 == 3 {
        message_of(x.1, "google.protobuf.ServiceOptions"@)
    } else {
        single_value(x.1)
    }
}

/// The same of the descriptor of a method.
pub open spec fn method_part(x: (u32, DatumV)) -> bool {
    if x.0 == 4 {
        message_of(x.1, "google.protobuf.MethodOptions"@)
    } else {
        x.0 != 999 && single_value(x.1)
    }
}

/// Whether a field of a descriptor has the form that the type of the descriptor asks for.
pub open spec fn good_part(name: Seq<char>, x: (u32, DatumV)) -> bool {
    if name == "google.protobuf.DescriptorProto"@ {
        message_part(x)
    } else if name == "google.protobuf.FieldDescriptorProto"@ {
        field_part(x)
    } else if name == "google.protobuf.EnumDescriptorProto"@ {
        enum_part(x)
    } else if name == "google.protobuf.ServiceDescriptorProto"@ {
        service_part(x)
    } else if name == "google.protobuf.MethodDescriptorProto"@ {
        method_part(x)
    } else {
        false
    }
}

/// A descriptor of a message, a field, an enum, a service or a method all of whose parts have the forms
/// that they should, each number once, is taken.
pub proof fn descriptors_of_good_parts_are_taken(m: MessageV)
    requires
        m.unknown.len() == 0,
        m.extensions.len() == 0,
        forall|i: int, j: int|
            0 <= i < j < m.fields.len() ==> (#[trigger] m.fields[i]).0 != (
            #[trigger] m.fields[j]).0,
        forall|i: int| 0 <= i < m.fields.len() ==> good_part(m.full_name, #[trigger] m.fields[i]),
    ensures
        m.fields.len() > 0 ==> once(m, false),
{
    descriptor_names_differ();
    assert forall|i: int| 0 <= i < m.fields.len() implies datum_once(
        (#[trigger] m.fields[i]).1,
        false,
    ) && value_typed(m.full_name, m.fields[i].0, m.fields[i].1) by {
        let x = m.fields[i];
        assert(good_part(m.full_name, x));
        if let DatumV::List(l) = x.1 {
            assert(items_once(l, false)) by {
                assert forall|k: int| 0 <= k < l.len() implies datum_once(
                    #[trigger] l[k],
                    false,
                ) by {}
            }
        }
    }
    assert(typed(m.full_name, m.fields));
    assert(fields_once(m.fields, false));
}

proof fn descriptor_names_differ()
    ensures
        "google.protobuf.FieldDescriptorProto"@.len() == 36,
        "google.protobuf.MethodDescriptorProto"@.len() == 37,
        "google.protobuf.FileDescriptorProto"@.len() == 35,
        "google.protobuf.DescriptorProto"@.len() == 31,
        "google.protobuf.EnumDescriptorProto"@.len() == 35,
        "google.protobuf.ServiceDescriptorProto"@.len() == 38,
        "google.protobuf.EnumDescriptorProto"@ != "google.protobuf.FileDescriptorProto"@,
        "google.protobuf.UninterpretedOption"@.len() == 35,
        "google.protobuf.UninterpretedOption"@ != "google.protobuf.EnumDescriptorProto"@,
        "google.protobuf.SourceCodeInfo"@.len() == 30,
        "google.protobuf.SourceCodeInfo.Location"@.len() == 39,
        "google.protobuf.DescriptorProto.ExtensionRange"@.len() == 46,
        "google.protobuf.OneofDescriptorProto"@.len() == 36,
        "google.protobuf.OneofDescriptorProto"@ != "google.protobuf.FieldDescriptorProto"@,
        "google.protobuf.EnumValueDescriptorProto"@.len() == 40,
{
    reveal_strlit("google.protobuf.FieldDescriptorProto");
    reveal_strlit("google.protobuf.MethodDescriptorProto");
    reveal_strlit("google.protobuf.FileDescriptorProto");
    reveal_strlit("google.protobuf.DescriptorProto");
    reveal_strlit("google.protobuf.EnumDescriptorProto");
    reveal_strlit("google.protobuf.ServiceDescriptorProto");
    reveal_strlit("google.protobuf.UninterpretedOption");
    reveal_strlit("google.protobuf.SourceCodeInfo");
    reveal_strlit("google.protobuf.SourceCodeInfo.Location");
    reveal_strlit("google.protobuf.DescriptorProto.ExtensionRange");
    reveal_strlit("google.protobuf.OneofDescriptorProto");
    reveal_strlit("google.protobuf.EnumValueDescriptorProto");
    assert("google.protobuf.EnumDescriptorProto"@[16] == 'E');
    assert("google.protobuf.FileDescriptorProto"@[16] == 'F');
    assert("google.protobuf.UninterpretedOption"@[16] == 'U');
    assert("google.protobuf.OneofDescriptorProto"@[16] == 'O');
    assert("google.protobuf.FieldDescriptorProto"@[16] == 'F');
}

} // verus!
