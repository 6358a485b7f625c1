//! Descriptor files that say each thing once: no number stands twice in a message, and no bytes
//! are left unread in it, and each field has the form that it should. The protobuf library makes no
//! others. And files that are calm besides:
//! no default of bytes has an escape that stands for no byte, and options that are not interpreted
//! yet are short.
use crate::message::{find_field, Datum, EntryKey, Message, Scalar};
use vstd::prelude::*;

verus! {

use crate::determinism::same_place;
use crate::message::{
    field_index, field_index_divides, field_index_is, field_value, fields_view, list_view, map_view,
    message_views, value_views, with_field, without_field, DatumV, KeyV, MessageV,
};
use crate::schema::{
    merged, normalized_field, normalized_field_keeps_the_wire,
    normalized_field_list, normalized_file,
    normalized_message, normalized_message_fields, normalized_message_items,
    normalized_message_list, normalized_package, normalized_services, private_methods,
    private_references, private_service, unmarked, without_source, FIELD_EXTENDEE,
    FIELD_JSON_NAME, FIELD_NAME, FIELD_TYPE, FILE_EXTENSION, FILE_MESSAGE, FILE_PACKAGE,
    FILE_SERVICE, FILE_SOURCE_INFO, MESSAGE_EXTENSION, MESSAGE_FIELD, MESSAGE_NESTED,
    MESSAGE_OPTIONS, METHOD_INPUT, METHOD_OUTPUT, OPTIONS_MAP_ENTRY, SERVICE_METHOD,
};
use crate::sound::{
    values_in, with_field_keeps, FIELD_KIND, OPTIONS_UNINTERPRETED, OPTION_NAME,
};

/// The type of descriptor files.
pub open spec fn file_type() -> Seq<char> {
    "google.protobuf.FileDescriptorProto"@
}

/// No number stands twice.
pub open spec fn numbers_differ(f: Seq<(u32, DatumV)>) -> bool {
    forall|i: int, j: int| 0 <= i < j < f.len() ==> (#[trigger] f[i]).0 != (#[trigger] f[j]).0
}

/// Whether a message, and each message in it, says each thing once, and is calm if it must be.
pub open spec fn once(m: MessageV, calm: bool) -> bool
    decreases m,
{
    &&& m.unknown.len() == 0
    &&& m.extensions.len() == 0
    &&& fields_once(m.fields, calm)
    &&& typed(m.full_name, m.fields)
    &&& calm ==> mild(m.fields)
}

/// The type of descriptors of messages.
pub open spec fn message_type_name() -> Seq<char> {
    "google.protobuf.DescriptorProto"@
}

/// The type of descriptors of fields.
pub open spec fn field_type_name() -> Seq<char> {
    "google.protobuf.FieldDescriptorProto"@
}

/// The type of descriptors of services.
pub open spec fn service_type_name() -> Seq<char> {
    "google.protobuf.ServiceDescriptorProto"@
}

/// The type of descriptors of methods.
pub open spec fn method_type_name() -> Seq<char> {
    "google.protobuf.MethodDescriptorProto"@
}

/// The type of options of messages.
pub open spec fn message_options_name() -> Seq<char> {
    "google.protobuf.MessageOptions"@
}

/// The type of descriptors of enums.
pub open spec fn enum_type_name() -> Seq<char> {
    "google.protobuf.EnumDescriptorProto"@
}

/// Whether the field with this number of a descriptor of this type is a list. Options all have one
/// of those that are not interpreted yet.
pub open spec fn repeated(name: Seq<char>, number: u32) -> bool {
    if name == file_type() {
        3 <= number <= 7 || number == 10 || number == 11
    } else if name == message_type_name() {
        2 <= number <= 6 || 8 <= number <= 10
    } else if name == enum_type_name() {
        number == 2 || number == 4 || number == 5
    } else if name == service_type_name() || name == "google.protobuf.UninterpretedOption"@ {
        number == 2
    } else if name == "google.protobuf.SourceCodeInfo"@ {
        number == 1
    } else if name == "google.protobuf.SourceCodeInfo.Location"@ {
        number == 1 || number == 2 || number == 6
    } else {
        number == OPTIONS_UNINTERPRETED
    }
}

/// The type of the messages in the field with this number of a descriptor of this type, where there
/// are messages in it.
pub open spec fn part_type(name: Seq<char>, number: u32) -> Option<Seq<char>> {
    if name == file_type() {
        if number == 4 {
            Some(message_type_name())
        } else if number == 5 {
            Some(enum_type_name())
        } else if number == 6 {
            Some(service_type_name())
        } else if number == 7 {
            Some(field_type_name())
        } else if number == 8 {
            Some("google.protobuf.FileOptions"@)
        } else if number == 9 {
            Some("google.protobuf.SourceCodeInfo"@)
        } else {
            None
        }
    } else if name == message_type_name() {
        if number == 2 || number == 6 {
            Some(field_type_name())
        } else if number == 3 {
            Some(message_type_name())
        } else if number == 4 {
            Some(enum_type_name())
        } else if number == 5 {
            Some("google.protobuf.DescriptorProto.ExtensionRange"@)
        } else if number == 7 {
            Some(message_options_name())
        } else if number == 8 {
            Some("google.protobuf.OneofDescriptorProto"@)
        } else if number == 9 {
            Some("google.protobuf.DescriptorProto.ReservedRange"@)
        } else {
            None
        }
    } else if name == service_type_name() {
        if number == 2 {
            Some(method_type_name())
        } else if number == 3 {
            Some("google.protobuf.ServiceOptions"@)
        } else {
            None
        }
    } else if name == enum_type_name() {
        if number == 2 {
            Some("google.protobuf.EnumValueDescriptorProto"@)
        } else if number == 3 {
            Some("google.protobuf.EnumOptions"@)
        } else if number == 4 {
            Some("google.protobuf.EnumDescriptorProto.EnumReservedRange"@)
        } else {
            None
        }
    } else if number == OPTIONS_UNINTERPRETED {
        Some("google.protobuf.UninterpretedOption"@)
    } else {
        small_part_type(name, number)
    }
}

/// The same of descriptors with a single field of this sort.
pub open spec fn small_part_type(name: Seq<char>, number: u32) -> Option<Seq<char>> {
    if name == field_type_name() && number == 8 {
        Some("google.protobuf.FieldOptions"@)
    } else if name == method_type_name() && number == 4 {
        Some("google.protobuf.MethodOptions"@)
    } else if name == "google.protobuf.DescriptorProto.ExtensionRange"@ && number == 3 {
        Some("google.protobuf.ExtensionRangeOptions"@)
    } else if name == "google.protobuf.OneofDescriptorProto"@ && number == 2 {
        Some("google.protobuf.OneofOptions"@)
    } else if name == "google.protobuf.EnumValueDescriptorProto"@ && number == 3 {
        Some("google.protobuf.EnumValueOptions"@)
    } else if name == "google.protobuf.UninterpretedOption"@ && number == 2 {
        Some("google.protobuf.UninterpretedOption.NamePart"@)
    } else if name == "google.protobuf.SourceCodeInfo"@ && number == 1 {
        Some("google.protobuf.SourceCodeInfo.Location"@)
    } else {
        None
    }
}

/// Whether a value is neither a message nor made of values.
pub open spec fn plain(v: DatumV) -> bool {
    !(v is Message) && !(v is List) && !(v is Entries)
}

/// Whether a value can stand in a list of such messages, or of plain values.
pub open spec fn item_typed(part: Option<Seq<char>>, v: DatumV) -> bool {
    match v {
        DatumV::Message(x) => part == Some(x.full_name),
        _ => plain(v),
    }
}

/// Whether a value has the form that the field with this number of a descriptor of this type has.
pub open spec fn value_typed(name: Seq<char>, number: u32, v: DatumV) -> bool {
    match v {
        DatumV::List(l) => repeated(name, number) && forall|i: int|
            0 <= i < l.len() ==> item_typed(part_type(name, number), #[trigger] l[i]),
        _ => !repeated(name, number) && item_typed(part_type(name, number), v),
    }
}

/// Whether the fields of a descriptor of this type have the forms that they should.
pub open spec fn typed(name: Seq<char>, f: Seq<(u32, DatumV)>) -> bool {
    forall|i: int| 0 <= i < f.len() ==> value_typed(name, (#[trigger] f[i]).0, f[i].1)
}

/// Whether two values in a list have the same form.
pub open spec fn same_item_form(v: DatumV, w: DatumV) -> bool {
    match (v, w) {
        (DatumV::Message(a), DatumV::Message(b)) => a.full_name == b.full_name,
        _ => plain(v) && plain(w),
    }
}

/// Whether two values have the same form.
pub open spec fn same_form(v: DatumV, w: DatumV) -> bool {
    match (v, w) {
        (DatumV::List(l), DatumV::List(k)) => l.len() == k.len() && forall|i: int|
            0 <= i < l.len() ==> same_item_form(l[i], #[trigger] k[i]),
        _ => same_item_form(v, w),
    }
}

/// The same of fields.
pub open spec fn fields_once(f: Seq<(u32, DatumV)>, calm: bool) -> bool
    decreases f,
{
    numbers_differ(f) && forall|i: int| 0 <= i < f.len() ==> datum_once((#[trigger] f[i]).1, calm)
}

/// The same of a value.
pub open spec fn datum_once(v: DatumV, calm: bool) -> bool
    decreases v,
{
    match v {
        DatumV::Message(m) => once(m, calm),
        DatumV::List(l) => items_once(l, calm),
        DatumV::Entries(e) => entries_once(e, calm),
        _ => true,
    }
}

/// The same of the values of a list.
pub open spec fn items_once(l: Seq<DatumV>, calm: bool) -> bool
    decreases l,
{
    forall|i: int| 0 <= i < l.len() ==> datum_once(#[trigger] l[i], calm)
}

/// The same of the values of a map.
pub open spec fn entries_once(e: Seq<(KeyV, DatumV)>, calm: bool) -> bool
    decreases e,
{
    forall|i: int| 0 <= i < e.len() ==> datum_once((#[trigger] e[i]).1, calm)
}

/// Whether escapes in the default of a field of bytes stand for bytes: an octal one is below 256,
/// and a hexadecimal one is not cut short by a character that takes more than a byte.
pub open spec fn escapes_fit(s: Seq<char>) -> bool
    decreases s.len(),
{
    if s.len() < 2 {
        true
    } else if s[0] != '\\' {
        escapes_fit(s.skip(1))
    } else if octal_at(s, 1) {
        if octal_at(s, 2) && octal_at(s, 3) {
            s[1] <= '3' && escapes_fit(s.skip(4))
        } else if octal_at(s, 2) {
            escapes_fit(s.skip(3))
        } else {
            escapes_fit(s.skip(2))
        }
    } else if s[1] == 'x' || s[1] == 'X' {
        short_at(s, 2) && short_at(s, 3) && (s.len() < 4 || escapes_fit(s.skip(4)))
    } else {
        escapes_fit(s.skip(2))
    }
}

/// Whether an octal digit stands at a place.
pub open spec fn octal_at(s: Seq<char>, i: int) -> bool {
    i < s.len() && '0' <= s[i] <= '7'
}

/// Whether no character that takes more than a byte stands at a place.
pub open spec fn short_at(s: Seq<char>, i: int) -> bool {
    i < s.len() ==> s[i] as int <= 0x7f
}

/// The number of parts that the name of an option may have that is not interpreted yet.
pub const PARTS_LIMIT: usize = 32;

/// The value of an option that is not interpreted yet and is a message, as text.
pub const OPTION_AGGREGATE: u32 = 8;

/// The default of a field.
pub const FIELD_DEFAULT: u32 = 7;

/// Whether a descriptor is calm, apart from those in it: options in it that are not interpreted yet
/// are short, and so are the escapes in the default of bytes.
pub open spec fn mild(f: Seq<(u32, DatumV)>) -> bool {
    &&& match field_value(f, OPTIONS_UNINTERPRETED) {
        Some(DatumV::List(l)) => options_mild(l),
        _ => true,
    }
    &&& field_value(f, FIELD_KIND) == Some(DatumV::Scalar(Scalar::Enum(12))) ==> match field_value(
        f,
        FIELD_DEFAULT,
    ) {
        Some(DatumV::Text(t)) => escapes_fit(t),
        _ => true,
    }
}

/// Whether options that are not interpreted yet are all short.
pub open spec fn options_mild(l: Seq<DatumV>) -> bool {
    forall|i: int| 0 <= i < l.len() ==> option_mild(#[trigger] l[i])
}

/// Whether an option that is not interpreted yet is no message, and has a short name.
pub open spec fn option_mild(v: DatumV) -> bool {
    match v {
        DatumV::Message(o) => field_value(o.fields, OPTION_AGGREGATE) is None && values_in(
            o,
            OPTION_NAME,
        ).len() <= PARTS_LIMIT,
        _ => true,
    }
}

/// Whether a message is a descriptor file that says each thing once, and is calm if it must be.
pub open spec fn file_once(f: MessageV, calm: bool) -> bool {
    f.full_name == file_type() && once(f, calm)
}

/// The same of files.
pub open spec fn files_once(files: Seq<MessageV>, calm: bool) -> bool {
    forall|i: int| 0 <= i < files.len() ==> file_once(#[trigger] files[i], calm)
}

proof fn with_field_once(f: Seq<(u32, DatumV)>, number: u32, v: DatumV, calm: bool)
    requires
        fields_once(f, calm),
        datum_once(v, calm),
    ensures
        fields_once(with_field(f, number, v), calm),
{
    field_index_divides(f, number);
    let g = with_field(f, number, v);
    let p = field_index(f, number) as int;
    assert forall|i: int| 0 <= i < g.len() implies datum_once((#[trigger] g[i]).1, calm) by {
        if i != p {
            assert(g[i] == f[i]);
        }
    }
    assert forall|i: int, j: int| 0 <= i < j < g.len() implies (#[trigger] g[i]).0 != (
    #[trigger] g[j]).0 by {
        if p < f.len() {
            assert(f[i].0 != f[j].0);
        } else if j < p {
            assert(f[i].0 != f[j].0);
        }
    }
}

proof fn without_field_once(f: Seq<(u32, DatumV)>, number: u32, calm: bool)
    requires
        fields_once(f, calm),
    ensures
        fields_once(without_field(f, number), calm),
{
    field_index_divides(f, number);
    let g = without_field(f, number);
    let p = field_index(f, number) as int;
    if p < f.len() {
        assert forall|i: int| 0 <= i < g.len() implies datum_once((#[trigger] g[i]).1, calm) by {
            assert(g[i] == f[if i < p {
                i
            } else {
                i + 1
            }]);
        }
        assert forall|i: int, j: int| 0 <= i < j < g.len() implies (#[trigger] g[i]).0 != (
        #[trigger] g[j]).0 by {
            let k = if i < p {
                i
            } else {
                i + 1
            };
            let l = if j < p {
                j
            } else {
                j + 1
            };
            assert(g[i] == f[k] && g[j] == f[l]);
            assert(f[k].0 != f[l].0);
        }
    }
}

/// Fields with the same numbers, and with values that say each thing once.
proof fn same_numbers_once(f: Seq<(u32, DatumV)>, g: Seq<(u32, DatumV)>, calm: bool)
    requires
        fields_once(f, calm),
        f.len() == g.len(),
        forall|i: int| 0 <= i < f.len() ==> (#[trigger] g[i]).0 == f[i].0 && datum_once(g[i].1, calm),
    ensures
        fields_once(g, calm),
{
    assert forall|i: int, j: int| 0 <= i < j < g.len() implies (#[trigger] g[i]).0 != (
    #[trigger] g[j]).0 by {
        assert(f[i].0 != f[j].0);
    }
}

/// Values of the same form may change.
proof fn stays_typed(name: Seq<char>, f: Seq<(u32, DatumV)>, g: Seq<(u32, DatumV)>)
    requires
        typed(name, f),
        f.len() == g.len(),
        forall|i: int|
            0 <= i < f.len() ==> (#[trigger] g[i]).0 == f[i].0 && (g[i].1 == f[i].1 || same_form(
                f[i].1,
                g[i].1,
            )),
    ensures
        typed(name, g),
{
    assert forall|i: int| 0 <= i < g.len() implies value_typed(name, (#[trigger] g[i]).0, g[i].1) by {
        assert(value_typed(name, f[i].0, f[i].1));
        if g[i].1 != f[i].1 {
            if let (DatumV::List(l), DatumV::List(k)) = (f[i].1, g[i].1) {
                assert forall|j: int| 0 <= j < k.len() implies item_typed(
                    part_type(name, g[i].0),
                    #[trigger] k[j],
                ) by {
                    assert(item_typed(part_type(name, f[i].0), l[j]));
                    assert(same_item_form(l[j], k[j]));
                }
            }
        }
    }
}

proof fn with_field_typed(name: Seq<char>, f: Seq<(u32, DatumV)>, number: u32, v: DatumV)
    requires
        typed(name, f),
        value_typed(name, number, v),
    ensures
        typed(name, with_field(f, number, v)),
{
    field_index_divides(f, number);
    let g = with_field(f, number, v);
    assert forall|i: int| 0 <= i < g.len() implies value_typed(name, (#[trigger] g[i]).0, g[i].1) by {
        if i != field_index(f, number) {
            assert(g[i] == f[i]);
        }
    }
}

proof fn without_field_typed(name: Seq<char>, f: Seq<(u32, DatumV)>, number: u32)
    requires
        typed(name, f),
    ensures
        typed(name, without_field(f, number)),
{
    field_index_divides(f, number);
    let p = field_index(f, number) as int;
    let g = without_field(f, number);
    assert forall|i: int| 0 <= i < g.len() implies value_typed(name, (#[trigger] g[i]).0, g[i].1) by {
        if p < f.len() {
            assert(g[i] == f[if i < p {
                i
            } else {
                i + 1
            }]);
        } else {
            assert(g[i] == f[i]);
        }
    }
}

/// The types of descriptors have names of their own.
proof fn names_apart()
    ensures
        field_type_name() != file_type(),
        field_type_name() != message_type_name(),
        field_type_name() != enum_type_name(),
        field_type_name() != service_type_name(),
        field_type_name() != "google.protobuf.UninterpretedOption"@,
        field_type_name() != "google.protobuf.SourceCodeInfo"@,
        field_type_name() != "google.protobuf.SourceCodeInfo.Location"@,
        field_type_name() != method_type_name(),
        message_options_name() != file_type(),
        message_options_name() != message_type_name(),
        message_options_name() != enum_type_name(),
        message_options_name() != service_type_name(),
        message_options_name() != "google.protobuf.UninterpretedOption"@,
        message_options_name() != "google.protobuf.SourceCodeInfo"@,
        message_options_name() != "google.protobuf.SourceCodeInfo.Location"@,
        message_type_name() != file_type(),
        service_type_name() != file_type(),
        service_type_name() != message_type_name(),
        method_type_name() != file_type(),
{
    reveal_strlit("google.protobuf.FileDescriptorProto");
    reveal_strlit("google.protobuf.DescriptorProto");
    reveal_strlit("google.protobuf.FieldDescriptorProto");
    reveal_strlit("google.protobuf.ServiceDescriptorProto");
    reveal_strlit("google.protobuf.MethodDescriptorProto");
    reveal_strlit("google.protobuf.MessageOptions");
    reveal_strlit("google.protobuf.EnumDescriptorProto");
    reveal_strlit("google.protobuf.UninterpretedOption");
    reveal_strlit("google.protobuf.SourceCodeInfo");
    reveal_strlit("google.protobuf.SourceCodeInfo.Location");
    assert(field_type_name()[18] == 'e' && file_type()[18] == 'l');
    assert(field_type_name()[16] == 'F' && enum_type_name()[16] == 'E');
    assert(message_options_name()[16] == 'M');
    assert(file_type()[16] == 'F');
    assert(message_type_name()[16] == 'D');
    assert(service_type_name()[16] == 'S');
    assert(method_type_name()[16] == 'M');
    assert("google.protobuf.UninterpretedOption"@[16] == 'U');
    assert("google.protobuf.SourceCodeInfo"@[16] == 'S');
    assert("google.protobuf.SourceCodeInfo.Location"@[16] == 'S');
}

/// Values that calmness does not depend on may change.
proof fn stays_mild(f: Seq<(u32, DatumV)>, g: Seq<(u32, DatumV)>)
    requires
        mild(f),
        f.len() == g.len(),
        forall|i: int|
            0 <= i < f.len() ==> (#[trigger] g[i]).0 == f[i].0 && ((f[i].0 == OPTIONS_UNINTERPRETED
                || f[i].0 == FIELD_KIND || (f[i].0 == FIELD_DEFAULT && g[i].1 is Text)) ==> g[i].1
                == f[i].1),
    ensures
        mild(g),
{
    assert forall|i: int| 0 <= i < f.len() implies (#[trigger] f[i]).0 == g[i].0 by {
        assert(g[i].0 == f[i].0);
    }
    same_place(f, g, OPTIONS_UNINTERPRETED);
    same_place(f, g, FIELD_KIND);
    same_place(f, g, FIELD_DEFAULT);
    field_index_divides(f, OPTIONS_UNINTERPRETED);
    field_index_divides(f, FIELD_KIND);
    field_index_divides(f, FIELD_DEFAULT);
    let p = field_index(f, OPTIONS_UNINTERPRETED) as int;
    let q = field_index(f, FIELD_KIND) as int;
    let r = field_index(f, FIELD_DEFAULT) as int;
    if p < f.len() {
        assert(g[p].0 == f[p].0);
    }
    if q < f.len() {
        assert(g[q].0 == f[q].0);
    }
    if r < f.len() {
        assert(g[r].0 == f[r].0);
    }
}

proof fn references_once(m: MessageV, a: u32, b: u32, calm: bool)
    requires
        a == FIELD_TYPE || a == METHOD_INPUT,
        b == FIELD_EXTENDEE || b == METHOD_OUTPUT,
        once(m, calm),
    ensures
        once(private_references(m, a, b), calm),
{
    let n = private_references(m, a, b);
    assert forall|i: int| 0 <= i < m.fields.len() implies (#[trigger] n.fields[i]).0
        == m.fields[i].0 && datum_once(n.fields[i].1, calm) by {
        assert(datum_once(m.fields[i].1, calm));
    }
    same_numbers_once(m.fields, n.fields, calm);
    stays_typed(m.full_name, m.fields, n.fields);
    if calm {
        stays_mild(m.fields, n.fields);
    }
}

proof fn field_once(f: MessageV, structural: bool, calm: bool)
    requires
        f.full_name == field_type_name(),
        once(f, calm),
    ensures
        once(normalized_field(f, structural), calm),
{
    if structural {
        let g = private_references(f, FIELD_TYPE, FIELD_EXTENDEE);
        references_once(f, FIELD_TYPE, FIELD_EXTENDEE, calm);
        match field_value(f.fields, FIELD_NAME) {
            Some(name) => {
                let p = field_index(f.fields, FIELD_NAME) as int;
                field_index_divides(f.fields, FIELD_NAME);
                assert(datum_once(f.fields[p].1, calm));
                assert(value_typed(f.full_name, f.fields[p].0, f.fields[p].1));
                names_apart();
                assert(value_typed(f.full_name, FIELD_JSON_NAME, name));
                with_field_once(g.fields, FIELD_JSON_NAME, name, calm);
                with_field_typed(f.full_name, g.fields, FIELD_JSON_NAME, name);
            },
            None => {
                without_field_once(g.fields, FIELD_JSON_NAME, calm);
                without_field_typed(f.full_name, g.fields, FIELD_JSON_NAME);
            },
        }
        normalized_field_keeps_the_wire(f, structural, OPTIONS_UNINTERPRETED);
        normalized_field_keeps_the_wire(f, structural, FIELD_KIND);
        normalized_field_keeps_the_wire(f, structural, FIELD_DEFAULT);
    }
}

proof fn field_list_once(v: DatumV, structural: bool, calm: bool)
    requires
        datum_once(v, calm),
        v matches DatumV::List(l) ==> forall|i: int|
            0 <= i < l.len() ==> item_typed(Some(field_type_name()), #[trigger] l[i]),
    ensures
        datum_once(normalized_field_list(v, structural), calm),
        v is List ==> same_form(v, normalized_field_list(v, structural)),
{
    if let DatumV::List(l) = v {
        let k = normalized_field_list(v, structural)->List_0;
        assert forall|i: int| 0 <= i < k.len() implies same_item_form(l[i], #[trigger] k[i]) by {
            assert(item_typed(Some(field_type_name()), l[i]));
        }
        assert forall|i: int| 0 <= i < k.len() implies datum_once(#[trigger] k[i], calm) by {
            assert(datum_once(l[i], calm));
            assert(item_typed(Some(field_type_name()), l[i]));
            if let DatumV::Message(f) = l[i] {
                field_once(f, structural, calm);
            }
        }
    }
}

proof fn unmarked_once(v: DatumV, calm: bool)
    requires
        datum_once(v, calm),
        item_typed(Some(message_options_name()), v),
    ensures
        datum_once(unmarked(v), calm),
        same_form(v, unmarked(v)),
{
    if let DatumV::Message(o) = v {
        assert(once(o, calm));
        names_apart();
        with_field_typed(
            o.full_name,
            o.fields,
            OPTIONS_MAP_ENTRY,
            DatumV::Scalar(Scalar::Bool(false)),
        );
        with_field_once(
            o.fields,
            OPTIONS_MAP_ENTRY,
            DatumV::Scalar(Scalar::Bool(false)),
            calm,
        );
        if calm {
            let mark = DatumV::Scalar(Scalar::Bool(false));
            let h = with_field(o.fields, OPTIONS_MAP_ENTRY, mark);
            with_field_keeps(o.fields, OPTIONS_MAP_ENTRY, mark, OPTIONS_UNINTERPRETED);
            with_field_keeps(o.fields, OPTIONS_MAP_ENTRY, mark, FIELD_KIND);
            field_index_divides(o.fields, OPTIONS_MAP_ENTRY);
            field_index_is(h, OPTIONS_MAP_ENTRY, field_index(o.fields, OPTIONS_MAP_ENTRY) as int);
        }
        assert(once(unmarked(v)->Message_0, calm));
    }
}

proof fn message_once(m: MessageV, structural: bool, calm: bool)
    requires
        m.full_name == message_type_name(),
        once(m, calm),
    ensures
        once(normalized_message(m, structural), calm),
    decreases m, 1nat,
{
    let f = m.fields;
    let g = normalized_message_fields(f, structural);
    names_apart();
    assert forall|i: int| 0 <= i < f.len() implies (#[trigger] g[i]).0 == f[i].0 && datum_once(
        g[i].1,
        calm,
    ) && (g[i].1 == f[i].1 || same_form(f[i].1, g[i].1)) by {
        assert(datum_once(f[i].1, calm));
        assert(value_typed(m.full_name, f[i].0, f[i].1));
        if f[i].0 == MESSAGE_OPTIONS {
            unmarked_once(f[i].1, calm);
        } else if f[i].0 == MESSAGE_FIELD || f[i].0 == MESSAGE_EXTENSION {
            field_list_once(f[i].1, structural, calm);
        } else if f[i].0 == MESSAGE_NESTED {
            message_list_once(f[i].1, structural, calm);
        }
    }
    same_numbers_once(f, g, calm);
    stays_typed(m.full_name, f, g);
    if calm {
        stays_mild(f, g);
    }
}

proof fn message_list_once(v: DatumV, structural: bool, calm: bool)
    requires
        datum_once(v, calm),
        v matches DatumV::List(l) ==> forall|i: int|
            0 <= i < l.len() ==> item_typed(Some(message_type_name()), #[trigger] l[i]),
    ensures
        datum_once(normalized_message_list(v, structural), calm),
        v is List ==> same_form(v, normalized_message_list(v, structural)),
    decreases v, 0nat,
{
    if let DatumV::List(l) = v {
        let k = normalized_message_items(l, structural);
        assert forall|i: int| 0 <= i < k.len() implies same_item_form(l[i], #[trigger] k[i]) by {
            assert(item_typed(Some(message_type_name()), l[i]));
        }
        assert forall|i: int| 0 <= i < k.len() implies datum_once(#[trigger] k[i], calm) by {
            assert(datum_once(l[i], calm));
            assert(item_typed(Some(message_type_name()), l[i]));
            if let DatumV::Message(m) = l[i] {
                message_once(m, structural, calm);
            }
        }
    }
}

proof fn services_once(v: DatumV, structural: bool, calm: bool)
    requires
        datum_once(v, calm),
        v matches DatumV::List(l) ==> forall|i: int|
            0 <= i < l.len() ==> item_typed(Some(service_type_name()), #[trigger] l[i]),
    ensures
        datum_once(normalized_services(v, structural), calm),
        v is List ==> v == normalized_services(v, structural) || same_form(
            v,
            normalized_services(v, structural),
        ),
{
    if let DatumV::List(l) = v {
        if structural {
            let k = normalized_services(v, structural)->List_0;
            assert forall|i: int| 0 <= i < k.len() implies same_item_form(l[i], #[trigger] k[i]) by {
                assert(item_typed(Some(service_type_name()), l[i]));
            }
            assert forall|i: int| 0 <= i < k.len() implies datum_once(#[trigger] k[i], calm) by {
                assert(datum_once(l[i], calm));
                assert(item_typed(Some(service_type_name()), l[i]));
                service_once(l[i], calm);
            }
        }
    }
}

proof fn service_once(v: DatumV, calm: bool)
    requires
        datum_once(v, calm),
        item_typed(Some(service_type_name()), v),
    ensures
        datum_once(private_service(v), calm),
{
    if let DatumV::Message(s) = v {
        assert(once(s, calm));
        let g = private_service(v)->Message_0.fields;
        names_apart();
        assert forall|i: int| 0 <= i < s.fields.len() implies (#[trigger] g[i]).0 == s.fields[i].0
            && datum_once(g[i].1, calm) && (g[i].1 == s.fields[i].1 || same_form(
            s.fields[i].1,
            g[i].1,
        )) by {
            assert(datum_once(s.fields[i].1, calm));
            assert(value_typed(s.full_name, s.fields[i].0, s.fields[i].1));
            if s.fields[i].0 == SERVICE_METHOD {
                methods_once(s.fields[i].1, calm);
            }
        }
        same_numbers_once(s.fields, g, calm);
        stays_typed(s.full_name, s.fields, g);
        if calm {
            stays_mild(s.fields, g);
        }
        assert(once(private_service(v)->Message_0, calm));
    }
}

proof fn methods_once(v: DatumV, calm: bool)
    requires
        datum_once(v, calm),
        v matches DatumV::List(l) ==> forall|i: int|
            0 <= i < l.len() ==> item_typed(Some(method_type_name()), #[trigger] l[i]),
    ensures
        datum_once(private_methods(v), calm),
        v is List ==> same_form(v, private_methods(v)),
{
    if let DatumV::List(l) = v {
        let k = private_methods(v)->List_0;
        assert forall|i: int| 0 <= i < k.len() implies same_item_form(l[i], #[trigger] k[i]) by {
            assert(item_typed(Some(method_type_name()), l[i]));
        }
        assert forall|i: int| 0 <= i < k.len() implies datum_once(#[trigger] k[i], calm) by {
            assert(datum_once(l[i], calm));
            if let DatumV::Message(m) = l[i] {
                references_once(m, METHOD_INPUT, METHOD_OUTPUT, calm);
            }
        }
    }
}

/// A file of the private copy says each thing once, as the file does that it stands for.
pub proof fn private_file_once(f: MessageV, structural: bool, calm: bool)
    requires
        file_once(f, calm),
    ensures
        file_once(normalized_file(f, structural), calm),
{
    let g = Seq::new(
        f.fields.len(),
        |i: int|
            {
                let number = f.fields[i].0;
                (
                    number,
                    if number == FILE_MESSAGE {
                        normalized_message_list(f.fields[i].1, structural)
                    } else if number == FILE_EXTENSION {
                        normalized_field_list(f.fields[i].1, structural)
                    } else if number == FILE_SERVICE {
                        normalized_services(f.fields[i].1, structural)
                    } else {
                        f.fields[i].1
                    },
                )
            },
    );
    names_apart();
    assert forall|i: int| 0 <= i < f.fields.len() implies (#[trigger] g[i]).0 == f.fields[i].0
        && datum_once(g[i].1, calm) && (g[i].1 == f.fields[i].1 || same_form(
        f.fields[i].1,
        g[i].1,
    )) by {
        let v = f.fields[i].1;
        assert(datum_once(v, calm));
        assert(value_typed(f.full_name, f.fields[i].0, v));
        if f.fields[i].0 == FILE_MESSAGE {
            message_list_once(v, structural, calm);
        } else if f.fields[i].0 == FILE_EXTENSION {
            field_list_once(v, structural, calm);
        } else if f.fields[i].0 == FILE_SERVICE {
            services_once(v, structural, calm);
        }
    }
    same_numbers_once(f.fields, g, calm);
    stays_typed(f.full_name, f.fields, g);
    if calm {
        stays_mild(f.fields, g);
    }
    if structural {
        let package = DatumV::Text(normalized_package(field_value(f.fields, FILE_PACKAGE)));
        with_field_once(g, FILE_PACKAGE, package, calm);
        with_field_typed(f.full_name, g, FILE_PACKAGE, package);
        with_field_keeps(g, FILE_PACKAGE, package, OPTIONS_UNINTERPRETED);
        with_field_keeps(g, FILE_PACKAGE, package, FIELD_KIND);
        with_field_keeps(g, FILE_PACKAGE, package, FIELD_DEFAULT);
    }
    let n = normalized_file(f, structural);
    assert(n.fields == if structural {
        with_field(
            g,
            FILE_PACKAGE,
            DatumV::Text(
                normalized_package(field_value(f.fields, FILE_PACKAGE)),
            ),
        )
    } else {
        g
    });
}

/// Merged files say each thing once, as the files do that they are made of.
pub proof fn merged_once(files: Seq<MessageV>, more: Seq<MessageV>, n: nat)
    requires
        files_once(files, false),
        files_once(more, false),
        n <= more.len(),
    ensures
        merged(files, more, n) matches Ok(all) ==> files_once(all, false),
    decreases n,
{
    if n > 0 {
        merged_once(files, more, (n - 1) as nat);
        if let Ok(all) = merged(files, more, (n - 1) as nat) {
            let f = more[n - 1];
            assert(file_once(f, false));
            without_field_once(f.fields, FILE_SOURCE_INFO, false);
            without_field_typed(f.full_name, f.fields, FILE_SOURCE_INFO);
            assert(file_once(without_source(f), false));
        }
    }
}

/// Whether escapes in the default of a field of bytes stand for bytes.
fn check_escapes(s: &str) -> (r: bool)
    ensures
        r == escapes_fit(s@),
{
    let n = s.unicode_len();
    let mut i: usize = 0;
    assert(s@.skip(0) =~= s@);
    while n - i >= 2
        invariant
            i <= n,
            n == s@.len(),
            escapes_fit(s@) == escapes_fit(s@.skip(i as int)),
        decreases n - i,
    {
        let ghost rest = s@.skip(i as int);
        let left = n - i;
        let first = s.get_char(i);
        let second = s.get_char(i + 1);
        assert(rest[0] == first && rest[1] == second && rest.len() == left);
        let third = if left > 2 {
            s.get_char(i + 2)
        } else {
            '-'
        };
        let fourth = if left > 3 {
            s.get_char(i + 3)
        } else {
            '-'
        };
        assert(left > 2 ==> rest[2] == third);
        assert(left > 3 ==> rest[3] == fourth);
        assert(forall|k: int| 0 <= k <= left ==> #[trigger] rest.skip(k) =~= s@.skip(i + k));
        if first != '\\' {
            i += 1;
        } else if '0' <= second && second <= '7' {
            let two = left > 2 && '0' <= third && third <= '7';
            let three = two && left > 3 && '0' <= fourth && fourth <= '7';
            if three {
                if second > '3' {
                    return false;
                }
                i += 4;
            } else if two {
                i += 3;
            } else {
                i += 2;
            }
        } else if second == 'x' || second == 'X' {
            if (left > 2 && third as u32 > 0x7f) || (left > 3 && fourth as u32 > 0x7f) {
                return false;
            }
            if left < 4 {
                return true;
            }
            i += 4;
        } else {
            i += 2;
        }
    }
    true
}

fn check_option(v: &Datum) -> (r: bool)
    ensures
        r == option_mild(v@),
{
    broadcast use message_views;
    broadcast use value_views;

    if let Datum::Message(o) = v {
        assert(v@ == DatumV::Message(o@));
        if find_field(&o.fields, OPTION_AGGREGATE) < o.fields.len() {
            assert(field_value(o@.fields, OPTION_AGGREGATE) is Some);
            return false;
        }
        let i = find_field(&o.fields, OPTION_NAME);
        if i < o.fields.len() {
            if let Datum::List(parts) = &o.fields[i].1 {
                assert(values_in(o@, OPTION_NAME) == list_view(parts@));
                return parts.len() <= PARTS_LIMIT;
            }
        }
        assert(values_in(o@, OPTION_NAME).len() == 0);
    }
    true
}

fn check_mild(m: &Message) -> (r: bool)
    ensures
        r == mild(m@.fields),
{
    broadcast use message_views;
    broadcast use value_views;

    let ghost f = m@.fields;
    let i = find_field(&m.fields, OPTIONS_UNINTERPRETED);
    if i < m.fields.len() {
        if let Datum::List(l) = &m.fields[i].1 {
            let ghost options = list_view(l@);
            assert(field_value(f, OPTIONS_UNINTERPRETED) == Some(DatumV::List(options)));
            let mut k: usize = 0;
            while k < l.len()
                invariant
                    k <= l@.len(),
                    options == list_view(l@),
                    f == m@.fields,
                    field_value(f, OPTIONS_UNINTERPRETED) == Some(DatumV::List(options)),
                    forall|j: int| 0 <= j < k ==> option_mild(#[trigger] options[j]),
                decreases l@.len() - k,
            {
                assert(options[k as int] == l@[k as int]@);
                if !check_option(&l[k]) {
                    assert(!option_mild(options[k as int]));
                    assert(!options_mild(options));
                    return false;
                }
                k += 1;
            }
        }
    }
    let kind = find_field(&m.fields, FIELD_KIND);
    if kind < m.fields.len() {
        if let Datum::Scalar(Scalar::Enum(n)) = &m.fields[kind].1 {
            if *n == 12 {
                let text = find_field(&m.fields, FIELD_DEFAULT);
                if text < m.fields.len() {
                    if let Datum::Text(t) = &m.fields[text].1 {
                        return check_escapes(t.as_str());
                    }
                }
            }
        }
    }
    true
}

fn check_calm(m: &Message) -> (r: bool)
    requires
        once(m@, false),
    ensures
        r == once(m@, true),
    decreases m, 1nat,
{
    broadcast use message_views;

    check_mild(m) && check_fields(&m.fields)
}

fn check_fields(f: &Vec<(u32, Datum)>) -> (r: bool)
    requires
        fields_once(fields_view(f@), false),
    ensures
        r == fields_once(fields_view(f@), true),
    decreases f, 0nat,
{
    let ghost all = fields_view(f@);
    let mut i: usize = 0;
    while i < f.len()
        invariant
            i <= f@.len(),
            all == fields_view(f@),
            fields_once(all, false),
            forall|k: int| 0 <= k < i ==> datum_once((#[trigger] all[k]).1, true),
        decreases f@.len() - i,
    {
        assert(all[i as int] == (f@[i as int].0, f@[i as int].1@));
        assert(datum_once(all[i as int].1, false));
        if !check_datum(&f[i].1) {
            return false;
        }
        i += 1;
    }
    true
}

fn check_datum(v: &Datum) -> (r: bool)
    requires
        datum_once(v@, false),
    ensures
        r == datum_once(v@, true),
    decreases v, 0nat,
{
    broadcast use value_views;

    match v {
        Datum::Message(m) => check_calm(m),
        Datum::List(l) => check_items(l),
        Datum::Entries(e) => check_entries(e),
        _ => true,
    }
}

fn check_items(l: &Vec<Datum>) -> (r: bool)
    requires
        items_once(list_view(l@), false),
    ensures
        r == items_once(list_view(l@), true),
    decreases l, 0nat,
{
    let ghost all = list_view(l@);
    let mut i: usize = 0;
    while i < l.len()
        invariant
            i <= l@.len(),
            all == list_view(l@),
            items_once(all, false),
            forall|k: int| 0 <= k < i ==> datum_once(#[trigger] all[k], true),
        decreases l@.len() - i,
    {
        assert(all[i as int] == l@[i as int]@);
        assert(datum_once(all[i as int], false));
        if !check_datum(&l[i]) {
            return false;
        }
        i += 1;
    }
    true
}

fn check_entries(e: &Vec<(EntryKey, Datum)>) -> (r: bool)
    requires
        entries_once(map_view(e@), false),
    ensures
        r == entries_once(map_view(e@), true),
    decreases e, 0nat,
{
    let ghost all = map_view(e@);
    let mut i: usize = 0;
    while i < e.len()
        invariant
            i <= e@.len(),
            all == map_view(e@),
            entries_once(all, false),
            forall|k: int| 0 <= k < i ==> datum_once((#[trigger] all[k]).1, true),
        decreases e@.len() - i,
    {
        assert(all[i as int] == (e@[i as int].0@, e@[i as int].1@));
        assert(datum_once(all[i as int].1, false));
        if !check_datum(&e[i].1) {
            return false;
        }
        i += 1;
    }
    true
}

/// Checks that a descriptor file that says each thing once is calm.
pub fn check_file(f: &Message) -> (r: bool)
    requires
        file_once(f@, false),
    ensures
        r == file_once(f@, true),
{
    check_calm(f)
}

} // verus!
