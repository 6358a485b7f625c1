//! What becomes of the parts of a message before it is written: maps are lists of entries in the
//! order of their keys, payloads are in normal form, and all else stays.
use vstd::prelude::*;

verus! {

use crate::codec::{bare, config, config_is_kept, config_message_read, known_files, protojson_form};
use crate::error::Fault;
use crate::json::JsonV;
use crate::message::{field_value, DatumV, KeyV, MessageV};
use crate::normalize::{
    by_text, by_text_sorts, expanded, expanded_datum, expanded_list, key_number, keyed,
    map_entries_are_sorted, sort_key, sorted, sorted_field, sorted_items, texts_of,
};
use crate::payload::{
    any_datum, any_entries, any_fields, any_list, any_normalized, datum_without_any,
    fields_without_any, normal_form, payload_bytes, payload_type, type_url, with_payload,
    without_any,
};
use crate::payloads::without_payloads_nothing_is_replaced;
use crate::pool::{field_named, key_text, message_type};
use crate::text::{last_part, tail_start, tail_start_facts, text_less, trimmed};
use crate::types::{numbered, type_index, FieldKindV, FieldTypeV};
use crate::validate::{extensions_of, fields_of, problem};

/// The field with a number is one that has it, and there is none only where no field has it.
pub proof fn numbers_find_their_fields(types: Seq<FieldTypeV>, number: u32)
    ensures
        numbered(types, number) matches Some(t) ==> t.number == number && types.contains(t),
        numbered(types, number) is None <==> forall|i: int|
            0 <= i < types.len() ==> (#[trigger] types[i]).number != number,
{
    index_divides(types, number);
    let p = type_index(types, number) as int;
    if p < types.len() {
        assert(types[p].number == number);
    }
}

proof fn index_divides(types: Seq<FieldTypeV>, number: u32)
    ensures
        type_index(types, number) <= types.len(),
        forall|i: int| 0 <= i < type_index(types, number) ==> (#[trigger] types[i]).number != number,
        type_index(types, number) < types.len() ==> types[type_index(
            types,
            number,
        ) as int].number == number,
    decreases types.len(),
{
    if types.len() > 0 && types[0].number != number {
        index_divides(types.drop_first(), number);
        assert forall|i: int| 0 <= i < type_index(types, number) implies (
        #[trigger] types[i]).number != number by {
            if i > 0 {
                assert(types[i] == types.drop_first()[i - 1]);
            }
        }
    }
}

/// Whether a value is a key of a map, as a value.
pub open spec fn is_key_value(k: KeyV, v: DatumV) -> bool {
    match k {
        KeyV::Scalar(s) => v == DatumV::Scalar(s),
        KeyV::Text(t) => v == DatumV::Text(t),
    }
}

/// Whether a value is what another one is written as, where it is no map: messages with their maps
/// as lists, and all else as it is.
pub open spec fn written_value(files: Seq<MessageV>, v: DatumV, w: DatumV) -> bool {
    match v {
        DatumV::Message(m) => w == DatumV::Message(expanded(files, m)),
        DatumV::List(_) => true,
        DatumV::Entries(_) => true,
        _ => w == v,
    }
}

/// Whether a value is the entry message of a map, for this key and value.
pub open spec fn written_entry(
    files: Seq<MessageV>,
    entry: Seq<char>,
    x: (KeyV, DatumV),
    v: DatumV,
) -> bool {
    match v {
        DatumV::Message(m) => {
            &&& m.full_name == entry
            &&& m.extensions.len() == 0 && m.unknown.len() == 0
            &&& m.fields.len() == 2
            &&& m.fields[0].0 == 1 && is_key_value(x.0, m.fields[0].1)
            &&& m.fields[1].0 == 2 && written_value(files, x.1, m.fields[1].1)
        },
        _ => false,
    }
}

/// A map becomes a list with one entry message for each of its entries, in their order.
pub proof fn maps_become_lists(
    files: Seq<MessageV>,
    m: MessageV,
    i: int,
    entry: Seq<char>,
    e: Seq<(KeyV, DatumV)>,
)
    requires
        0 <= i < m.fields.len(),
        m.fields[i].1 == DatumV::Entries(e),
        numbered(fields_of(files, m.full_name), m.fields[i].0) matches Some(t) && t.kind
            == FieldKindV::Message(entry),
    ensures
        expanded(files, m).fields.len() == m.fields.len(),
        expanded(files, m).fields[i].0 == m.fields[i].0,
        expanded(files, m).fields[i].1 matches DatumV::List(l) && l.len() == e.len() && forall|k: int|
            0 <= k < e.len() ==> written_entry(files, entry, #[trigger] e[k], l[k]),
{
    let l = crate::normalize::expanded_entries(files, entry, e);
    assert(expanded(files, m).fields[i].1 == DatumV::List(l));
    assert forall|k: int| 0 <= k < e.len() implies written_entry(
        files,
        entry,
        #[trigger] e[k],
        l[k],
    ) by {
        assert(l[k] == DatumV::Message(
            crate::normalize::entry_message(
                entry,
                e[k].0,
                expanded_datum(files, entry, e[k].1),
            ),
        ));
    }
}

/// All else stays: the name of a message, its unknown fields, which fields and extensions are set, and
/// their values where these are neither maps nor lists; and a list of messages keeps its length and
/// the places of the messages.
pub proof fn what_is_no_map_stays(files: Seq<MessageV>, m: MessageV, i: int)
    ensures
        expanded(files, m).full_name == m.full_name,
        expanded(files, m).unknown == m.unknown,
        expanded(files, m).fields.len() == m.fields.len(),
        expanded(files, m).extensions.len() == m.extensions.len(),
        0 <= i < m.fields.len() ==> stays(
            files,
            numbered(fields_of(files, m.full_name), m.fields[i].0),
            m.fields[i],
            expanded(files, m).fields[i],
        ),
        0 <= i < m.extensions.len() ==> stays(
            files,
            numbered(extensions_of(files, m.full_name), m.extensions[i].0),
            m.extensions[i],
            expanded(files, m).extensions[i],
        ),
{
    if 0 <= i < m.fields.len() {
        if let DatumV::List(l) = m.fields[i].1 {
            let entry = crate::normalize::child_name(
                fields_of(files, m.full_name),
                m.fields[i].0,
            );
            assert(expanded(files, m).fields[i].1 == DatumV::List(
                expanded_list(files, entry, l),
            ));
        }
    }
    if 0 <= i < m.extensions.len() {
        if let DatumV::List(l) = m.extensions[i].1 {
            let entry = crate::normalize::child_name(
                extensions_of(files, m.full_name),
                m.extensions[i].0,
            );
            assert(expanded(files, m).extensions[i].1 == DatumV::List(
                expanded_list(files, entry, l),
            ));
        }
    }
}

/// Whether a field is what another one is written as.
pub open spec fn stays(
    files: Seq<MessageV>,
    t: Option<FieldTypeV>,
    x: (u32, DatumV),
    y: (u32, DatumV),
) -> bool {
    &&& y.0 == x.0
    &&& match x.1 {
        DatumV::List(l) => y.1 matches DatumV::List(k) && k.len() == l.len() && forall|i: int|
            0 <= i < l.len() ==> written_value(files, #[trigger] l[i], k[i]),
        DatumV::Entries(_) => true,
        _ => (t matches Some(t) ==> !t.list && !t.map) ==> written_value(files, x.1, y.1),
    }
}

/// What is in a field that is no map keeps its place: a message is one with its own maps in order,
/// a list has as many messages as before, each in its place, and all else is the same.
pub proof fn sorting_keeps_places(files: Seq<MessageV>, name: Seq<char>, m: MessageV, i: int)
    ensures
        sorted(files, name, m).full_name == m.full_name,
        sorted(files, name, m).unknown == m.unknown,
        sorted(files, name, m).fields.len() == m.fields.len(),
        sorted(files, name, m).extensions.len() == m.extensions.len(),
        0 <= i < m.fields.len() ==> keeps_its_place(
            files,
            numbered(fields_of(files, name), m.fields[i].0),
            m.fields[i],
            sorted(files, name, m).fields[i],
        ),
        0 <= i < m.extensions.len() ==> keeps_its_place(
            files,
            numbered(extensions_of(files, name), m.extensions[i].0),
            m.extensions[i],
            sorted(files, name, m).extensions[i],
        ),
{
    if 0 <= i < m.fields.len() {
        field_keeps_its_place(files, numbered(fields_of(files, name), m.fields[i].0), m.fields[i]);
    }
    if 0 <= i < m.extensions.len() {
        field_keeps_its_place(
            files,
            numbered(extensions_of(files, name), m.extensions[i].0),
            m.extensions[i],
        );
    }
}

/// Whether a field is what another one is with its maps in order.
pub open spec fn keeps_its_place(
    files: Seq<MessageV>,
    t: Option<FieldTypeV>,
    x: (u32, DatumV),
    y: (u32, DatumV),
) -> bool {
    &&& y.0 == x.0
    &&& match t {
        Some(t) => match t.kind {
            FieldKindV::Message(child) => match x.1 {
                DatumV::Message(m) => y.1 == DatumV::Message(sorted(files, child, m)),
                DatumV::List(l) => y.1 matches DatumV::List(k) && k.len() == l.len() && (!t.map
                    ==> forall|i: int|
                    0 <= i < l.len() ==> in_order(files, child, #[trigger] l[i], k[i])) && (t.map
                    ==> (forall|i: int, j: int|
                    0 <= i < j < k.len() ==> !text_less(
                        key_text(sort_key(files, child, #[trigger] k[j])),
                        key_text(sort_key(files, child, #[trigger] k[i])),
                    )) && forall|i: int|
                    0 <= i < l.len() ==> exists|j: int|
                        0 <= j < k.len() && in_order(files, child, #[trigger] l[i], #[trigger] k[j])),
                _ => y.1 == x.1,
            },
            _ => y.1 == x.1,
        },
        None => y.1 == x.1,
    }
}

/// Whether a value is another one with its maps in order.
pub open spec fn in_order(files: Seq<MessageV>, child: Seq<char>, v: DatumV, w: DatumV) -> bool {
    match v {
        DatumV::Message(m) => w == DatumV::Message(sorted(files, child, m)),
        _ => w == v,
    }
}

proof fn field_keeps_its_place(files: Seq<MessageV>, t: Option<FieldTypeV>, x: (u32, DatumV))
    ensures
        keeps_its_place(files, t, x, (x.0, sorted_field(files, t, x.1))),
{
    broadcast use vstd::seq_lib::group_to_multiset_ensures;

    if let Some(t) = t {
        if let FieldKindV::Message(child) = t.kind {
            if let DatumV::List(l) = x.1 {
                let items = sorted_items(files, child, l);
                let k = sorted_field(files, Some(t), x.1)->List_0;
                if t.map {
                    map_entries_are_sorted(files, t, l);
                    by_text_sorts(keyed(files, child, items));
                    assert(k.len() == by_text(keyed(files, child, items)).len());
                    assert(k.len() == l.len());
                    assert forall|i: int, j: int| 0 <= i < j < k.len() implies !text_less(
                        key_text(sort_key(files, child, #[trigger] k[j])),
                        key_text(sort_key(files, child, #[trigger] k[i])),
                    ) by {
                        let s = texts_of(keyed(files, child, k));
                        assert(s[i] == key_text(sort_key(files, child, k[i])));
                        assert(s[j] == key_text(sort_key(files, child, k[j])));
                    }
                    assert forall|i: int| 0 <= i < l.len() implies exists|j: int|
                        0 <= j < k.len() && in_order(
                            files,
                            child,
                            #[trigger] l[i],
                            #[trigger] k[j],
                        ) by {
                        assert(in_order(files, child, l[i], items[i]));
                        assert(items.contains(items[i]));
                        assert(items.to_multiset().count(items[i]) > 0);
                        assert(k.to_multiset().count(items[i]) > 0);
                        assert(k.contains(items[i]));
                        let j = choose|j: int| 0 <= j < k.len() && k[j] == items[i];
                        assert(in_order(files, child, l[i], k[j]));
                    }
                } else {
                    assert(k == items);
                }
            }
        }
    }
}

/// The entries of a map are sorted by their field named `key`: the text or the number in it.
pub proof fn entries_are_sorted_by_key(
    files: Seq<MessageV>,
    entry: Seq<char>,
    number: u32,
    m: MessageV,
)
    requires
        field_named(files, entry, "key"@) matches Some(t) && t.number == number,
    ensures
        key_number(files, entry) == number,
        field_value(m.fields, number) matches Some(DatumV::Text(t)) ==> sort_key(
            files,
            entry,
            DatumV::Message(m),
        ) == KeyV::Text(t),
        field_value(m.fields, number) matches Some(DatumV::Scalar(s)) ==> sort_key(
            files,
            entry,
            DatumV::Message(m),
        ) == KeyV::Scalar(s),
        field_value(m.fields, number) is None ==> (numbered(
            fields_of(files, entry),
            number,
        ) matches Some(t) ==> is_key_value(sort_key(files, entry, DatumV::Message(m)), t.default)
            || !(t.default is Scalar || t.default is Text)),
{
}

/// A repeated field of messages that is no map is encoded with one message for each that was read,
/// in their order, and other fields with what was read.
pub proof fn encoded_fields_keep_places(
    sets: Seq<Seq<u8>>,
    name: Seq<char>,
    value: JsonV,
    i: int,
)
    requires
        config_is_kept(sets, name, value),
        config(sets, name, value) is Ok,
        config_message_read(sets, name, value) is Ok,
        0 <= i < config_message_read(sets, name, value)->Ok_0.fields.len(),
    ensures
        ({
            let read = config_message_read(sets, name, value)->Ok_0;
            let made = config(sets, name, value)->Ok_0;
            &&& made.full_name == read.full_name
            &&& made.fields.len() == read.fields.len()
            &&& keeps_its_place(
                known_files(sets, name),
                numbered(fields_of(known_files(sets, name), bare(name)), read.fields[i].0),
                read.fields[i],
                made.fields[i],
            )
        }),
{
    let read = config_message_read(sets, name, value)->Ok_0;
    sorting_keeps_places(known_files(sets, name), bare(name), read, i);
}

/// How many messages are inside one another in a message, itself among them. Lists and maps do not
/// count.
pub open spec fn depth_within(m: MessageV, levels: nat) -> bool
    decreases m,
{
    levels > 0 && fields_within(m.fields, (levels - 1) as nat) && fields_within(
        m.extensions,
        (levels - 1) as nat,
    )
}

/// The same of fields.
pub open spec fn fields_within(f: Seq<(u32, DatumV)>, levels: nat) -> bool
    decreases f,
{
    forall|i: int| 0 <= i < f.len() ==> value_within((#[trigger] f[i]).1, levels)
}

/// The same of a value.
pub open spec fn value_within(v: DatumV, levels: nat) -> bool
    decreases v,
{
    match v {
        DatumV::Message(m) => depth_within(m, levels),
        DatumV::List(l) => forall|i: int| 0 <= i < l.len() ==> value_within(#[trigger] l[i], levels),
        DatumV::Entries(e) => forall|i: int|
            0 <= i < e.len() ==> value_within((#[trigger] e[i]).1, levels),
        _ => true,
    }
}

/// A message that holds no payload stays as it is where no more messages are inside one another in
/// it than there are levels left, and is refused for its depth where there are more.
pub proof fn depth_is_limited(files: Seq<MessageV>, m: MessageV, left: nat)
    requires
        without_any(m),
    ensures
        depth_within(m, left) ==> any_normalized(files, m, left) == Ok::<MessageV, Fault>(m),
        !depth_within(m, left) ==> any_normalized(files, m, left) == Err::<MessageV, Fault>(
            Fault::AnyDepth,
        ),
    decreases m,
{
    if left > 0 {
        let less = (left - 1) as nat;
        fields_are_limited(files, m.fields, m.fields.len(), less);
        fields_are_limited(files, m.extensions, m.extensions.len(), less);
        if any_normalized(files, m, left) is Ok {
            without_payloads_nothing_is_replaced(files, m, left);
        }
    }
}

proof fn fields_are_limited(files: Seq<MessageV>, f: Seq<(u32, DatumV)>, n: nat, left: nat)
    requires
        n <= f.len(),
        fields_without_any(f),
    ensures
        (forall|i: int| 0 <= i < n ==> value_within((#[trigger] f[i]).1, left)) <==> any_fields(
            files,
            f,
            n,
            left,
        ) is Ok,
        any_fields(files, f, n, left) matches Err(e) ==> e == Fault::AnyDepth,
    decreases f, n,
{
    if n > 0 {
        fields_are_limited(files, f, (n - 1) as nat, left);
        assert(datum_without_any(f[n - 1].1));
        value_is_limited(files, f[n - 1].1, left);
    }
}

proof fn value_is_limited(files: Seq<MessageV>, v: DatumV, left: nat)
    requires
        datum_without_any(v),
    ensures
        value_within(v, left) <==> any_datum(files, v, left) is Ok,
        any_datum(files, v, left) matches Err(e) ==> e == Fault::AnyDepth,
    decreases v, 0nat,
{
    match v {
        DatumV::Message(m) => {
            depth_is_limited(files, m, left);
        },
        DatumV::List(l) => {
            list_is_limited(files, l, l.len(), left);
        },
        DatumV::Entries(e) => {
            entries_are_limited(files, e, e.len(), left);
        },
        _ => {},
    }
}

proof fn list_is_limited(files: Seq<MessageV>, l: Seq<DatumV>, n: nat, left: nat)
    requires
        n <= l.len(),
        forall|i: int| 0 <= i < l.len() ==> datum_without_any(#[trigger] l[i]),
    ensures
        (forall|i: int| 0 <= i < n ==> value_within(#[trigger] l[i], left)) <==> any_list(
            files,
            l,
            n,
            left,
        ) is Ok,
        any_list(files, l, n, left) matches Err(e) ==> e == Fault::AnyDepth,
    decreases l, n,
{
    if n > 0 {
        list_is_limited(files, l, (n - 1) as nat, left);
        value_is_limited(files, l[n - 1], left);
    }
}

proof fn entries_are_limited(files: Seq<MessageV>, e: Seq<(KeyV, DatumV)>, n: nat, left: nat)
    requires
        n <= e.len(),
        forall|i: int| 0 <= i < e.len() ==> datum_without_any((#[trigger] e[i]).1),
    ensures
        (forall|i: int| 0 <= i < n ==> value_within((#[trigger] e[i]).1, left)) <==> any_entries(
            files,
            e,
            n,
            left,
        ) is Ok,
        any_entries(files, e, n, left) matches Err(x) ==> x == Fault::AnyDepth,
    decreases e, n,
{
    if n > 0 {
        entries_are_limited(files, e, (n - 1) as nat, left);
        value_is_limited(files, e[n - 1].1, left);
    }
}

/// ProtoJSON that holds no payload and breaks no rule is written as what it holds, if no more than
/// 64 messages are inside one another under the outermost, and is refused for its depth if more are.
pub proof fn messages_nest_64_levels(files: Seq<MessageV>, name: Seq<char>, m: MessageV)
    requires
        without_any(m),
        problem(files, false, name, m) is None,
    ensures
        depth_within(m, 65) ==> protojson_form(files, name, m) == normal_form(files, bare(name), m),
        !depth_within(m, 65) ==> protojson_form(files, name, m) == Err::<MessageV, Fault>(
            Fault::AnyDepth,
        ),
{
    depth_is_limited(files, m, 65);
}

/// The part behind the last one of a character: what stands behind it, if it does not occur there.
pub proof fn last_parts(front: Seq<char>, back: Seq<char>, c: char)
    requires
        forall|i: int| 0 <= i < back.len() ==> #[trigger] back[i] != c,
    ensures
        last_part(front + seq![c] + back, c) == back,
        last_part(back, c) == back,
{
    let s = front + seq![c] + back;
    tail_start_facts(s, c);
    tail_start_facts(back, c);
    let p = tail_start(s, c);
    let q = front.len() + 1;
    assert(s[front.len() as int] == c);
    if p > q {
        assert(s[p - 1] == back[p - 1 - q]);
    }
    assert(p == q);
    assert(s.skip(p) =~= back);
    if tail_start(back, c) > 0 {
        assert(back[tail_start(back, c) - 1] == c);
    }
    assert(back.skip(0) =~= back);
}

/// The type of a payload is what stands behind the last slash of its URL, if the schema has a type of
/// this name. Only `google.protobuf.Any` holds payloads.
pub proof fn payloads_have_the_type_of_their_url(
    files: Seq<MessageV>,
    m: MessageV,
    host: Seq<char>,
    name: Seq<char>,
)
    requires
        forall|i: int| 0 <= i < name.len() ==> #[trigger] name[i] != '/',
        type_url(files, m) == Some(host + seq!['/'] + name),
    ensures
        m.full_name != "google.protobuf.Any"@ ==> payload_type(files, m) is None,
        m.full_name == "google.protobuf.Any"@ && message_type(files, name) is None ==> payload_type(
            files,
            m,
        ) is None,
        m.full_name == "google.protobuf.Any"@ && message_type(files, name) is Some ==> (field_named(
            files,
            m.full_name,
            "value"@,
        ) matches Some(t) ==> payload_type(files, m) == Some((t.number, name))),
{
    last_parts(host, name, '/');
}

/// A payload of a type that the schema does not know stays as it is, and so does a message that
/// holds no payload.
pub proof fn unknown_payloads_stay(files: Seq<MessageV>, m: MessageV, left: nat)
    requires
        payload_type(files, m) is None,
    ensures
        with_payload(files, m, left) == Ok::<MessageV, Fault>(m),
{
}

/// A payload that cannot be read as its type is refused under the name of the type, and one that
/// breaks a rule is refused for it.
pub proof fn bad_payloads_are_refused(
    files: Seq<MessageV>,
    m: MessageV,
    left: nat,
    number: u32,
    name: Seq<char>,
    bytes: Seq<u8>,
)
    requires
        payload_type(files, m) == Some((number, name)),
        payload_bytes(files, m, number) == Some(bytes),
    ensures
        crate::pool::wire_message(files, name, bytes) is None ==> with_payload(files, m, left)
            == Err::<MessageV, Fault>(Fault::AnyPayload(name)),
        crate::pool::wire_message(files, name, bytes) matches Some(p) ==> (!crate::rules::obeys(
            files,
            false,
            p,
        ) ==> (with_payload(files, m, left) matches Err(e) && e is Broken)),
{
    if let Some(p) = crate::pool::wire_message(files, name, bytes) {
        crate::rules::rules_are_exact(files, false, name, p);
    }
}

/// A name may be given with any number of dots in front, which are no part of it.
pub proof fn dots_in_front_are_no_part(name: Seq<char>, dots: nat)
    requires
        name.len() > 0 ==> name[0] != '.',
    ensures
        bare(Seq::new(dots, |i: int| '.') + name) == name,
    decreases dots,
{
    let s = Seq::new(dots, |i: int| '.') + name;
    if dots > 0 {
        dots_in_front_are_no_part(name, (dots - 1) as nat);
        assert(s.drop_first() =~= Seq::new((dots - 1) as nat, |i: int| '.') + name);
        assert(trimmed(s, '.') == trimmed(s.drop_first(), '.'));
    } else {
        assert(s =~= name);
    }
}

/// The order of texts: one comes before another if it is the beginning of it, or has the smaller
/// character where they first differ.
pub proof fn texts_are_ordered_by_characters(a: Seq<char>, b: Seq<char>, k: int)
    requires
        0 <= k <= a.len(),
        k <= b.len(),
        forall|i: int| 0 <= i < k ==> #[trigger] a[i] == b[i],
        k < a.len() && k < b.len() ==> a[k] != b[k],
    ensures
        k < a.len() && k < b.len() ==> (text_less(a, b) <==> (a[k] as int) < (b[k] as int)),
        k == a.len() && k < b.len() ==> text_less(a, b),
        k == b.len() ==> !text_less(a, b),
    decreases k,
{
    if k > 0 {
        let c = a.drop_first();
        let d = b.drop_first();
        assert forall|i: int| 0 <= i < k - 1 implies #[trigger] c[i] == d[i] by {
            assert(a[i + 1] == b[i + 1]);
        }
        assert(a[0] == b[0]);
        texts_are_ordered_by_characters(c, d, k - 1);
    }
}

/// Whether a value is what becomes of another one once the payloads in it are replaced: a message in
/// it, in a list or a map as well, is the one with its payloads replaced, and all else is as it was.
pub open spec fn replaced_value(files: Seq<MessageV>, v: DatumV, w: DatumV, left: nat) -> bool {
    match v {
        DatumV::Message(c) => any_normalized(files, c, left) is Ok && w == DatumV::Message(
            any_normalized(files, c, left)->Ok_0,
        ),
        DatumV::List(l) => w matches DatumV::List(k) && k.len() == l.len() && forall|i: int|
            0 <= i < l.len() ==> replaced_item(files, #[trigger] l[i], k[i], left),
        DatumV::Entries(e) => w matches DatumV::Entries(h) && h.len() == e.len() && forall|i: int|
            0 <= i < e.len() ==> (#[trigger] e[i]).0 == h[i].0 && replaced_item(
                files,
                e[i].1,
                h[i].1,
                left,
            ),
        _ => w == v,
    }
}

/// The same of a value in a list or a map.
pub open spec fn replaced_item(files: Seq<MessageV>, v: DatumV, w: DatumV, left: nat) -> bool {
    match v {
        DatumV::Message(c) => any_normalized(files, c, left) is Ok && w == DatumV::Message(
            any_normalized(files, c, left)->Ok_0,
        ),
        DatumV::List(_) => true,
        DatumV::Entries(_) => true,
        _ => w == v,
    }
}

/// Payloads are replaced wherever they are: in fields and extensions, and in lists and maps there. A
/// message that holds no payload itself keeps all else.
pub proof fn payloads_are_replaced_everywhere(files: Seq<MessageV>, m: MessageV, left: nat, i: int)
    requires
        m.full_name != "google.protobuf.Any"@,
        any_normalized(files, m, left) is Ok,
    ensures
        left > 0,
        ({
            let n = any_normalized(files, m, left)->Ok_0;
            let less = (left - 1) as nat;
            &&& n.full_name == m.full_name && n.unknown == m.unknown
            &&& n.fields.len() == m.fields.len() && n.extensions.len() == m.extensions.len()
            &&& 0 <= i < m.fields.len() ==> n.fields[i].0 == m.fields[i].0 && replaced_value(
                files,
                m.fields[i].1,
                n.fields[i].1,
                less,
            )
            &&& 0 <= i < m.extensions.len() ==> n.extensions[i].0 == m.extensions[i].0
                && replaced_value(files, m.extensions[i].1, n.extensions[i].1, less)
        }),
{
    let less = (left - 1) as nat;
    fields_are_replaced(files, m.fields, m.fields.len(), less);
    fields_are_replaced(files, m.extensions, m.extensions.len(), less);
}

proof fn fields_are_replaced(files: Seq<MessageV>, f: Seq<(u32, DatumV)>, n: nat, left: nat)
    requires
        n <= f.len(),
        any_fields(files, f, n, left) is Ok,
    ensures
        any_fields(files, f, n, left)->Ok_0.len() == n,
        forall|i: int|
            0 <= i < n ==> (#[trigger] any_fields(files, f, n, left)->Ok_0[i]).0 == f[i].0
                && replaced_value(files, f[i].1, any_fields(files, f, n, left)->Ok_0[i].1, left),
    decreases n,
{
    if n > 0 {
        fields_are_replaced(files, f, (n - 1) as nat, left);
        let v = f[n - 1].1;
        match v {
            DatumV::List(l) => {
                list_is_replaced(files, l, l.len(), left);
            },
            DatumV::Entries(e) => {
                entries_are_replaced(files, e, e.len(), left);
            },
            _ => {},
        }
        assert(replaced_value(files, v, any_datum(files, v, left)->Ok_0, left));
        let done = any_fields(files, f, (n - 1) as nat, left)->Ok_0;
        let all = any_fields(files, f, n, left)->Ok_0;
        assert forall|i: int| 0 <= i < n implies (#[trigger] all[i]).0 == f[i].0 && replaced_value(
            files,
            f[i].1,
            all[i].1,
            left,
        ) by {
            if i < n - 1 {
                assert(all[i] == done[i]);
            }
        }
    }
}

proof fn list_is_replaced(files: Seq<MessageV>, l: Seq<DatumV>, n: nat, left: nat)
    requires
        n <= l.len(),
        any_list(files, l, n, left) is Ok,
    ensures
        any_list(files, l, n, left)->Ok_0.len() == n,
        forall|i: int|
            0 <= i < n ==> replaced_item(
                files,
                #[trigger] l[i],
                any_list(files, l, n, left)->Ok_0[i],
                left,
            ),
    decreases n,
{
    if n > 0 {
        list_is_replaced(files, l, (n - 1) as nat, left);
        let done = any_list(files, l, (n - 1) as nat, left)->Ok_0;
        let all = any_list(files, l, n, left)->Ok_0;
        let v = l[n - 1];
        assert(any_datum(files, v, left) is Ok && all[n - 1] == any_datum(files, v, left)->Ok_0);
        assert(replaced_item(files, v, any_datum(files, v, left)->Ok_0, left));
        assert forall|i: int| 0 <= i < n implies replaced_item(
            files,
            #[trigger] l[i],
            all[i],
            left,
        ) by {
            if i < n - 1 {
                assert(all[i] == done[i]);
            }
        }
    }
}

proof fn entries_are_replaced(files: Seq<MessageV>, e: Seq<(KeyV, DatumV)>, n: nat, left: nat)
    requires
        n <= e.len(),
        any_entries(files, e, n, left) is Ok,
    ensures
        any_entries(files, e, n, left)->Ok_0.len() == n,
        forall|i: int|
            0 <= i < n ==> (#[trigger] e[i]).0 == any_entries(files, e, n, left)->Ok_0[i].0
                && replaced_item(files, e[i].1, any_entries(files, e, n, left)->Ok_0[i].1, left),
    decreases n,
{
    if n > 0 {
        entries_are_replaced(files, e, (n - 1) as nat, left);
        let done = any_entries(files, e, (n - 1) as nat, left)->Ok_0;
        let all = any_entries(files, e, n, left)->Ok_0;
        let v = e[n - 1].1;
        assert(any_datum(files, v, left) is Ok && all[n - 1] == (
            e[n - 1].0,
            any_datum(files, v, left)->Ok_0,
        ));
        assert(replaced_item(files, v, any_datum(files, v, left)->Ok_0, left));
        assert forall|i: int| 0 <= i < n implies (#[trigger] e[i]).0 == all[i].0 && replaced_item(
            files,
            e[i].1,
            all[i].1,
            left,
        ) by {
            if i < n - 1 {
                assert(all[i] == done[i]);
            }
        }
    }
}

/// The payload of an `Any` is replaced by the wire bytes of its own normal form, with the payloads in
/// it replaced, and nothing else in the `Any` changes.
pub proof fn payloads_are_put_in_normal_form(
    files: Seq<MessageV>,
    m: MessageV,
    left: nat,
    number: u32,
    name: Seq<char>,
    bytes: Seq<u8>,
    other: u32,
)
    requires
        payload_type(files, m) == Some((number, name)),
        payload_bytes(files, m, number) == Some(bytes),
        with_payload(files, m, left) is Ok,
    ensures
        crate::pool::wire_message(files, name, bytes) is Some,
        ({
            let p = crate::pool::wire_message(files, name, bytes)->Some_0;
            let n = with_payload(files, m, left)->Ok_0;
            let b = field_value(n.fields, number);
            &&& any_normalized(files, p, left) is Ok
            &&& normal_form(files, name, any_normalized(files, p, left)->Ok_0) is Ok
            &&& n.full_name == m.full_name && n.extensions == m.extensions && n.unknown == m.unknown
            &&& other != number ==> field_value(n.fields, other) == field_value(m.fields, other)
            &&& ({
                let new_bytes = crate::pool::wire_bytes(
                    crate::payload::private_files(files),
                    normal_form(files, name, any_normalized(files, p, left)->Ok_0)->Ok_0,
                );
                b == Some(DatumV::Bytes(new_bytes)) || (new_bytes.len() == 0 && (
                crate::once::numbers_differ(m.fields) ==> b is None))
            })
        }),
{
    let p = crate::pool::wire_message(files, name, bytes)->Some_0;
    let b = crate::payload::normal_bytes(files, name, any_normalized(files, p, left)->Ok_0)->Ok_0;
    crate::copying::setting_a_field(m.fields, number, DatumV::Bytes(b), other);
    crate::copying::taking_a_field_away(m.fields, number, other);
}

/// A single value in the place of a list is written as a list of one.
pub proof fn single_values_are_lists_of_one(files: Seq<MessageV>, m: MessageV, i: int)
    requires
        0 <= i < m.fields.len(),
        numbered(fields_of(files, m.full_name), m.fields[i].0) matches Some(t) && t.list,
        !(m.fields[i].1 is List) && !(m.fields[i].1 is Entries),
    ensures
        expanded(files, m).fields[i].1 matches DatumV::List(l) && l.len() == 1 && written_value(
            files,
            m.fields[i].1,
            l[0],
        ),
{
}

/// Whether no map of a schema is declared as a group. The language has no such maps.
pub open spec fn no_grouped_maps(files: Seq<MessageV>) -> bool {
    forall|name: Seq<char>|
        (#[trigger] message_type(files, name)) is Some ==> no_group_among(
            message_type(files, name)->Some_0.fields,
        ) && no_group_among(message_type(files, name)->Some_0.extensions)
}

/// The same of the fields of a type.
pub open spec fn no_group_among(types: Seq<FieldTypeV>) -> bool {
    forall|i: int| 0 <= i < types.len() ==> !((#[trigger] types[i]).map && types[i].group)
}

/// No message of such a schema is refused for a map that is declared as a group.
pub proof fn messages_are_not_grouped(files: Seq<MessageV>, m: MessageV)
    requires
        no_grouped_maps(files),
    ensures
        !crate::groups::grouped(files, m),
    decreases m,
{
    fields_are_not_grouped(files, fields_of(files, m.full_name), m.fields);
    fields_are_not_grouped(files, extensions_of(files, m.full_name), m.extensions);
}

proof fn fields_are_not_grouped(
    files: Seq<MessageV>,
    types: Seq<FieldTypeV>,
    f: Seq<(u32, DatumV)>,
)
    requires
        no_grouped_maps(files),
        no_group_among(types),
    ensures
        !crate::groups::grouped_fields(files, types, f),
    decreases f,
{
    assert forall|i: int| 0 <= i < f.len() implies !crate::groups::group_entries(
        numbered(types, f[i].0),
        f[i].1,
    ) && !crate::groups::grouped_datum(files, (#[trigger] f[i]).1) by {
        numbers_find_their_fields(types, f[i].0);
        if let Some(t) = numbered(types, f[i].0) {
            let k = choose|k: int| 0 <= k < types.len() && types[k] == t;
            assert(!(types[k].map && types[k].group));
        }
        value_is_not_grouped(files, f[i].1);
    }
}

proof fn value_is_not_grouped(files: Seq<MessageV>, v: DatumV)
    requires
        no_grouped_maps(files),
    ensures
        !crate::groups::grouped_datum(files, v),
    decreases v,
{
    match v {
        DatumV::Message(m) => {
            messages_are_not_grouped(files, m);
        },
        DatumV::List(l) => {
            assert forall|i: int| 0 <= i < l.len() implies !crate::groups::grouped_datum(
                files,
                #[trigger] l[i],
            ) by {
                value_is_not_grouped(files, l[i]);
            }
            assert(!crate::groups::grouped_list(files, l));
        },
        DatumV::Entries(e) => {
            assert forall|i: int| 0 <= i < e.len() implies !crate::groups::grouped_datum(
                files,
                (#[trigger] e[i]).1,
            ) by {
                value_is_not_grouped(files, e[i].1);
            }
            assert(!crate::groups::grouped_entries(files, e));
        },
        _ => {},
    }
}

/// The message of the private copy that stands for a message is that with its maps as lists, in order,
/// if the copy is made, has the type and can hold it, and its bytes can be read.
pub proof fn normal_forms_are_made(files: Seq<MessageV>, name: Seq<char>, m: MessageV, b: MessageV)
    requires
        no_grouped_maps(files),
    ensures
        ({
            let private = crate::schema::normalized_files(
                crate::pool::resolved_files(files),
                false,
            );
            let r = normal_form(files, name, m);
            &&& crate::pool::resolves(private) && message_type(private, name) is Some
                && crate::pool::built(private, sorted(files, name, expanded(files, m))) == Some(b)
                && crate::pool::wire_message(
                private,
                name,
                crate::pool::wire_bytes(private, b),
            ) is Some ==> r == Ok::<MessageV, Fault>(b)
            &&& r matches Err(e) ==> e is Unnormalized || e is NormalizedMissing || e is Unfit || e
                is Unreadable
        }),
{
    messages_are_not_grouped(files, m);
}

/// The payload of an `Any` that holds no messages beside it is replaced as it stands, one level deeper.
pub proof fn payloads_of_any_are_replaced(files: Seq<MessageV>, m: MessageV, left: nat)
    requires
        left > 0,
        m.extensions.len() == 0,
        forall|i: int|
            0 <= i < m.fields.len() ==> !((#[trigger] m.fields[i]).1 is Message) && !(m.fields[i].1
                is List) && !(m.fields[i].1 is Entries),
    ensures
        any_normalized(files, m, left) == with_payload(files, m, (left - 1) as nat),
{
    let less = (left - 1) as nat;
    plain_fields_stay(files, m.fields, m.fields.len(), less);
    assert(m.fields.take(m.fields.len() as int) =~= m.fields);
    assert(m.extensions =~= Seq::empty());
}

proof fn plain_fields_stay(files: Seq<MessageV>, f: Seq<(u32, DatumV)>, n: nat, left: nat)
    requires
        n <= f.len(),
        forall|i: int|
            0 <= i < f.len() ==> !((#[trigger] f[i]).1 is Message) && !(f[i].1 is List) && !(f[i].1
                is Entries),
    ensures
        any_fields(files, f, n, left) == Ok::<Seq<(u32, DatumV)>, Fault>(f.take(n as int)),
    decreases n,
{
    if n > 0 {
        plain_fields_stay(files, f, (n - 1) as nat, left);
        let v = f[n - 1].1;
        assert(any_datum(files, v, left) == Ok::<DatumV, Fault>(v));
        assert(f.take(n as int) =~= f.take(n - 1).push(f[n - 1]));
    } else {
        assert(f.take(0) =~= Seq::empty());
    }
}

/// ProtoJSON that breaks no rule is written with its payloads replaced, 65 levels of messages deep, and
/// is refused where they cannot be; what breaks a rule is refused for it.
pub proof fn payloads_are_replaced_before_writing(
    files: Seq<MessageV>,
    name: Seq<char>,
    m: MessageV,
)
    ensures
        crate::rules::obeys(files, false, m) ==> match any_normalized(files, m, 65) {
            Ok(n) => protojson_form(files, name, m) == normal_form(files, bare(name), n),
            Err(e) => protojson_form(files, name, m) == Err::<MessageV, Fault>(e),
        },
        !crate::rules::obeys(files, false, m) ==> (protojson_form(files, name, m) matches Err(e) && e
            is Broken),
{
    crate::rules::rules_are_exact(files, false, name, m);
}

/// The URL of a payload is the text in the field of this name, and is empty where none is set.
pub proof fn urls_are_read(files: Seq<MessageV>, m: MessageV, t: FieldTypeV)
    requires
        field_named(files, m.full_name, "type_url"@) == Some(t),
    ensures
        field_value(m.fields, t.number) matches Some(DatumV::Text(url)) ==> type_url(files, m)
            == Some(url),
        field_value(m.fields, t.number) is None && t.kind is Text && !t.list && !t.map ==> type_url(
            files,
            m,
        ) == Some(Seq::<char>::empty()),
{
}

/// The bytes of a payload are those in the field for it, and are none where it is not set.
pub proof fn payloads_are_read(files: Seq<MessageV>, m: MessageV, t: FieldTypeV)
    requires
        field_named(files, m.full_name, "value"@) == Some(t),
    ensures
        field_value(m.fields, t.number) matches Some(DatumV::Bytes(b)) ==> payload_bytes(
            files,
            m,
            t.number,
        ) == Some(b),
        field_value(m.fields, t.number) is None && t.kind is Bytes && !t.list && !t.map
            ==> payload_bytes(files, m, t.number) == Some(Seq::<u8>::empty()),
{
}

/// Payloads are replaced if, and only if, they can be replaced in each part: in each field and extension
/// of a message that holds no payload itself, and in each value of a list or a map. What is no message
/// and holds none can always stay.
pub proof fn when_payloads_are_replaced(files: Seq<MessageV>, m: MessageV, v: DatumV, left: nat)
    ensures
        m.full_name != "google.protobuf.Any"@ ==> (any_normalized(files, m, left) is Ok <==> left > 0
            && (forall|i: int|
            0 <= i < m.fields.len() ==> any_datum(
                files,
                (#[trigger] m.fields[i]).1,
                (left - 1) as nat,
            ) is Ok) && (forall|i: int|
            0 <= i < m.extensions.len() ==> any_datum(
                files,
                (#[trigger] m.extensions[i]).1,
                (left - 1) as nat,
            ) is Ok)),
        match v {
            DatumV::Message(c) => any_datum(files, v, left) is Ok <==> any_normalized(
                files,
                c,
                left,
            ) is Ok,
            DatumV::List(l) => any_datum(files, v, left) is Ok <==> forall|i: int|
                0 <= i < l.len() ==> any_datum(files, #[trigger] l[i], left) is Ok,
            DatumV::Entries(e) => any_datum(files, v, left) is Ok <==> forall|i: int|
                0 <= i < e.len() ==> any_datum(files, (#[trigger] e[i]).1, left) is Ok,
            _ => any_datum(files, v, left) == Ok::<DatumV, Fault>(v),
        },
{
    if left > 0 {
        fields_can_be_replaced(files, m.fields, m.fields.len(), (left - 1) as nat);
        fields_can_be_replaced(files, m.extensions, m.extensions.len(), (left - 1) as nat);
    }
    match v {
        DatumV::List(l) => {
            list_can_be_replaced(files, l, l.len(), left);
        },
        DatumV::Entries(e) => {
            entries_can_be_replaced(files, e, e.len(), left);
        },
        _ => {},
    }
}

proof fn fields_can_be_replaced(files: Seq<MessageV>, f: Seq<(u32, DatumV)>, n: nat, left: nat)
    requires
        n <= f.len(),
    ensures
        any_fields(files, f, n, left) is Ok <==> forall|i: int|
            0 <= i < n ==> any_datum(files, (#[trigger] f[i]).1, left) is Ok,
    decreases n,
{
    if n > 0 {
        fields_can_be_replaced(files, f, (n - 1) as nat, left);
    }
}

proof fn list_can_be_replaced(files: Seq<MessageV>, l: Seq<DatumV>, n: nat, left: nat)
    requires
        n <= l.len(),
    ensures
        any_list(files, l, n, left) is Ok <==> forall|i: int|
            0 <= i < n ==> any_datum(files, #[trigger] l[i], left) is Ok,
    decreases n,
{
    if n > 0 {
        list_can_be_replaced(files, l, (n - 1) as nat, left);
    }
}

proof fn entries_can_be_replaced(files: Seq<MessageV>, e: Seq<(KeyV, DatumV)>, n: nat, left: nat)
    requires
        n <= e.len(),
    ensures
        any_entries(files, e, n, left) is Ok <==> forall|i: int|
            0 <= i < n ==> any_datum(files, (#[trigger] e[i]).1, left) is Ok,
    decreases n,
{
    if n > 0 {
        entries_can_be_replaced(files, e, (n - 1) as nat, left);
    }
}

/// The payload of an `Any` is replaced if, and only if, it can be read as its type, obeys the rules, the
/// payloads in it can be replaced, and what comes of that has a normal form.
pub proof fn when_a_payload_is_replaced(
    files: Seq<MessageV>,
    m: MessageV,
    left: nat,
    number: u32,
    name: Seq<char>,
    bytes: Seq<u8>,
)
    requires
        payload_type(files, m) == Some((number, name)),
        payload_bytes(files, m, number) == Some(bytes),
    ensures
        with_payload(files, m, left) is Ok <==> (crate::pool::wire_message(
            files,
            name,
            bytes,
        ) matches Some(p) && crate::rules::obeys(files, false, p) && (any_normalized(
            files,
            p,
            left,
        ) matches Ok(q) && normal_form(files, name, q) is Ok)),
{
    if let Some(p) = crate::pool::wire_message(files, name, bytes) {
        crate::rules::rules_are_exact(files, false, name, p);
    }
}

} // verus!
