//! The rules that messages must keep: required fields are set, and the well-known types hold what
//! their JSON forms can say.
use crate::error::{CodecError, Rule};
use crate::message::{find_field, Datum, Message, Scalar};
use crate::pool::{find_type, key_debug};
use crate::text::{decimal, join3, join4, strip, text_eq};
use crate::types::{find_numbered, FieldType, MessageType};
use prost_reflect::DescriptorPool;
use vstd::prelude::*;

verus! {

use crate::error::Fault;
use crate::message::{
    field_value, fields_view, list_view, map_view, message_views, value_views, DatumV, KeyV,
    MessageV,
};
use crate::pool::{key_text, message_type, pool_files};
use crate::text::{begins_with, decimal_text};
use crate::types::{field_types_view, numbered, FieldTypeV};

/// The name of a type outside the private copy for structural input.
pub open spec fn public_name(name: Seq<char>, structural: bool) -> Seq<char> {
    if structural && begins_with(name, "protolark_internal."@) {
        name.skip("protolark_internal."@.len() as int)
    } else {
        name
    }
}

/// The 64-bit integer in a field, 0 where there is none.
pub open spec fn long_value(m: MessageV, number: u32) -> int {
    match field_value(m.fields, number) {
        Some(DatumV::Scalar(Scalar::I64(n))) => n as int,
        _ => 0,
    }
}

/// The 32-bit integer in a field, 0 where there is none.
pub open spec fn int_value(m: MessageV, number: u32) -> int {
    match field_value(m.fields, number) {
        Some(DatumV::Scalar(Scalar::I32(n))) => n as int,
        _ => 0,
    }
}

/// Whether a double with these bits is neither infinite nor a NaN: its exponent is not all ones.
pub open spec fn finite(bits: u64) -> bool {
    (bits as int / 0x10_0000_0000_0000) % 2048 != 2047
}

/// A timestamp is in the years 1 to 9999.
pub open spec fn timestamp_problem(m: MessageV) -> Option<Rule> {
    if !(-62135596800 <= long_value(m, 1) <= 253402300799) {
        Some(Rule::Seconds)
    } else if !(0 <= int_value(m, 2) <= 999999999) {
        Some(Rule::Nanos)
    } else {
        None
    }
}

/// A duration is within 10000 years, and its nanos do not point the other way.
pub open spec fn duration_problem(m: MessageV) -> Option<Rule> {
    let seconds = long_value(m, 1);
    let nanos = int_value(m, 2);
    if !(-315576000000 <= seconds <= 315576000000) {
        Some(Rule::Seconds)
    } else if !(-999999999 <= nanos <= 999999999) {
        Some(Rule::Nanos)
    } else if (seconds > 0 && nanos < 0) || (seconds < 0 && nanos > 0) {
        Some(Rule::Signs)
    } else {
        None
    }
}

/// A JSON value is of some kind, and a number among them is finite.
pub open spec fn value_problem(m: MessageV) -> Option<Rule> {
    if m.fields.len() == 0 {
        Some(Rule::Kind)
    } else {
        match field_value(m.fields, 2) {
            Some(DatumV::Scalar(Scalar::F64(bits))) => if finite(bits) {
                None
            } else {
                Some(Rule::Finite)
            },
            _ => None,
        }
    }
}

/// The rule of its well-known type that a message breaks.
pub open spec fn well_known_problem(m: MessageV, structural: bool) -> Option<Rule> {
    let name = public_name(m.full_name, structural);
    if name == "google.protobuf.Timestamp"@ {
        timestamp_problem(m)
    } else if name == "google.protobuf.Duration"@ {
        duration_problem(m)
    } else if name == "google.protobuf.Value"@ {
        value_problem(m)
    } else {
        None
    }
}

/// The name of the first required field, among the first `n` of a type, that is not set.
pub open spec fn missing(types: Seq<FieldTypeV>, f: Seq<(u32, DatumV)>, n: nat) -> Option<
    Seq<char>,
>
    decreases n,
{
    if n == 0 || n > types.len() {
        None
    } else {
        match missing(types, f, (n - 1) as nat) {
            Some(name) => Some(name),
            None => if types[n - 1].required && field_value(f, types[n - 1].number) is None {
                Some(types[n - 1].name)
            } else {
                None
            },
        }
    }
}

/// The fields of the type of a message.
pub open spec fn fields_of(files: Seq<MessageV>, name: Seq<char>) -> Seq<FieldTypeV> {
    match message_type(files, name) {
        Some(t) => t.fields,
        None => Seq::empty(),
    }
}

/// The extensions of the type of a message.
pub open spec fn extensions_of(files: Seq<MessageV>, name: Seq<char>) -> Seq<FieldTypeV> {
    match message_type(files, name) {
        Some(t) => t.extensions,
        None => Seq::empty(),
    }
}

/// The name of the field with this number.
pub open spec fn name_of(types: Seq<FieldTypeV>, number: u32) -> Seq<char> {
    match numbered(types, number) {
        Some(t) => t.name,
        None => Seq::empty(),
    }
}

/// The path of a field of a message. An extension stands in brackets.
pub open spec fn member_path(path: Seq<char>, name: Seq<char>, extension: bool) -> Seq<char> {
    if extension {
        path + ".["@ + name + "]"@
    } else {
        path + "."@ + name
    }
}

/// The first rule that a message breaks, with the path at which it does: first its required
/// fields, then the rule of its well-known type, then what its fields and extensions hold.
pub open spec fn problem(
    files: Seq<MessageV>,
    structural: bool,
    path: Seq<char>,
    m: MessageV,
) -> Option<(Seq<char>, Rule)>
    decreases m, 0nat,
{
    let types = fields_of(files, m.full_name);
    match missing(types, m.fields, types.len()) {
        Some(name) => Some((member_path(path, name, false), Rule::Required)),
        None => match well_known_problem(m, structural) {
            Some(rule) => Some((path, rule)),
            None => match fields_problem(
                files,
                structural,
                path,
                types,
                false,
                m.fields,
                m.fields.len(),
            ) {
                Some(p) => Some(p),
                None => fields_problem(
                    files,
                    structural,
                    path,
                    extensions_of(files, m.full_name),
                    true,
                    m.extensions,
                    m.extensions.len(),
                ),
            },
        },
    }
}

/// The first rule that one of the first `n` fields breaks.
pub open spec fn fields_problem(
    files: Seq<MessageV>,
    structural: bool,
    path: Seq<char>,
    types: Seq<FieldTypeV>,
    extension: bool,
    f: Seq<(u32, DatumV)>,
    n: nat,
) -> Option<(Seq<char>, Rule)>
    decreases f, n,
{
    if n == 0 || n > f.len() {
        None
    } else {
        match fields_problem(files, structural, path, types, extension, f, (n - 1) as nat) {
            Some(p) => Some(p),
            None => datum_problem(
                files,
                structural,
                member_path(path, name_of(types, f[n - 1].0), extension),
                f[n - 1].1,
            ),
        }
    }
}

/// The first rule that a value breaks.
pub open spec fn datum_problem(
    files: Seq<MessageV>,
    structural: bool,
    path: Seq<char>,
    v: DatumV,
) -> Option<(Seq<char>, Rule)>
    decreases v, 0nat,
{
    match v {
        DatumV::Message(m) => problem(files, structural, path, m),
        DatumV::List(l) => list_problem(files, structural, path, l, l.len()),
        DatumV::Entries(e) => entries_problem(files, structural, path, e, e.len()),
        _ => None,
    }
}

/// The first rule that one of the first `n` values of a list breaks.
pub open spec fn list_problem(
    files: Seq<MessageV>,
    structural: bool,
    path: Seq<char>,
    l: Seq<DatumV>,
    n: nat,
) -> Option<(Seq<char>, Rule)>
    decreases l, n,
{
    if n == 0 || n > l.len() {
        None
    } else {
        match list_problem(files, structural, path, l, (n - 1) as nat) {
            Some(p) => Some(p),
            None => datum_problem(
                files,
                structural,
                path + "["@ + decimal_text((n - 1) as nat) + "]"@,
                l[n - 1],
            ),
        }
    }
}

/// The first rule that one of the first `n` entries of a map breaks.
pub open spec fn entries_problem(
    files: Seq<MessageV>,
    structural: bool,
    path: Seq<char>,
    e: Seq<(KeyV, DatumV)>,
    n: nat,
) -> Option<(Seq<char>, Rule)>
    decreases e, n,
{
    if n == 0 || n > e.len() {
        None
    } else {
        match entries_problem(files, structural, path, e, (n - 1) as nat) {
            Some(p) => Some(p),
            None => datum_problem(
                files,
                structural,
                path + "["@ + key_text(e[n - 1].0) + "]"@,
                e[n - 1].1,
            ),
        }
    }
}

/// Whether a result says which rule is broken.
pub open spec fn says(r: Result<(), CodecError>, p: Option<(Seq<char>, Rule)>) -> bool {
    match (r, p) {
        (Ok(_), None) => true,
        (Err(e), Some((path, rule))) => e@ == Fault::Broken(path, rule),
        _ => false,
    }
}

fn long_of(m: &Message, number: u32) -> (r: i64)
    ensures
        r == long_value(m@, number),
{
    broadcast use message_views;

    let i = find_field(&m.fields, number);
    if i < m.fields.len() {
        if let Datum::Scalar(Scalar::I64(n)) = &m.fields[i].1 {
            return *n;
        }
    }
    0
}

fn int_of(m: &Message, number: u32) -> (r: i32)
    ensures
        r == int_value(m@, number),
{
    broadcast use message_views;

    let i = find_field(&m.fields, number);
    if i < m.fields.len() {
        if let Datum::Scalar(Scalar::I32(n)) = &m.fields[i].1 {
            return *n;
        }
    }
    0
}

fn is_finite(bits: u64) -> (r: bool)
    ensures
        r == finite(bits),
{
    (bits / 0x10_0000_0000_0000) % 2048 != 2047
}

fn check_timestamp(m: &Message) -> (r: Option<Rule>)
    ensures
        r == timestamp_problem(m@),
{
    let seconds = long_of(m, 1);
    let nanos = int_of(m, 2);
    if !(-62135596800 <= seconds && seconds <= 253402300799) {
        Some(Rule::Seconds)
    } else if !(0 <= nanos && nanos <= 999999999) {
        Some(Rule::Nanos)
    } else {
        None
    }
}

fn check_duration(m: &Message) -> (r: Option<Rule>)
    ensures
        r == duration_problem(m@),
{
    let seconds = long_of(m, 1);
    let nanos = int_of(m, 2);
    if !(-315576000000 <= seconds && seconds <= 315576000000) {
        Some(Rule::Seconds)
    } else if !(-999999999 <= nanos && nanos <= 999999999) {
        Some(Rule::Nanos)
    } else if (seconds > 0 && nanos < 0) || (seconds < 0 && nanos > 0) {
        Some(Rule::Signs)
    } else {
        None
    }
}

fn check_value(m: &Message) -> (r: Option<Rule>)
    ensures
        r == value_problem(m@),
{
    broadcast use message_views;

    if m.fields.len() == 0 {
        return Some(Rule::Kind);
    }
    let i = find_field(&m.fields, 2);
    if i < m.fields.len() {
        if let Datum::Scalar(Scalar::F64(bits)) = &m.fields[i].1 {
            if !is_finite(*bits) {
                return Some(Rule::Finite);
            }
        }
    }
    None
}

fn check_well_known(m: &Message, structural: bool) -> (r: Option<Rule>)
    ensures
        r == well_known_problem(m@, structural),
{
    let name = if structural {
        match strip(m.full_name.as_str(), "protolark_internal.") {
            Some(rest) => rest,
            None => m.full_name.clone(),
        }
    } else {
        m.full_name.clone()
    };
    if text_eq(name.as_str(), "google.protobuf.Timestamp") {
        check_timestamp(m)
    } else if text_eq(name.as_str(), "google.protobuf.Duration") {
        check_duration(m)
    } else if text_eq(name.as_str(), "google.protobuf.Value") {
        check_value(m)
    } else {
        None
    }
}

proof fn missing_stays(types: Seq<FieldTypeV>, f: Seq<(u32, DatumV)>, k: nat, n: nat)
    requires
        k <= n <= types.len(),
        missing(types, f, k) is Some,
    ensures
        missing(types, f, n) == missing(types, f, k),
    decreases n,
{
    if k < n {
        missing_stays(types, f, k, (n - 1) as nat);
    }
}

fn find_missing(types: &Vec<FieldType>, f: &Vec<(u32, Datum)>) -> (r: Option<String>)
    ensures
        crate::text::optional_text(r) == missing(
            field_types_view(types@),
            fields_view(f@),
            types@.len(),
        ),
{
    let ghost tv = field_types_view(types@);
    let ghost fv = fields_view(f@);
    let mut i: usize = 0;
    while i < types.len()
        invariant
            i <= types@.len(),
            tv == field_types_view(types@),
            fv == fields_view(f@),
            missing(tv, fv, i as nat) is None,
        decreases types@.len() - i,
    {
        assert(tv[i as int] == types@[i as int]@);
        if types[i].required {
            let p = find_field(f, types[i].number);
            if p >= f.len() {
                proof {
                    missing_stays(tv, fv, (i + 1) as nat, tv.len());
                }
                return Some(types[i].name.clone());
            }
        }
        i += 1;
    }
    None
}

/// An empty message type.
fn no_type() -> (r: MessageType)
    ensures
        r@.fields.len() == 0,
        r@.extensions.len() == 0,
{
    MessageType { full_name: String::new(), fields: Vec::new(), extensions: Vec::new() }
}

/// Finds the first rule that a message breaks.
pub fn validate(pool: &DescriptorPool, structural: bool, path: &str, m: &Message) -> (r: Result<
    (),
    CodecError,
>)
    ensures
        says(r, problem(pool_files(*pool), structural, path@, m@)),
    decreases m, 0nat,
{
    broadcast use message_views;

    let ghost files = pool_files(*pool);
    let t = match find_type(pool, m.full_name.as_str()) {
        Some(t) => t,
        None => no_type(),
    };
    assert(t@.fields =~= fields_of(files, m@.full_name));
    assert(t@.extensions =~= extensions_of(files, m@.full_name));
    if let Some(name) = find_missing(&t.fields, &m.fields) {
        return Err(CodecError::Broken(join3(path, ".", name.as_str()), Rule::Required));
    }
    if let Some(rule) = check_well_known(m, structural) {
        return Err(CodecError::Broken(path.to_owned(), rule));
    }
    if let Err(e) = validate_fields(pool, structural, path, &t.fields, false, &m.fields) {
        return Err(e);
    }
    validate_fields(pool, structural, path, &t.extensions, true, &m.extensions)
}

proof fn fields_problem_stays(
    files: Seq<MessageV>,
    structural: bool,
    path: Seq<char>,
    types: Seq<FieldTypeV>,
    extension: bool,
    f: Seq<(u32, DatumV)>,
    k: nat,
    n: nat,
)
    requires
        k <= n <= f.len(),
        fields_problem(files, structural, path, types, extension, f, k) is Some,
    ensures
        fields_problem(files, structural, path, types, extension, f, n) == fields_problem(
            files,
            structural,
            path,
            types,
            extension,
            f,
            k,
        ),
    decreases n,
{
    if k < n {
        fields_problem_stays(files, structural, path, types, extension, f, k, (n - 1) as nat);
    }
}

fn validate_fields(
    pool: &DescriptorPool,
    structural: bool,
    path: &str,
    types: &Vec<FieldType>,
    extension: bool,
    f: &Vec<(u32, Datum)>,
) -> (r: Result<(), CodecError>)
    ensures
        says(
            r,
            fields_problem(
                pool_files(*pool),
                structural,
                path@,
                field_types_view(types@),
                extension,
                fields_view(f@),
                f@.len(),
            ),
        ),
    decreases f, 0nat,
{
    let ghost files = pool_files(*pool);
    let ghost tv = field_types_view(types@);
    let ghost fv = fields_view(f@);
    let mut i: usize = 0;
    while i < f.len()
        invariant
            i <= f@.len(),
            files == pool_files(*pool),
            tv == field_types_view(types@),
            fv == fields_view(f@),
            fields_problem(files, structural, path@, tv, extension, fv, i as nat) is None,
        decreases f@.len() - i,
    {
        assert(fv[i as int] == (f@[i as int].0, f@[i as int].1@));
        let name = match find_numbered(types, f[i].0) {
            Some(t) => t.name.clone(),
            None => String::new(),
        };
        assert(name@ =~= name_of(tv, fv[i as int].0));
        let inner = if extension {
            join4(path, ".[", name.as_str(), "]")
        } else {
            join3(path, ".", name.as_str())
        };
        if let Err(e) = validate_datum(pool, structural, inner.as_str(), &f[i].1) {
            proof {
                fields_problem_stays(
                    files,
                    structural,
                    path@,
                    tv,
                    extension,
                    fv,
                    (i + 1) as nat,
                    fv.len(),
                );
            }
            return Err(e);
        }
        i += 1;
    }
    Ok(())
}

proof fn list_problem_stays(
    files: Seq<MessageV>,
    structural: bool,
    path: Seq<char>,
    l: Seq<DatumV>,
    k: nat,
    n: nat,
)
    requires
        k <= n <= l.len(),
        list_problem(files, structural, path, l, k) is Some,
    ensures
        list_problem(files, structural, path, l, n) == list_problem(files, structural, path, l, k),
    decreases n,
{
    if k < n {
        list_problem_stays(files, structural, path, l, k, (n - 1) as nat);
    }
}

proof fn entries_problem_stays(
    files: Seq<MessageV>,
    structural: bool,
    path: Seq<char>,
    e: Seq<(KeyV, DatumV)>,
    k: nat,
    n: nat,
)
    requires
        k <= n <= e.len(),
        entries_problem(files, structural, path, e, k) is Some,
    ensures
        entries_problem(files, structural, path, e, n) == entries_problem(
            files,
            structural,
            path,
            e,
            k,
        ),
    decreases n,
{
    if k < n {
        entries_problem_stays(files, structural, path, e, k, (n - 1) as nat);
    }
}

/// Finds the first rule that a value breaks.
pub fn validate_datum(pool: &DescriptorPool, structural: bool, path: &str, v: &Datum) -> (r: Result<
    (),
    CodecError,
>)
    ensures
        says(r, datum_problem(pool_files(*pool), structural, path@, v@)),
    decreases v, 0nat,
{
    broadcast use value_views;

    let ghost files = pool_files(*pool);
    match v {
        Datum::Message(m) => validate(pool, structural, path, m),
        Datum::List(l) => {
            let ghost lv = list_view(l@);
            let mut i: usize = 0;
            while i < l.len()
                invariant
                    decreases_to!(v => l),
                    i <= l@.len(),
                    files == pool_files(*pool),
                    lv == list_view(l@),
                    v@ == DatumV::List(lv),
                    list_problem(files, structural, path@, lv, i as nat) is None,
                decreases l@.len() - i,
            {
                assert(lv[i as int] == l@[i as int]@);
                let n = decimal(i);
                let inner = join4(path, "[", n.as_str(), "]");
                if let Err(e) = validate_datum(pool, structural, inner.as_str(), &l[i]) {
                    proof {
                        list_problem_stays(
                            files,
                            structural,
                            path@,
                            lv,
                            (i + 1) as nat,
                            lv.len(),
                        );
                    }
                    return Err(e);
                }
                i += 1;
            }
            Ok(())
        },
        Datum::Entries(entries) => {
            let ghost ev = map_view(entries@);
            let mut i: usize = 0;
            while i < entries.len()
                invariant
                    decreases_to!(v => entries),
                    i <= entries@.len(),
                    files == pool_files(*pool),
                    ev == map_view(entries@),
                    v@ == DatumV::Entries(ev),
                    entries_problem(files, structural, path@, ev, i as nat) is None,
                decreases entries@.len() - i,
            {
                assert(ev[i as int] == (entries@[i as int].0@, entries@[i as int].1@));
                let k = key_debug(&entries[i].0);
                let inner = join4(path, "[", k.as_str(), "]");
                if let Err(e) = validate_datum(pool, structural, inner.as_str(), &entries[i].1) {
                    proof {
                        entries_problem_stays(
                            files,
                            structural,
                            path@,
                            ev,
                            (i + 1) as nat,
                            ev.len(),
                        );
                    }
                    return Err(e);
                }
                i += 1;
            }
            Ok(())
        },
        _ => Ok(()),
    }
}

/// Whether a message, and all messages in it, keep the rules.
pub open spec fn kept(files: Seq<MessageV>, structural: bool, m: MessageV) -> bool
    decreases m,
{
    let types = fields_of(files, m.full_name);
    &&& forall|i: int|
        0 <= i < types.len() && (#[trigger] types[i]).required ==> field_value(
            m.fields,
            types[i].number,
        ) is Some
    &&& well_known_problem(m, structural) is None
    &&& fields_kept(files, structural, m.fields)
    &&& fields_kept(files, structural, m.extensions)
}

/// The same of fields.
pub open spec fn fields_kept(files: Seq<MessageV>, structural: bool, f: Seq<(u32, DatumV)>) -> bool
    decreases f,
{
    forall|i: int| 0 <= i < f.len() ==> datum_kept(files, structural, (#[trigger] f[i]).1)
}

/// The same of a value.
pub open spec fn datum_kept(files: Seq<MessageV>, structural: bool, v: DatumV) -> bool
    decreases v,
{
    match v {
        DatumV::Message(m) => kept(files, structural, m),
        DatumV::List(l) => forall|i: int|
            0 <= i < l.len() ==> datum_kept(files, structural, #[trigger] l[i]),
        DatumV::Entries(e) => forall|i: int|
            0 <= i < e.len() ==> datum_kept(files, structural, (#[trigger] e[i]).1),
        _ => true,
    }
}

proof fn missing_says(types: Seq<FieldTypeV>, f: Seq<(u32, DatumV)>, n: nat)
    requires
        n <= types.len(),
    ensures
        missing(types, f, n) is None <==> forall|i: int|
            0 <= i < n && (#[trigger] types[i]).required ==> field_value(f, types[i].number) is Some,
    decreases n,
{
    if n > 0 {
        missing_says(types, f, (n - 1) as nat);
    }
}

/// No problem is found if and only if the message, and all messages in it, keep the rules.
pub proof fn no_problem_iff_kept(
    files: Seq<MessageV>,
    structural: bool,
    path: Seq<char>,
    m: MessageV,
)
    ensures
        problem(files, structural, path, m) is None <==> kept(files, structural, m),
    decreases m, 0nat,
{
    let types = fields_of(files, m.full_name);
    let extensions = extensions_of(files, m.full_name);
    missing_says(types, m.fields, types.len());
    fields_problem_says(files, structural, path, types, false, m.fields, m.fields.len());
    fields_problem_says(
        files,
        structural,
        path,
        extensions,
        true,
        m.extensions,
        m.extensions.len(),
    );
}

proof fn fields_problem_says(
    files: Seq<MessageV>,
    structural: bool,
    path: Seq<char>,
    types: Seq<FieldTypeV>,
    extension: bool,
    f: Seq<(u32, DatumV)>,
    n: nat,
)
    requires
        n <= f.len(),
    ensures
        fields_problem(files, structural, path, types, extension, f, n) is None <==> forall|i: int|
            0 <= i < n ==> datum_kept(files, structural, (#[trigger] f[i]).1),
    decreases f, n,
{
    if n > 0 {
        fields_problem_says(files, structural, path, types, extension, f, (n - 1) as nat);
        datum_problem_says(
            files,
            structural,
            member_path(path, name_of(types, f[n - 1].0), extension),
            f[n - 1].1,
        );
    }
}

proof fn datum_problem_says(files: Seq<MessageV>, structural: bool, path: Seq<char>, v: DatumV)
    ensures
        datum_problem(files, structural, path, v) is None <==> datum_kept(files, structural, v),
    decreases v, 0nat,
{
    match v {
        DatumV::Message(m) => {
            no_problem_iff_kept(files, structural, path, m);
        },
        DatumV::List(l) => {
            list_problem_says(files, structural, path, l, l.len());
        },
        DatumV::Entries(e) => {
            entries_problem_says(files, structural, path, e, e.len());
        },
        _ => {},
    }
}

proof fn list_problem_says(
    files: Seq<MessageV>,
    structural: bool,
    path: Seq<char>,
    l: Seq<DatumV>,
    n: nat,
)
    requires
        n <= l.len(),
    ensures
        list_problem(files, structural, path, l, n) is None <==> forall|i: int|
            0 <= i < n ==> datum_kept(files, structural, #[trigger] l[i]),
    decreases l, n,
{
    if n > 0 {
        list_problem_says(files, structural, path, l, (n - 1) as nat);
        datum_problem_says(
            files,
            structural,
            path + "["@ + decimal_text((n - 1) as nat) + "]"@,
            l[n - 1],
        );
    }
}

proof fn entries_problem_says(
    files: Seq<MessageV>,
    structural: bool,
    path: Seq<char>,
    e: Seq<(KeyV, DatumV)>,
    n: nat,
)
    requires
        n <= e.len(),
    ensures
        entries_problem(files, structural, path, e, n) is None <==> forall|i: int|
            0 <= i < n ==> datum_kept(files, structural, (#[trigger] e[i]).1),
    decreases e, n,
{
    if n > 0 {
        entries_problem_says(files, structural, path, e, (n - 1) as nat);
        datum_problem_says(
            files,
            structural,
            path + "["@ + key_text(e[n - 1].0) + "]"@,
            e[n - 1].1,
        );
    }
}

} // verus!
