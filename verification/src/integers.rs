//! Configurations whose members are integers: which numbers their messages hold.
use vstd::prelude::*;

verus! {

use crate::error::Fault;
use crate::json::{names, put, JsonV};
use crate::message::{MessageV, Scalar};
use crate::order::slot;
use crate::pool::field_named;
use crate::schema::private_name;
use crate::structural::{meant_field, structural, structural_field, structural_members};
use crate::text::{integer_text, text_less};
use crate::types::{default_datum, FieldKindV, FieldTypeV};
use crate::validate::{int_value, long_value};

/// Whether a field holds one value, in no oneof, and has no default of its own.
pub open spec fn plain_field(t: FieldTypeV) -> bool {
    !t.list && !t.map && t.oneof is None && (t.presence || t.default == default_datum(t.kind))
}

/// Whether JSON is this integer, and the kind can hold it.
pub open spec fn fits(kind: FieldKindV, v: JsonV, n: int) -> bool {
    v == JsonV::Number(integer_text(n)) && match kind {
        FieldKindV::Scalar(Scalar::I64(_)) => i64::MIN <= n <= i64::MAX,
        FieldKindV::Scalar(Scalar::I32(_)) => i32::MIN <= n <= i32::MAX,
        _ => false,
    }
}

/// Whether a member of an object has the name of a field, and is an integer for it.
pub open spec fn member_fits(
    files: Seq<MessageV>,
    message: Seq<char>,
    member: (Seq<char>, JsonV),
    n: int,
) -> bool {
    match field_named(files, message, member.0) {
        Some(t) => t.name == member.0 && plain_field(t) && fits(t.kind, member.1, n),
        None => false,
    }
}

/// Whether the members of an object are these integers for fields.
pub open spec fn of_integers(
    files: Seq<MessageV>,
    message: Seq<char>,
    v: JsonV,
    numbers: Seq<int>,
) -> bool {
    match v {
        JsonV::Object(o) => o.len() == numbers.len() && forall|i: int|
            0 <= i < o.len() ==> member_fits(files, message, #[trigger] o[i], numbers[i]),
        _ => false,
    }
}

/// The integer in a field, 0 where there is none.
pub open spec fn number_in(m: MessageV, t: FieldTypeV) -> int {
    match t.kind {
        FieldKindV::Scalar(Scalar::I64(_)) => long_value(m, t.number),
        _ => int_value(m, t.number),
    }
}

/// Whether a message of the private copy for structural input holds the integers of an object, and
/// nothing else.
pub open spec fn holds_integers(
    files: Seq<MessageV>,
    message: Seq<char>,
    v: JsonV,
    numbers: Seq<int>,
    m: MessageV,
) -> bool {
    &&& m.full_name == private_name(message)
    &&& m.extensions.len() == 0
    &&& forall|k: int| 0 <= k < m.fields.len() ==> (#[trigger] m.fields[k]).1 is Scalar
    &&& match v {
        JsonV::Object(o) => forall|i: int|
            0 <= i < o.len() ==> number_in(
                m,
                field_named(files, message, (#[trigger] o[i]).0)->Some_0,
            ) == numbers[i],
        _ => false,
    }
}

/// The configuration of seconds and nanos.
pub open spec fn seconds_and_nanos(seconds: int, nanos: int) -> JsonV {
    JsonV::Object(
        seq![
            ("nanos"@, JsonV::Number(integer_text(nanos))),
            ("seconds"@, JsonV::Number(integer_text(seconds))),
        ],
    )
}

/// Whether a type has fields for seconds and nanos where they are looked for.
pub open spec fn has_seconds_and_nanos(files: Seq<MessageV>, message: Seq<char>) -> bool {
    match (field_named(files, message, "seconds"@), field_named(files, message, "nanos"@)) {
        (Some(s), Some(n)) => {
            &&& s.name == "seconds"@ && s.number == 1 && plain_field(s)
            &&& s.kind == FieldKindV::Scalar(Scalar::I64(0))
            &&& n.name == "nanos"@ && n.number == 2 && plain_field(n)
            &&& n.kind == FieldKindV::Scalar(Scalar::I32(0))
        },
        _ => false,
    }
}

/// Seconds and nanos are handed on as they are.
pub proof fn seconds_and_nanos_stay(
    files: Seq<MessageV>,
    message: Seq<char>,
    seconds: int,
    nanos: int,
)
    requires
        has_seconds_and_nanos(files, message),
        i64::MIN <= seconds <= i64::MAX,
        i32::MIN <= nanos <= i32::MAX,
    ensures
        structural(files, message, seconds_and_nanos(seconds, nanos)) == Ok::<JsonV, Fault>(
            seconds_and_nanos(seconds, nanos),
        ),
        of_integers(files, message, seconds_and_nanos(seconds, nanos), seq![nanos, seconds]),
{
    reveal_strlit("seconds");
    reveal_strlit("nanos");
    let v = seconds_and_nanos(seconds, nanos);
    let o = v->Object_0;
    let none = Seq::<(Seq<char>, JsonV)>::empty();
    assert(structural_members(files, message, o, 0) == Ok::<Seq<(Seq<char>, JsonV)>, Fault>(none));
    assert(names(none) =~= Seq::<Seq<char>>::empty());
    let one = put(none, o[0].0, o[0].1);
    assert(one =~= seq![o[0]]);
    let n = field_named(files, message, "nanos"@)->Some_0;
    let s = field_named(files, message, "seconds"@)->Some_0;
    assert(meant_field(files, message, o[0].0) == Some(n));
    assert(meant_field(files, message, o[1].0) == Some(s));
    assert(structural_field(files, message, o[0].0, n, o[0].1) == Ok::<JsonV, Fault>(o[0].1));
    assert(structural_field(files, message, o[1].0, s, o[1].1) == Ok::<JsonV, Fault>(o[1].1));
    assert(!names(none).contains("nanos"@));
    assert(structural_members(files, message, o, 1) == Ok::<Seq<(Seq<char>, JsonV)>, Fault>(one));
    assert(names(one) =~= seq!["nanos"@]);
    assert("nanos"@[0] == 'n' && "seconds"@[0] == 's');
    assert(text_less("nanos"@, "seconds"@));
    assert(names(one).drop_first() =~= Seq::<Seq<char>>::empty());
    assert(slot(names(one).drop_first(), "seconds"@) == 0);
    assert(slot(names(one), "seconds"@) == 1);
    assert(put(one, o[1].0, o[1].1) =~= o);
    assert(!names(one).contains("seconds"@)) by {
        assert("nanos"@.len() != "seconds"@.len());
    }
    assert(structural_members(files, message, o, 2) == Ok::<Seq<(Seq<char>, JsonV)>, Fault>(o));
    let numbers = seq![nanos, seconds];
    assert forall|i: int| 0 <= i < o.len() implies member_fits(
        files,
        message,
        #[trigger] o[i],
        numbers[i],
    ) by {
        assert(i == 0 || i == 1);
    }
}

} // verus!
