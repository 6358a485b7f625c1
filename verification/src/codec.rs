//! Descriptor-driven protobuf conversion with the protobuf JSON mapping.
use crate::error::CodecError;
use crate::json::Json;
use crate::message::Message;
use crate::normalize::sort_maps;
use crate::payload::{normal_form_of, normalize_any_payloads, private_pool};
use crate::pool::{
    build_pool, decode_wire, dynamic_of, encode_wire, find_type, format_text, json_of, json_value,
    message_of, parse_json, parse_text, read_set, serialize_json,
};
use crate::schema::{merge_files, private_name_of};
use crate::sound::check_files;
use crate::structural::structural_json;
use crate::text::trim_start;
use crate::validate::validate;
use prost_reflect::{DescriptorPool, DynamicMessage};
use vstd::prelude::*;

verus! {

use crate::determinism::{same_any_normalized, same_problem};
use crate::error::Fault;
use crate::faithful::{faithful, json_reads_back, said_without_any};
use crate::integers::{
    has_seconds_and_nanos, holds_integers, number_in, of_integers, seconds_and_nanos,
    seconds_and_nanos_stay,
};
use crate::json::JsonV;
use crate::known::{known_only, unknown_fields_break_no_rule, unknown_outside};
use crate::message::MessageV;
use crate::normalize::sorted;
use crate::once::{files_once, merged_once};
use crate::merge::{all_told_apart, same_members, same_sets, same_sets_same_files};
use crate::nulls::{
    null_at, null_stays_apart, nulls_stay_apart, spare, without_member, without_nulls,
};
use crate::payload::{
    any_name, any_normalized, normal_form, private_files, related, same_payloads, standard_any,
    without_any, without_unknown,
};
use crate::payloads::without_payloads_nothing_is_replaced;
use crate::pool::{
    built, dynamic_contents, dynamic_files, field_named, json_message, message_json, message_type, pool_files,
    resolved_files, resolves, set_files, text_form, text_message, wire_bytes, wire_message,
};
use crate::reading::{config_parts_read, parts_read};
use crate::records::{is_record, record, undeclared, Load};
use crate::relating::same_payloads_are_transitive;
use crate::schema::{merged, messages_view, normalized_files, private_name, private_package, sets_view};
use crate::readback::{
    any_keeps_conforming, any_keeps_shape, any_keeps_unknown, folded, plain_schema, plain_text,
    sorting_keeps_conforming, stands_for, without_maps, without_negative_zero,
};
use crate::sound::sound;
use crate::steady::steady;
use crate::structural::structural;
use crate::text::{begins_with, trimmed};
use crate::textual::{text_reads_as, text_says_all};
use crate::types::{conforms, declared_as_read, dotted, shaped, tidy, undotted};
use crate::validate::{
    duration_problem, fields_of, int_value, kept, long_value, no_problem_iff_kept, problem,
    public_name, timestamp_problem,
};

/// The files of the first `n` descriptor sets, merged.
pub open spec fn merged_sets(sets: Seq<Seq<u8>>, n: nat) -> Result<Seq<MessageV>, Fault>
    decreases n,
{
    if n == 0 {
        Ok(Seq::empty())
    } else {
        match merged_sets(sets, (n - 1) as nat) {
            Err(e) => Err(e),
            Ok(files) => match set_files(sets[n - 1]) {
                None => Err(Fault::DescriptorSet((n - 1) as nat)),
                Some(more) => merged(files, more, more.len()),
            },
        }
    }
}

/// The full name of a message type, which may be given with dots in front.
pub open spec fn bare(name: Seq<char>) -> Seq<char> {
    trimmed(name, '.')
}

/// A bare name has no dot in front.
proof fn bare_has_no_dot(name: Seq<char>)
    ensures
        !dotted(bare(name)),
        undotted(bare(name)) == bare(name),
    decreases name.len(),
{
    if name.len() > 0 && name[0] == '.' {
        bare_has_no_dot(name.drop_first());
    }
}

/// The schema of descriptor sets, if they make one that has the message type.
pub open spec fn schema_of(sets: Seq<Seq<u8>>, name: Seq<char>) -> Result<Seq<MessageV>, Fault> {
    if sets.len() == 0 {
        Err(Fault::NoDescriptorSet)
    } else {
        match merged_sets(sets, sets.len()) {
            Err(e) => Err(e),
            Ok(files) => if !sound(files) {
                Err(Fault::Malformed)
            } else if !resolves(files) {
                Err(Fault::Unresolved)
            } else if message_type(files, bare(name)) is None {
                Err(Fault::UnknownMessage(name))
            } else {
                Ok(files)
            },
        }
    }
}

proof fn merged_sets_stop(sets: Seq<Seq<u8>>, k: nat, n: nat)
    requires
        k <= n,
        merged_sets(sets, k) is Err,
    ensures
        merged_sets(sets, n) == merged_sets(sets, k),
    decreases n,
{
    if k < n {
        merged_sets_stop(sets, k, (n - 1) as nat);
    }
}

fn merge_sets(sets: &Vec<Vec<u8>>) -> (r: Result<Vec<Message>, CodecError>)
    ensures
        match (r, merged_sets(sets_view(sets@), sets@.len())) {
            (Ok(files), Ok(all)) => messages_view(files@) == all && files_once(all, false),
            (Err(e), Err(f)) => e@ == f,
            _ => false,
        },
{
    let ghost all = sets_view(sets@);
    let mut files: Vec<Message> = Vec::new();
    assert(messages_view(files@) =~= Seq::empty());
    let mut i: usize = 0;
    while i < sets.len()
        invariant
            i <= sets@.len(),
            all == sets_view(sets@),
            merged_sets(all, i as nat) == Ok::<Seq<MessageV>, Fault>(messages_view(files@)),
            files_once(messages_view(files@), false),
        decreases sets@.len() - i,
    {
        assert(all[i as int] == sets@[i as int]@);
        let more = match read_set(&sets[i]) {
            Ok(more) => more,
            Err(e) => {
                proof {
                    merged_sets_stop(all, (i + 1) as nat, all.len());
                }
                return Err(CodecError::DescriptorSet(i, e));
            },
        };
        proof {
            merged_once(messages_view(files@), messages_view(more@), more@.len());
        }
        if let Err(e) = merge_files(&mut files, &more) {
            proof {
                merged_sets_stop(all, (i + 1) as nat, all.len());
            }
            return Err(e);
        }
        i += 1;
    }
    Ok(files)
}

/// Merges descriptor sets, and finds the message type in the schema that they make. The order of
/// the sets, and of files in them, is immaterial to resolution: all files are merged first.
pub fn descriptor(sets: &Vec<Vec<u8>>, name: &str) -> (r: Result<DescriptorPool, CodecError>)
    ensures
        match (r, schema_of(sets_view(sets@), name@)) {
            (Ok(pool), Ok(files)) => pool_files(pool) == files && resolves(files) && sound(files),
            (Err(e), Err(f)) => e@ == f,
            _ => false,
        },
        all_told_apart(sets_view(sets@), sets@.len()) ==> forall|other: Seq<Seq<u8>>| #[trigger]
            same_sets(sets_view(sets@), other) ==> (schema_of(other, name@) is Ok) == (r is Ok),
{
    proof {
        assert forall|other: Seq<Seq<u8>>| #[trigger] same_sets(sets_view(sets@), other)
            && all_told_apart(sets_view(sets@), sets@.len()) implies (
        sets@.len() > 0 <==> other.len() > 0) && (merged_sets(sets_view(sets@), sets@.len()) is Ok
            <==> merged_sets(other, other.len()) is Ok) && (merged_sets(
            sets_view(sets@),
            sets@.len(),
        ) matches Ok(x) ==> same_members(x, merged_sets(other, other.len())->Ok_0) && sound(x)
            == sound(merged_sets(other, other.len())->Ok_0)) by {
            same_sets_same_files(sets_view(sets@), other);
        }
    }
    if sets.len() == 0 {
        return Err(CodecError::NoDescriptorSet);
    }
    let files = match merge_sets(sets) {
        Ok(files) => files,
        Err(e) => {
            return Err(e);
        },
    };
    if !check_files(&files) {
        return Err(CodecError::Malformed);
    }
    let pool = match build_pool(&files) {
        Ok(pool) => pool,
        Err(e) => {
            return Err(CodecError::Unresolved(e));
        },
    };
    let full = trim_start(name, '.');
    if find_type(&pool, full.as_str()).is_none() {
        return Err(CodecError::UnknownMessage(name.to_owned()));
    }
    Ok(pool)
}

/// The message of the private copy that is made of a message read from ProtoJSON. `name` is the
/// type as it was given.
pub open spec fn protojson_form(files: Seq<MessageV>, name: Seq<char>, m: MessageV) -> Result<
    MessageV,
    Fault,
> {
    match problem(files, false, name, m) {
        Some((path, rule)) => Err(Fault::Broken(path, rule)),
        None => match any_normalized(files, m, 65) {
            Err(e) => Err(e),
            Ok(n) => normal_form(files, bare(name), n),
        },
    }
}

/// The wire bytes of what was made, or the error.
pub open spec fn bytes_of(files: Seq<MessageV>, r: Result<MessageV, Fault>) -> Result<Seq<u8>, Fault> {
    match r {
        Ok(m) => Ok(wire_bytes(files, m)),
        Err(e) => Err(e),
    }
}

/// The text of what was made, or the error.
pub open spec fn text_of(files: Seq<MessageV>, r: Result<MessageV, Fault>) -> Result<
    Seq<char>,
    Fault,
> {
    match r {
        Ok(m) => Ok(text_form(files, m)),
        Err(e) => Err(e),
    }
}

/// The schema of descriptor sets; no files where they make none that has the message type.
pub open spec fn known_files(sets: Seq<Seq<u8>>, name: Seq<char>) -> Seq<MessageV> {
    match schema_of(sets, name) {
        Ok(files) => files,
        Err(_) => Seq::empty(),
    }
}

/// What becomes of ProtoJSON: a message of the private copy, or the error.
pub open spec fn protojson(sets: Seq<Seq<u8>>, name: Seq<char>, value: JsonV) -> Result<
    MessageV,
    Fault,
> {
    match schema_of(sets, name) {
        Err(e) => Err(e),
        Ok(files) => match json_message(files, bare(name), value) {
            None => Err(Fault::Json(name)),
            Some(m) => protojson_form(files, name, m),
        },
    }
}

/// Whether there is a message, and a part of it can hold a payload.
pub open spec fn holds_any(m: Option<MessageV>) -> bool {
    match m {
        Some(m) => !without_any(m),
        None => false,
    }
}

/// Whether this may become of ProtoJSON. Two messages that the JSON may be read as differ only in
/// the order of entries in payloads, so one thing becomes of it. Only where payloads are not read
/// in one way, and the JSON holds one, any message may have been read.
pub open spec fn protojson_outcome(
    sets: Seq<Seq<u8>>,
    name: Seq<char>,
    value: JsonV,
    out: Result<MessageV, Fault>,
) -> bool {
    out == protojson(sets, name, value) || (!steady(known_files(sets, name), value) && schema_of(
        sets,
        name,
    ) is Ok && holds_any(json_message(known_files(sets, name), bare(name), value)) && exists|
        read: MessageV,
    |
        out == #[trigger] protojson_form(known_files(sets, name), name, read))
}

/// Whether a message can be read back as it was written: the schema is one that the language can
/// declare, and the message has no unknown fields, nor a negative zero in a map, nor a single value
/// in the place of a list.
pub open spec fn readable(files: Seq<MessageV>, m: MessageV) -> bool {
    standard_any(files) && tidy(files) && without_unknown(m) && without_negative_zero(m) && shaped(
        files,
        m,
    )
}

/// What is read from bytes that ProtoJSON was encoded to: the message that the JSON holds, its
/// payloads in normal form, if it can be read back. Without maps, the bytes are those of this
/// message in the schema itself: the wire format of the private copy is the same.
pub open spec fn protojson_reads_back(
    files: Seq<MessageV>,
    name: Seq<char>,
    value: JsonV,
    bytes: Seq<u8>,
) -> bool {
    match json_message(files, bare(name), value) {
        Some(m) => match any_normalized(files, m, 65) {
            Ok(n) => readable(files, n) ==> wire_message(files, bare(name), bytes) == Some(n) && (
            without_maps(n) ==> bytes == wire_bytes(files, n)),
            Err(_) => false,
        },
        None => false,
    }
}

/// Whether a message of the private copy stands for the message that ProtoJSON holds, its payloads
/// in normal form, if it can be read back.
pub open spec fn written_for(
    files: Seq<MessageV>,
    name: Seq<char>,
    value: JsonV,
    written: MessageV,
) -> bool {
    match json_message(files, bare(name), value) {
        Some(m) => match any_normalized(files, m, 65) {
            Ok(n) => readable(files, n) ==> n.full_name == bare(name) && stands_for(
                files,
                n,
                private_files(files),
                written,
            ),
            Err(_) => false,
        },
        None => false,
    }
}

/// What is read from the text that ProtoJSON was encoded to: the message that the JSON holds, if
/// the text says all of it. The entries in the bytes of payloads may come in another order.
pub open spec fn protojson_text_reads_back(
    files: Seq<MessageV>,
    name: Seq<char>,
    value: JsonV,
    written: MessageV,
    text: Seq<char>,
) -> bool {
    match json_message(files, bare(name), value) {
        Some(m) => match any_normalized(files, m, 65) {
            Ok(n) => readable(files, n) && plain_schema(files) && text_says_all(
                files,
                private_files(files),
                written,
            ) ==> text_reads_as(files, bare(name), text, n),
            Err(_) => false,
        },
        None => false,
    }
}

fn normalized_json_message(sets: &Vec<Vec<u8>>, name: &str, value: &Json) -> (r: Result<
    (DynamicMessage, Vec<u8>),
    CodecError,
>)
    requires
        value@.ordered(),
    ensures
        match r {
            Ok((d, bytes)) => {
                let files = known_files(sets_view(sets@), name@);
                &&& protojson_outcome(sets_view(sets@), name@, value@, Ok(dynamic_contents(d)))
                &&& dynamic_files(d) == private_files(files)
                &&& sound(dynamic_files(d))
                &&& bytes@ == wire_bytes(private_files(files), dynamic_contents(d))
                &&& steady(files, value@) ==> protojson_reads_back(files, name@, value@, bytes@)
                    && written_for(files, name@, value@, dynamic_contents(d)) && resolves(files)
            },
            Err(e) => protojson_outcome(sets_view(sets@), name@, value@, Err(e@)),
        },
{
    let pool = match descriptor(sets, name) {
        Ok(pool) => pool,
        Err(e) => {
            return Err(e);
        },
    };
    let ghost files = pool_files(pool);
    let full = trim_start(name, '.');
    let v = json_value(value);
    let d = match parse_json(&pool, full.as_str(), &v) {
        Ok(d) => d,
        Err(e) => {
            return Err(CodecError::Json(name.to_owned(), e));
        },
    };
    let m = message_of(&d).canonical();
    proof {
        bare_has_no_dot(name@);
    }
    let ghost read = dynamic_contents(d);
    let ghost meant = json_message(files, full@, value@)->Some_0;
    proof {
        if steady(files, value@) {
            let depth = choose|depth: nat| related(files, read, meant, depth);
            same_problem(files, false, name@, read, meant, depth);
            same_any_normalized(files, read, meant, depth, 65);
        }
        let out = protojson_form(files, name@, read);
        assert(protojson_outcome(sets_view(sets@), name@, value@, out));
    }
    if let Err(e) = validate(&pool, false, name, &m) {
        return Err(e);
    }
    let private = private_pool(&pool, false);
    let n = match normalize_any_payloads(&pool, &private, &m, 65) {
        Ok(n) => n,
        Err(e) => {
            return Err(e);
        },
    };
    proof {
        if standard_any(files) && tidy(files) && without_unknown(n@) && shaped(files, n@) {
            any_keeps_unknown(files, read, 65);
            any_keeps_shape(files, read, 65);
            any_keeps_conforming(files, read, 65);
        }
    }
    normal_form_of(&pool, &private, full.as_str(), &n)
}

/// Encodes protobuf JSON, with the standard JSON mappings of the well-known types.
pub fn encode(sets: &Vec<Vec<u8>>, name: &str, value: &Json) -> (r: Result<Vec<u8>, CodecError>)
    requires
        value@.ordered(),
    ensures
        ({
            let files = known_files(sets_view(sets@), name@);
            &&& exists|form: Result<MessageV, Fault>| #[trigger]
                protojson_outcome(sets_view(sets@), name@, value@, form) && same_bytes(
                    r,
                    bytes_of(private_files(files), form),
                )
            &&& steady(files, value@) && r is Ok ==> protojson_reads_back(
                files,
                name@,
                value@,
                r->Ok_0@,
            )
        }),
{
    match normalized_json_message(sets, name, value) {
        Ok((d, bytes)) => {
            assert(protojson_outcome(sets_view(sets@), name@, value@, Ok(dynamic_contents(d))));
            Ok(bytes)
        },
        Err(e) => {
            assert(protojson_outcome(sets_view(sets@), name@, value@, Err(e@)));
            Err(e)
        },
    }
}

/// Whether two results are the same: the bytes, or which error it is.
pub open spec fn same_bytes(r: Result<Vec<u8>, CodecError>, want: Result<Seq<u8>, Fault>) -> bool {
    match (r, want) {
        (Ok(b), Ok(w)) => b@ == w,
        (Err(e), Err(f)) => e@ == f,
        _ => false,
    }
}

/// Whether two results are the same: the text, or which error it is.
pub open spec fn same_text(r: Result<String, CodecError>, want: Result<Seq<char>, Fault>) -> bool {
    match (r, want) {
        (Ok(t), Ok(w)) => t@ == w,
        (Err(e), Err(f)) => e@ == f,
        _ => false,
    }
}

/// Encodes protobuf JSON as text.
pub fn encode_text(sets: &Vec<Vec<u8>>, name: &str, value: &Json) -> (r: Result<String, CodecError>)
    requires
        value@.ordered(),
    ensures
        ({
            let files = known_files(sets_view(sets@), name@);
            exists|form: Result<MessageV, Fault>| #[trigger]
                protojson_outcome(sets_view(sets@), name@, value@, form) && same_text(
                    r,
                    text_of(private_files(files), form),
                ) && (steady(files, value@) && r is Ok ==> protojson_text_reads_back(
                    files,
                    name@,
                    value@,
                    form->Ok_0,
                    r->Ok_0@,
                ))
        }),
{
    match normalized_json_message(sets, name, value) {
        Ok((d, _)) => {
            assert(protojson_outcome(sets_view(sets@), name@, value@, Ok(dynamic_contents(d))));
            assert(dynamic_files(d) == normalized_files(
                resolved_files(known_files(sets_view(sets@), name@)),
                false,
            ));
            Ok(format_text(&d))
        },
        Err(e) => {
            assert(protojson_outcome(sets_view(sets@), name@, value@, Err(e@)));
            Err(e)
        },
    }
}

/// The files of the private copy of a schema for structural input.
pub open spec fn structural_files(files: Seq<MessageV>) -> Seq<MessageV> {
    normalized_files(resolved_files(files), true)
}

/// The message of the private copy that a configuration is read as, before its maps are sorted.
pub open spec fn config_message_read(sets: Seq<Seq<u8>>, name: Seq<char>, value: JsonV) -> Result<
    MessageV,
    Fault,
> {
    match schema_of(sets, name) {
        Err(e) => Err(e),
        Ok(files) => match structural(files, bare(name), value) {
            Err(e) => Err(e),
            Ok(j) => if !resolves(structural_files(files)) {
                Err(Fault::Unnormalized)
            } else if message_type(structural_files(files), private_name(bare(name))) is None {
                Err(Fault::NormalizedMissing)
            } else {
                match json_message(structural_files(files), private_name(bare(name)), j) {
                    None => Err(Fault::Configuration(name)),
                    Some(m) => Ok(m),
                }
            },
        },
    }
}

/// What becomes of a configuration: a message of the private copy, or the error.
pub open spec fn config(sets: Seq<Seq<u8>>, name: Seq<char>, value: JsonV) -> Result<
    MessageV,
    Fault,
> {
    match config_message_read(sets, name, value) {
        Err(e) => Err(e),
        Ok(m) => {
            let files = known_files(sets, name);
            match problem(structural_files(files), true, name, m) {
                Some((path, rule)) => Err(Fault::Broken(path, rule)),
                None => match built(structural_files(files), sorted(files, bare(name), m)) {
                    Some(b) => Ok(b),
                    None => Err(Fault::Unfit),
                },
            }
        },
    }
}

/// Whether what is made of a configuration without a broken rule is the message that was read,
/// its maps sorted.
pub open spec fn config_is_kept(sets: Seq<Seq<u8>>, name: Seq<char>, value: JsonV) -> bool {
    let files = known_files(sets, name);
    match config_message_read(sets, name, value) {
        Ok(m) => problem(structural_files(files), true, name, m) is None ==> config(
            sets,
            name,
            value,
        ) == Ok::<MessageV, Fault>(sorted(files, bare(name), m)),
        Err(_) => true,
    }
}

/// Whether a configuration that is read says the same without the members that are null.
pub open spec fn nulls_say_nothing(sets: Seq<Seq<u8>>, name: Seq<char>, value: JsonV) -> bool {
    config_message_read(sets, name, value) is Ok ==> config(sets, name, without_nulls(value))
        == config(sets, name, value)
}

/// Whether a configuration that has a null member, the only one to stand for its field, comes to the
/// same without it: the same message, or the same error.
pub open spec fn null_is_absent(sets: Seq<Seq<u8>>, name: Seq<char>, value: JsonV) -> bool {
    forall|i: int| #[trigger]
        spare(known_files(sets, name), bare(name), value, i) ==> config(
            sets,
            name,
            without_member(value, i),
        ) == config(sets, name, value)
}

/// Whether a configuration whose members are integers that their fields can hold is read as these.
pub open spec fn integers_are_read(sets: Seq<Seq<u8>>, name: Seq<char>, value: JsonV) -> bool {
    let files = known_files(sets, name);
    forall|numbers: Seq<int>| #[trigger]
        of_integers(files, bare(name), value, numbers) && structural(files, bare(name), value)
            == Ok::<JsonV, Fault>(value) ==> match config_message_read(sets, name, value) {
            Ok(m) => holds_integers(files, bare(name), value, numbers, m),
            Err(e) => schema_of(sets, name) is Err || e is Unnormalized || e is NormalizedMissing,
        }
}

/// A null member is an absent one where the private copy reads it so.
proof fn nulls_are_absent(sets: Seq<Seq<u8>>, name: Seq<char>, value: JsonV)
    requires
        ({
            let files = known_files(sets, name);
            let private = structural_files(files);
            schema_of(sets, name) is Ok && structural(files, bare(name), value) is Ok && resolves(
                private,
            ) && message_type(private, private_name(bare(name))) is Some ==> {
                let j = structural(files, bare(name), value)->Ok_0;
                forall|i: int| #[trigger]
                    null_at(files, bare(name), j, i) ==> json_message(
                        private,
                        private_name(bare(name)),
                        without_member(j, i),
                    ) == json_message(private, private_name(bare(name)), j)
            }
        }),
    ensures
        null_is_absent(sets, name, value),
{
    let files = known_files(sets, name);
    assert forall|i: int| #[trigger] spare(files, bare(name), value, i) implies config(
        sets,
        name,
        without_member(value, i),
    ) == config(sets, name, value) by {
        null_stays_apart(files, bare(name), value, i);
    }
}

/// What is read from bytes that a configuration was encoded to: the message of the schema that
/// the written one stands for. It is read unless messages in it are nested too deep to be read.
/// Without maps, the bytes are those of this message in the schema itself. Of a schema that the
/// language cannot declare nothing is said.
pub open spec fn config_reads_back(
    files: Seq<MessageV>,
    name: Seq<char>,
    written: MessageV,
    bytes: Seq<u8>,
) -> bool {
    tidy(files) ==> {
        let m = folded(files, bare(name), written);
        &&& wire_message(structural_files(files), private_name(bare(name)), bytes) is Some
            ==> wire_message(files, bare(name), bytes) == Some(m)
        &&& without_maps(m) ==> bytes == wire_bytes(files, m)
    }
}

/// What is read from the text that a configuration was encoded to: the message of the schema that
/// the written one stands for, if the text says all of it.
pub open spec fn config_text_reads_back(
    files: Seq<MessageV>,
    name: Seq<char>,
    written: MessageV,
    text: Seq<char>,
) -> bool {
    tidy(files) && plain_schema(files) && plain_text(written) ==> text_message(
        files,
        bare(name),
        text,
    ) == Some(folded(files, bare(name), written))
}

fn config_message(sets: &Vec<Vec<u8>>, name: &str, value: &Json) -> (r: Result<
    DynamicMessage,
    CodecError,
>)
    requires
        value@.ordered(),
    ensures
        match r {
            Ok(d) => config(sets_view(sets@), name@, value@) == Ok::<MessageV, Fault>(
                dynamic_contents(d),
            ) && dynamic_files(d) == structural_files(known_files(sets_view(sets@), name@)) && (
            tidy(known_files(sets_view(sets@), name@)) ==> conforms(
                dynamic_files(d),
                dynamic_contents(d),
            ) && dynamic_contents(d).full_name == private_name(bare(name@))) && sound(
                dynamic_files(d),
            ),
            Err(e) => config(sets_view(sets@), name@, value@) == Err::<MessageV, Fault>(e@),
        },
        tidy(known_files(sets_view(sets@), name@)) ==> config_is_kept(
            sets_view(sets@),
            name@,
            value@,
        ),
        nulls_say_nothing(sets_view(sets@), name@, value@),
        null_is_absent(sets_view(sets@), name@, value@),
        integers_are_read(sets_view(sets@), name@, value@),
        tidy(known_files(sets_view(sets@), name@)) ==> config_parts_read(
            sets_view(sets@),
            name@,
            value@,
        ),
{
    let ghost given = value@;
    let pool = match descriptor(sets, name) {
        Ok(pool) => pool,
        Err(e) => {
            proof {
                nulls_are_absent(sets_view(sets@), name@, given);
            }
            return Err(e);
        },
    };
    let ghost files = pool_files(pool);
    let full = trim_start(name, '.');
    let value = match structural_json(&pool, full.as_str(), value) {
        Ok(value) => value,
        Err(e) => {
            proof {
                nulls_are_absent(sets_view(sets@), name@, given);
            }
            return Err(e);
        },
    };
    let private = match private_pool(&pool, true) {
        Ok(private) => private,
        Err(e) => {
            proof {
                nulls_are_absent(sets_view(sets@), name@, given);
            }
            return Err(CodecError::Unnormalized(e));
        },
    };
    let hidden = private_name_of(full.as_str());
    if find_type(&private, hidden.as_str()).is_none() {
        proof {
            nulls_are_absent(sets_view(sets@), name@, given);
        }
        return Err(CodecError::NormalizedMissing);
    }
    let v = json_value(&value);
    let d = match parse_json(&private, hidden.as_str(), &v) {
        Ok(d) => d,
        Err(e) => {
            proof {
                nulls_are_absent(sets_view(sets@), name@, given);
            }
            return Err(CodecError::Configuration(name.to_owned(), e));
        },
    };
    proof {
        reveal_strlit("google.protobuf.Any");
        reveal_strlit("protolark_internal");
        reveal_strlit(".");
        let prefix = private_name(Seq::empty());
        assert(prefix[0] == 'p');
        assert(any_name()[0] == 'g');
        if begins_with(any_name(), prefix) {
            assert(any_name().take(prefix.len() as int)[0] == any_name()[0]);
        }
        assert(message_type(pool_files(private), any_name()) is None);
        assert(hidden@[0] == 'p');
        assert(undotted(hidden@) == hidden@);
        assert(pool_files(private) == normalized_files(resolved_files(files), true));
        bare_has_no_dot(name@);
        assert(tidy(files) ==> parts_read(files, full@, value@, dynamic_contents(d)));
        nulls_stay_apart(files, full@, given);
        nulls_are_absent(sets_view(sets@), name@, given);
    }
    let m = message_of(&d).canonical();
    if let Err(e) = validate(&private, true, name, &m) {
        return Err(e);
    }
    let ordered = sort_maps(&pool, full.as_str(), &m);
    proof {
        if tidy(files) {
            sorting_keeps_conforming(pool_files(private), files, full@, m@);
        }
    }
    match dynamic_of(&private, &ordered) {
        Some(d) => Ok(d),
        None => Err(CodecError::Unfit),
    }
}

/// Encodes structural Starlark data. Well-known messages use their declared fields: a timestamp
/// is `{ "seconds": 0 }`, not an RFC 3339 string.
pub fn encode_config(sets: &Vec<Vec<u8>>, name: &str, value: &Json) -> (r: Result<
    Vec<u8>,
    CodecError,
>)
    requires
        value@.ordered(),
    ensures
        ({
            let files = known_files(sets_view(sets@), name@);
            &&& same_bytes(
                r,
                bytes_of(structural_files(files), config(sets_view(sets@), name@, value@)),
            )
            &&& r is Ok ==> config_reads_back(
                files,
                name@,
                config(sets_view(sets@), name@, value@)->Ok_0,
                r->Ok_0@,
            )
            &&& tidy(files) ==> config_is_kept(sets_view(sets@), name@, value@)
            &&& nulls_say_nothing(sets_view(sets@), name@, value@)
            &&& null_is_absent(sets_view(sets@), name@, value@)
            &&& integers_are_read(sets_view(sets@), name@, value@)
            &&& tidy(files) ==> config_parts_read(sets_view(sets@), name@, value@)
        }),
{
    match config_message(sets, name, value) {
        Ok(d) => {
            let ghost files = known_files(sets_view(sets@), name@);
            assert(dynamic_files(d) == normalized_files(resolved_files(files), true));
            proof {
                bare_has_no_dot(name@);
            }
            Ok(encode_wire(&d))
        },
        Err(e) => Err(e),
    }
}

/// Encodes structural Starlark data as text.
pub fn encode_config_text(sets: &Vec<Vec<u8>>, name: &str, value: &Json) -> (r: Result<
    String,
    CodecError,
>)
    requires
        value@.ordered(),
    ensures
        ({
            let files = known_files(sets_view(sets@), name@);
            &&& same_text(
                r,
                text_of(structural_files(files), config(sets_view(sets@), name@, value@)),
            )
            &&& r is Ok ==> config_text_reads_back(
                files,
                name@,
                config(sets_view(sets@), name@, value@)->Ok_0,
                r->Ok_0@,
            )
            &&& tidy(files) ==> config_is_kept(sets_view(sets@), name@, value@)
            &&& nulls_say_nothing(sets_view(sets@), name@, value@)
            &&& null_is_absent(sets_view(sets@), name@, value@)
            &&& integers_are_read(sets_view(sets@), name@, value@)
            &&& tidy(files) ==> config_parts_read(sets_view(sets@), name@, value@)
        }),
{
    match config_message(sets, name, value) {
        Ok(d) => {
            let ghost files = known_files(sets_view(sets@), name@);
            assert(dynamic_files(d) == normalized_files(resolved_files(files), true));
            proof {
                bare_has_no_dot(name@);
            }
            Ok(format_text(&d))
        },
        Err(e) => Err(e),
    }
}

/// What a message that was read is shown as.
pub open spec fn shown(files: Seq<MessageV>, name: Seq<char>, m: MessageV) -> Result<JsonV, Fault> {
    match problem(files, false, name, m) {
        Some((path, rule)) => Err(Fault::Broken(path, rule)),
        None => match message_json(files, m) {
            Some(j) => Ok(j),
            None => Err(Fault::Serialize),
        },
    }
}

/// What a result is: the JSON, or which error.
pub open spec fn json_outcome(r: Result<Json, CodecError>) -> Result<JsonV, Fault> {
    match r {
        Ok(j) => Ok(j@),
        Err(e) => Err(e@),
    }
}

/// Whether a message that was read may be shown as this. Only where the schema declares well-known
/// types otherwise than they are read, any JSON may come of a message that breaks no rule, or none.
pub open spec fn shows(
    files: Seq<MessageV>,
    name: Seq<char>,
    m: MessageV,
    out: Result<JsonV, Fault>,
) -> bool {
    out == shown(files, name, m) || (!declared_as_read(files) && problem(
        files,
        false,
        name,
        m,
    ) is None && (out is Ok || out == Err::<JsonV, Fault>(Fault::Serialize)))
}

/// Whether wire bytes may be shown as this.
pub open spec fn decodes(
    sets: Seq<Seq<u8>>,
    name: Seq<char>,
    bytes: Seq<u8>,
    out: Result<JsonV, Fault>,
) -> bool {
    match schema_of(sets, name) {
        Err(e) => out == Err::<JsonV, Fault>(e),
        Ok(files) => match wire_message(files, bare(name), bytes) {
            None => out == Err::<JsonV, Fault>(Fault::Wire(name)),
            Some(m) => shows(files, name, m, out),
        },
    }
}

/// Whether text may be shown as this. Only where the schema has an `Any` of its own making, and
/// the text holds one, any message may have been read.
pub open spec fn decodes_text(
    sets: Seq<Seq<u8>>,
    name: Seq<char>,
    text: Seq<char>,
    out: Result<JsonV, Fault>,
) -> bool {
    match schema_of(sets, name) {
        Err(e) => out == Err::<JsonV, Fault>(e),
        Ok(files) => match text_message(files, bare(name), text) {
            None => out == Err::<JsonV, Fault>(Fault::Text(name)),
            Some(m) => shows(files, name, m, out) || (!standard_any(files) && !without_any(m)
                && exists|read: MessageV| #[trigger] shows(files, name, read, out)),
        },
    }
}

fn show(pool: &DescriptorPool, name: &str, d: &DynamicMessage) -> (r: Result<Json, CodecError>)
    requires
        dynamic_files(*d) == pool_files(*pool),
        sound(pool_files(*pool)),
    ensures
        shows(pool_files(*pool), name@, dynamic_contents(*d), json_outcome(r)),
        r matches Ok(j) ==> j@.ordered() && json_reads_back(
            pool_files(*pool),
            dynamic_contents(*d),
            j@,
        ),
        forall|m: MessageV|
            standard_any(pool_files(*pool)) && #[trigger] same_payloads(
                pool_files(*pool),
                dynamic_contents(*d),
                m,
            ) ==> shows(pool_files(*pool), name@, m, json_outcome(r)),
        unknown_outside(dynamic_contents(*d)) ==> shows(
            pool_files(*pool),
            name@,
            known_only(dynamic_contents(*d)),
            json_outcome(r),
        ),
{
    let ghost files = pool_files(*pool);
    let m = message_of(d).canonical();
    proof {
        unknown_fields_break_no_rule(files, false, name@, dynamic_contents(*d));
        assert forall|other: MessageV| #[trigger]
            same_payloads(files, dynamic_contents(*d), other) implies problem(
            files,
            false,
            name@,
            dynamic_contents(*d),
        ) == problem(files, false, name@, other) by {
            let depth = choose|depth: nat| related(files, dynamic_contents(*d), other, depth);
            same_problem(files, false, name@, dynamic_contents(*d), other, depth);
        }
    }
    if let Err(e) = validate(pool, false, name, &m) {
        return Err(e);
    }
    match serialize_json(d) {
        Ok(v) => Ok(json_of(&v)),
        Err(e) => Err(CodecError::Serialize(e)),
    }
}

/// Whether what wire bytes are shown as is what they are shown as without unknown fields. Of
/// unknown fields in well-known types this says nothing.
pub open spec fn unknown_left_out(
    sets: Seq<Seq<u8>>,
    name: Seq<char>,
    bytes: Seq<u8>,
    out: Result<JsonV, Fault>,
) -> bool {
    let files = known_files(sets, name);
    schema_of(sets, name) is Ok ==> match wire_message(files, bare(name), bytes) {
        Some(m) => unknown_outside(m) ==> shows(files, name, known_only(m), out),
        None => true,
    }
}

/// Whether wire bytes that are read are read with one more record as well, of a number that the type
/// does not declare, as a message that differs in unknown fields alone.
pub open spec fn takes_unknown(sets: Seq<Seq<u8>>, name: Seq<char>, bytes: Seq<u8>) -> bool {
    let files = known_files(sets, name);
    schema_of(sets, name) is Ok ==> match wire_message(files, bare(name), bytes) {
        Some(m) => forall|number: u32, load: Load|
            is_record(number, load) && undeclared(files, m.full_name, number) ==> match wire_message(
                files,
                bare(name),
                bytes + #[trigger] record(number, load),
            ) {
                Some(x) => known_only(x) == known_only(m),
                None => false,
            },
        None => true,
    }
}

/// Decodes binary to protobuf JSON: 64-bit integers are strings, bytes are base64. Unknown wire
/// fields are accepted but left out of the JSON, as in protobuf libraries.
pub fn decode(sets: &Vec<Vec<u8>>, name: &str, bytes: &[u8]) -> (r: Result<Json, CodecError>)
    ensures
        decodes(sets_view(sets@), name@, bytes@, json_outcome(r)),
        unknown_left_out(sets_view(sets@), name@, bytes@, json_outcome(r)),
        takes_unknown(sets_view(sets@), name@, bytes@),
        r matches Ok(j) ==> j@.ordered() && shown_reads_back(
            known_files(sets_view(sets@), name@),
            wire_message(known_files(sets_view(sets@), name@), bare(name@), bytes@),
            j@,
        ),
{
    let pool = match descriptor(sets, name) {
        Ok(pool) => pool,
        Err(e) => {
            return Err(e);
        },
    };
    let full = trim_start(name, '.');
    match decode_wire(&pool, full.as_str(), bytes) {
        Ok(d) => show(&pool, name, &d),
        Err(e) => Err(CodecError::Wire(name.to_owned(), e)),
    }
}

/// Whether JSON that a message was shown as is read as this message again.
pub open spec fn shown_reads_back(files: Seq<MessageV>, m: Option<MessageV>, shown: JsonV) -> bool {
    match m {
        Some(m) => json_reads_back(files, m, shown),
        None => false,
    }
}

/// Whether what text is shown as is what a message is shown as that differs in the order of entries
/// in the bytes of payloads alone.
pub open spec fn entry_order_left_out(
    sets: Seq<Seq<u8>>,
    name: Seq<char>,
    text: Seq<char>,
    out: Result<JsonV, Fault>,
) -> bool {
    let files = known_files(sets, name);
    schema_of(sets, name) is Ok && standard_any(files) ==> match text_message(
        files,
        bare(name),
        text,
    ) {
        Some(m) => forall|other: MessageV| #[trigger]
            same_payloads(files, m, other) ==> shows(files, name, other, out),
        None => true,
    }
}

/// Decodes text to protobuf JSON.
pub fn decode_text(sets: &Vec<Vec<u8>>, name: &str, text: &str) -> (r: Result<Json, CodecError>)
    ensures
        decodes_text(sets_view(sets@), name@, text@, json_outcome(r)),
        entry_order_left_out(sets_view(sets@), name@, text@, json_outcome(r)),
        r matches Ok(j) ==> j@.ordered(),
{
    let pool = match descriptor(sets, name) {
        Ok(pool) => pool,
        Err(e) => {
            return Err(e);
        },
    };
    let full = trim_start(name, '.');
    match parse_text(&pool, full.as_str(), text) {
        Ok(d) => {
            let r = show(&pool, name, &d);
            assert(shows(pool_files(pool), name@, dynamic_contents(d), json_outcome(r)));
            proof {
                let files = pool_files(pool);
                let read = dynamic_contents(d);
                let meant = text_message(files, full@, text@)->Some_0;
                assert forall|other: MessageV|
                    standard_any(files) && #[trigger] same_payloads(
                        files,
                        meant,
                        other,
                    ) implies shows(files, name@, other, json_outcome(r)) by {
                    same_payloads_are_transitive(files, read, meant, other);
                }
            }
            r
        },
        Err(e) => Err(CodecError::Text(name.to_owned(), e)),
    }
}

/// Encoding protobuf JSON is deterministic: one thing comes of the same sets, type and JSON. Only
/// JSON that holds an `Any` is left out where the schema declares that in its own way, or where
/// names are no identifiers and two members come before the type of a payload.
pub proof fn encoding_is_deterministic(
    sets: Seq<Seq<u8>>,
    name: Seq<char>,
    value: JsonV,
    a: Result<MessageV, Fault>,
    b: Result<MessageV, Fault>,
)
    requires
        steady(known_files(sets, name), value) || !holds_any(
            json_message(known_files(sets, name), bare(name), value),
        ),
        protojson_outcome(sets, name, value, a),
        protojson_outcome(sets, name, value, b),
    ensures
        a == b,
{
}

/// Decoding is deterministic: one thing is shown of the same sets, type and bytes, where the schema
/// declares well-known types as they are read.
pub proof fn decoding_is_deterministic(
    sets: Seq<Seq<u8>>,
    name: Seq<char>,
    bytes: Seq<u8>,
    a: Result<JsonV, Fault>,
    b: Result<JsonV, Fault>,
)
    requires
        declared_as_read(known_files(sets, name)),
        decodes(sets, name, bytes, a),
        decodes(sets, name, bytes, b),
    ensures
        a == b,
{
}

/// What is encoded keeps the rules: no required field is missing, and well-known types are in their
/// ranges, in the message itself and in the messages in it.
pub proof fn encoded_messages_keep_the_rules(sets: Seq<Seq<u8>>, name: Seq<char>, value: JsonV)
    requires
        protojson(sets, name, value) is Ok,
    ensures
        json_message(known_files(sets, name), bare(name), value) is Some,
        kept(
            known_files(sets, name),
            false,
            json_message(known_files(sets, name), bare(name), value)->Some_0,
        ),
{
    let m = json_message(known_files(sets, name), bare(name), value)->Some_0;
    no_problem_iff_kept(known_files(sets, name), false, name, m);
}

/// What is configured keeps the same rules, and a configuration that breaks one is refused.
pub proof fn configured_messages_keep_the_rules(sets: Seq<Seq<u8>>, name: Seq<char>, value: JsonV)
    requires
        config_message_read(sets, name, value) is Ok,
    ensures
        ({
            let files = structural_files(known_files(sets, name));
            let m = config_message_read(sets, name, value)->Ok_0;
            &&& config(sets, name, value) is Ok ==> kept(files, true, m)
            &&& !kept(files, true, m) ==> config(sets, name, value) is Err && config(
                sets,
                name,
                value,
            )->Err_0 is Broken
        }),
{
    let files = structural_files(known_files(sets, name));
    no_problem_iff_kept(files, true, name, config_message_read(sets, name, value)->Ok_0);
}

/// Unknown fields do not show: bytes that hold messages which differ in unknown fields alone are
/// shown alike. Unknown fields in well-known types are left out.
pub proof fn unknown_fields_do_not_show(
    sets: Seq<Seq<u8>>,
    name: Seq<char>,
    one: Seq<u8>,
    other: Seq<u8>,
    a: MessageV,
    b: MessageV,
    out_one: Result<JsonV, Fault>,
    out_other: Result<JsonV, Fault>,
)
    requires
        schema_of(sets, name) is Ok,
        declared_as_read(known_files(sets, name)),
        wire_message(known_files(sets, name), bare(name), one) == Some(a),
        wire_message(known_files(sets, name), bare(name), other) == Some(b),
        unknown_outside(a),
        unknown_outside(b),
        known_only(a) == known_only(b),
        unknown_left_out(sets, name, one, out_one),
        unknown_left_out(sets, name, other, out_other),
    ensures
        out_one == out_other,
{
}

/// One more unknown field changes nothing: bytes with a record of a number that the type does not
/// declare are shown as they are without it. Unknown fields in well-known types are left out.
pub proof fn one_more_unknown_field_does_not_show(
    sets: Seq<Seq<u8>>,
    name: Seq<char>,
    bytes: Seq<u8>,
    number: u32,
    load: Load,
    a: MessageV,
    out: Result<JsonV, Fault>,
    out_more: Result<JsonV, Fault>,
)
    requires
        schema_of(sets, name) is Ok,
        declared_as_read(known_files(sets, name)),
        wire_message(known_files(sets, name), bare(name), bytes) == Some(a),
        is_record(number, load),
        undeclared(known_files(sets, name), a.full_name, number),
        takes_unknown(sets, name, bytes),
        unknown_outside(a),
        wire_message(known_files(sets, name), bare(name), bytes + record(number, load)) matches Some(
            b,
        ) && unknown_outside(b),
        unknown_left_out(sets, name, bytes, out),
        unknown_left_out(sets, name, bytes + record(number, load), out_more),
    ensures
        out == out_more,
{
    let files = known_files(sets, name);
    let b = wire_message(files, bare(name), bytes + record(number, load))->Some_0;
    assert(known_only(a) == known_only(b));
}

/// Binary and text show the same: bytes and text that hold one message are shown alike.
pub proof fn binary_and_text_show_the_same(
    sets: Seq<Seq<u8>>,
    name: Seq<char>,
    bytes: Seq<u8>,
    text: Seq<char>,
    m: MessageV,
    out: Result<JsonV, Fault>,
)
    requires
        schema_of(sets, name) is Ok,
        standard_any(known_files(sets, name)) || without_any(m),
        wire_message(known_files(sets, name), bare(name), bytes) == Some(m),
        text_message(known_files(sets, name), bare(name), text) == Some(m),
    ensures
        decodes(sets, name, bytes, out) <==> decodes_text(sets, name, text, out),
{
}

/// Encoding to binary and to text, and decoding either, shows the same: text that protobuf JSON was
/// encoded to is shown as the bytes are that it was encoded to.
pub proof fn both_encodings_show_the_same(
    sets: Seq<Seq<u8>>,
    name: Seq<char>,
    value: JsonV,
    written: MessageV,
    bytes: Seq<u8>,
    text: Seq<char>,
    normal: MessageV,
    out: Result<JsonV, Fault>,
)
    requires
        schema_of(sets, name) is Ok,
        protojson_reads_back(known_files(sets, name), name, value, bytes),
        protojson_text_reads_back(known_files(sets, name), name, value, written, text),
        any_normalized(
            known_files(sets, name),
            json_message(known_files(sets, name), bare(name), value)->Some_0,
            65,
        ) == Ok::<MessageV, Fault>(normal),
        readable(known_files(sets, name), normal),
        plain_schema(known_files(sets, name)),
        text_says_all(known_files(sets, name), private_files(known_files(sets, name)), written),
        entry_order_left_out(sets, name, text, out),
    ensures
        decodes(sets, name, bytes, out),
{
}

/// Decoding shows what was encoded: bytes that protobuf JSON was encoded to are shown as the
/// message that the JSON holds, its payloads in normal form.
pub proof fn decoding_shows_the_encoded(
    sets: Seq<Seq<u8>>,
    name: Seq<char>,
    value: JsonV,
    bytes: Seq<u8>,
    held: MessageV,
    normal: MessageV,
    out: Result<JsonV, Fault>,
)
    requires
        schema_of(sets, name) is Ok,
        standard_any(known_files(sets, name)),
        protojson_reads_back(known_files(sets, name), name, value, bytes),
        json_message(known_files(sets, name), bare(name), value) == Some(held),
        any_normalized(known_files(sets, name), held, 65) == Ok::<MessageV, Fault>(normal),
        readable(known_files(sets, name), normal),
    ensures
        decodes(sets, name, bytes, out) <==> shows(known_files(sets, name), name, normal, out),
{
}

/// Decoding text shows what was encoded: text that protobuf JSON was encoded to is shown as the
/// message that the JSON holds, if the text says all of it.
pub proof fn decoding_text_shows_the_encoded(
    sets: Seq<Seq<u8>>,
    name: Seq<char>,
    value: JsonV,
    written: MessageV,
    text: Seq<char>,
    held: MessageV,
    normal: MessageV,
    out: Result<JsonV, Fault>,
)
    requires
        schema_of(sets, name) is Ok,
        standard_any(known_files(sets, name)),
        protojson_text_reads_back(known_files(sets, name), name, value, written, text),
        json_message(known_files(sets, name), bare(name), value) == Some(held),
        any_normalized(known_files(sets, name), held, 65) == Ok::<MessageV, Fault>(normal),
        readable(known_files(sets, name), normal),
        plain_schema(known_files(sets, name)),
        text_says_all(known_files(sets, name), private_files(known_files(sets, name)), written),
        entry_order_left_out(sets, name, text, out),
    ensures
        shows(known_files(sets, name), name, normal, out),
{
}

/// Decoding shows what was configured: bytes that a configuration was encoded to are shown as the
/// message of the schema that the written one stands for.
pub proof fn decoding_shows_the_configured(
    sets: Seq<Seq<u8>>,
    name: Seq<char>,
    written: MessageV,
    bytes: Seq<u8>,
    out: Result<JsonV, Fault>,
)
    requires
        schema_of(sets, name) is Ok,
        tidy(known_files(sets, name)),
        config_reads_back(known_files(sets, name), name, written, bytes),
        wire_message(
            structural_files(known_files(sets, name)),
            private_name(bare(name)),
            bytes,
        ) is Some,
    ensures
        decodes(sets, name, bytes, out) <==> shows(
            known_files(sets, name),
            name,
            folded(known_files(sets, name), bare(name), written),
            out,
        ),
{
}

/// Decoding text shows what was configured: text that a configuration was encoded to is shown as
/// the message of the schema that the written one stands for, if the text says all of it.
pub proof fn decoding_text_shows_the_configured(
    sets: Seq<Seq<u8>>,
    name: Seq<char>,
    written: MessageV,
    text: Seq<char>,
    out: Result<JsonV, Fault>,
)
    requires
        schema_of(sets, name) is Ok,
        tidy(known_files(sets, name)),
        standard_any(known_files(sets, name)),
        config_text_reads_back(known_files(sets, name), name, written, text),
        plain_schema(known_files(sets, name)),
        plain_text(written),
    ensures
        decodes_text(sets, name, text, out) <==> shows(
            known_files(sets, name),
            name,
            folded(known_files(sets, name), bare(name), written),
            out,
        ),
{
}

/// JSON that a message is shown as, which says all of it, is encoded as the message is. The message
/// is one that protobuf JSON holds; it is encoded unless it breaks a rule or is nested too deep.
pub proof fn what_is_shown_is_encoded_again(
    sets: Seq<Seq<u8>>,
    name: Seq<char>,
    value: JsonV,
    shown: JsonV,
)
    requires
        schema_of(sets, name) is Ok,
        match json_message(known_files(sets, name), bare(name), value) {
            Some(m) => m.full_name == bare(name) && faithful(known_files(sets, name), m)
                && json_reads_back(known_files(sets, name), m, shown),
            None => false,
        },
    ensures
        protojson(sets, name, shown) == protojson(sets, name, value),
        forall|out: Result<MessageV, Fault>| #[trigger]
            protojson_outcome(sets, name, shown, out) ==> out == protojson(sets, name, value),
{
    let files = known_files(sets, name);
    let m = json_message(files, bare(name), value)->Some_0;
    said_without_any(files, m);
}

/// A timestamp in the years 1 to 9999 whose nanos are part of a second is encoded, and no other
/// is. It is asked that the private copy of the schema is made and has the type.
pub proof fn timestamps_have_a_range(
    sets: Seq<Seq<u8>>,
    name: Seq<char>,
    seconds: i64,
    nanos: i32,
)
    requires
        bare(name) == "google.protobuf.Timestamp"@,
        seconds_and_nanos_are_taken(sets, name, seconds_and_nanos(seconds as int, nanos as int)),
    ensures
        config(sets, name, seconds_and_nanos(seconds as int, nanos as int)) is Ok
            <==> -62135596800 <= seconds <= 253402300799 && 0 <= nanos <= 999999999,
{
    seconds_and_nanos_are_kept(sets, name, seconds, nanos);
}

/// A duration within 10000 years whose nanos are part of a second and do not point the other way is
/// encoded, and no other is.
pub proof fn durations_have_a_range(sets: Seq<Seq<u8>>, name: Seq<char>, seconds: i64, nanos: i32)
    requires
        bare(name) == "google.protobuf.Duration"@,
        seconds_and_nanos_are_taken(sets, name, seconds_and_nanos(seconds as int, nanos as int)),
    ensures
        config(sets, name, seconds_and_nanos(seconds as int, nanos as int)) is Ok
            <==> -315576000000 <= seconds <= 315576000000 && -999999999 <= nanos <= 999999999 && !(
        seconds > 0 && nanos < 0) && !(seconds < 0 && nanos > 0),
{
    reveal_strlit("google.protobuf.Timestamp");
    reveal_strlit("google.protobuf.Duration");
    assert("google.protobuf.Timestamp"@.len() != "google.protobuf.Duration"@.len());
    seconds_and_nanos_are_kept(sets, name, seconds, nanos);
}

/// Whether a type declares seconds and nanos, none of them required, the private copy of the schema
/// is made and has the type, and a configuration is read as it is read when it is encoded.
pub open spec fn seconds_and_nanos_are_taken(
    sets: Seq<Seq<u8>>,
    name: Seq<char>,
    value: JsonV,
) -> bool {
    let files = known_files(sets, name);
    let private = structural_files(files);
    let types = fields_of(private, private_name(bare(name)));
    &&& schema_of(sets, name) is Ok
    &&& resolves(private)
    &&& message_type(private, private_name(bare(name))) is Some
    &&& has_seconds_and_nanos(files, bare(name))
    &&& forall|i: int| 0 <= i < types.len() ==> !(#[trigger] types[i]).required
    &&& integers_are_read(sets, name, value)
    &&& config_is_kept(sets, name, value)
}

proof fn private_is_public(name: Seq<char>)
    ensures
        public_name(private_name(name), true) == name,
{
    reveal_strlit("protolark_internal");
    reveal_strlit(".");
    reveal_strlit("protolark_internal.");
    let prefix = "protolark_internal."@;
    assert(private_package() + "."@ =~= prefix);
    assert(private_name(name).take(prefix.len() as int) =~= prefix);
    assert(private_name(name).skip(prefix.len() as int) =~= name);
}

proof fn seconds_and_nanos_are_kept(
    sets: Seq<Seq<u8>>,
    name: Seq<char>,
    seconds: i64,
    nanos: i32,
)
    requires
        seconds_and_nanos_are_taken(sets, name, seconds_and_nanos(seconds as int, nanos as int)),
        bare(name) == "google.protobuf.Timestamp"@ || bare(name) == "google.protobuf.Duration"@,
    ensures
        ({
            let value = seconds_and_nanos(seconds as int, nanos as int);
            match config_message_read(sets, name, value) {
                Ok(m) => {
                    &&& long_value(m, 1) == seconds
                    &&& int_value(m, 2) == nanos
                    &&& config(sets, name, value) is Ok <==> if bare(name)
                        == "google.protobuf.Timestamp"@ {
                        timestamp_problem(m) is None
                    } else {
                        duration_problem(m) is None
                    }
                },
                Err(_) => false,
            }
        }),
{
    let files = known_files(sets, name);
    let value = seconds_and_nanos(seconds as int, nanos as int);
    seconds_and_nanos_stay(files, bare(name), seconds as int, nanos as int);
    let numbers = seq![nanos as int, seconds as int];
    assert(of_integers(files, bare(name), value, numbers));
    let o = value->Object_0;
    assert(o[0].0 == "nanos"@ && o[1].0 == "seconds"@);
    let m = config_message_read(sets, name, value)->Ok_0;
    assert(config_message_read(sets, name, value) is Ok);
    assert(number_in(m, field_named(files, bare(name), o[0].0)->Some_0) == numbers[0]);
    assert(number_in(m, field_named(files, bare(name), o[1].0)->Some_0) == numbers[1]);
    no_problem_iff_kept(structural_files(files), true, name, m);
    private_is_public(bare(name));
    reveal_strlit("google.protobuf.Timestamp");
    reveal_strlit("google.protobuf.Duration");
    assert("google.protobuf.Timestamp"@.len() != "google.protobuf.Duration"@.len());
}

/// The ProtoJSON that a configuration is decoded to is encoded to the very bytes that the
/// configuration was, where it has no maps and the JSON says all of it.
pub proof fn decoded_configurations_are_encoded_again(
    sets: Seq<Seq<u8>>,
    name: Seq<char>,
    written: MessageV,
    bytes: Seq<u8>,
    shown: JsonV,
    again: Seq<u8>,
)
    requires
        config_reads_back(known_files(sets, name), name, written, bytes),
        wire_message(known_files(sets, name), bare(name), bytes) == Some(
            folded(known_files(sets, name), bare(name), written),
        ),
        shown_reads_back(
            known_files(sets, name),
            wire_message(known_files(sets, name), bare(name), bytes),
            shown,
        ),
        faithful(known_files(sets, name), folded(known_files(sets, name), bare(name), written)),
        readable(known_files(sets, name), folded(known_files(sets, name), bare(name), written)),
        without_maps(folded(known_files(sets, name), bare(name), written)),
        protojson_reads_back(known_files(sets, name), name, shown, again),
    ensures
        again == bytes,
{
    let files = known_files(sets, name);
    let m = folded(files, bare(name), written);
    said_without_any(files, m);
    without_payloads_nothing_is_replaced(files, m, 65);
}

} // verus!
