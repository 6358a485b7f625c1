//! What commands give out: the bytes, the lines of JSON in their place, and what is said of errors.
use vstd::prelude::*;

verus! {

use crate::cli::{
    cli_text, decodes_to, emitted, encodes_to, failure, generated, in_format, json_file, json_line,
    json_lines, object1, success, CliError, CliFault, Format, OutputV,
};
use crate::codec::{bytes_of, config, decodes, decodes_text, known_files, protojson, text_of};
use crate::error::{broken_text, error_text, CodecError, Fault, Rule};
use crate::evaluating::holds;
use crate::json::{names, put, JsonV};
use crate::message::MessageV;
use crate::order::slot_is;
use crate::pool::{resolved_files, text_form, wire_bytes};
use crate::schema::normalized_files;
use crate::steady::steady;
use crate::text::{integer_text, text_less};
use vstd::utf8::{decode_utf8, encode_utf8, valid_utf8};

/// Without JSON mode, bytes go to the file that was named, and nothing is printed; or they are
/// printed, and no file is written.
pub proof fn bytes_are_given_out_once(
    command: Seq<char>,
    bytes: Seq<u8>,
    path: Seq<char>,
    payload: JsonV,
)
    ensures
        emitted(command, bytes, Some(path), payload, false).file == Some(bytes),
        emitted(command, bytes, Some(path), payload, false).printed is None,
        emitted(command, bytes, None, payload, false).file is None,
        emitted(command, bytes, None, payload, false).printed == Some(bytes),
        emitted(command, bytes, Some(path), payload, true).file == Some(bytes),
        emitted(command, bytes, None, payload, true).file is None,
{
}

proof fn put_last(o: Seq<(Seq<char>, JsonV)>, name: Seq<char>, v: JsonV, p: int)
    requires
        0 <= p <= o.len(),
        forall|i: int| 0 <= i < p ==> text_less((#[trigger] o[i]).0, name),
        p < o.len() ==> !text_less(o[p].0, name),
    ensures
        put(o, name, v) == o.insert(p, (name, v)),
{
    let keys = names(o);
    assert forall|i: int| 0 <= i < p implies text_less(keys[i], name) by {
        assert(keys[i] == o[i].0);
    }
    slot_is(keys, name, p);
}

/// The order of the names in what is printed.
proof fn printed_names()
    ensures
        text_less("command"@, "data"@),
        text_less("command"@, "ok"@),
        text_less("data"@, "ok"@),
        !text_less("ok"@, "command"@),
        !text_less("ok"@, "data"@),
        !text_less("ok"@, "error"@),
        text_less("code"@, "message"@),
        !text_less("output"@, "bytes"@),
        !text_less("output"@, "matches"@),
{
    reveal_strlit("command");
    reveal_strlit("data");
    reveal_strlit("ok");
    reveal_strlit("error");
    reveal_strlit("code");
    reveal_strlit("message");
    reveal_strlit("output");
    reveal_strlit("bytes");
    reveal_strlit("matches");
}

/// What is printed of a success in JSON mode is an object of the command, the data, and that it went
/// well.
pub proof fn successes_say_so(command: Seq<char>, data: JsonV)
    ensures
        success(command, data) == JsonV::Object(
            seq![("command"@, JsonV::Text(command)), ("data"@, data), ("ok"@, JsonV::Bool(true))],
        ),
{
    printed_names();
    let none = Seq::<(Seq<char>, JsonV)>::empty();
    let a = seq![("ok"@, JsonV::Bool(true))];
    put_last(none, "ok"@, JsonV::Bool(true), 0);
    assert(none.insert(0, ("ok"@, JsonV::Bool(true))) =~= a);
    let b = seq![("command"@, JsonV::Text(command)), ("ok"@, JsonV::Bool(true))];
    put_last(a, "command"@, JsonV::Text(command), 0);
    assert(a.insert(0, ("command"@, JsonV::Text(command))) =~= b);
    put_last(b, "data"@, data, 1);
    assert(b.insert(1, ("data"@, data)) =~= seq![
        ("command"@, JsonV::Text(command)),
        ("data"@, data),
        ("ok"@, JsonV::Bool(true)),
    ]);
}

/// What is printed of a failure in JSON mode is an object of the error, its code and its message, and
/// that it did not go well.
pub proof fn failures_say_so(code: Seq<char>, message: Seq<char>)
    ensures
        failure(code, message) == JsonV::Object(
            seq![
                (
                    "error"@,
                    JsonV::Object(
                        seq![
                            ("code"@, JsonV::Text(code)),
                            ("message"@, JsonV::Text(message)),
                        ],
                    ),
                ),
                ("ok"@, JsonV::Bool(false)),
            ],
        ),
{
    printed_names();
    let none = Seq::<(Seq<char>, JsonV)>::empty();
    let a = seq![("code"@, JsonV::Text(code))];
    put_last(none, "code"@, JsonV::Text(code), 0);
    assert(none.insert(0, ("code"@, JsonV::Text(code))) =~= a);
    let b = seq![("code"@, JsonV::Text(code)), ("message"@, JsonV::Text(message))];
    put_last(a, "message"@, JsonV::Text(message), 1);
    assert(a.insert(1, ("message"@, JsonV::Text(message))) =~= b);
    let c = seq![("ok"@, JsonV::Bool(false))];
    put_last(none, "ok"@, JsonV::Bool(false), 0);
    assert(none.insert(0, ("ok"@, JsonV::Bool(false))) =~= c);
    put_last(c, "error"@, JsonV::Object(b), 0);
    assert(c.insert(0, ("error"@, JsonV::Object(b))) =~= seq![
        ("error"@, JsonV::Object(b)),
        ("ok"@, JsonV::Bool(false)),
    ]);
}

/// In JSON mode one line is printed: of the file and the number of its bytes, or of the payload where
/// there is no file.
pub proof fn lines_are_printed_in_json_mode(
    command: Seq<char>,
    bytes: Seq<u8>,
    path: Seq<char>,
    payload: JsonV,
)
    ensures
        emitted(command, bytes, None, payload, true).printed == Some(
            encode_utf8(
                json_line(
                    JsonV::Object(
                        seq![
                            ("command"@, JsonV::Text(command)),
                            ("data"@, payload),
                            ("ok"@, JsonV::Bool(true)),
                        ],
                    ),
                ) + seq!['\n'],
            ),
        ),
        emitted(command, bytes, Some(path), payload, true).printed == Some(
            encode_utf8(
                json_line(
                    JsonV::Object(
                        seq![
                            ("command"@, JsonV::Text(command)),
                            (
                                "data"@,
                                JsonV::Object(
                                    seq![
                                        (
                                            "bytes"@,
                                            JsonV::Number(integer_text(bytes.len() as int)),
                                        ),
                                        ("output"@, JsonV::Text(path)),
                                    ],
                                ),
                            ),
                            ("ok"@, JsonV::Bool(true)),
                        ],
                    ),
                ) + seq!['\n'],
            ),
        ),
{
    reveal_strlit("\n");
    assert("\n"@ =~= seq!['\n']);
    successes_say_so(command, payload);
    printed_names();
    let none = Seq::<(Seq<char>, JsonV)>::empty();
    let n = JsonV::Number(integer_text(bytes.len() as int));
    let a = seq![("output"@, JsonV::Text(path))];
    put_last(none, "output"@, JsonV::Text(path), 0);
    assert(none.insert(0, ("output"@, JsonV::Text(path))) =~= a);
    put_last(a, "bytes"@, n, 0);
    let data = seq![("bytes"@, n), ("output"@, JsonV::Text(path))];
    assert(a.insert(0, ("bytes"@, n)) =~= data);
    successes_say_so(command, JsonV::Object(data));
}

/// A file of JSON holds the value on lines, and ends with a line break.
pub proof fn files_of_json_end_with_a_break(value: JsonV)
    ensures
        json_file(value) == encode_utf8(json_lines(value) + seq!['\n']),
        object1("value"@, value) == JsonV::Object(seq![("value"@, value)]),
{
    reveal_strlit("\n");
    assert("\n"@ =~= seq!['\n']);
    let none = Seq::<(Seq<char>, JsonV)>::empty();
    put_last(none, "value"@, value, 0);
    assert(none.insert(0, ("value"@, value)) =~= seq![("value"@, value)]);
}

/// Constructors that are generated are given out as other outputs are: their source is the file, or is
/// printed, or in JSON mode is the payload. A file that is only checked is never written, and a check
/// needs a file.
pub proof fn sources_are_given_out(
    source: Seq<char>,
    path: Seq<char>,
    existing: Seq<u8>,
    json_mode: bool,
)
    ensures
        generated(source, Some(path), None, json_mode) matches Ok(o) && o.file == Some(
            encode_utf8(source),
        ),
        generated(source, None, None, false) matches Ok(o) && o.file is None && o.printed == Some(
            encode_utf8(source),
        ),
        generated(source, None, None, true) == Ok::<OutputV, CliFault>(
            emitted(
                "generate"@,
                encode_utf8(source),
                None,
                JsonV::Object(seq![("source"@, JsonV::Text(source))]),
                true,
            ),
        ),
        generated(source, None, Some(existing), json_mode) == Err::<OutputV, CliFault>(
            CliFault::CheckRequiresOut,
        ),
        generated(source, Some(path), Some(encode_utf8(source)), false) == Ok::<OutputV, CliFault>(
            OutputV { file: None, printed: None },
        ),
        generated(source, Some(path), Some(encode_utf8(source)), true) == Ok::<OutputV, CliFault>(
            OutputV {
                file: None,
                printed: emitted(
                    "generate"@,
                    Seq::empty(),
                    None,
                    JsonV::Object(
                        seq![("matches"@, JsonV::Bool(true)), ("output"@, JsonV::Text(path))],
                    ),
                    true,
                ).printed,
            },
        ),
{
    printed_names();
    let none = Seq::<(Seq<char>, JsonV)>::empty();
    put_last(none, "source"@, JsonV::Text(source), 0);
    assert(none.insert(0, ("source"@, JsonV::Text(source))) =~= seq![
        ("source"@, JsonV::Text(source)),
    ]);
    let a = seq![("output"@, JsonV::Text(path))];
    put_last(none, "output"@, JsonV::Text(path), 0);
    assert(none.insert(0, ("output"@, JsonV::Text(path))) =~= a);
    put_last(a, "matches"@, JsonV::Bool(true), 0);
    assert(a.insert(0, ("matches"@, JsonV::Bool(true))) =~= seq![
        ("matches"@, JsonV::Bool(true)),
        ("output"@, JsonV::Text(path)),
    ]);
    assert(crate::cli::matches(path) == JsonV::Object(
        seq![("matches"@, JsonV::Bool(true)), ("output"@, JsonV::Text(path))],
    ));
}

proof fn between(a: Seq<char>, part: Seq<char>, b: Seq<char>)
    ensures
        holds(a + part + b, part),
        holds(a + part, part),
        holds(part + b, part),
{
    let none = Seq::<char>::empty();
    assert(a + part =~= a + part + none);
    assert(part + b =~= none + part + b);
}

/// An error with a schema or a message says what it is about: the message, the field, the key or the
/// path, and the reason that was given.
pub proof fn errors_say_what_is_wrong(m: String, f: String, k: String, r: String, rule: Rule)
    ensures
        holds(error_text(CodecError::Conflict(m)), m@),
        holds(error_text(CodecError::UnknownMessage(m)), crate::text::quoted_text(m@)),
        holds(error_text(CodecError::Json(m, r)), m@),
        holds(error_text(CodecError::Json(m, r)), r@),
        holds(error_text(CodecError::Configuration(m, r)), m@),
        holds(error_text(CodecError::Configuration(m, r)), r@),
        holds(error_text(CodecError::Wire(m, r)), m@),
        holds(error_text(CodecError::Wire(m, r)), r@),
        holds(error_text(CodecError::Text(m, r)), m@),
        holds(error_text(CodecError::Text(m, r)), r@),
        holds(error_text(CodecError::AnyPayload(m, r)), m@),
        holds(error_text(CodecError::AnyPayload(m, r)), r@),
        holds(error_text(CodecError::Unresolved(r)), r@),
        holds(error_text(CodecError::Unnormalized(r)), r@),
        holds(error_text(CodecError::Serialize(r)), r@),
        error_text(CodecError::Unreadable(r)) == r@,
        holds(error_text(CodecError::UnknownField(m, f)), m@ + seq!['.'] + f@),
        holds(error_text(CodecError::NotAMap(m, f)), m@ + seq!['.'] + f@),
        holds(error_text(CodecError::DuplicateField(m, f)), m@ + seq!['.'] + f@),
        holds(error_text(CodecError::NullEntry(m, f, k)), m@ + seq!['.'] + f@),
        holds(error_text(CodecError::NullEntry(m, f, k)), crate::text::quoted_text(k@)),
        error_text(CodecError::Broken(m, rule)) == broken_text(m@, rule),
        holds(broken_text(m@, rule), m@),
{
    reveal_strlit(".");
    assert("."@ =~= seq!['.']);
    let q = crate::text::quoted_text(m@);
    let tail = ": "@ + r@;
    let mf = m@ + seq!['.'] + f@;
    between("conflicting descriptors for "@, m@, Seq::empty());
    between("message "@, q, " not found in descriptor sets"@);
    between("invalid protobuf JSON for "@, m@, tail);
    assert("invalid protobuf JSON for "@ + m@ + ": "@ + r@ =~= "invalid protobuf JSON for "@ + m@
        + tail);
    between("invalid protobuf JSON for "@ + m@ + ": "@, r@, Seq::empty());
    let c = "invalid structural protobuf configuration for "@;
    between(c, m@, tail);
    assert(c + m@ + ": "@ + r@ =~= c + m@ + tail);
    between(c + m@ + ": "@, r@, Seq::empty());
    between("decode protobuf "@, m@, tail);
    assert("decode protobuf "@ + m@ + ": "@ + r@ =~= "decode protobuf "@ + m@ + tail);
    between("decode protobuf "@ + m@ + ": "@, r@, Seq::empty());
    between("parse text protobuf "@, m@, tail);
    assert("parse text protobuf "@ + m@ + ": "@ + r@ =~= "parse text protobuf "@ + m@ + tail);
    between("parse text protobuf "@ + m@ + ": "@, r@, Seq::empty());
    between("decode Any payload "@, m@, tail);
    assert("decode Any payload "@ + m@ + ": "@ + r@ =~= "decode Any payload "@ + m@ + tail);
    between("decode Any payload "@ + m@ + ": "@, r@, Seq::empty());
    between(
        "resolve protobuf schema (descriptor sets must hold their imports): "@,
        r@,
        Seq::empty(),
    );
    between("normalize protobuf schema for deterministic serialization: "@, r@, Seq::empty());
    between("serialize protobuf JSON: "@, r@, Seq::empty());
    between("unknown protobuf field "@, mf, Seq::empty());
    assert("unknown protobuf field "@ + m@ + "."@ + f@ =~= "unknown protobuf field "@ + mf);
    between(Seq::empty(), mf, " must be a map"@);
    between("duplicate protobuf field "@, mf, Seq::empty());
    assert("duplicate protobuf field "@ + m@ + "."@ + f@ =~= "duplicate protobuf field "@ + mf);
    let kq = crate::text::quoted_text(k@);
    let end = "["@ + kq + "] cannot contain a null value"@;
    between("protobuf map "@, mf, end);
    assert("protobuf map "@ + m@ + "."@ + f@ + end =~= "protobuf map "@ + mf + end);
    between("protobuf map "@ + mf + "["@, kq, "] cannot contain a null value"@);
    assert("protobuf map "@ + m@ + "."@ + f@ + end =~= "protobuf map "@ + mf + "["@ + kq
        + "] cannot contain a null value"@);
    between("missing required protobuf field "@, m@, Seq::empty());
    between("well-known field "@, m@, ".seconds is out of range"@);
    between("well-known field "@, m@, ".nanos is out of range"@);
    between("well-known field "@, m@, ".number_value must be finite"@);
    between(
        "well-known duration "@,
        m@,
        " must not have seconds and nanos of opposite signs"@,
    );
    between("well-known value "@, m@, " must have a kind"@);
}

/// An error of a command says what it is about: the error with a schema or a message, the path, and the
/// reason that was given.
pub proof fn errors_of_commands_say_what_is_wrong(e: CodecError, p: String, r: String)
    ensures
        cli_text(CliError::Codec(e)) == error_text(e),
        holds(cli_text(CliError::Input(r)), r@),
        holds(cli_text(CliError::NotUtf8(r)), r@),
        holds(cli_text(CliError::Stale(p)), p@),
{
    between("parsing protobuf JSON input: "@, r@, Seq::empty());
    between("text protobuf must be UTF-8: "@, r@, Seq::empty());
    between(Seq::empty(), p@, " is not up to date; regenerate without --check"@);
}

/// A message is given out in the format that was asked for: its wire bytes, or the bytes of its text.
/// An error is the same in either.
pub proof fn messages_are_given_out_in_their_format(
    files: Seq<MessageV>,
    m: MessageV,
    e: Fault,
    format: Format,
)
    ensures
        in_format(Format::Binary, files, Ok(m)) == Ok::<Seq<u8>, Fault>(wire_bytes(files, m)),
        in_format(Format::Text, files, Ok(m)) == Ok::<Seq<u8>, Fault>(
            encode_utf8(text_form(files, m)),
        ),
        in_format(format, files, Err(e)) == Err::<Seq<u8>, Fault>(e),
        bytes_of(files, Ok(m)) == Ok::<Seq<u8>, Fault>(wire_bytes(files, m)),
        text_of(files, Ok(m)) == Ok::<Seq<char>, Fault>(text_form(files, m)),
        bytes_of(files, Err(e)) == Err::<Seq<u8>, Fault>(e),
        text_of(files, Err(e)) == Err::<Seq<char>, Fault>(e),
{
}

/// What a command decodes is what the codec shows, of bytes or of text, and text that is not UTF-8 is
/// refused.
pub proof fn commands_show_what_is_decoded(
    sets: Seq<Seq<u8>>,
    name: Seq<char>,
    input: Seq<u8>,
    r: Result<JsonV, CliFault>,
)
    ensures
        decodes_to(Format::Binary, sets, name, input, r) ==> (r matches Ok(j) ==> decodes(
            sets,
            name,
            input,
            Ok(j),
        )) && (r matches Err(e) ==> (e matches CliFault::Codec(f) && decodes(
            sets,
            name,
            input,
            Err(f),
        ))),
        decodes_to(Format::Text, sets, name, input, r) && valid_utf8(input) ==> (r matches Ok(j)
            ==> decodes_text(sets, name, decode_utf8(input), Ok(j))) && (r matches Err(e) ==> (
        e matches CliFault::Codec(f) && decodes_text(sets, name, decode_utf8(input), Err(f)))),
        decodes_to(Format::Text, sets, name, input, r) && !valid_utf8(input) ==> r == Err::<
            JsonV,
            CliFault,
        >(CliFault::NotUtf8),
{
}

/// What a command encodes of a configuration is what becomes of it, and of ProtoJSON what may become
/// of that, in the format that was asked for.
pub proof fn commands_give_out_what_is_encoded(
    format: Format,
    sets: Seq<Seq<u8>>,
    name: Seq<char>,
    value: JsonV,
    r: Result<Seq<u8>, Fault>,
)
    ensures
        encodes_to(format, true, sets, name, value, r) <==> r == in_format(
            format,
            normalized_files(resolved_files(known_files(sets, name)), true),
            config(sets, name, value),
        ),
        encodes_to(format, false, sets, name, value, r) && steady(known_files(sets, name), value)
            ==> r == in_format(
            format,
            normalized_files(resolved_files(known_files(sets, name)), false),
            protojson(sets, name, value),
        ),
{
}

} // verus!
