//! What the commands do with their arguments, short of reading and writing: which outputs there
//! are, and what is in them.
use crate::codec::{decode, decode_text, encode, encode_config, encode_config_text, encode_text};
use crate::error::CodecError;
use crate::json::{number_of_unsigned, put_name, Json};
use crate::loader::{BZL_RUNTIME_LABEL, SCL_RUNTIME_LABEL};
use crate::message::{copy_bytes, same_bytes};
use crate::pool::{json_of, json_value};
use crate::text::{join2, text_eq};
use vstd::prelude::*;
use vstd::string::*;

verus! {

use crate::codec::{
    bytes_of, config, decodes, decodes_text, json_outcome, known_files, protojson_outcome, same_text,
    structural_files, text_of,
};
use crate::error::{error_text, Fault};
use crate::json::{names, object_view, object_views, put, JsonV};
use crate::text::integer_text;
use crate::message::MessageV;
use crate::order::ascending;
use crate::payload::private_files;
use crate::pool::value_contents;
use crate::schema::sets_view;
use vstd::utf8::{decode_utf8, encode_utf8, valid_utf8};

/// How messages are written.
#[derive(Clone, Copy, PartialEq, Eq, Structural, Debug)]
pub enum Format {
    Binary,
    Text,
}

/// Why a command failed.
pub enum CliError {
    Codec(CodecError),
    OutRequired,
    Input(String),
    NotUtf8(String),
    CheckRequiresOut,
    Stale(String),
}

/// Which error it is, without the reasons that libraries give.
pub enum CliFault {
    Codec(Fault),
    OutRequired,
    Input,
    NotUtf8,
    CheckRequiresOut,
    Stale(Seq<char>),
}

impl View for CliError {
    type V = CliFault;

    open spec fn view(&self) -> CliFault {
        match self {
            CliError::Codec(e) => CliFault::Codec(e@),
            CliError::OutRequired => CliFault::OutRequired,
            CliError::Input(_) => CliFault::Input,
            CliError::NotUtf8(_) => CliFault::NotUtf8,
            CliError::CheckRequiresOut => CliFault::CheckRequiresOut,
            CliError::Stale(p) => CliFault::Stale(p@),
        }
    }
}

/// What is said of an error.
pub open spec fn cli_text(e: CliError) -> Seq<char> {
    match e {
        CliError::Codec(c) => error_text(c),
        CliError::OutRequired =>
            "encode --json requires --out to keep protobuf bytes separate from JSON status"@,
        CliError::Input(r) => "parsing protobuf JSON input: "@ + r@,
        CliError::NotUtf8(r) => "text protobuf must be UTF-8: "@ + r@,
        CliError::CheckRequiresOut => "--check requires --out"@,
        CliError::Stale(p) => p@ + " is not up to date; regenerate without --check"@,
    }
}

impl CliError {
    /// Says what went wrong.
    pub fn message(&self) -> (r: String)
        ensures
            r@ == cli_text(*self),
    {
        match self {
            CliError::Codec(c) => c.message(),
            CliError::OutRequired =>
                "encode --json requires --out to keep protobuf bytes separate from JSON status"
                    .to_owned(),
            CliError::Input(r) => join2("parsing protobuf JSON input: ", r.as_str()),
            CliError::NotUtf8(r) => join2("text protobuf must be UTF-8: ", r.as_str()),
            CliError::CheckRequiresOut => "--check requires --out".to_owned(),
            CliError::Stale(p) => join2(
                p.as_str(),
                " is not up to date; regenerate without --check",
            ),
        }
    }
}

/// A JSON value on one line.
pub uninterp spec fn json_line(value: JsonV) -> Seq<char>;

/// A JSON value on lines that are indented.
pub uninterp spec fn json_lines(value: JsonV) -> Seq<char>;

/// The JSON value that bytes hold, where they hold one.
pub uninterp spec fn json_bytes(bytes: Seq<u8>) -> Option<JsonV>;

/// Calls `to_string` of a `serde_json::Value`, which writes it without spaces.
#[verifier::external_body]
fn format_line(v: &serde_json::Value) -> (r: String)
    ensures
        r@ == json_line(value_contents(*v)),
{
    v.to_string()
}

/// Calls `serde_json::to_string_pretty`, which does not fail on a `serde_json::Value`.
#[verifier::external_body]
fn format_lines(v: &serde_json::Value) -> (r: String)
    ensures
        r@ == json_lines(value_contents(*v)),
{
    serde_json::to_string_pretty(v).unwrap()
}

/// Calls `serde_json::from_slice` for a `serde_json::Value`.
#[verifier::external_body]
fn parse_bytes(bytes: &[u8]) -> (r: Result<serde_json::Value, String>)
    ensures
        match r {
            Ok(v) => json_bytes(bytes@) == Some(value_contents(v)),
            Err(_) => json_bytes(bytes@) is None,
        },
{
    serde_json::from_slice(bytes).map_err(|e| e.to_string())
}

/// Calls `std::str::from_utf8`, which takes exactly the bytes that are UTF-8.
#[verifier::external_body]
fn read_utf8(bytes: &[u8]) -> (r: Result<&str, String>)
    ensures
        match r {
            Ok(s) => encode_utf8(s@) == bytes@,
            Err(_) => !valid_utf8(bytes@),
        },
{
    std::str::from_utf8(bytes).map_err(|e| e.to_string())
}

/// What a command gives out: the bytes for the file that was named, and what is printed.
pub struct Output {
    pub file: Option<Vec<u8>>,
    pub printed: Option<Vec<u8>>,
}

/// What a command gives out.
pub struct OutputV {
    pub file: Option<Seq<u8>>,
    pub printed: Option<Seq<u8>>,
}

/// The bytes, if there are any.
pub open spec fn optional_bytes(b: Option<Vec<u8>>) -> Option<Seq<u8>> {
    match b {
        Some(b) => Some(b@),
        None => None,
    }
}

impl View for Output {
    type V = OutputV;

    open spec fn view(&self) -> OutputV {
        OutputV { file: optional_bytes(self.file), printed: optional_bytes(self.printed) }
    }
}

/// An object of one name.
pub open spec fn object1(name: Seq<char>, value: JsonV) -> JsonV {
    JsonV::Object(put(Seq::empty(), name, value))
}

/// An object of two names.
pub open spec fn object2(a: Seq<char>, x: JsonV, b: Seq<char>, y: JsonV) -> JsonV {
    JsonV::Object(put(put(Seq::empty(), a, x), b, y))
}

/// What is printed of a success in JSON mode.
pub open spec fn success(command: Seq<char>, data: JsonV) -> JsonV {
    JsonV::Object(
        put(
            put(put(Seq::empty(), "ok"@, JsonV::Bool(true)), "command"@, JsonV::Text(command)),
            "data"@,
            data,
        ),
    )
}

/// What is printed of a failure in JSON mode.
pub open spec fn failure(code: Seq<char>, message: Seq<char>) -> JsonV {
    object2(
        "ok"@,
        JsonV::Bool(false),
        "error"@,
        object2("code"@, JsonV::Text(code), "message"@, JsonV::Text(message)),
    )
}

/// What a command gives out. Bytes go to the file that was named, or else they are printed. In
/// JSON mode a line of JSON is printed in their place: it holds the file and the number of its
/// bytes, or the payload where there is no file.
pub open spec fn emitted(
    command: Seq<char>,
    bytes: Seq<u8>,
    out: Option<Seq<char>>,
    payload: JsonV,
    json_mode: bool,
) -> OutputV {
    let data = match out {
        Some(path) => object2(
            "output"@,
            JsonV::Text(path),
            "bytes"@,
            JsonV::Number(integer_text(bytes.len() as int)),
        ),
        None => payload,
    };
    OutputV {
        file: if out is Some {
            Some(bytes)
        } else {
            None
        },
        printed: if json_mode {
            Some(encode_utf8(json_line(success(command, data)) + "\n"@))
        } else if out is None {
            Some(bytes)
        } else {
            None
        },
    }
}

/// The distinct names of an envelope.
proof fn envelope_names()
    ensures
        "ok"@ != "command"@,
        "ok"@ != "data"@,
        "command"@ != "data"@,
        "ok"@ != "error"@,
        "code"@ != "message"@,
        "output"@ != "bytes"@,
        "output"@ != "matches"@,
{
    reveal_strlit("ok");
    reveal_strlit("command");
    reveal_strlit("data");
    reveal_strlit("error");
    reveal_strlit("code");
    reveal_strlit("message");
    reveal_strlit("output");
    reveal_strlit("bytes");
    reveal_strlit("matches");
    assert("ok"@.len() == 2 && "command"@.len() == 7 && "data"@.len() == 4 && "error"@.len() == 5);
    assert("code"@.len() == 4 && "message"@.len() == 7);
    assert("output"@.len() == 6 && "bytes"@.len() == 5 && "matches"@.len() == 7);
}

/// All values of an object are in order, and so are its names.
spec fn object_ordered(o: Seq<(Seq<char>, JsonV)>) -> bool {
    ascending(names(o)) && forall|k: int| 0 <= k < o.len() ==> (#[trigger] o[k]).1.ordered()
}

fn add_member(o: &mut Vec<(String, Json)>, name: &str, value: Json)
    requires
        object_ordered(object_view(old(o)@)),
        value@.ordered(),
        !names(object_view(old(o)@)).contains(name@),
    ensures
        object_ordered(object_view(final(o)@)),
        object_view(final(o)@) == put(object_view(old(o)@), name@, value@),
{
    let ghost before = object_view(o@);
    let ghost vv = value@;
    let _ = put_name(o, name.to_owned(), value);
    proof {
        crate::order::slot_divides(names(before), name@);
        let p = crate::order::slot(names(before), name@) as int;
        let after = object_view(o@);
        assert forall|k: int| 0 <= k < after.len() implies (#[trigger] after[k]).1.ordered() by {
            if k < p {
                assert(after[k] == before[k]);
            } else if k == p {
                assert(after[k].1 == vv);
            } else {
                assert(after[k] == before[k - 1]);
            }
        }
    }
}

proof fn names_of_put(o: Seq<(Seq<char>, JsonV)>, a: Seq<char>, v: JsonV, b: Seq<char>)
    ensures
        names(put(o, a, v)).contains(b) ==> a == b || names(o).contains(b),
{
    crate::order::slot_divides(names(o), a);
    let p = crate::order::slot(names(o), a) as int;
    let q = put(o, a, v);
    if names(q).contains(b) {
        let i = choose|i: int| 0 <= i < names(q).len() && names(q)[i] == b;
        if i < p {
            assert(names(o)[i] == b);
        } else if i > p {
            assert(names(o)[i - 1] == b);
        }
    }
}

fn empty_object() -> (r: Vec<(String, Json)>)
    ensures
        object_view(r@) == Seq::<(Seq<char>, JsonV)>::empty(),
        object_ordered(object_view(r@)),
{
    let r: Vec<(String, Json)> = Vec::new();
    assert(object_view(r@) =~= Seq::empty());
    r
}

fn object_of(o: Vec<(String, Json)>) -> (r: Json)
    requires
        object_ordered(object_view(o@)),
    ensures
        r@ == JsonV::Object(object_view(o@)),
        r@.ordered(),
{
    let r = Json::Object(o);
    proof {
        object_views(r);
    }
    r
}

/// Makes an object of one name.
pub fn make1(name: &str, value: Json) -> (r: Json)
    requires
        value@.ordered(),
    ensures
        r@ == object1(name@, value@),
        r@.ordered(),
{
    let mut o = empty_object();
    add_member(&mut o, name, value);
    object_of(o)
}

fn make2(a: &str, x: Json, b: &str, y: Json) -> (r: Json)
    requires
        x@.ordered(),
        y@.ordered(),
        a@ != b@,
    ensures
        r@ == object2(a@, x@, b@, y@),
        r@.ordered(),
{
    let ghost xv = x@;
    let mut o = empty_object();
    add_member(&mut o, a, x);
    proof {
        names_of_put(Seq::empty(), a@, xv, b@);
    }
    add_member(&mut o, b, y);
    object_of(o)
}

fn success_json(command: &str, data: Json) -> (r: Json)
    requires
        data@.ordered(),
    ensures
        r@ == success(command@, data@),
        r@.ordered(),
{
    proof {
        envelope_names();
    }
    let mut o = empty_object();
    add_member(&mut o, "ok", Json::Bool(true));
    let ghost one = object_view(o@);
    proof {
        names_of_put(Seq::empty(), "ok"@, JsonV::Bool(true), "command"@);
        names_of_put(Seq::empty(), "ok"@, JsonV::Bool(true), "data"@);
    }
    let c = Json::Text(command.to_owned());
    let ghost cv = c@;
    add_member(&mut o, "command", c);
    proof {
        names_of_put(one, "command"@, cv, "data"@);
    }
    add_member(&mut o, "data", data);
    object_of(o)
}

fn line_of(j: &Json) -> (r: Vec<u8>)
    requires
        j@.ordered(),
    ensures
        r@ == encode_utf8(json_line(j@) + "\n"@),
{
    let v = json_value(j);
    let t = format_line(&v);
    let line = join2(t.as_str(), "\n");
    line.as_str().as_bytes_vec()
}

/// The line that is printed of a failure in JSON mode.
pub fn failure_line(code: &str, message: &str) -> (r: Vec<u8>)
    ensures
        r@ == encode_utf8(json_line(failure(code@, message@)) + "\n"@),
{
    proof {
        envelope_names();
    }
    let inner = make2(
        "code",
        Json::Text(code.to_owned()),
        "message",
        Json::Text(message.to_owned()),
    );
    let outer = make2("ok", Json::Bool(false), "error", inner);
    line_of(&outer)
}

/// Decides what a command gives out.
pub fn emit(command: &str, bytes: Vec<u8>, out: Option<String>, payload: Json, json_mode: bool) -> (r:
    Output)
    requires
        payload@.ordered(),
    ensures
        r@ == emitted(
            command@,
            bytes@,
            crate::text::optional_text(out),
            payload@,
            json_mode,
        ),
{
    proof {
        envelope_names();
    }
    match out {
        Some(path) => {
            let printed = if json_mode {
                let n = Json::Number(number_of_unsigned(bytes.len() as u64));
                let data = make2("output", Json::Text(path), "bytes", n);
                let line = success_json(command, data);
                Some(line_of(&line))
            } else {
                None
            };
            Output { file: Some(bytes), printed }
        },
        None => {
            let printed = if json_mode {
                let line = success_json(command, payload);
                line_of(&line)
            } else {
                bytes
            };
            Output { file: None, printed: Some(printed) }
        },
    }
}

/// A JSON value as a file holds it.
pub open spec fn json_file(value: JsonV) -> Seq<u8> {
    encode_utf8(json_lines(value) + "\n"@)
}

fn file_of_json(j: &Json) -> (r: Vec<u8>)
    requires
        j@.ordered(),
    ensures
        r@ == json_file(j@),
{
    let v = json_value(j);
    let t = format_lines(&v);
    let text = join2(t.as_str(), "\n");
    text.as_str().as_bytes_vec()
}

/// What the evaluation of a configuration gives out: its value as JSON.
pub fn eval_output(value: Json, out: Option<String>, json_mode: bool) -> (r: Output)
    requires
        value@.ordered(),
    ensures
        r@ == emitted(
            "eval"@,
            json_file(value@),
            crate::text::optional_text(out),
            object1("value"@, value@),
            json_mode,
        ),
{
    let bytes = file_of_json(&value);
    let payload = make1("value", value);
    emit("eval", bytes, out, payload, json_mode)
}

/// Whether a command that encodes is refused: in JSON mode the bytes need a file.
pub fn encode_allowed(has_out: bool, json_mode: bool) -> (r: Result<(), CliError>)
    ensures
        match r {
            Ok(_) => !json_mode || has_out,
            Err(e) => json_mode && !has_out && e@ == CliFault::OutRequired,
        },
{
    if json_mode && !has_out {
        Err(CliError::OutRequired)
    } else {
        Ok(())
    }
}

/// Reads JSON input.
pub fn read_json(bytes: &[u8]) -> (r: Result<Json, CliError>)
    ensures
        match (r, json_bytes(bytes@)) {
            (Ok(j), Some(v)) => j@ == v && j@.ordered(),
            (Err(e), None) => e@ == CliFault::Input,
            _ => false,
        },
{
    match parse_bytes(bytes) {
        Ok(v) => Ok(json_of(&v)),
        Err(e) => Err(CliError::Input(e)),
    }
}

/// What is encoded, or the error: a configuration or ProtoJSON, as wire bytes or as the bytes of
/// text.
pub open spec fn encodes_to(
    format: Format,
    is_config: bool,
    sets: Seq<Seq<u8>>,
    name: Seq<char>,
    value: JsonV,
    r: Result<Seq<u8>, Fault>,
) -> bool {
    let files = known_files(sets, name);
    if is_config {
        r == in_format(format, structural_files(files), config(sets, name, value))
    } else {
        exists|form: Result<MessageV, Fault>| #[trigger]
            protojson_outcome(sets, name, value, form) && r == in_format(
                format,
                private_files(files),
                form,
            )
    }
}

/// A message of a private copy in a format.
pub open spec fn in_format(
    format: Format,
    files: Seq<MessageV>,
    form: Result<MessageV, Fault>,
) -> Result<Seq<u8>, Fault> {
    match format {
        Format::Binary => bytes_of(files, form),
        Format::Text => match text_of(files, form) {
            Ok(t) => Ok(encode_utf8(t)),
            Err(e) => Err(e),
        },
    }
}

/// What a result is: the bytes, or which error.
pub open spec fn result_view(r: Result<Vec<u8>, CodecError>) -> Result<Seq<u8>, Fault> {
    match r {
        Ok(b) => Ok(b@),
        Err(e) => Err(e@),
    }
}

/// Encodes a value in a format.
pub fn encode_value(
    format: Format,
    is_config: bool,
    sets: &Vec<Vec<u8>>,
    name: &str,
    value: &Json,
) -> (r: Result<Vec<u8>, CodecError>)
    requires
        value@.ordered(),
    ensures
        encodes_to(format, is_config, sets_view(sets@), name@, value@, result_view(r)),
{
    match (format, is_config) {
        (Format::Binary, true) => encode_config(sets, name, value),
        (Format::Text, true) => match encode_config_text(sets, name, value) {
            Ok(t) => Ok(t.as_str().as_bytes_vec()),
            Err(e) => Err(e),
        },
        (Format::Binary, false) => {
            let r = encode(sets, name, value);
            proof {
                let files = known_files(sets_view(sets@), name@);
                let form = choose|form: Result<MessageV, Fault>| #[trigger]
                    protojson_outcome(sets_view(sets@), name@, value@, form)
                        && crate::codec::same_bytes(r, bytes_of(private_files(files), form));
                assert(result_view(r) == in_format(format, private_files(files), form));
            }
            r
        },
        (Format::Text, false) => {
            let t = encode_text(sets, name, value);
            let ghost files = known_files(sets_view(sets@), name@);
            let ghost form = choose|form: Result<MessageV, Fault>| #[trigger]
                protojson_outcome(sets_view(sets@), name@, value@, form) && same_text(
                    t,
                    text_of(private_files(files), form),
                );
            let r = match t {
                Ok(t) => Ok(t.as_str().as_bytes_vec()),
                Err(e) => Err(e),
            };
            assert(result_view(r) == in_format(format, private_files(files), form));
            r
        },
    }
}

/// What a command that encodes gives out.
pub fn encode_output(bytes: Vec<u8>, out: Option<String>, json_mode: bool) -> (r: Output)
    ensures
        r@ == emitted(
            "encode"@,
            bytes@,
            crate::text::optional_text(out),
            JsonV::Null,
            json_mode,
        ),
{
    emit("encode", bytes, out, Json::Null, json_mode)
}

/// What bytes in a format may be shown as, or the error. Text must be UTF-8.
pub open spec fn decodes_to(
    format: Format,
    sets: Seq<Seq<u8>>,
    name: Seq<char>,
    input: Seq<u8>,
    r: Result<JsonV, CliFault>,
) -> bool {
    match format {
        Format::Binary => exists|out: Result<JsonV, Fault>| #[trigger]
            decodes(sets, name, input, out) && r == shown_or_fault(out),
        Format::Text => if valid_utf8(input) {
            exists|out: Result<JsonV, Fault>| #[trigger]
                decodes_text(sets, name, decode_utf8(input), out) && r == shown_or_fault(out)
        } else {
            r == Err::<JsonV, CliFault>(CliFault::NotUtf8)
        },
    }
}

/// What a message is shown as, or the error.
pub open spec fn shown_or_fault(r: Result<JsonV, Fault>) -> Result<JsonV, CliFault> {
    match r {
        Ok(j) => Ok(j),
        Err(e) => Err(CliFault::Codec(e)),
    }
}

/// What a result is: the value, or which error.
pub open spec fn json_result(r: Result<Json, CliError>) -> Result<JsonV, CliFault> {
    match r {
        Ok(j) => Ok(j@),
        Err(e) => Err(e@),
    }
}

/// Decodes bytes in a format.
pub fn decode_value(format: Format, sets: &Vec<Vec<u8>>, name: &str, input: &[u8]) -> (r: Result<
    Json,
    CliError,
>)
    ensures
        decodes_to(format, sets_view(sets@), name@, input@, json_result(r)),
        r matches Ok(j) ==> j@.ordered(),
{
    match format {
        Format::Binary => {
            let d = decode(sets, name, input);
            assert(decodes(sets_view(sets@), name@, input@, json_outcome(d)));
            match d {
                Ok(j) => Ok(j),
                Err(e) => Err(CliError::Codec(e)),
            }
        },
        Format::Text => {
            let text = match read_utf8(input) {
                Ok(text) => text,
                Err(e) => {
                    return Err(CliError::NotUtf8(e));
                },
            };
            let d = decode_text(sets, name, text);
            proof {
                vstd::utf8::encode_utf8_valid_utf8(text@);
                vstd::utf8::encode_utf8_decode_utf8(text@);
                assert(decodes_text(sets_view(sets@), name@, text@, json_outcome(d)));
            }
            match d {
                Ok(j) => Ok(j),
                Err(e) => Err(CliError::Codec(e)),
            }
        },
    }
}

/// What a command that decodes gives out.
pub fn decode_output(value: Json, out: Option<String>, json_mode: bool) -> (r: Output)
    requires
        value@.ordered(),
    ensures
        r@ == emitted(
            "decode"@,
            json_file(value@),
            crate::text::optional_text(out),
            object1("value"@, value@),
            json_mode,
        ),
{
    let bytes = file_of_json(&value);
    let payload = make1("value", value);
    emit("decode", bytes, out, payload, json_mode)
}

/// The label under which generated constructors load the shared runtime: the one that was given,
/// or else the one for the extension of the output.
pub fn runtime_load(given: Option<String>, extension: Option<&str>) -> (r: String)
    ensures
        r@ == match given {
            Some(label) => label@,
            None => if extension is Some && extension->Some_0@ == "bzl"@ {
                BZL_RUNTIME_LABEL@
            } else {
                SCL_RUNTIME_LABEL@
            },
        },
{
    match given {
        Some(label) => label,
        None => match extension {
            Some(e) => if text_eq(e, "bzl") {
                BZL_RUNTIME_LABEL.to_owned()
            } else {
                SCL_RUNTIME_LABEL.to_owned()
            },
            None => SCL_RUNTIME_LABEL.to_owned(),
        },
    }
}

/// What a command that generates constructors gives out. Their source goes where other outputs go.
/// Where it is only checked against the file that was named, nothing is written: the two must
/// agree in each byte, and in JSON mode a line says that they do.
pub open spec fn generated(
    source: Seq<char>,
    out: Option<Seq<char>>,
    existing: Option<Seq<u8>>,
    json_mode: bool,
) -> Result<OutputV, CliFault> {
    match (existing, out) {
        (None, _) => Ok(
            emitted(
                "generate"@,
                encode_utf8(source),
                out,
                object1("source"@, JsonV::Text(source)),
                json_mode,
            ),
        ),
        (Some(_), None) => Err(CliFault::CheckRequiresOut),
        (Some(bytes), Some(path)) => if bytes == encode_utf8(source) {
            Ok(
                OutputV {
                    file: None,
                    printed: if json_mode {
                        Some(encode_utf8(json_line(success("generate"@, matches(path))) + "\n"@))
                    } else {
                        None
                    },
                },
            )
        } else {
            Err(CliFault::Stale(path))
        },
    }
}

/// What is said of a file that is up to date.
pub open spec fn matches(path: Seq<char>) -> JsonV {
    object2("output"@, JsonV::Text(path), "matches"@, JsonV::Bool(true))
}

/// Decides what a command that generates constructors gives out. `existing` is what the file that
/// was named holds, where it is only checked.
pub fn run_generate(
    source: &str,
    out: Option<String>,
    existing: Option<Vec<u8>>,
    json_mode: bool,
) -> (r: Result<Output, CliError>)
    ensures
        match (
            r,
            generated(
                source@,
                crate::text::optional_text(out),
                optional_bytes(existing),
                json_mode,
            ),
        ) {
            (Ok(output), Ok(v)) => output@ == v,
            (Err(e), Err(f)) => e@ == f,
            _ => false,
        },
{
    let bytes = source.as_bytes_vec();
    let existing = match existing {
        Some(existing) => existing,
        None => {
            let payload = make1("source", Json::Text(source.to_owned()));
            return Ok(emit("generate", bytes, out, payload, json_mode));
        },
    };
    let path = match out {
        Some(path) => path,
        None => {
            return Err(CliError::CheckRequiresOut);
        },
    };
    if !same_bytes(&existing, &bytes) {
        return Err(CliError::Stale(path));
    }
    let printed = if json_mode {
        proof {
            envelope_names();
        }
        let data = make2("output", Json::Text(path), "matches", Json::Bool(true));
        let line = success_json("generate", data);
        Some(line_of(&line))
    } else {
        None
    };
    Ok(Output { file: None, printed })
}

/// A file that was generated is up to date until a byte of it differs: a check of it succeeds if it
/// holds what the same command wrote, and fails if it holds anything else. Either way nothing is
/// written.
pub proof fn generated_files_are_up_to_date(
    source: Seq<char>,
    path: Seq<char>,
    json_mode: bool,
    existing: Seq<u8>,
)
    ensures
        generated(source, Some(path), None, json_mode) is Ok,
        ({
            let written = generated(source, Some(path), None, json_mode)->Ok_0.file;
            let checked = generated(source, Some(path), Some(existing), json_mode);
            &&& written is Some
            &&& checked is Ok <==> written == Some(existing)
            &&& checked is Ok ==> checked->Ok_0.file is None
            &&& checked is Err ==> checked == Err::<OutputV, CliFault>(CliFault::Stale(path))
        }),
{
}

/// The pairs of a list of paths, one behind the other. A path that is left over is dropped.
pub fn pair_up(paths: &Vec<Vec<u8>>) -> (r: Vec<(Vec<u8>, Vec<u8>)>)
    ensures
        r@.len() == paths@.len() / 2,
        forall|i: int|
            0 <= i < r@.len() ==> (#[trigger] r@[i]).0@ == paths@[2 * i]@ && r@[i].1@ == paths@[2 * i
                + 1]@,
{
    let all = paths.len();
    let n = all / 2;
    let mut r: Vec<(Vec<u8>, Vec<u8>)> = Vec::new();
    let mut i: usize = 0;
    while i < n
        invariant
            all == paths@.len(),
            n == all / 2,
            i <= n,
            r@.len() == i,
            forall|k: int|
                0 <= k < i ==> (#[trigger] r@[k]).0@ == paths@[2 * k]@ && r@[k].1@ == paths@[2 * k
                    + 1]@,
        decreases n - i,
    {
        r.push((copy_bytes(&paths[2 * i]), copy_bytes(&paths[2 * i + 1])));
        i += 1;
    }
    r
}

/// What a command encodes: the value of a configuration, or the bytes of ProtoJSON.
pub enum EncodeInput {
    Config(Json),
    ProtoJson(Vec<u8>),
}

/// The value that a command encodes, where the bytes hold one.
pub open spec fn input_value(input: EncodeInput) -> Option<JsonV> {
    match input {
        EncodeInput::Config(j) => Some(j@),
        EncodeInput::ProtoJson(b) => json_bytes(b@),
    }
}

/// Encodes what a command was given, and decides what it gives out.
pub fn run_encode(
    format: Format,
    input: EncodeInput,
    sets: &Vec<Vec<u8>>,
    name: &str,
    out: Option<String>,
    json_mode: bool,
) -> (r: Result<Output, CliError>)
    requires
        input matches EncodeInput::Config(j) ==> j@.ordered(),
    ensures
        match input_value(input) {
            _ if json_mode && out is None => r matches Err(e) && e@ == CliFault::OutRequired,
            None => r matches Err(e) && e@ == CliFault::Input,
            Some(value) => match r {
                Ok(output) => exists|bytes: Seq<u8>|
                    encodes_to(
                        format,
                        input is Config,
                        sets_view(sets@),
                        name@,
                        value,
                        Ok(bytes),
                    ) && output@ == #[trigger] emitted(
                        "encode"@,
                        bytes,
                        crate::text::optional_text(out),
                        JsonV::Null,
                        json_mode,
                    ),
                Err(e) => e@ is Codec && encodes_to(
                    format,
                    input is Config,
                    sets_view(sets@),
                    name@,
                    value,
                    Err(e@->Codec_0),
                ),
            },
        },
{
    if let Err(e) = encode_allowed(out.is_some(), json_mode) {
        return Err(e);
    }
    let (value, is_config) = match input {
        EncodeInput::Config(j) => (j, true),
        EncodeInput::ProtoJson(b) => match read_json(b.as_slice()) {
            Ok(j) => (j, false),
            Err(e) => {
                return Err(e);
            },
        },
    };
    match encode_value(format, is_config, sets, name, &value) {
        Ok(bytes) => Ok(encode_output(bytes, out, json_mode)),
        Err(e) => Err(CliError::Codec(e)),
    }
}

/// Decodes what a command was given, and decides what it gives out.
pub fn run_decode(
    format: Format,
    input: &[u8],
    sets: &Vec<Vec<u8>>,
    name: &str,
    out: Option<String>,
    json_mode: bool,
) -> (r: Result<Output, CliError>)
    ensures
        match r {
            Ok(output) => exists|value: JsonV|
                decodes_to(format, sets_view(sets@), name@, input@, Ok(value)) && output@
                    == #[trigger] emitted(
                    "decode"@,
                    json_file(value),
                    crate::text::optional_text(out),
                    object1("value"@, value),
                    json_mode,
                ),
            Err(e) => decodes_to(format, sets_view(sets@), name@, input@, Err(e@)),
        },
{
    match decode_value(format, sets, name, input) {
        Ok(value) => Ok(decode_output(value, out, json_mode)),
        Err(e) => Err(e),
    }
}

} // verus!
