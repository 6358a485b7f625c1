use prost::Message;
use protolark::cli::{
    decode_value, emit, encode_allowed, encode_value, eval_output, failure_line, pair_up,
    read_json, run_decode, run_encode, run_generate, runtime_load, CliError, EncodeInput, Format,
};
use protolark::json::Json;
use serde_json::Value;

/// One protobuf source that is held in memory, beside those of Google.
struct Source(&'static str);

impl protox::file::FileResolver for Source {
    fn resolve_path(&self, path: &std::path::Path) -> Option<String> {
        path.to_str().map(str::to_owned)
    }

    fn open_file(&self, name: &str) -> Result<protox::file::File, protox::Error> {
        if name == "demo.proto" {
            return protox::file::File::from_source(name, self.0);
        }
        protox::file::GoogleFileResolver::new().open_file(name)
    }
}

fn compile(source: &'static str) -> Vec<Vec<u8>> {
    let set = protox::Compiler::with_file_resolver(Source(source))
        .include_imports(true)
        .open_file("demo.proto")
        .unwrap()
        .file_descriptor_set();
    vec![set.encode_to_vec()]
}

fn fixture() -> Vec<Vec<u8>> {
    compile(
        r#"syntax = "proto3";
package example;
message Project { string name = 1; repeated string targets = 2; bytes payload = 3; }
"#,
    )
}

fn json(text: &str) -> Json {
    match read_json(text.as_bytes()) {
        Ok(j) => j,
        Err(e) => panic!("{}", e.message()),
    }
}

fn parsed(bytes: &Option<Vec<u8>>) -> Value {
    let bytes = bytes.as_ref().unwrap();
    assert_eq!(bytes.last(), Some(&b'\n'));
    serde_json::from_slice(bytes).unwrap()
}

fn value(text: &str) -> Value {
    serde_json::from_str(text).unwrap()
}

fn done<T>(r: Result<T, CliError>) -> T {
    match r {
        Ok(x) => x,
        Err(e) => panic!("{}", e.message()),
    }
}

#[test]
fn decodes_independent_wire_fixture() {
    // Field 1, length-delimited, four bytes "demo". Not generated by our encoder.
    let wire = [0x0a, 4, b'd', b'e', b'm', b'o'];
    let output =
        done(run_decode(Format::Binary, &wire, &fixture(), "example.Project", None, true));
    assert!(output.file.is_none());
    let printed = parsed(&output.printed);
    assert_eq!(printed["data"]["value"], value(r#"{"name": "demo"}"#));
    assert_eq!(printed["ok"], true);
    assert_eq!(printed["command"], "decode");
}

#[test]
fn invalid_schema_value_preserves_existing_output_and_returns_json() {
    let input = EncodeInput::ProtoJson(br#"{"not_a_field": true}"#.to_vec());
    let out = Some("existing.pb".to_owned());
    let result = run_encode(Format::Binary, input, &fixture(), "example.Project", out, true);
    match result {
        Ok(_) => panic!("accepted"),
        Err(error) => {
            let line = failure_line("operation_failed", &error.message());
            let error = parsed(&Some(line));
            assert_eq!(error["ok"], false);
            assert_eq!(error["error"]["code"], "operation_failed");
            assert!(error["error"]["message"]
                .as_str()
                .unwrap()
                .starts_with("invalid protobuf JSON for example.Project: "));
        }
    }
}

#[test]
fn json_usage_errors_and_binary_output_are_unambiguous() {
    let usage = parsed(&Some(failure_line("usage", "unrecognized subcommand \"no-such-command\"")));
    assert_eq!(usage["error"]["code"], "usage");
    let input = EncodeInput::ProtoJson(b"{}".to_vec());
    match run_encode(Format::Binary, input, &fixture(), "example.Project", None, true) {
        Ok(_) => panic!("accepted"),
        Err(error) => {
            assert!(error.message().contains("requires --out"));
            assert_eq!(
                error.message(),
                "encode --json requires --out to keep protobuf bytes separate from JSON status"
            );
        }
    }
    assert!(encode_allowed(false, true).is_err());
    assert!(encode_allowed(true, true).is_ok());
    assert!(encode_allowed(false, false).is_ok());
}

#[test]
fn envelopes_are_one_line_of_json() {
    assert_eq!(
        failure_line("usage", "no \"such\" command"),
        b"{\"error\":{\"code\":\"usage\",\"message\":\"no \\\"such\\\" command\"},\"ok\":false}\n"
    );
    let output = emit("encode", vec![1, 2, 3], Some("a.pb".to_owned()), Json::Null, true);
    assert_eq!(output.file, Some(vec![1, 2, 3]));
    assert_eq!(
        output.printed,
        Some(
            b"{\"command\":\"encode\",\"data\":{\"bytes\":3,\"output\":\"a.pb\"},\"ok\":true}\n"
                .to_vec()
        )
    );
}

#[test]
fn bytes_go_to_the_file_or_are_printed() {
    let output = emit("encode", vec![1, 2], Some("a.pb".to_owned()), Json::Null, false);
    assert_eq!(output.file, Some(vec![1, 2]));
    assert_eq!(output.printed, None);
    let output = emit("encode", vec![1, 2], None, Json::Null, false);
    assert_eq!(output.file, None);
    assert_eq!(output.printed, Some(vec![1, 2]));
    let output = emit("eval", vec![1, 2], None, Json::Bool(true), true);
    assert_eq!(output.file, None);
    assert_eq!(parsed(&output.printed)["data"], true);
}

#[test]
fn values_are_printed_on_indented_lines() {
    let output = eval_output(json(r#"{"b": [1], "a": "x"}"#), None, false);
    assert_eq!(
        output.printed,
        Some(b"{\n  \"a\": \"x\",\n  \"b\": [\n    1\n  ]\n}\n".to_vec())
    );
    let output = eval_output(json("[]"), Some("out.json".to_owned()), true);
    assert_eq!(output.file, Some(b"[]\n".to_vec()));
    assert_eq!(
        parsed(&output.printed),
        value(r#"{"ok": true, "command": "eval", "data": {"output": "out.json", "bytes": 3}}"#)
    );
}

#[test]
fn configurations_and_protojson_roundtrip_in_both_formats() {
    let sets = fixture();
    let text = r#"{"name": "demo", "targets": ["//:test"], "payload": "aGk="}"#;
    for format in [Format::Binary, Format::Text] {
        let mut written = Vec::new();
        for input in
            [EncodeInput::Config(json(text)), EncodeInput::ProtoJson(text.as_bytes().to_vec())]
        {
            let out = Some("message.pb".to_owned());
            let output = done(run_encode(format, input, &sets, "example.Project", out, true));
            let file = output.file.unwrap();
            assert_eq!(parsed(&output.printed)["data"]["bytes"], file.len());
            written.push(file);
        }
        assert_eq!(written[0], written[1]);
        let output =
            done(run_decode(format, &written[0], &sets, "example.Project", None, true));
        assert_eq!(parsed(&output.printed)["data"]["value"], value(text));
        let output =
            done(run_decode(format, &written[0], &sets, "example.Project", None, false));
        assert_eq!(parsed(&output.printed), value(text));
    }
    match encode_value(Format::Text, true, &sets, "example.Project", &json(text)) {
        Ok(bytes) => assert_eq!(
            bytes,
            br#"name:"demo",targets:["//:test"],payload:"hi""#.to_vec()
        ),
        Err(e) => panic!("{}", e.message()),
    }
}

#[test]
fn structural_timestamp_and_maps_are_stable() {
    let sets = compile(
        r#"syntax = "proto3";
package example;
import "google/protobuf/timestamp.proto";
message Project { google.protobuf.Timestamp time = 1; map<string, int32> counts = 2; }
"#,
    );
    let config = r#"{"time": {"seconds": 0}, "counts": {"a": 1, "b": 2, "c": 3, "d": 4}}"#;
    for format in [Format::Binary, Format::Text] {
        let mut previous: Option<Vec<u8>> = None;
        for _ in 0..8 {
            let bytes = match encode_value(format, true, &sets, "example.Project", &json(config)) {
                Ok(bytes) => bytes,
                Err(e) => panic!("{}", e.message()),
            };
            if let Some(previous) = &previous {
                assert_eq!(previous, &bytes);
            }
            previous = Some(bytes);
        }
        let bytes = previous.unwrap();
        let output = done(run_decode(format, &bytes, &sets, "example.Project", None, true));
        let shown = parsed(&output.printed);
        assert_eq!(shown["data"]["value"]["time"], "1970-01-01T00:00:00Z");
        assert_eq!(
            shown["data"]["value"]["counts"],
            value(r#"{"a": 1, "b": 2, "c": 3, "d": 4}"#)
        );
    }
}

#[test]
fn input_must_be_json_and_text_must_be_utf8() {
    let sets = fixture();
    let input = EncodeInput::ProtoJson(b"{".to_vec());
    match run_encode(Format::Binary, input, &sets, "example.Project", None, false) {
        Err(CliError::Input(reason)) => {
            let words = CliError::Input(reason).message();
            assert!(words.starts_with("parsing protobuf JSON input: EOF"));
        }
        _ => panic!("accepted"),
    }
    match decode_value(Format::Text, &sets, "example.Project", &[0xff]) {
        Err(error) => {
            assert!(matches!(error, CliError::NotUtf8(_)));
            assert!(error.message().starts_with("text protobuf must be UTF-8: invalid utf-8"));
        }
        Ok(_) => panic!("accepted"),
    }
    let name = "name: \"\u{e9}\"".as_bytes();
    match decode_value(Format::Text, &sets, "example.Project", name) {
        Ok(Json::Object(members)) => {
            assert_eq!(members.len(), 1);
            assert!(matches!(&members[0].1, Json::Text(t) if t == "\u{e9}"));
        }
        _ => panic!("refused"),
    }
}

#[test]
fn the_runtime_label_follows_the_extension() {
    assert_eq!(runtime_load(None, Some("bzl")), "@protolark//protolark:runtime.bzl");
    assert_eq!(runtime_load(None, Some("scl")), "//protolark:runtime.scl");
    assert_eq!(runtime_load(None, None), "//protolark:runtime.scl");
    assert_eq!(
        runtime_load(Some("//:local_runtime.scl".to_owned()), Some("bzl")),
        "//:local_runtime.scl"
    );
}

#[test]
fn generated_files_are_checked_without_writing() {
    let out = || Some("demo.bzl".to_owned());
    let written = done(run_generate("x = 1\n", out(), None, true));
    assert_eq!(written.file.as_deref(), Some(&b"x = 1\n"[..]));
    assert_eq!(
        parsed(&written.printed),
        value(r#"{"ok":true,"command":"generate","data":{"output":"demo.bzl","bytes":6}}"#)
    );
    let checked = done(run_generate("x = 1\n", out(), written.file.clone(), true));
    assert_eq!(checked.file, None);
    assert_eq!(
        parsed(&checked.printed),
        value(r#"{"ok":true,"command":"generate","data":{"output":"demo.bzl","matches":true}}"#)
    );
    let quiet = done(run_generate("x = 1\n", out(), written.file, false));
    assert_eq!((quiet.file, quiet.printed), (None, None));
    for json_mode in [false, true] {
        match run_generate("x = 1\n", out(), Some(b"x = 2\n".to_vec()), json_mode) {
            Err(error) => assert_eq!(
                error.message(),
                "demo.bzl is not up to date; regenerate without --check"
            ),
            Ok(_) => panic!("accepted"),
        }
    }
    match run_generate("x = 1\n", None, Some(b"x = 1\n".to_vec()), false) {
        Err(error) => assert_eq!(error.message(), "--check requires --out"),
        Ok(_) => panic!("accepted"),
    }
}

#[test]
fn generated_source_is_printed_where_no_file_is_named() {
    let plain = done(run_generate("x = 1\n", None, None, false));
    assert_eq!(plain.file, None);
    assert_eq!(plain.printed.as_deref(), Some(&b"x = 1\n"[..]));
    let line = done(run_generate("x = 1\n", None, None, true));
    assert_eq!(
        parsed(&line.printed),
        value(r#"{"ok":true,"command":"generate","data":{"source":"x = 1\n"}}"#)
    );
}

#[test]
fn declared_files_come_in_pairs() {
    let paths = ["a", "b", "c", "d", "e"].map(|p| p.as_bytes().to_vec()).to_vec();
    assert_eq!(
        pair_up(&paths),
        [(b"a".to_vec(), b"b".to_vec()), (b"c".to_vec(), b"d".to_vec())]
    );
    assert!(pair_up(&Vec::new()).is_empty());
}

#[test]
fn numbers_of_json_keep_their_digits() {
    let text = r#"[18446744073709551616, -9223372036854775809, 1.50, 1e400]"#;
    let output = eval_output(json(text), None, true);
    let line = String::from_utf8(output.printed.unwrap()).unwrap();
    assert_eq!(
        line,
        "{\"command\":\"eval\",\"data\":{\"value\":[18446744073709551616,-9223372036854775809,1.50,1e+400]},\"ok\":true}\n"
    );
}
