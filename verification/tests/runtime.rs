use prost::Message;
use protolark::codec;
use protolark::convert::to_json;
use protolark::fault::RuntimeError;
use protolark::json::Json;
use protolark::loader::Location;
use protolark::runtime::{evaluate, evaluate_files, LogicalPath, Request};
use serde_json::Value;
use starlark::environment::{Globals, LibraryExtension, Module};
use starlark::eval::Evaluator;
use starlark::syntax::{AstModule, Dialect};
use starlark::values::OwnedFrozenValue;

/// A shared runtime that is small enough to read here.
const RUNTIME: &str = "def _twice(value):\n    return [value, value]\nhelpers = struct(twice = _twice)\n";

fn parts(path: &str) -> Vec<Vec<u8>> {
    path.split('/').filter(|p| !p.is_empty()).map(|p| p.as_bytes().to_vec()).collect()
}

fn location(path: &str) -> Location {
    Location { parts: parts(path), shown: path.to_owned() }
}

fn text_of(parts: &[Vec<u8>]) -> String {
    let mut path = String::new();
    for part in parts {
        path.push('/');
        path.push_str(std::str::from_utf8(part).unwrap());
    }
    path
}

/// Where a relative path leads, in a tree of files without links.
fn find(files: &[(&str, &str)], base: &[Vec<u8>], relative: &str) -> Result<Location, String> {
    let mut at = if relative.starts_with('/') { Vec::new() } else { base.to_vec() };
    for part in relative.split('/') {
        if part == ".." {
            at.pop();
        } else if !part.is_empty() && part != "." {
            at.push(part.as_bytes().to_vec());
        }
    }
    let shown = text_of(&at);
    if files.iter().any(|(path, _)| *path == shown) {
        Ok(Location { parts: at, shown })
    } else {
        Err("no such file".to_owned())
    }
}

/// Evaluates a configuration in a tree of files, and says which files were read.
fn run_in(
    files: &[(&str, &str)],
    config: &str,
    symbol: &str,
    root: &str,
) -> (Result<Json, RuntimeError>, Vec<String>) {
    let mut read = Vec::new();
    let (mut evaluation, mut request) = evaluate(location(config), symbol, location(root), RUNTIME);
    loop {
        request = match request {
            Request::Source(path) => {
                read.push(path.shown.clone());
                let source = files.iter().find(|(p, _)| *p == path.shown);
                evaluation.give_source(match source {
                    Some((_, text)) => Ok((*text).to_owned()),
                    None => Err("no such file".to_owned()),
                })
            }
            Request::Location(base, relative) => {
                evaluation.give_location(find(files, &base, &relative))
            }
            Request::Finished(value) => return (Ok(value), read),
            Request::Failed(error) => return (Err(error), read),
        }
    }
}

fn run(files: &[(&str, &str)]) -> Result<Json, RuntimeError> {
    run_in(files, files[0].0, "project", "/root").0
}

fn to_value(j: &Json) -> Value {
    match j {
        Json::Null => Value::Null,
        Json::Bool(b) => Value::Bool(*b),
        Json::Number(n) => Value::Number(n.clone()),
        Json::Text(s) => Value::String(s.clone()),
        Json::Array(a) => Value::Array(a.iter().map(to_value).collect()),
        Json::Object(o) => Value::Object(o.iter().map(|(k, v)| (k.clone(), to_value(v))).collect()),
    }
}

fn shown(files: &[(&str, &str)]) -> Value {
    match run(files) {
        Ok(value) => to_value(&value),
        Err(error) => panic!("{}", error.message()),
    }
}

fn failure(files: &[(&str, &str)]) -> String {
    match run(files) {
        Ok(_) => panic!("accepted"),
        Err(error) => error.message(),
    }
}

fn value(text: &str) -> Value {
    serde_json::from_str(text).unwrap()
}

/// A configuration of one file.
fn alone(source: &str) -> Result<Json, RuntimeError> {
    run(&[("/root/config.scl", source)])
}

fn alone_shown(source: &str) -> Value {
    shown(&[("/root/config.scl", source)])
}

fn alone_failure(source: &str) -> String {
    failure(&[("/root/config.scl", source)])
}

#[test]
fn loader_cycles_missing_files_and_escape_are_rejected() {
    let cycle = failure(&[
        ("/root/a.scl", "load('b.scl', 'project')\n"),
        ("/root/b.scl", "load('a.scl', 'project')\n"),
    ]);
    assert!(cycle.contains("cycle"));
    assert_eq!(cycle, "Starlark load cycle at /root/a.scl");
    let escape = failure(&[
        ("/root/a.scl", "load('../outside.scl', 'project')\n"),
        ("/outside.scl", "project = struct(name = 'outside')\n"),
    ]);
    assert!(escape.contains("escapes"));
    assert_eq!(escape, "load \"../outside.scl\" escapes load root /root");
    assert_eq!(
        failure(&[("/root/a.scl", "load('missing.scl', 'project')\n")]),
        "resolve load \"missing.scl\": no such file"
    );
    for label in ["@other//protolark:runtime.scl", "@protolark//protolark:other.scl"] {
        let source = format!("load({label:?}, 'project')\n");
        assert_eq!(
            failure(&[("/root/a.scl", source.as_str())]),
            format!("unsupported load {label:?}: use a relative path or //package:file label")
        );
    }
    assert!(run(&[("/root/a.scl", "project = open('outside.scl')\n")]).is_err());
}

#[test]
fn protobuf_numbers_and_map_keys_do_not_lose_precision() {
    let value = alone_shown(
        "project = struct(low = -9223372036854775808, high = 18446744073709551615, flags = {True: 1, False: 2})\n",
    );
    assert_eq!(value["low"], Value::from(i64::MIN));
    assert_eq!(value["high"], Value::from(u64::MAX));
    assert_eq!(value["flags"]["true"], 1);
    assert_eq!(value["flags"]["false"], 2);
    assert_eq!(
        alone_failure("project = struct(value = 18446744073709551616)\n"),
        "convert Starlark configuration to JSON: integer 18446744073709551616 is outside protobuf signed/unsigned 64-bit range"
    );
    assert!(alone("project = struct(value = -9223372036854775809)\n").is_err());
}

#[test]
fn costly_evaluation_and_exponential_json_expansion_are_bounded() {
    assert!(alone("project = [i for i in range(1000010)]\n").is_err());
    let error = alone_failure(
        "def expand():\n    value = None\n    for i in range(24):\n        value = [value, value]\n    return value\nproject = expand()\n",
    );
    assert!(error.contains("one million JSON values"));
}

#[test]
fn symlink_load_cannot_escape_root() {
    let link = "load('link.scl', 'value')\nproject = value\n";
    let (mut evaluation, request) =
        evaluate(location("/root/config.scl"), "project", location("/root"), RUNTIME);
    assert!(matches!(request, Request::Source(_)));
    let request = evaluation.give_source(Ok(link.to_owned()));
    match request {
        Request::Location(base, relative) => {
            assert_eq!(text_of(&base), "/root");
            assert_eq!(relative, "link.scl");
        }
        _ => panic!("the link is looked for"),
    }
    match evaluation.give_location(Ok(location("/outside.scl"))) {
        Request::Failed(error) => assert!(error.message().contains("escapes")),
        _ => panic!("the link leads outside"),
    }
}

#[test]
fn a_sibling_whose_name_begins_like_the_root_is_outside() {
    let (result, read) = run_in(
        &[("/rooted/config.scl", "project = 1\n")],
        "/rooted/config.scl",
        "project",
        "/root",
    );
    match result {
        Err(error) => {
            assert_eq!(error.message(), "config /rooted/config.scl is outside load root /root")
        }
        Ok(_) => panic!("accepted"),
    }
    assert!(read.is_empty());
}

#[test]
fn labels_are_relative_to_the_file_or_to_the_root() {
    let value = shown(&[
        (
            "/root/app/config.scl",
            "load('//lib:a.scl', 'a')\nload(':b.scl', 'b')\nload('sub/c.scl', 'c')\nload('//:d.scl', 'd')\nproject = [a, b, c, d]\n",
        ),
        ("/root/lib/a.scl", "a = 'a'\n"),
        ("/root/app/b.scl", "b = 'b'\n"),
        ("/root/app/sub/c.scl", "load('../b.scl', 'b')\nc = b + 'c'\n"),
        ("/root/d.scl", "d = 'd'\n"),
    ]);
    assert_eq!(value, self::value(r#"["a", "b", "bc", "d"]"#));
}

#[test]
fn absolute_paths_are_not_loaded() {
    assert_eq!(
        failure(&[
            ("/root/a.scl", "load('/root/b.scl', 'project')\n"),
            ("/root/b.scl", "project = 1\n"),
        ]),
        "unsupported load \"/root/b.scl\": use a relative path or //package:file label"
    );
}

#[test]
fn each_file_is_read_once_and_in_the_order_of_loads() {
    let (result, read) = run_in(
        &[
            ("/root/config.scl", "load('a.scl', 'a')\nload('b.scl', 'b')\nproject = [a, b]\n"),
            ("/root/a.scl", "load('shared.scl', 'x')\na = x + 1\n"),
            ("/root/b.scl", "load('shared.scl', 'x')\nload('a.scl', 'a')\nb = x + a\n"),
            ("/root/shared.scl", "x = 1\n"),
        ],
        "/root/config.scl",
        "project",
        "/root",
    );
    match result {
        Ok(j) => assert_eq!(to_value(&j), value("[2, 3]")),
        Err(error) => panic!("{}", error.message()),
    }
    assert_eq!(read, ["/root/config.scl", "/root/a.scl", "/root/shared.scl", "/root/b.scl"]);
}

#[test]
fn the_shared_runtime_has_two_labels_and_one_module() {
    let (result, read) = run_in(
        &[(
            "/root/config.scl",
            "load('//protolark:runtime.scl', 'helpers')\nload('@protolark//protolark:runtime.bzl', other = 'helpers')\nproject = helpers.twice(1) + other.twice(2)\n",
        )],
        "/root/config.scl",
        "project",
        "/root",
    );
    match result {
        Ok(j) => assert_eq!(to_value(&j), value("[1, 1, 2, 2]")),
        Err(error) => panic!("{}", error.message()),
    }
    assert_eq!(read, ["/root/config.scl"]);
}

#[test]
fn a_broken_shared_runtime_is_an_error() {
    let load = "load('//protolark:runtime.scl', 'helpers')\nproject = 1\n";
    for source in ["helpers = (\n", "helpers = missing\n"] {
        let (mut evaluation, _) =
            evaluate(location("/root/config.scl"), "project", location("/root"), source);
        match evaluation.give_source(Ok(load.to_owned())) {
            Request::Failed(RuntimeError::Parse(_)) => assert_eq!(source, "helpers = (\n"),
            Request::Failed(RuntimeError::Evaluation(_)) => {
                assert_eq!(source, "helpers = missing\n")
            }
            _ => panic!("accepted {source}"),
        }
    }
}

#[test]
fn sources_are_read_parsed_and_limited() {
    let start = || evaluate(location("/root/config.scl"), "project", location("/root"), RUNTIME).0;
    match start().give_source(Err("denied".to_owned())) {
        Request::Failed(error) => assert_eq!(error.message(), "read /root/config.scl: denied"),
        _ => panic!("accepted"),
    }
    let mut long = "project = 1\n".to_owned();
    long.push_str(&" ".repeat(4 * 1024 * 1024 - long.len()));
    match start().give_source(Ok(long.clone())) {
        Request::Finished(j) => assert_eq!(to_value(&j), 1),
        _ => panic!("a source of 4 MiB is accepted"),
    }
    long.push(' ');
    match start().give_source(Ok(long)) {
        Request::Failed(error) => {
            assert_eq!(error.message(), "Starlark module exceeds 4 MiB source limit")
        }
        _ => panic!("accepted"),
    }
    assert!(matches!(
        start().give_source(Ok("project = (\n".to_owned())),
        Request::Failed(RuntimeError::Parse(_))
    ));
    assert!(matches!(
        start().give_source(Ok("project = missing\n".to_owned())),
        Request::Failed(RuntimeError::Evaluation(_))
    ));
}

#[test]
fn answers_that_were_not_asked_for_are_refused() {
    let (mut evaluation, _) =
        evaluate(location("/root/config.scl"), "project", location("/root"), RUNTIME);
    match evaluation.give_location(Ok(location("/root/other.scl"))) {
        Request::Failed(error) => {
            assert_eq!(error.message(), "the evaluation did not ask for this")
        }
        _ => panic!("accepted"),
    }
    assert!(matches!(
        evaluation.give_source(Ok("project = 1\n".to_owned())),
        Request::Failed(RuntimeError::Confused)
    ));
}

#[test]
fn a_symbol_that_is_not_exported_is_an_error() {
    let files = [("/root/config.scl", "other = 1\n_hidden = 2\n")];
    for symbol in ["project", "_hidden"] {
        match run_in(&files, "/root/config.scl", symbol, "/root").0 {
            Err(error) => assert!(error
                .message()
                .starts_with(&format!("configuration has no exported symbol {symbol:?}: "))),
            Ok(_) => panic!("accepted {symbol}"),
        }
    }
    match run_in(&files, "/root/config.scl", "other", "/root").0 {
        Ok(j) => assert_eq!(to_value(&j), 1),
        Err(error) => panic!("{}", error.message()),
    }
}

#[test]
fn loads_are_limited_in_depth_and_in_number() {
    let chain = |n: usize| {
        let mut files: Vec<(String, String)> = Vec::new();
        for i in 0..n {
            let source = if i + 1 < n {
                format!("load('m{}.scl', 'project')\nproject = project\n", i + 1)
                    .replace("project = project", "value = 1")
            } else {
                "project = 1\n".to_owned()
            };
            files.push((format!("/root/m{i}.scl"), source));
        }
        files
    };
    let run_all = |files: &[(String, String)]| {
        let files: Vec<(&str, &str)> =
            files.iter().map(|(p, s)| (p.as_str(), s.as_str())).collect();
        let symbol = if files.len() > 1 { "value" } else { "project" };
        run_in(&files, files[0].0, symbol, "/root").0
    };
    assert!(run_all(&chain(64)).is_ok());
    match run_all(&chain(65)) {
        Err(error) => assert_eq!(error.message(), "Starlark module loading limit exceeded"),
        Ok(_) => panic!("65 levels are too many"),
    }
    let wide = |n: usize| {
        let mut files: Vec<(String, String)> = vec![("/root/config.scl".to_owned(), String::new())];
        let mut source = String::new();
        for i in 1..n {
            source.push_str(&format!("load('m{i}.scl', x{i} = 'x')\n"));
            files.push((format!("/root/m{i}.scl"), "x = 1\n".to_owned()));
        }
        source.push_str("value = 1\n");
        files[0].1 = source;
        files
    };
    assert!(run_all(&wide(128)).is_ok());
    assert!(matches!(run_all(&wide(129)), Err(RuntimeError::Limit)));
}

#[test]
fn values_become_json() {
    assert_eq!(
        alone_shown(
            "project = struct(none = None, yes = True, text = 'é', list = [1, (2, 3)], dict = {'a': {1: 2}, -3: 4}, half = 0.5, whole = 2.0)\n"
        ),
        value(
            r#"{"none": null, "yes": true, "text": "é", "list": [1, [2, 3]], "dict": {"a": {"1": 2}, "-3": 4}, "half": 0.5, "whole": 2.0}"#
        )
    );
    assert_eq!(
        alone_shown("project = [float('nan'), float('inf'), -float('inf')]\n"),
        value(r#"["NaN", "Infinity", "-Infinity"]"#)
    );
    assert_eq!(
        alone_failure("project = {1: 'a', '1': 'b'}\n"),
        "convert Starlark configuration to JSON: map keys collide after JSON conversion: \"1\""
    );
    assert_eq!(
        alone_failure("project = {(1, 2): 'a'}\n"),
        "convert Starlark configuration to JSON: protobuf map keys must be strings, integers, or booleans"
    );
    assert_eq!(
        alone_failure("project = [len]\n"),
        "convert Starlark configuration to JSON: unsupported configuration value type function"
    );
}

#[test]
fn json_nests_at_most_64_levels_under_the_outermost() {
    let nested = |n: usize| {
        format!("def nest():\n    value = 1\n    for i in range({n}):\n        value = [value]\n    return value\nproject = nest()\n")
    };
    assert!(alone(&nested(64)).is_ok());
    assert_eq!(
        alone_failure(&nested(65)),
        "convert Starlark configuration to JSON: configuration nesting exceeds 64 levels (or contains a cycle)"
    );
}

fn logical(path: &str) -> LogicalPath {
    LogicalPath { bytes: path.as_bytes().to_vec(), shown: path.to_owned() }
}

fn refusal(config: &str, files: &[&str]) -> String {
    let files = files.iter().map(|p| logical(p)).collect();
    match evaluate_files(&logical(config), &files) {
        Ok(_) => panic!("accepted"),
        Err(error) => error.message(),
    }
}

#[test]
fn declared_load_files_reject_unsafe_duplicates_missing_config_and_undeclared_loads() {
    for unsafe_path in [
        "",
        "../escape.scl",
        "/absolute.scl",
        "./dot.scl",
        "app/../escape.scl",
        "app/./dot.scl",
        "app//double.scl",
    ] {
        let words = format!(
            "logical load path {unsafe_path} must be a nonempty normalized relative path without . or .. components"
        );
        assert_eq!(refusal("PROJECT.scl", &["PROJECT.scl", unsafe_path]), words);
        assert_eq!(refusal(unsafe_path, &[]), words);
    }
    assert!(refusal("PROJECT.scl", &["PROJECT.scl", "app/"]).contains("normalized"));
    assert_eq!(
        refusal("PROJECT.scl", &["PROJECT.scl", "PROJECT.scl"]),
        "duplicate logical load path PROJECT.scl"
    );
    assert_eq!(
        refusal("PROJECT.scl", &[]),
        "configuration PROJECT.scl is not declared in the load files"
    );
    assert!(run(&[(
        "/root/PROJECT.scl",
        "load('undeclared.scl', 'name')\nproject = name\n"
    )])
    .is_err());
}

#[test]
fn declared_load_files_are_laid_out_by_the_names_on_their_paths() {
    let files = vec![logical("app/PROJECT.scl"), logical("a b/..c/d"), logical("...")];
    match evaluate_files(&logical("app/PROJECT.scl"), &files) {
        Ok(layout) => {
            assert_eq!(layout.config, [b"app".to_vec(), b"PROJECT.scl".to_vec()]);
            assert_eq!(
                layout.files,
                [
                    vec![b"app".to_vec(), b"PROJECT.scl".to_vec()],
                    vec![b"a b".to_vec(), b"..c".to_vec(), b"d".to_vec()],
                    vec![b"...".to_vec()],
                ]
            );
        }
        Err(error) => panic!("{}", error.message()),
    }
}

#[test]
fn a_path_is_not_confused_with_one_that_is_only_spelled_like_it() {
    let mut other = logical("a");
    other.shown = "b".to_owned();
    let files = vec![logical("a"), other];
    match evaluate_files(&logical("a"), &files) {
        Err(RuntimeError::DuplicatePath(shown)) => assert_eq!(shown, "b"),
        _ => panic!("the paths are the same"),
    }
}

/// Protobuf sources that are held in memory, beside those of Google.
struct Sources(&'static str, &'static str);

impl protox::file::FileResolver for Sources {
    fn resolve_path(&self, path: &std::path::Path) -> Option<String> {
        path.to_str().map(str::to_owned)
    }

    fn open_file(&self, name: &str) -> Result<protox::file::File, protox::Error> {
        if name == self.0 {
            return protox::file::File::from_source(self.0, self.1);
        }
        protox::file::GoogleFileResolver::new().open_file(name)
    }
}

#[test]
fn structural_well_known_types_and_protojson_both_encode() {
    let set = protox::Compiler::with_file_resolver(Sources(
        "well_known.proto",
        r#"syntax = "proto3";
package test;
import "google/protobuf/timestamp.proto";
import "google/protobuf/any.proto";
import "google/protobuf/struct.proto";
message Config {
 google.protobuf.Timestamp time = 1;
 google.protobuf.Any any = 2;
 google.protobuf.Struct structure = 3;
 double number = 4;
 map<string, google.protobuf.Timestamp> times = 5;
}"#,
    ))
    .include_imports(true)
    .open_file("well_known.proto")
    .unwrap()
    .file_descriptor_set();
    let sets = vec![set.encode_to_vec()];
    let config = match alone(
        r#"project = struct(
    time = struct(seconds = 0),
    any = struct(type_url = "type.googleapis.com/google.protobuf.Timestamp", value = ""),
    structure = struct(fields = {"hello": struct(string_value = "world")}),
    number = float("nan"),
    times = {"first": struct(seconds = 1)},
)
"#,
    ) {
        Ok(j) => j,
        Err(error) => panic!("{}", error.message()),
    };
    assert_eq!(to_value(&config)["number"], "NaN");
    let bytes = codec::encode_config(&sets, "test.Config", &config).ok().unwrap();
    let decoded = codec::decode(&sets, "test.Config", &bytes).ok().unwrap();
    let decoded_value = to_value(&decoded);
    assert_eq!(decoded_value["time"], "1970-01-01T00:00:00Z");
    assert_eq!(decoded_value["structure"], value(r#"{"hello": "world"}"#));
    assert_eq!(decoded_value["any"]["@type"], "type.googleapis.com/google.protobuf.Timestamp");
    assert_eq!(decoded_value["times"]["first"], "1970-01-01T00:00:01Z");
    assert_eq!(decoded_value["number"], "NaN");
    let text = codec::encode_config_text(&sets, "test.Config", &config).ok().unwrap();
    let read = codec::decode_text(&sets, "test.Config", &text).ok().unwrap();
    assert_eq!(to_value(&read), decoded_value);
    let again = codec::encode(&sets, "test.Config", &decoded).ok().unwrap();
    let read = codec::decode(&sets, "test.Config", &again).ok().unwrap();
    assert_eq!(to_value(&read), decoded_value);
    let scalar = match alone("project = {'seconds': 0}\n") {
        Ok(j) => j,
        Err(error) => panic!("{}", error.message()),
    };
    let bytes = codec::encode_config(&sets, "google.protobuf.Timestamp", &scalar).ok().unwrap();
    let read = codec::decode(&sets, "google.protobuf.Timestamp", &bytes).ok().unwrap();
    assert_eq!(to_value(&read), "1970-01-01T00:00:00Z");
}

/// What a module exports as `project`.
fn exported(source: &str) -> OwnedFrozenValue {
    let ast = AstModule::parse("demo.scl", source.to_owned(), &Dialect::Standard).unwrap();
    let globals = Globals::extended_by(&[LibraryExtension::StructType]);
    let module = Module::with_temp_heap(|module| {
        let mut eval = Evaluator::new(&module);
        eval.eval_module(ast, &globals).unwrap();
        drop(eval);
        module.freeze().unwrap()
    });
    module.get("project").unwrap()
}

/// What a value is converted to, or the error, and how many more values may be converted.
fn converted(source: &str, depth: usize, remaining: usize) -> (Result<Value, String>, usize) {
    let mut left = remaining;
    let r = to_json(&exported(source), depth, &mut left);
    (r.map(|j| to_value(&j)).map_err(|e| e.message()), left)
}

const TOO_MANY: &str =
    "convert Starlark configuration to JSON: configuration exceeds one million JSON values";
const TOO_DEEP: &str =
    "convert Starlark configuration to JSON: configuration nesting exceeds 64 levels (or contains a cycle)";

#[test]
fn each_value_counts_once() {
    let source = "project = [1, [2, 3], {\"a\": (None,)}]";
    let want = value(r#"[1, [2, 3], {"a": [null]}]"#);
    assert_eq!(converted(source, 0, 8), (Ok(want.clone()), 0));
    assert_eq!(converted(source, 0, 10), (Ok(want), 2));
    for remaining in 0..8 {
        assert_eq!(converted(source, 0, remaining), (Err(TOO_MANY.to_owned()), 0));
    }
    assert_eq!(converted("x = [1, 2]\nproject = [x, x]", 0, 7).1, 0);
}

#[test]
fn depth_and_height_are_limited_together() {
    assert_eq!(converted("project = 1", 64, 5), (Ok(value("1")), 4));
    assert_eq!(converted("project = 1", 65, 5), (Err(TOO_DEEP.to_owned()), 4));
    assert_eq!(converted("project = 1", usize::MAX, 5), (Err(TOO_DEEP.to_owned()), 4));
    assert_eq!(converted("project = []", 64, 5), (Ok(value("[]")), 4));
    assert_eq!(converted("project = [[]]", 64, 5), (Err(TOO_DEEP.to_owned()), 3));
    assert_eq!(converted("project = [1]", 63, 5), (Ok(value("[1]")), 3));
    assert_eq!(converted("project = 1", 65, 0), (Err(TOO_MANY.to_owned()), 0));
}

#[test]
fn keys_must_be_allowed_and_distinct_as_names() {
    let failed = |source: &str| converted(source, 0, 100).0.unwrap_err();
    let collides = |key: &str| {
        format!("convert Starlark configuration to JSON: map keys collide after JSON conversion: {key:?}")
    };
    assert_eq!(failed("project = {1: \"a\", \"1\": \"b\"}"), collides("1"));
    assert_eq!(failed("project = {True: 1, \"true\": 2}"), collides("true"));
    assert_eq!(
        failed("project = {None: 1}"),
        "convert Starlark configuration to JSON: protobuf map keys must be strings, integers, or booleans"
    );
    assert_eq!(
        converted("project = {2: \"a\", True: None, \"x\": [1]}", 0, 100).0,
        Ok(value(r#"{"2": "a", "true": null, "x": [1]}"#))
    );
}

#[test]
fn tuples_are_lists_and_structs_are_dictionaries() {
    let shown = |source: &str| converted(source, 3, 100);
    assert_eq!(shown("project = (1, [2], \"x\")"), shown("project = [1, (2,), \"x\"]"));
    assert_eq!(
        shown("project = struct(b = 1, a = struct(c = None))"),
        shown("project = {\"b\": 1, \"a\": {\"c\": None}}")
    );
    assert!(shown("def project(): pass").0.is_err());
    assert!(shown("project = range(3)").0.is_err());
}
