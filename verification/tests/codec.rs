use prost::Message;
use protolark::codec;
use protolark::error::CodecError;
use protolark::json::Json;
use serde_json::Value;

/// Protobuf sources that are held in memory, beside those of Google.
struct Sources(Vec<(&'static str, &'static str)>);

impl protox::file::FileResolver for Sources {
    fn resolve_path(&self, path: &std::path::Path) -> Option<String> {
        path.to_str().map(str::to_owned)
    }

    fn open_file(&self, name: &str) -> Result<protox::file::File, protox::Error> {
        for (file, source) in &self.0 {
            if *file == name {
                return protox::file::File::from_source(file, source);
            }
        }
        protox::file::GoogleFileResolver::new().open_file(name)
    }
}

fn compile(name: &'static str, source: &'static str) -> prost_types::FileDescriptorSet {
    protox::Compiler::with_file_resolver(Sources(vec![(name, source)]))
        .include_imports(true)
        .include_source_info(true)
        .open_file(name)
        .unwrap()
        .file_descriptor_set()
}

fn sets(name: &'static str, source: &'static str) -> Vec<Vec<u8>> {
    vec![compile(name, source).encode_to_vec()]
}

fn json(text: &str) -> Json {
    from_value(&serde_json::from_str(text).unwrap())
}

fn from_value(v: &Value) -> Json {
    match v {
        Value::Null => Json::Null,
        Value::Bool(b) => Json::Bool(*b),
        Value::Number(n) => Json::Number(n.clone()),
        Value::String(s) => Json::Text(s.clone()),
        Value::Array(a) => Json::Array(a.iter().map(from_value).collect()),
        Value::Object(o) => {
            Json::Object(o.iter().map(|(k, v)| (k.clone(), from_value(v))).collect())
        }
    }
}

fn to_value(j: &Json) -> Value {
    match j {
        Json::Null => Value::Null,
        Json::Bool(b) => Value::Bool(*b),
        Json::Number(n) => Value::Number(n.clone()),
        Json::Text(s) => Value::String(s.clone()),
        Json::Array(a) => Value::Array(a.iter().map(to_value).collect()),
        Json::Object(o) => Value::Object(o.iter().map(|(k, v)| (k.clone(), to_value(v))).collect()),
    }
}

fn value(text: &str) -> Value {
    serde_json::from_str(text).unwrap()
}

fn ok<T>(r: Result<T, CodecError>) -> T {
    match r {
        Ok(x) => x,
        Err(e) => panic!("{}", e.message()),
    }
}

fn failure<T>(r: Result<T, CodecError>) -> String {
    match r {
        Ok(_) => panic!("accepted"),
        Err(e) => e.message(),
    }
}

fn decoded(sets: &Vec<Vec<u8>>, name: &str, bytes: &[u8]) -> Value {
    to_value(&ok(codec::decode(sets, name, bytes)))
}

fn decoded_text(sets: &Vec<Vec<u8>>, name: &str, text: &str) -> Value {
    to_value(&ok(codec::decode_text(sets, name, text)))
}

const TEST_PROTO: &str = r#"syntax = "proto2";
package test;
message Child { required string name = 1; }
message Config {
 required string name = 1;
 optional uint64 count = 2;
 repeated Child children = 3;
 map<int32, string> labels = 4;
 optional bytes data = 5;
 oneof choice { string first = 6; int32 second = 7; }
 optional bool enabled = 8;
 optional Child child = 9;
}"#;

fn fixture() -> Vec<Vec<u8>> {
    sets("test.proto", TEST_PROTO)
}

fn wkt_fixture() -> Vec<Vec<u8>> {
    sets(
        "wkts.proto",
        r#"syntax = "proto3";
package wkttest;
import "google/protobuf/timestamp.proto";
import "google/protobuf/duration.proto";
import "google/protobuf/struct.proto";
import "google/protobuf/field_mask.proto";
import "google/protobuf/wrappers.proto";
import "google/protobuf/empty.proto";
import "google/protobuf/any.proto";
message Config {
 google.protobuf.Timestamp time = 1;
 google.protobuf.Duration duration = 2;
 google.protobuf.Value value = 3;
 repeated google.protobuf.Timestamp times = 4;
 map<string, google.protobuf.Duration> durations = 5;
 google.protobuf.Struct structure = 6;
 google.protobuf.ListValue list = 7;
 google.protobuf.FieldMask mask = 8;
 google.protobuf.BoolValue enabled = 9;
 google.protobuf.Int64Value count = 10;
 google.protobuf.Empty empty = 11;
 google.protobuf.Any any = 12;
}"#,
    )
}

#[test]
fn config_binary_and_text_roundtrip() {
    let sets = fixture();
    let config = json(
        r#"{"name":"example","count":18446744073709551615,"children":[{"name":"one"},{"name":"two"}],"labels":{"1":"a","2":"b"},"data":"AAEC","enabled":true}"#,
    );
    let bytes = ok(codec::encode(&sets, "test.Config", &config));
    let shown = decoded(&sets, "test.Config", &bytes);
    assert_eq!(shown["count"], u64::MAX.to_string());
    assert_eq!(shown["children"][1]["name"], "two");
    assert_eq!(shown["labels"]["1"], "a");
    assert_eq!(shown["data"], "AAEC");
    let text = ok(codec::encode_text(&sets, "test.Config", &config));
    assert_eq!(decoded_text(&sets, "test.Config", &text), shown);
}

#[test]
fn invalid_fields_types_required_and_oneof_are_rejected() {
    let sets = fixture();
    for invalid in [
        r#"{"name":"ok","unknown":1}"#,
        r#"{"name":1}"#,
        r#"{}"#,
        r#"{"name":"ok","child":{}}"#,
        r#"{"name":"ok","first":"a","second":1}"#,
    ] {
        assert!(
            codec::encode(&sets, "test.Config", &json(invalid)).is_err(),
            "accepted {invalid}"
        );
    }
    assert!(codec::decode(&sets, "test.Missing", &[]).is_err());
    assert!(codec::decode(&sets, "test.Config", &[]).is_err());
}

#[test]
fn maps_have_deterministic_wire_and_text_encoding() {
    let sets = fixture();
    let value = json(
        r#"{"name":"ok","labels":{"1":"a","0":"zero","-1":"negative","32":"b","4":"c"}}"#,
    );
    let expected = ok(codec::encode(&sets, "test.Config", &value));
    let expected_text = ok(codec::encode_text(&sets, "test.Config", &value));
    for _ in 0..20 {
        assert_eq!(ok(codec::encode(&sets, "test.Config", &value)), expected);
        assert_eq!(ok(codec::encode_config(&sets, "test.Config", &value)), expected);
        assert_eq!(ok(codec::encode_text(&sets, "test.Config", &value)), expected_text);
        assert_eq!(
            ok(codec::encode_config_text(&sets, "test.Config", &value)),
            expected_text
        );
    }
}

#[test]
fn map_entries_are_written_in_the_order_of_their_key_texts() {
    let sets = fixture();
    let value = json(r#"{"name":"n","labels":{"1":"a","0":"z","-1":"m","4":"c","32":"b"}}"#);
    let bytes = ok(codec::encode(&sets, "test.Config", &value));
    let mut expected: Vec<u8> = vec![0x0a, 0x01, b'n'];
    for (key, text) in [(-1i64, b'm'), (0, b'z'), (1, b'a'), (32, b'b'), (4, b'c')] {
        let mut entry: Vec<u8> = vec![0x08];
        prost::encoding::encode_varint(key as u64, &mut entry);
        entry.extend_from_slice(&[0x12, 0x01, text]);
        expected.push(0x22);
        expected.push(entry.len() as u8);
        expected.extend_from_slice(&entry);
    }
    assert_eq!(bytes, expected);
}

#[test]
fn protojson_any_payload_maps_are_deterministic_but_structural_bytes_are_preserved() {
    let sets = sets(
        "any_maps.proto",
        r#"syntax = "proto3";
package test;
import "google/protobuf/any.proto";
message Payload { map<string, int32> values = 1; google.protobuf.Any nested = 2; }
message Config { google.protobuf.Any payload = 1; }
"#,
    );
    let source = r#"{"payload":{"@type":"type.googleapis.com/test.Payload","values":{"a":1,"b":2,"c":3,"d":4},"nested":{"@type":"type.googleapis.com/test.Payload","values":{"z":1,"y":2,"x":3,"w":4}}}}"#;
    let config = json(source);
    let expected = ok(codec::encode(&sets, "test.Config", &config));
    let expected_text = ok(codec::encode_text(&sets, "test.Config", &config));
    for _ in 0..20 {
        assert_eq!(ok(codec::encode(&sets, "test.Config", &config)), expected);
        assert_eq!(ok(codec::encode_text(&sets, "test.Config", &config)), expected_text);
    }
    assert_eq!(decoded(&sets, "test.Config", &expected), value(source));
    // An empty payload with an unknown wire field: the bytes that are given stay as they are,
    // and need no type that can be resolved.
    let structural = json(r#"{"type_url":"type.googleapis.com/unknown.Payload","value":"GAc="}"#);
    let encoded = ok(codec::encode_config(&sets, "google.protobuf.Any", &structural));
    let pool = prost_reflect::DescriptorPool::decode(sets[0].as_slice()).unwrap();
    let message = prost_reflect::DynamicMessage::decode(
        pool.get_message_by_name("google.protobuf.Any").unwrap(),
        encoded.as_slice(),
    )
    .unwrap();
    assert_eq!(
        message.get_field_by_name("value").unwrap().as_bytes().unwrap().as_ref(),
        &[0x18, 0x07]
    );
}

#[test]
fn structural_maps_reject_null_scalar_and_message_values() {
    let test_sets = fixture();
    let message = failure(codec::encode_config(
        &test_sets,
        "test.Config",
        &json(r#"{"name":"ok","labels":{"1":null}}"#),
    ));
    assert_eq!(
        message,
        "protobuf map test.Config.labels[\"1\"] cannot contain a null value"
    );
    let sets = sets(
        "map_message.proto",
        r#"syntax = "proto2";
package maptest;
message Child { required string name = 1; }
message Config { map<string, Child> children = 1; }
"#,
    );
    assert!(codec::encode_config(&sets, "maptest.Config", &json(r#"{"children":{"a":null}}"#)).is_err());
    assert!(codec::encode_config(&sets, "maptest.Config", &json(r#"{"children":{"a":{}}}"#)).is_err());
    let source = r#"{"children":{"a":{"name":"ok"}}}"#;
    let bytes = ok(codec::encode_config(&sets, "maptest.Config", &json(source)));
    assert_eq!(decoded(&sets, "maptest.Config", &bytes), value(source));
}

#[test]
fn structural_fields_are_not_confused_with_json_aliases() {
    let sets = sets(
        "aliases.proto",
        r#"syntax = "proto3";
package test;
message Config {
 string first = 1 [json_name = "second"];
 string second = 2 [json_name = "other"];
 Config child = 3;
 map<string, Config> children = 4;
}"#,
    );
    let source = r#"{"first":"one","second":"two","child":{"first":"one","second":"two"},"children":{"key":{"first":"one","second":"two"}}}"#;
    let binary = ok(codec::encode_config(&sets, "test.Config", &json(source)));
    assert_eq!(decoded(&sets, "test.Config", &binary), value(source));
    let text = ok(codec::encode_config_text(&sets, "test.Config", &json(source)));
    assert_eq!(decoded_text(&sets, "test.Config", &text), value(source));
    assert_eq!(
        failure(codec::encode_config(
            &sets,
            "test.Config",
            &json(r#"{"second":"one","other":"two"}"#)
        )),
        "duplicate protobuf field test.Config.second"
    );
}

#[test]
fn extensions_preserve_names_validate_children_and_sort_maps() {
    let sets = sets(
        "extensions.proto",
        r#"syntax = "proto2";
package test;
import "google/protobuf/any.proto";
message Child { required string name = 1; map<string, int32> counts = 2; }
message Config { extensions 100 to max; }
extend Config { optional Child extra = 100; optional google.protobuf.Any payload = 101; }
"#,
    );
    let source = r#"{"[test.extra]":{"name":"ok","counts":{"a":1,"b":2,"c":3,"d":4}},"[test.payload]":{"@type":"type.googleapis.com/test.Child","name":"any","counts":{"a":1,"b":2,"c":3,"d":4}}}"#;
    let config = json(source);
    let bytes = ok(codec::encode(&sets, "test.Config", &config));
    let text = ok(codec::encode_text(&sets, "test.Config", &config));
    assert_eq!(decoded(&sets, "test.Config", &bytes), value(source));
    assert_eq!(decoded_text(&sets, "test.Config", &text), value(source));
    for _ in 0..20 {
        assert_eq!(ok(codec::encode(&sets, "test.Config", &config)), bytes);
        assert_eq!(ok(codec::encode_text(&sets, "test.Config", &config)), text);
    }
    assert_eq!(
        failure(codec::encode(&sets, "test.Config", &json(r#"{"[test.extra]":{}}"#))),
        "missing required protobuf field test.Config.[test.extra].name"
    );
    assert!(codec::decode_text(&sets, "test.Config", "[test.extra] {}").is_err());
    // Wire field 100 is an empty embedded Child, which lacks its required name.
    assert!(codec::decode(&sets, "test.Config", &[0xa2, 0x06, 0x00]).is_err());
}

#[test]
fn well_known_semantics_are_checked_before_structural_encoding() {
    let sets = wkt_fixture();
    for (name, config, error) in [
        ("Timestamp", r#"{"seconds": -62135596801}"#, "seconds"),
        ("Timestamp", r#"{"seconds": 253402300800}"#, "seconds"),
        ("Timestamp", r#"{"nanos": -1}"#, "nanos"),
        ("Timestamp", r#"{"nanos": 1000000000}"#, "nanos"),
        ("Duration", r#"{"seconds": -315576000001}"#, "seconds"),
        ("Duration", r#"{"seconds": 315576000001}"#, "seconds"),
        ("Duration", r#"{"nanos": -1000000000}"#, "nanos"),
        ("Duration", r#"{"nanos": 1000000000}"#, "nanos"),
        ("Duration", r#"{"seconds": 1, "nanos": -1}"#, "signs"),
        ("Duration", r#"{"seconds": -1, "nanos": 1}"#, "signs"),
        ("Value", r#"{}"#, "kind"),
        ("Value", r#"{"number_value": "NaN"}"#, "finite"),
        ("Value", r#"{"number_value": "Infinity"}"#, "finite"),
        ("Value", r#"{"number_value": "-Infinity"}"#, "finite"),
    ] {
        let name = format!("google.protobuf.{name}");
        for result in [
            codec::encode_config(&sets, &name, &json(config)).map(|_| ()),
            codec::encode_config_text(&sets, &name, &json(config)).map(|_| ()),
        ] {
            let message = failure(result);
            assert!(message.contains(error), "{name}: {config}: {message}");
        }
    }
    // Validation cannot rely on callers using a generated constructor, and must
    // traverse ordinary messages, repeated fields, maps and nested JSON values.
    for (config, path) in [
        (r#"{"time":{"nanos":-1}}"#, "wkttest.Config.time.nanos"),
        (r#"{"times":[{"nanos":-1}]}"#, "wkttest.Config.times[0].nanos"),
        (
            r#"{"durations":{"bad":{"seconds":1,"nanos":-1}}}"#,
            "wkttest.Config.durations",
        ),
        (
            r#"{"structure":{"fields":{"bad":{}}}}"#,
            "wkttest.Config.structure.fields",
        ),
        (r#"{"list":{"values":[{}]}}"#, "wkttest.Config.list.values[0]"),
    ] {
        let error = failure(codec::encode_config(&sets, "wkttest.Config", &json(config)));
        assert!(error.contains(path), "{error}");
    }
}

#[test]
fn malformed_well_known_wire_and_text_are_rejected() {
    let sets = wkt_fixture();
    for (name, bytes, text) in [
        (
            "Timestamp",
            prost_types::Timestamp { seconds: 0, nanos: -1 }.encode_to_vec(),
            "nanos: -1",
        ),
        (
            "Duration",
            prost_types::Duration { seconds: 1, nanos: -1 }.encode_to_vec(),
            "seconds: 1 nanos: -1",
        ),
        ("Value", Vec::new(), ""),
    ] {
        let name = format!("google.protobuf.{name}");
        assert!(codec::decode(&sets, &name, &bytes).is_err(), "{name}");
        assert!(codec::decode_text(&sets, &name, text).is_err(), "{name}");
    }
}

#[test]
fn well_known_boundaries_and_json_mappings_roundtrip() {
    let sets = wkt_fixture();
    for (name, structural, expected) in [
        ("Timestamp", r#"{"seconds":-62135596800}"#, r#""0001-01-01T00:00:00Z""#),
        (
            "Timestamp",
            r#"{"seconds":253402300799,"nanos":999999999}"#,
            r#""9999-12-31T23:59:59.999999999Z""#,
        ),
        (
            "Timestamp",
            r#"{"seconds":-1,"nanos":1}"#,
            r#""1969-12-31T23:59:59.000000001Z""#,
        ),
        (
            "Duration",
            r#"{"seconds":-315576000000,"nanos":-999999999}"#,
            r#""-315576000000.999999999s""#,
        ),
        (
            "Duration",
            r#"{"seconds":315576000000,"nanos":999999999}"#,
            r#""315576000000.999999999s""#,
        ),
        ("Duration", r#"{"nanos":-1}"#, r#""-0.000000001s""#),
        ("Duration", r#"{}"#, r#""0s""#),
        ("Value", r#"{"null_value":0}"#, r#"null"#),
        ("Value", r#"{"bool_value":false}"#, r#"false"#),
        ("Value", r#"{"string_value":""}"#, r#""""#),
        ("Struct", r#"{"fields":{"x":{"null_value":0}}}"#, r#"{"x":null}"#),
        (
            "ListValue",
            r#"{"values":[{"bool_value":true},{"null_value":0}]}"#,
            r#"[true, null]"#,
        ),
        ("FieldMask", r#"{"paths":["foo_bar.baz","name"]}"#, r#""fooBar.baz,name""#),
        ("BoolValue", r#"{"value":false}"#, r#"false"#),
        (
            "Int64Value",
            r#"{"value":9223372036854775807}"#,
            r#""9223372036854775807""#,
        ),
        ("BytesValue", r#"{"value":"AAE="}"#, r#""AAE=""#),
        ("Empty", r#"{}"#, r#"{}"#),
    ] {
        let name = format!("google.protobuf.{name}");
        let wire = ok(codec::encode_config(&sets, &name, &json(structural)));
        assert_eq!(decoded(&sets, &name, &wire), value(expected), "{name}");
        let text = ok(codec::encode_config_text(&sets, &name, &json(structural)));
        assert_eq!(decoded_text(&sets, &name, &text), value(expected), "{name}");
        let json_wire = ok(codec::encode(&sets, &name, &json(expected)));
        assert_eq!(wire, json_wire, "{name}");
    }
    // A present wrapper containing its default differs from an omitted wrapper.
    let missing = ok(codec::encode_config(&sets, "wkttest.Config", &json("{}")));
    let present = ok(codec::encode_config(
        &sets,
        "wkttest.Config",
        &json(r#"{"enabled":{"value":false}}"#),
    ));
    assert_ne!(missing, present);
    assert_eq!(
        decoded(&sets, "wkttest.Config", &present),
        value(r#"{"enabled":false}"#)
    );
}

fn demo(source: &'static str) -> Vec<u8> {
    compile("demo.proto", source).encode_to_vec()
}

const DEMO: &str = r#"syntax = "proto3";
package demo;
message Item { map<bool, int32> flags = 1; Item next = 2; repeated Item items = 3; string text = 4 [json_name = "words"]; }
"#;

#[test]
fn schemas_that_cannot_be_used_are_refused() {
    assert_eq!(
        failure(codec::decode(&vec![], "demo.Item", &[])),
        "at least one descriptor set is required"
    );
    let good = demo(DEMO);
    assert!(failure(codec::decode(&vec![good.clone(), vec![0xff]], "demo.Item", &[]))
        .starts_with("parse descriptor set 1: "));
    assert_eq!(
        failure(codec::decode(&vec![good.clone()], "demo.Missing", &[])),
        "message \"demo.Missing\" not found in descriptor sets"
    );
    let other = demo("syntax = \"proto3\";\npackage demo;\nmessage Item {}\n");
    assert_eq!(
        failure(codec::decode(&vec![good.clone(), other], "demo.Item", &[])),
        "conflicting descriptors for demo.proto"
    );
    let mut lonely = compile(
        "demo.proto",
        "syntax = \"proto3\";\nimport \"google/protobuf/any.proto\";\nmessage A { google.protobuf.Any any = 1; }\n",
    );
    lonely.file.retain(|f| f.name() == "demo.proto");
    assert!(failure(codec::decode(&vec![lonely.encode_to_vec()], "A", &[]))
        .starts_with("resolve protobuf schema (descriptor sets must hold their imports): "));
}

#[test]
fn the_order_of_descriptor_sets_does_not_matter() {
    let set = compile(
        "demo.proto",
        "syntax = \"proto3\";\npackage demo;\nimport \"google/protobuf/timestamp.proto\";\nmessage A { google.protobuf.Timestamp at = 1; }\n",
    );
    let mut parts: Vec<Vec<u8>> = Vec::new();
    for file in set.file {
        parts.push(prost_types::FileDescriptorSet { file: vec![file] }.encode_to_vec());
    }
    let input = json(r#"{"at": "1970-01-01T00:00:01Z"}"#);
    let bytes = ok(codec::encode(&parts, "demo.A", &input));
    assert_eq!(bytes, [0x0a, 2, 8, 1]);
    parts.reverse();
    assert_eq!(ok(codec::encode(&parts, "demo.A", &input)), bytes);
    parts.push(parts[0].clone());
    assert_eq!(decoded(&parts, "demo.A", &bytes), to_value(&input));
}

#[test]
fn source_locations_are_not_part_of_a_schema() {
    let mut bare = compile("demo.proto", DEMO);
    assert!(bare.file[0].source_code_info.is_some());
    let full = bare.encode_to_vec();
    bare.file[0].source_code_info = None;
    let both = vec![full, bare.encode_to_vec()];
    assert_eq!(decoded(&both, "demo.Item", &[]), value("{}"));
}

#[test]
fn dots_in_front_of_a_type_do_not_matter() {
    let sets = vec![demo(DEMO)];
    assert_eq!(decoded(&sets, "..demo.Item", &[0x22, 1, b'x']), value(r#"{"text": "x"}"#));
}

#[test]
fn configurations_that_do_not_fit_are_refused() {
    let sets = vec![demo(DEMO)];
    let refused = |text: &str| failure(codec::encode_config(&sets, "demo.Item", &json(text)));
    assert_eq!(refused(r#"{"none": 1}"#), "unknown protobuf field demo.Item.none");
    assert_eq!(
        refused(r#"{"next": {"items": [{"none": 1}]}}"#),
        "unknown protobuf field demo.Item.none"
    );
    assert_eq!(refused(r#"{"flags": [1]}"#), "demo.Item.flags must be a map");
    assert_eq!(
        refused(r#"{"flags": {"true": null}}"#),
        "protobuf map demo.Item.flags[\"true\"] cannot contain a null value"
    );
    assert!(refused(r#"{"flags": {"yes": 1}}"#)
        .starts_with("protobuf boolean map key must be true or false: "));
    assert_eq!(
        refused(r#"{"text": "a", "words": "b"}"#),
        "duplicate protobuf field demo.Item.text"
    );
    assert!(refused(r#"{"text": 1}"#)
        .starts_with("invalid structural protobuf configuration for demo.Item: "));
    assert!(refused("[]").starts_with("invalid structural protobuf configuration for demo.Item: "));
}

#[test]
fn configurations_are_written_with_declared_fields_only() {
    let sets = vec![demo(DEMO)];
    let input = json(r#"{"flags": {"true": 1, "false": 2}, "words": "x", "next": null}"#);
    let bytes = ok(codec::encode_config(&sets, "demo.Item", &input));
    assert_eq!(bytes, [0x0a, 2, 16, 2, 0x0a, 4, 8, 1, 16, 1, 0x22, 1, b'x']);
    assert_eq!(
        decoded(&sets, "demo.Item", &bytes),
        value(r#"{"flags": {"true": 1, "false": 2}, "text": "x"}"#)
    );
    assert_eq!(
        ok(codec::encode_config_text(&sets, "demo.Item", &input)),
        r#"flags:[{value:2},{key:true,value:1}],text:"x""#
    );
}

#[test]
fn input_that_cannot_be_read_is_refused() {
    let sets = vec![demo(DEMO)];
    assert!(failure(codec::encode(&sets, "demo.Item", &json("1")))
        .starts_with("invalid protobuf JSON for demo.Item: "));
    assert!(failure(codec::decode(&sets, "demo.Item", &[0xff]))
        .starts_with("decode protobuf demo.Item: "));
    assert!(failure(codec::decode_text(&sets, "demo.Item", "none: 1"))
        .starts_with("parse text protobuf demo.Item: "));
}

#[test]
fn unknown_wire_fields_are_accepted_and_left_out() {
    let sets = vec![demo(DEMO)];
    // Field 9, a varint, beside field 4 and in the message of field 2.
    let wire = [0x22, 1, b'x', 0x48, 7, 0x12, 2, 0x48, 1];
    assert_eq!(decoded(&sets, "demo.Item", &wire), value(r#"{"next": {}, "text": "x"}"#));
}

#[test]
fn payloads_that_cannot_be_read_are_refused() {
    let sets = sets(
        "demo.proto",
        "syntax = \"proto3\";\nimport \"google/protobuf/any.proto\";\nmessage A { google.protobuf.Any any = 1; }\n",
    );
    assert!(failure(codec::encode(
        &sets,
        "A",
        &json(r#"{"any": {"@type": "type.googleapis.com/none.B"}}"#)
    ))
    .starts_with("invalid protobuf JSON for A: "));
    // An Any of type A whose value is not one: it can be read, but not shown.
    let mut wire = vec![0x0a, 28, 0x0a, 23];
    wire.extend_from_slice(b"type.googleapis.com/A.B");
    wire.extend_from_slice(&[0x12, 1, 0xff]);
    assert!(failure(codec::decode(&sets, "A", &wire)).starts_with("serialize protobuf JSON: "));
}

#[test]
fn payloads_nest_at_most_64_levels() {
    let sets = sets(
        "demo.proto",
        "syntax = \"proto3\";\nimport \"google/protobuf/any.proto\";\nmessage A { google.protobuf.Any any = 1; }\n",
    );
    let nested = |n: usize| {
        let mut text = "{}".to_owned();
        for _ in 0..n {
            let inner = text.trim_start_matches('{').to_owned();
            let comma = if inner == "}" { "" } else { "," };
            text = format!("{{\"any\":{{\"@type\":\"type.googleapis.com/A\"{comma}{inner}}}");
        }
        text
    };
    assert_eq!(
        decoded(
            &sets,
            "A",
            &ok(codec::encode(&sets, "A", &json(&nested(3))))
        ),
        value(&nested(3))
    );
    // Each payload is two levels: the Any, and the message in it.
    assert!(codec::encode(&sets, "A", &json(&nested(32))).is_ok());
    assert_eq!(
        failure(codec::encode(&sets, "A", &json(&nested(33)))),
        "embedded Any nesting exceeds 64 levels"
    );
}

#[test]
fn nesting_is_limited() {
    let sets = vec![demo(DEMO)];
    let nested = |n: usize| {
        let mut j = json("{}");
        for _ in 0..n {
            j = Json::Object(vec![("next".to_owned(), j)]);
        }
        j
    };
    let bytes = ok(codec::encode(&sets, "demo.Item", &nested(64)));
    assert!(codec::decode(&sets, "demo.Item", &bytes).is_ok());
    assert_eq!(
        failure(codec::encode(&sets, "demo.Item", &nested(65))),
        "embedded Any nesting exceeds 64 levels"
    );
    // A configuration is written, but what is nested too deep cannot be read.
    let bytes = ok(codec::encode_config(&sets, "demo.Item", &nested(99)));
    assert_eq!(ok(codec::encode_config(&sets, "demo.Item", &nested(0))).len(), 0);
    assert!(codec::decode(&sets, "demo.Item", &bytes).is_ok());
    let bytes = ok(codec::encode_config(&sets, "demo.Item", &nested(110)));
    assert!(codec::decode(&sets, "demo.Item", &bytes).is_err());
}

#[test]
fn empty_maps_and_defaults_are_not_written() {
    let sets = vec![demo(DEMO)];
    let input = json(r#"{"flags": {}, "items": [], "text": ""}"#);
    assert!(ok(codec::encode(&sets, "demo.Item", &input)).is_empty());
    assert!(ok(codec::encode_config(&sets, "demo.Item", &input)).is_empty());
    assert_eq!(ok(codec::encode_text(&sets, "demo.Item", &input)), "");
}

#[test]
fn malformed_map_entries_and_open_options_are_refused() {
    let words = "descriptors declare what cannot be read";
    let refused = |change: &dyn Fn(&mut prost_types::DescriptorProto)| {
        let mut set = compile("demo.proto", DEMO);
        change(&mut set.file[0].message_type[0]);
        failure(codec::decode(&vec![set.encode_to_vec()], "demo.Item", &[]))
    };
    assert_eq!(refused(&|m| m.nested_type[0].field.clear()), words);
    assert_eq!(
        refused(&|m| {
            m.nested_type[0].field.pop();
        }),
        words
    );
    assert_eq!(refused(&|m| m.nested_type[0].field[0].set_type(
        prost_types::field_descriptor_proto::Type::Double
    )), words);
    assert_eq!(
        refused(&|m| {
            m.options = Some(prost_types::MessageOptions {
                uninterpreted_option: vec![uninterpreted(&["map_entry"], None)],
                ..Default::default()
            });
        }),
        words
    );
    assert_eq!(
        refused(&|m| {
            let key = &mut m.nested_type[0].field[0];
            key.set_type(prost_types::field_descriptor_proto::Type::String);
            let mut bytes = key.encode_to_vec();
            bytes.extend([0x32, 10]);
            bytes.extend(b".demo.Item");
            *key = prost_types::FieldDescriptorProto::decode(bytes.as_slice()).unwrap();
        }),
        words
    );
}

fn uninterpreted(name: &[&str], aggregate: Option<&str>) -> prost_types::UninterpretedOption {
    let mut option = prost_types::UninterpretedOption::default();
    for part in name {
        option.name.push(prost_types::uninterpreted_option::NamePart {
            name_part: (*part).to_owned(),
            is_extension: false,
        });
    }
    match aggregate {
        Some(text) => option.aggregate_value = Some(text.to_owned()),
        None => option.identifier_value = Some("true".to_owned()),
    }
    option
}

#[test]
fn options_that_are_not_interpreted_yet_are_read() {
    let with = |option: prost_types::UninterpretedOption| {
        let mut set = compile("demo.proto", DEMO);
        set.file[0].message_type[0].options = Some(prost_types::MessageOptions {
            uninterpreted_option: vec![option],
            ..Default::default()
        });
        codec::encode(
            &vec![set.encode_to_vec()],
            "demo.Item",
            &json(r#"{"flags": {"true": 1}}"#),
        )
    };
    assert_eq!(ok(with(uninterpreted(&["deprecated"], None))), [10, 4, 8, 1, 16, 1]);
    let words = "descriptors declare what cannot be read";
    assert_eq!(failure(with(uninterpreted(&["features"], Some("")))), words);
    assert_eq!(failure(with(uninterpreted(&["a"; 33], None))), words);
}

#[test]
fn files_are_compared_by_their_numbers() {
    let with = |number: f64| {
        let mut option = uninterpreted(&["deprecated"], None);
        option.double_value = Some(number);
        let mut set = compile("demo.proto", DEMO);
        set.file[0].message_type[0].options = Some(prost_types::MessageOptions {
            uninterpreted_option: vec![option],
            ..Default::default()
        });
        set.encode_to_vec()
    };
    let words = "conflicting descriptors for demo.proto";
    let both = |a: f64, b: f64| codec::decode(&vec![with(a), with(b)], "demo.Item", &[]);
    ok(both(0.5, 0.5));
    ok(both(0.0, -0.0));
    assert_eq!(failure(both(0.5, 1.0)), words);
    assert_eq!(failure(both(f64::NAN, f64::NAN)), words);
    assert_eq!(failure(both(-f64::NAN, 0.0)), words);
}

#[test]
fn files_that_the_library_cannot_take_are_refused() {
    let words = "descriptors declare what cannot be read";
    let refused = |change: &dyn Fn(&mut prost_types::FileDescriptorProto)| {
        let mut set = compile("demo.proto", DEMO);
        change(&mut set.file[0]);
        failure(codec::decode(&vec![set.encode_to_vec()], "demo.Item", &[]))
    };
    assert_eq!(refused(&|f| f.syntax = Some("editions".to_owned())), words);
    assert_eq!(
        refused(&|f| {
            f.dependency = vec!["demo.proto".to_owned()];
            f.public_dependency = vec![0];
        }),
        words
    );
    let default = |text: &'static str| {
        let mut set = compile(
            "demo.proto",
            "syntax = \"proto2\";\npackage demo;\nmessage A { optional bytes b = 1; }\n",
        );
        set.file[0].message_type[0].field[0].default_value = Some(text.to_owned());
        codec::decode(&vec![set.encode_to_vec()], "demo.A", &[])
    };
    assert_eq!(failure(default("\\777")), words);
    assert_eq!(failure(default("\\xa\u{e9}")), words);
    assert_eq!(to_value(&ok(default("\\377\\x41\\\\777"))), value("{}"));
}

#[test]
fn public_imports_may_follow_each_other() {
    let mut set = compile("demo.proto", DEMO);
    let mut next = |name: &str, of: &str| {
        set.file.push(prost_types::FileDescriptorProto {
            name: Some(name.to_owned()),
            dependency: vec![of.to_owned()],
            public_dependency: vec![0],
            ..Default::default()
        })
    };
    next("a.proto", "demo.proto");
    next("b.proto", "a.proto");
    assert_eq!(decoded(&vec![set.encode_to_vec()], "demo.Item", &[]), value("{}"));
    set.file[0].dependency = vec!["b.proto".to_owned()];
    set.file[0].public_dependency = vec![0];
    assert_eq!(
        failure(codec::decode(&vec![set.encode_to_vec()], "demo.Item", &[])),
        "descriptors declare what cannot be read"
    );
}

const OPTIONS: &str = r#"syntax = "proto2";
package demo;
import "google/protobuf/descriptor.proto";
extend google.protobuf.MessageOptions { optional string tag = 50001; }
message A { option (tag) = "x"; optional int32 n = 1; map<string, int32> m = 2; }"#;

#[test]
fn types_of_options_are_read_where_they_are_declared_as_ever() {
    let sets = sets("options.proto", OPTIONS);
    let source = r#"{"m": {"b": 2, "a": 1}, "n": 3}"#;
    let want = [8, 3, 18, 5, 10, 1, b'a', 16, 1, 18, 5, 10, 1, b'b', 16, 2];
    assert_eq!(ok(codec::encode(&sets, "demo.A", &json(source))), want);
    assert_eq!(ok(codec::encode_config(&sets, "demo.A", &json(source))), want);
    assert_eq!(decoded(&sets, "demo.A", &want), value(source));
}

#[test]
fn types_of_options_that_cannot_be_read_are_refused() {
    let words = "descriptors declare what cannot be read";
    let change = |number: i32, change: &dyn Fn(&mut prost_types::FieldDescriptorProto)| {
        let mut set = compile("options.proto", OPTIONS);
        for file in &mut set.file {
            for m in &mut file.message_type {
                if m.name() == "MessageOptions" {
                    m.field.iter_mut().filter(|f| f.number() == number).for_each(change);
                }
            }
        }
        codec::decode(&vec![set.encode_to_vec()], "demo.A", &[])
    };
    let repeat = |f: &mut prost_types::FieldDescriptorProto| {
        f.set_label(prost_types::field_descriptor_proto::Label::Repeated)
    };
    let retype = |f: &mut prost_types::FieldDescriptorProto| {
        f.set_type(prost_types::field_descriptor_proto::Type::Int32)
    };
    assert_eq!(failure(change(7, &repeat)), words);
    assert_eq!(failure(change(3, &retype)), words);
    assert_eq!(to_value(&ok(change(4, &repeat))), value("{}"));
}

#[test]
fn defaults_are_accepted_with_and_without_presence() {
    let sets = vec![demo(
        "syntax = \"proto2\";\npackage demo;\nmessage A { optional int32 n = 1 [default = 5, deprecated = true]; map<string, double> m = 2; }\n",
    )];
    assert_eq!(decoded(&sets, "demo.A", &[]), value("{}"));
    assert_eq!(decoded(&sets, "demo.A", &[8, 0]), value(r#"{"n": 0}"#));
    assert_eq!(ok(codec::encode(&sets, "demo.A", &json(r#"{"n": 5}"#))), [8, 5]);

    let mut set = compile(
        "demo.proto",
        "syntax = \"proto3\";\npackage demo;\nmessage A { int32 n = 1; }\n",
    );
    set.file[0].message_type[0].field[0].default_value = Some("5".to_owned());
    let sets = vec![set.encode_to_vec()];
    assert_eq!(decoded(&sets, "demo.A", &[]), value("{}"));
    assert_eq!(decoded(&sets, "demo.A", &[8, 0]), value(r#"{"n": 0}"#));
    assert_eq!(decoded(&sets, "demo.A", &[8, 5]), value("{}"));
    assert!(ok(codec::encode(&sets, "demo.A", &json(r#"{"n": 5}"#))).is_empty());
    assert!(ok(codec::encode_config(&sets, "demo.A", &json(r#"{"n": 5}"#))).is_empty());
}

#[test]
fn entries_of_a_map_that_is_a_group_are_not_written() {
    let mut set = compile("demo.proto", DEMO);
    set.file[0].message_type[0].field[0]
        .set_type(prost_types::field_descriptor_proto::Type::Group);
    let sets = vec![set.encode_to_vec()];
    let full = json(r#"{"next": {"flags": {"true": 1}}}"#);
    assert_eq!(
        failure(codec::encode(&sets, "demo.Item", &full)),
        "invalid wire type: LengthDelimited (expected StartGroup)"
    );
    let empty = json(r#"{"next": {"flags": {}}}"#);
    assert_eq!(ok(codec::encode(&sets, "demo.Item", &empty)), [18, 0]);
}

#[test]
fn members_that_are_null_say_nothing() {
    let sets = vec![demo(DEMO)];
    let with = json(
        r#"{"flags": {"true": 1}, "next": {"text": null, "next": null}, "items": [{"flags": null, "text": "a"}], "text": null}"#,
    );
    let without = json(r#"{"flags": {"true": 1}, "next": {}, "items": [{"text": "a"}]}"#);
    let bytes = ok(codec::encode_config(&sets, "demo.Item", &without));
    assert_eq!(bytes, [10, 4, 8, 1, 16, 1, 18, 0, 26, 3, 34, 1, b'a']);
    assert_eq!(ok(codec::encode_config(&sets, "demo.Item", &with)), bytes);
    assert_eq!(
        ok(codec::encode_config_text(&sets, "demo.Item", &with)),
        ok(codec::encode_config_text(&sets, "demo.Item", &without))
    );
}

#[test]
fn a_null_member_is_an_absent_one_in_a_configuration_that_is_refused_too() {
    let sets = vec![demo(DEMO)];
    let refused = |source: &str| failure(codec::encode_config(&sets, "demo.Item", &json(source)));
    assert_eq!(refused(r#"{"next": 1}"#), refused(r#"{"next": 1, "text": null}"#));
    assert_eq!(refused(r#"{"flags": {"x": 1}}"#), refused(r#"{"flags": {"x": 1}, "words": null}"#));
    assert_eq!(refused(r#"{"none": null}"#), "unknown protobuf field demo.Item.none");
}

#[test]
fn extensions_and_numbers_that_are_none_are_read_back_from_text() {
    let sets = sets(
        "extended.proto",
        r#"syntax = "proto2";
package demo;
message A { optional double n = 1; extensions 100 to 200; }
extend A { optional double more = 100; }"#,
    );
    let source = json(r#"{"n": "NaN", "[demo.more]": "NaN"}"#);
    let text = ok(codec::encode_text(&sets, "demo.A", &source));
    assert_eq!(text, "n:NaN,[demo.more]:NaN");
    assert_eq!(to_value(&ok(codec::decode_text(&sets, "demo.A", &text))), to_value(&source));
}

#[test]
fn entries_are_sorted_by_the_field_named_key() {
    let mut set = compile(
        "demo.proto",
        "syntax = \"proto3\";\npackage demo;\nmessage A { map<int32, int32> m = 1; }\n",
    );
    let entry = &mut set.file[0].message_type[0].nested_type[0];
    entry.field[0].name = Some("value".to_owned());
    entry.field[0].json_name = Some("value".to_owned());
    entry.field[1].name = Some("key".to_owned());
    entry.field[1].json_name = Some("key".to_owned());
    let sets = vec![set.encode_to_vec()];
    let source = json(r#"{"m": {"1": 8, "2": 7}}"#);
    assert_eq!(
        ok(codec::encode(&sets, "demo.A", &source)),
        [10, 4, 8, 2, 16, 7, 10, 4, 8, 1, 16, 8]
    );
}

#[test]
fn a_key_that_is_not_written_counts_as_its_default() {
    let mut set = compile(
        "demo.proto",
        "syntax = \"proto3\";\npackage demo;\nmessage A { map<int32, int32> m = 1; }\n",
    );
    set.file[0].message_type[0].nested_type[0].field[0].default_value = Some("5".to_owned());
    let sets = vec![set.encode_to_vec()];
    let source = json(r#"{"m": {"1": 7, "5": 8}}"#);
    let want = [10, 4, 8, 1, 16, 7, 10, 2, 16, 8];
    assert_eq!(ok(codec::encode(&sets, "demo.A", &source)), want);
    assert_eq!(ok(codec::encode_config(&sets, "demo.A", &source)), want);
}

#[test]
fn a_type_url_may_have_a_dot_before_the_name() {
    let sets = sets(
        "dots.proto",
        r#"syntax = "proto3";
package test;
import "google/protobuf/any.proto";
message Payload { map<string, int32> m = 1; }
message A { google.protobuf.Any any = 1; }"#,
    );
    let url = "type.googleapis.com/.test.Payload";
    let payload = [10, 5, 10, 1, b'a', 16, 1, 10, 5, 10, 1, b'b', 16, 2];
    let mut any = vec![10, url.len() as u8];
    any.extend_from_slice(url.as_bytes());
    any.extend_from_slice(&[18, payload.len() as u8]);
    any.extend_from_slice(&payload);
    let mut want = vec![10, any.len() as u8];
    want.extend_from_slice(&any);
    let source = format!(r#"{{"any": {{"@type": "{url}", "m": {{"a": 1, "b": 2}}}}}}"#);
    assert_eq!(ok(codec::encode(&sets, "test.A", &json(&source))), want);
    assert_eq!(decoded(&sets, "test.A", &want), value(&source));
    assert_eq!(decoded(&sets, "..test.A", &want), value(&source));
}

#[test]
fn null_in_the_place_of_a_list_of_values_is_a_list_of_one() {
    let sets = sets(
        "nulls.proto",
        r#"syntax = "proto3";
package test;
import "google/protobuf/struct.proto";
message A { repeated google.protobuf.Value vs = 1; repeated google.protobuf.NullValue ns = 2; repeated int32 is = 3; }"#,
    );
    let encoded = |source: &str| ok(codec::encode(&sets, "test.A", &json(source)));
    assert_eq!(encoded(r#"{"vs": null}"#), [10, 2, 8, 0]);
    assert_eq!(encoded(r#"{"ns": null}"#), [18, 1, 0]);
    assert!(encoded(r#"{"is": null}"#).is_empty());
    assert_eq!(encoded(r#"{"vs": [null, true]}"#), [10, 2, 8, 0, 10, 2, 32, 1]);
    assert_eq!(decoded(&sets, "test.A", &[10, 2, 8, 0]), value(r#"{"vs": [null]}"#));
    assert_eq!(
        ok(codec::encode_text(&sets, "test.A", &json(r#"{"vs": null}"#))),
        ok(codec::encode_text(&sets, "test.A", &json(r#"{"vs": [null]}"#)))
    );
}

#[test]
fn binary_and_text_show_the_same() {
    let sets = fixture();
    let source = r#"{"name": "a", "count": "7", "children": [{"name": "b"}], "labels": {"2": "y", "1": "x"}}"#;
    let bytes = ok(codec::encode(&sets, "test.Config", &json(source)));
    let text = ok(codec::encode_text(&sets, "test.Config", &json(source)));
    assert_eq!(decoded(&sets, "test.Config", &bytes), value(source));
    assert_eq!(decoded_text(&sets, "test.Config", &text), value(source));
    let mut more = bytes.clone();
    more.extend_from_slice(&[0x98, 0x06, 1]);
    assert_eq!(decoded(&sets, "test.Config", &more), value(source));
}

const SHOWN: &str = r#"
syntax = "proto3";
package shown;
import "google/protobuf/duration.proto";
import "google/protobuf/field_mask.proto";
import "google/protobuf/struct.proto";
import "google/protobuf/timestamp.proto";
import "google/protobuf/wrappers.proto";
enum Color { RED = 0; BLUE = 4; }
message Part { string some_name = 1; repeated double sizes = 2; }
message Item {
  sint64 big = 1;
  bytes raw = 2;
  Color color = 3;
  repeated Part parts = 4;
  oneof pick { bool yes = 5; string word = 6; }
  google.protobuf.Timestamp at = 7;
  google.protobuf.Duration took = 8;
  google.protobuf.FieldMask mask = 9;
  google.protobuf.Value any_value = 10;
  google.protobuf.ListValue list = 11;
  google.protobuf.Int32Value wrapped = 12;
  map<int32, Part> by_number = 13;
}
"#;

#[test]
fn what_is_shown_is_encoded_to_the_same_bytes() {
    let sets = sets("shown.proto", SHOWN);
    let config = json(
        r#"{
            "big": -9007199254740993,
            "raw": "AP8=",
            "color": "BLUE",
            "parts": [{"some_name": "a", "sizes": [0.1, -0.0, 1e300, "Infinity"]}, {}],
            "yes": false,
            "at": {"seconds": -1, "nanos": 10},
            "took": {"seconds": -3, "nanos": -5000000},
            "mask": {"paths": ["some_name.x", "a"]},
            "any_value": {"null_value": 0},
            "list": {"values": [{"number_value": 2}, {"string_value": ""}]},
            "wrapped": {"value": 0}
        }"#,
    );
    let bytes = ok(codec::encode_config(&sets, "shown.Item", &config));
    let shown = ok(codec::decode(&sets, "shown.Item", &bytes));
    assert_eq!(
        to_value(&shown),
        value(
            r#"{
                "big": "-9007199254740993",
                "raw": "AP8=",
                "color": "BLUE",
                "parts": [{"some_name": "a", "sizes": [0.1, -0.0, 1e300, "Infinity"]}, {}],
                "yes": false,
                "at": "1969-12-31T23:59:59.000000010Z",
                "took": "-3.005s",
                "mask": "someName.x,a",
                "any_value": null,
                "list": [2.0, ""],
                "wrapped": 0
            }"#
        )
    );
    assert_eq!(ok(codec::encode(&sets, "shown.Item", &shown)), bytes);
    let pool = prost_reflect::DescriptorPool::decode(sets[0].as_slice()).unwrap();
    let item = pool.get_message_by_name("shown.Item").unwrap();
    let plain = prost_reflect::DynamicMessage::decode(item, bytes.as_slice()).unwrap();
    assert_eq!(plain.encode_to_vec(), bytes);
}

#[test]
fn maps_that_are_shown_are_encoded_to_the_same_bytes() {
    let sets = sets("shown.proto", SHOWN);
    let input = json(r#"{"byNumber": {"-1": {}, "10": {"someName": "x"}, "2": {"sizes": [1]}}}"#);
    let bytes = ok(codec::encode(&sets, "shown.Item", &input));
    let shown = ok(codec::decode(&sets, "shown.Item", &bytes));
    assert_eq!(ok(codec::encode(&sets, "shown.Item", &shown)), bytes);
    assert_eq!(ok(codec::encode_config(&sets, "shown.Item", &shown)), bytes);
}
