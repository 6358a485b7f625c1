use prost::Message;
use prost_types::{FileDescriptorProto, FileDescriptorSet, SourceCodeInfo};
use protolark::error::CodecError;
use protolark::message::Datum;
use protolark::schema::{load_descriptors, FILE_NAME, FILE_SOURCE_INFO};

fn file(name: Option<&str>, package: &str) -> FileDescriptorProto {
    FileDescriptorProto {
        name: name.map(str::to_owned),
        package: Some(package.to_owned()),
        ..FileDescriptorProto::default()
    }
}

fn set(files: Vec<FileDescriptorProto>) -> Vec<u8> {
    FileDescriptorSet { file: files }.encode_to_vec()
}

fn names(sets: &Vec<Vec<u8>>) -> Vec<String> {
    match load_descriptors(sets) {
        Ok(files) => files
            .iter()
            .map(|m| {
                assert_eq!(m.full_name, "google.protobuf.FileDescriptorProto");
                assert!(m.fields.iter().all(|(n, _)| *n != FILE_SOURCE_INFO));
                match m.fields.iter().find(|(n, _)| *n == FILE_NAME) {
                    Some((_, Datum::Text(name))) => name.clone(),
                    _ => panic!("a file has a name"),
                }
            })
            .collect(),
        Err(e) => panic!("{}", e.message()),
    }
}

#[test]
fn files_come_once_and_in_the_order_of_their_names() {
    let first = set(vec![file(Some("c.proto"), "c"), file(Some("a.proto"), "a")]);
    let second = set(vec![file(Some("b.proto"), "b"), file(Some("a.proto"), "a")]);
    assert_eq!(names(&vec![first.clone(), second.clone()]), ["a.proto", "b.proto", "c.proto"]);
    assert_eq!(names(&vec![second, first]), ["a.proto", "b.proto", "c.proto"]);
    assert!(names(&vec![]).is_empty());
}

#[test]
fn source_locations_may_vary_between_sets() {
    let mut located = file(Some("a.proto"), "a");
    located.source_code_info = Some(SourceCodeInfo::default());
    let both = vec![set(vec![located]), set(vec![file(Some("a.proto"), "a")])];
    assert_eq!(names(&both), ["a.proto"]);
}

#[test]
fn files_that_differ_conflict() {
    let both =
        vec![set(vec![file(Some("a.proto"), "a")]), set(vec![file(Some("a.proto"), "other")])];
    match load_descriptors(&both) {
        Err(e) => assert_eq!(e.message(), "conflicting descriptors for a.proto"),
        Ok(_) => panic!("accepted"),
    }
}

#[test]
fn a_file_without_a_name_is_refused() {
    match load_descriptors(&vec![set(vec![file(None, "a")])]) {
        Err(e) => {
            assert!(matches!(e, CodecError::MissingFilename));
            assert_eq!(e.message(), "descriptor is missing its filename");
        }
        Ok(_) => panic!("accepted"),
    }
}

#[test]
fn a_set_that_cannot_be_read_is_named_by_its_place() {
    match load_descriptors(&vec![set(vec![]), vec![0xff]]) {
        Err(e) => assert!(e.message().starts_with("parse descriptor set 1: ")),
        Ok(_) => panic!("accepted"),
    }
}

#[test]
fn the_order_and_the_number_of_sets_do_not_matter() {
    let a = set(vec![file(Some("b.proto"), "b"), file(Some("a.proto"), "a")]);
    let b = set(vec![file(Some("c.proto"), "c"), file(Some("a.proto"), "a")]);
    let want = ["a.proto", "b.proto", "c.proto"];
    assert_eq!(names(&vec![a.clone(), b.clone()]), want);
    assert_eq!(names(&vec![b.clone(), a.clone()]), want);
    assert_eq!(names(&vec![b.clone(), a.clone(), b, a]), want);
}
