//! What can go wrong with schemas and messages.
use crate::text::{decimal, join2, join3, join4, quoted};
use vstd::prelude::*;

verus! {

use crate::text::{decimal_text, quoted_text};

/// A rule that every message must keep.
#[derive(Clone, Copy, PartialEq, Eq, Structural, Debug)]
pub enum Rule {
    /// A required field is set.
    Required,
    /// The seconds of a timestamp or a duration are in range.
    Seconds,
    /// The nanos of a timestamp or a duration are in range.
    Nanos,
    /// The seconds and the nanos of a duration do not have opposite signs.
    Signs,
    /// A `google.protobuf.Value` has a kind.
    Kind,
    /// The number of a `google.protobuf.Value` is finite.
    Finite,
}

/// Why a message was not encoded or decoded. A `String` that is last in a variant is the reason
/// that a library gave.
pub enum CodecError {
    NoDescriptorSet,
    DescriptorSet(usize, String),
    MissingFilename,
    Conflict(String),
    Malformed,
    Unresolved(String),
    UnknownMessage(String),
    Json(String, String),
    Configuration(String, String),
    Wire(String, String),
    Text(String, String),
    Broken(String, Rule),
    AnyDepth,
    AnyPayload(String, String),
    Unnormalized(String),
    NormalizedMissing,
    Unreadable(String),
    Unfit,
    UnknownField(String, String),
    NotAMap(String, String),
    NullEntry(String, String, String),
    BoolKey(String),
    DuplicateField(String, String),
    Serialize(String),
}

/// Which error it is, without the reasons that libraries give.
pub enum Fault {
    NoDescriptorSet,
    DescriptorSet(nat),
    MissingFilename,
    Conflict(Seq<char>),
    Malformed,
    Unresolved,
    UnknownMessage(Seq<char>),
    Json(Seq<char>),
    Configuration(Seq<char>),
    Wire(Seq<char>),
    Text(Seq<char>),
    Broken(Seq<char>, Rule),
    AnyDepth,
    AnyPayload(Seq<char>),
    Unnormalized,
    NormalizedMissing,
    Unreadable,
    Unfit,
    UnknownField(Seq<char>, Seq<char>),
    NotAMap(Seq<char>, Seq<char>),
    NullEntry(Seq<char>, Seq<char>, Seq<char>),
    BoolKey,
    DuplicateField(Seq<char>, Seq<char>),
    Serialize,
}

impl View for CodecError {
    type V = Fault;

    open spec fn view(&self) -> Fault {
        match self {
            CodecError::NoDescriptorSet => Fault::NoDescriptorSet,
            CodecError::DescriptorSet(i, _) => Fault::DescriptorSet(*i as nat),
            CodecError::MissingFilename => Fault::MissingFilename,
            CodecError::Conflict(n) => Fault::Conflict(n@),
            CodecError::Malformed => Fault::Malformed,
            CodecError::Unresolved(_) => Fault::Unresolved,
            CodecError::UnknownMessage(n) => Fault::UnknownMessage(n@),
            CodecError::Json(n, _) => Fault::Json(n@),
            CodecError::Configuration(n, _) => Fault::Configuration(n@),
            CodecError::Wire(n, _) => Fault::Wire(n@),
            CodecError::Text(n, _) => Fault::Text(n@),
            CodecError::Broken(p, r) => Fault::Broken(p@, *r),
            CodecError::AnyDepth => Fault::AnyDepth,
            CodecError::AnyPayload(n, _) => Fault::AnyPayload(n@),
            CodecError::Unnormalized(_) => Fault::Unnormalized,
            CodecError::NormalizedMissing => Fault::NormalizedMissing,
            CodecError::Unreadable(_) => Fault::Unreadable,
            CodecError::Unfit => Fault::Unfit,
            CodecError::UnknownField(m, f) => Fault::UnknownField(m@, f@),
            CodecError::NotAMap(m, f) => Fault::NotAMap(m@, f@),
            CodecError::NullEntry(m, f, k) => Fault::NullEntry(m@, f@, k@),
            CodecError::BoolKey(_) => Fault::BoolKey,
            CodecError::DuplicateField(m, f) => Fault::DuplicateField(m@, f@),
            CodecError::Serialize(_) => Fault::Serialize,
        }
    }
}

/// What is said of a broken rule. The path of a required field ends in the field; other paths
/// end in the message.
pub open spec fn broken_text(path: Seq<char>, rule: Rule) -> Seq<char> {
    match rule {
        Rule::Required => "missing required protobuf field "@ + path,
        Rule::Seconds => "well-known field "@ + path + ".seconds is out of range"@,
        Rule::Nanos => "well-known field "@ + path + ".nanos is out of range"@,
        Rule::Signs => "well-known duration "@ + path
            + " must not have seconds and nanos of opposite signs"@,
        Rule::Kind => "well-known value "@ + path + " must have a kind"@,
        Rule::Finite => "well-known field "@ + path + ".number_value must be finite"@,
    }
}

/// What is said of an error.
pub open spec fn error_text(e: CodecError) -> Seq<char> {
    match e {
        CodecError::NoDescriptorSet => "at least one descriptor set is required"@,
        CodecError::DescriptorSet(i, r) => "parse descriptor set "@ + decimal_text(i as nat)
            + ": "@ + r@,
        CodecError::MissingFilename => "descriptor is missing its filename"@,
        CodecError::Conflict(n) => "conflicting descriptors for "@ + n@,
        CodecError::Malformed =>
            "descriptors declare what cannot be read"@,
        CodecError::Unresolved(r) =>
            "resolve protobuf schema (descriptor sets must hold their imports): "@ + r@,
        CodecError::UnknownMessage(n) => "message "@ + quoted_text(n@)
            + " not found in descriptor sets"@,
        CodecError::Json(n, r) => "invalid protobuf JSON for "@ + n@ + ": "@ + r@,
        CodecError::Configuration(n, r) => "invalid structural protobuf configuration for "@ + n@
            + ": "@ + r@,
        CodecError::Wire(n, r) => "decode protobuf "@ + n@ + ": "@ + r@,
        CodecError::Text(n, r) => "parse text protobuf "@ + n@ + ": "@ + r@,
        CodecError::Broken(p, r) => broken_text(p@, r),
        CodecError::AnyDepth => "embedded Any nesting exceeds 64 levels"@,
        CodecError::AnyPayload(n, r) => "decode Any payload "@ + n@ + ": "@ + r@,
        CodecError::Unnormalized(r) =>
            "normalize protobuf schema for deterministic serialization: "@ + r@,
        CodecError::NormalizedMissing => "normalized message is missing"@,
        CodecError::Unreadable(r) => r@,
        CodecError::Unfit => "message does not fit its normalized schema"@,
        CodecError::UnknownField(m, f) => "unknown protobuf field "@ + m@ + "."@ + f@,
        CodecError::NotAMap(m, f) => m@ + "."@ + f@ + " must be a map"@,
        CodecError::NullEntry(m, f, k) => "protobuf map "@ + m@ + "."@ + f@ + ("["@ + quoted_text(
            k@,
        ) + "] cannot contain a null value"@),
        CodecError::BoolKey(r) => "protobuf boolean map key must be true or false: "@ + r@,
        CodecError::DuplicateField(m, f) => "duplicate protobuf field "@ + m@ + "."@ + f@,
        CodecError::Serialize(r) => "serialize protobuf JSON: "@ + r@,
    }
}

fn broken_message(path: &str, rule: Rule) -> (r: String)
    ensures
        r@ == broken_text(path@, rule),
{
    match rule {
        Rule::Required => join2("missing required protobuf field ", path),
        Rule::Seconds => join3("well-known field ", path, ".seconds is out of range"),
        Rule::Nanos => join3("well-known field ", path, ".nanos is out of range"),
        Rule::Signs => join3(
            "well-known duration ",
            path,
            " must not have seconds and nanos of opposite signs",
        ),
        Rule::Kind => join3("well-known value ", path, " must have a kind"),
        Rule::Finite => join3("well-known field ", path, ".number_value must be finite"),
    }
}

impl CodecError {
    /// Says what went wrong.
    pub fn message(&self) -> (r: String)
        ensures
            r@ == error_text(*self),
    {
        match self {
            CodecError::NoDescriptorSet => "at least one descriptor set is required".to_owned(),
            CodecError::DescriptorSet(i, r) => {
                let n = decimal(*i);
                join4("parse descriptor set ", n.as_str(), ": ", r.as_str())
            },
            CodecError::MissingFilename => "descriptor is missing its filename".to_owned(),
            CodecError::Conflict(n) => join2("conflicting descriptors for ", n.as_str()),
            CodecError::Malformed =>
                "descriptors declare what cannot be read".to_owned(),
            CodecError::Unresolved(r) => join2(
                "resolve protobuf schema (descriptor sets must hold their imports): ",
                r.as_str(),
            ),
            CodecError::UnknownMessage(n) => {
                let q = quoted(n.as_str());
                join3("message ", q.as_str(), " not found in descriptor sets")
            },
            CodecError::Json(n, r) => join4(
                "invalid protobuf JSON for ",
                n.as_str(),
                ": ",
                r.as_str(),
            ),
            CodecError::Configuration(n, r) => join4(
                "invalid structural protobuf configuration for ",
                n.as_str(),
                ": ",
                r.as_str(),
            ),
            CodecError::Wire(n, r) => join4("decode protobuf ", n.as_str(), ": ", r.as_str()),
            CodecError::Text(n, r) => join4("parse text protobuf ", n.as_str(), ": ", r.as_str()),
            CodecError::Broken(p, r) => broken_message(p.as_str(), *r),
            CodecError::AnyDepth => "embedded Any nesting exceeds 64 levels".to_owned(),
            CodecError::AnyPayload(n, r) => join4(
                "decode Any payload ",
                n.as_str(),
                ": ",
                r.as_str(),
            ),
            CodecError::Unnormalized(r) => join2(
                "normalize protobuf schema for deterministic serialization: ",
                r.as_str(),
            ),
            CodecError::NormalizedMissing => "normalized message is missing".to_owned(),
            CodecError::Unreadable(r) => r.clone(),
            CodecError::Unfit => "message does not fit its normalized schema".to_owned(),
            CodecError::UnknownField(m, f) => join4(
                "unknown protobuf field ",
                m.as_str(),
                ".",
                f.as_str(),
            ),
            CodecError::NotAMap(m, f) => join4(m.as_str(), ".", f.as_str(), " must be a map"),
            CodecError::NullEntry(m, f, k) => {
                let q = quoted(k.as_str());
                let head = join4("protobuf map ", m.as_str(), ".", f.as_str());
                let tail = join3("[", q.as_str(), "] cannot contain a null value");
                join2(head.as_str(), tail.as_str())
            },
            CodecError::BoolKey(r) => join2(
                "protobuf boolean map key must be true or false: ",
                r.as_str(),
            ),
            CodecError::DuplicateField(m, f) => join4(
                "duplicate protobuf field ",
                m.as_str(),
                ".",
                f.as_str(),
            ),
            CodecError::Serialize(r) => join2("serialize protobuf JSON: ", r.as_str()),
        }
    }
}

} // verus!
