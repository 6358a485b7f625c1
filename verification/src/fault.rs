//! What can go wrong with the evaluation of configurations.
use crate::text::{join2, join3, join4, quoted};
use vstd::prelude::*;

verus! {

use crate::text::quoted_text;

/// Why a configuration was not evaluated. A `String` that is last in a variant whose words end in
/// a colon is the reason that a library gave.
pub enum RuntimeError {
    Outside(String, String),
    Cycle(String),
    Limit,
    Read(String, String),
    TooLong,
    Parse(String),
    UnsupportedLoad(String),
    UnresolvedLoad(String, String),
    Escapes(String, String),
    Evaluation(String),
    NoSymbol(String, String),
    TooManyValues,
    TooDeep,
    BadKey,
    KeyCollision(String),
    IntegerRange(String),
    BadValue(String),
    LogicalPath(String),
    DuplicatePath(String),
    Undeclared(String),
    Confused,
}

/// Which error it is, without the reasons that libraries give.
pub enum RuntimeFault {
    Outside(Seq<char>, Seq<char>),
    Cycle(Seq<char>),
    Limit,
    Read(Seq<char>),
    TooLong,
    Parse,
    UnsupportedLoad(Seq<char>),
    UnresolvedLoad(Seq<char>),
    Escapes(Seq<char>, Seq<char>),
    Evaluation,
    NoSymbol(Seq<char>),
    TooManyValues,
    TooDeep,
    BadKey,
    KeyCollision(Seq<char>),
    IntegerRange(Seq<char>),
    BadValue(Seq<char>),
    LogicalPath(Seq<char>),
    DuplicatePath(Seq<char>),
    Undeclared(Seq<char>),
    Confused,
}

impl View for RuntimeError {
    type V = RuntimeFault;

    open spec fn view(&self) -> RuntimeFault {
        match self {
            RuntimeError::Outside(p, r) => RuntimeFault::Outside(p@, r@),
            RuntimeError::Cycle(p) => RuntimeFault::Cycle(p@),
            RuntimeError::Limit => RuntimeFault::Limit,
            RuntimeError::Read(p, _) => RuntimeFault::Read(p@),
            RuntimeError::TooLong => RuntimeFault::TooLong,
            RuntimeError::Parse(_) => RuntimeFault::Parse,
            RuntimeError::UnsupportedLoad(l) => RuntimeFault::UnsupportedLoad(l@),
            RuntimeError::UnresolvedLoad(l, _) => RuntimeFault::UnresolvedLoad(l@),
            RuntimeError::Escapes(l, r) => RuntimeFault::Escapes(l@, r@),
            RuntimeError::Evaluation(_) => RuntimeFault::Evaluation,
            RuntimeError::NoSymbol(s, _) => RuntimeFault::NoSymbol(s@),
            RuntimeError::TooManyValues => RuntimeFault::TooManyValues,
            RuntimeError::TooDeep => RuntimeFault::TooDeep,
            RuntimeError::BadKey => RuntimeFault::BadKey,
            RuntimeError::KeyCollision(k) => RuntimeFault::KeyCollision(k@),
            RuntimeError::IntegerRange(r) => RuntimeFault::IntegerRange(r@),
            RuntimeError::BadValue(t) => RuntimeFault::BadValue(t@),
            RuntimeError::LogicalPath(p) => RuntimeFault::LogicalPath(p@),
            RuntimeError::DuplicatePath(p) => RuntimeFault::DuplicatePath(p@),
            RuntimeError::Undeclared(p) => RuntimeFault::Undeclared(p@),
            RuntimeError::Confused => RuntimeFault::Confused,
        }
    }
}

/// What is put in front of an error in the conversion of a configuration.
pub open spec fn conversion() -> Seq<char> {
    "convert Starlark configuration to JSON: "@
}

/// What is said of an error.
pub open spec fn runtime_text(e: RuntimeError) -> Seq<char> {
    match e {
        RuntimeError::Outside(p, r) => "config "@ + p@ + " is outside load root "@ + r@,
        RuntimeError::Cycle(p) => "Starlark load cycle at "@ + p@,
        RuntimeError::Limit => "Starlark module loading limit exceeded"@,
        RuntimeError::Read(p, r) => "read "@ + p@ + ": "@ + r@,
        RuntimeError::TooLong => "Starlark module exceeds 4 MiB source limit"@,
        RuntimeError::Parse(r) => r@,
        RuntimeError::UnsupportedLoad(l) => "unsupported load "@ + quoted_text(l@)
            + ": use a relative path or //package:file label"@,
        RuntimeError::UnresolvedLoad(l, r) => "resolve load "@ + quoted_text(l@) + ": "@ + r@,
        RuntimeError::Escapes(l, r) => "load "@ + quoted_text(l@) + " escapes load root "@ + r@,
        RuntimeError::Evaluation(r) => r@,
        RuntimeError::NoSymbol(s, r) => "configuration has no exported symbol "@ + quoted_text(s@)
            + ": "@ + r@,
        RuntimeError::TooManyValues => conversion()
            + "configuration exceeds one million JSON values"@,
        RuntimeError::TooDeep => conversion()
            + "configuration nesting exceeds 64 levels (or contains a cycle)"@,
        RuntimeError::BadKey => conversion()
            + "protobuf map keys must be strings, integers, or booleans"@,
        RuntimeError::KeyCollision(k) => conversion() + "map keys collide after JSON conversion: "@
            + quoted_text(k@),
        RuntimeError::IntegerRange(r) => conversion() + "integer "@ + r@
            + " is outside protobuf signed/unsigned 64-bit range"@,
        RuntimeError::BadValue(t) => conversion() + "unsupported configuration value type "@ + t@,
        RuntimeError::LogicalPath(p) => "logical load path "@ + p@
            + " must be a nonempty normalized relative path without . or .. components"@,
        RuntimeError::DuplicatePath(p) => "duplicate logical load path "@ + p@,
        RuntimeError::Undeclared(p) => "configuration "@ + p@
            + " is not declared in the load files"@,
        RuntimeError::Confused => "the evaluation did not ask for this"@,
    }
}

impl RuntimeError {
    /// Says what went wrong.
    pub fn message(&self) -> (r: String)
        ensures
            r@ == runtime_text(*self),
    {
        match self {
            RuntimeError::Outside(p, r) => join4(
                "config ",
                p.as_str(),
                " is outside load root ",
                r.as_str(),
            ),
            RuntimeError::Cycle(p) => join2("Starlark load cycle at ", p.as_str()),
            RuntimeError::Limit => "Starlark module loading limit exceeded".to_owned(),
            RuntimeError::Read(p, r) => join4("read ", p.as_str(), ": ", r.as_str()),
            RuntimeError::TooLong => "Starlark module exceeds 4 MiB source limit".to_owned(),
            RuntimeError::Parse(r) => r.clone(),
            RuntimeError::UnsupportedLoad(l) => {
                let q = quoted(l.as_str());
                join3(
                    "unsupported load ",
                    q.as_str(),
                    ": use a relative path or //package:file label",
                )
            },
            RuntimeError::UnresolvedLoad(l, r) => {
                let q = quoted(l.as_str());
                join4("resolve load ", q.as_str(), ": ", r.as_str())
            },
            RuntimeError::Escapes(l, r) => {
                let q = quoted(l.as_str());
                join4("load ", q.as_str(), " escapes load root ", r.as_str())
            },
            RuntimeError::Evaluation(r) => r.clone(),
            RuntimeError::NoSymbol(s, r) => {
                let q = quoted(s.as_str());
                join4(
                    "configuration has no exported symbol ",
                    q.as_str(),
                    ": ",
                    r.as_str(),
                )
            },
            RuntimeError::TooManyValues => join2(
                "convert Starlark configuration to JSON: ",
                "configuration exceeds one million JSON values",
            ),
            RuntimeError::TooDeep => join2(
                "convert Starlark configuration to JSON: ",
                "configuration nesting exceeds 64 levels (or contains a cycle)",
            ),
            RuntimeError::BadKey => join2(
                "convert Starlark configuration to JSON: ",
                "protobuf map keys must be strings, integers, or booleans",
            ),
            RuntimeError::KeyCollision(k) => {
                let q = quoted(k.as_str());
                join3(
                    "convert Starlark configuration to JSON: ",
                    "map keys collide after JSON conversion: ",
                    q.as_str(),
                )
            },
            RuntimeError::IntegerRange(r) => join4(
                "convert Starlark configuration to JSON: ",
                "integer ",
                r.as_str(),
                " is outside protobuf signed/unsigned 64-bit range",
            ),
            RuntimeError::BadValue(t) => join3(
                "convert Starlark configuration to JSON: ",
                "unsupported configuration value type ",
                t.as_str(),
            ),
            RuntimeError::LogicalPath(p) => join3(
                "logical load path ",
                p.as_str(),
                " must be a nonempty normalized relative path without . or .. components",
            ),
            RuntimeError::DuplicatePath(p) => join2("duplicate logical load path ", p.as_str()),
            RuntimeError::Undeclared(p) => join3(
                "configuration ",
                p.as_str(),
                " is not declared in the load files",
            ),
            RuntimeError::Confused => "the evaluation did not ask for this".to_owned(),
        }
    }
}

} // verus!
