//! Protobuf-backed Starlark configuration: evaluate configurations, and encode or decode
//! binary and text protobuf.
pub mod accepting;
pub mod cli;
pub mod codec;
pub mod configuring;
pub mod convert;
pub mod converting;
pub mod copying;
pub mod determinism;
pub mod equality;
pub mod error;
pub mod evaluating;
pub mod faithful;
pub mod fault;
pub mod giving;
pub mod groups;
pub mod holding;
pub mod imports;
pub mod integers;
pub mod json;
pub mod keys;
pub mod known;
pub mod labels;
pub mod loader;
pub mod loading;
pub mod merge;
pub mod message;
pub mod normalize;
pub mod nulls;
pub mod once;
pub mod order;
pub mod paths;
pub mod payload;
pub mod payloads;
pub mod pool;
pub mod readback;
pub mod reading;
pub mod records;
pub mod relating;
pub mod rules;
pub mod runtime;
pub mod schema;
pub mod sorting;
pub mod sound;
pub mod star;
pub mod steady;
pub mod structural;
pub mod text;
pub mod textual;
pub mod types;
pub mod usual;
pub mod validate;
pub mod values;
pub mod writing;
