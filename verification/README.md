# protolark

Protobuf-backed Starlark configuration, verified with Verus: evaluate configurations, and encode or
decode binary and text protobuf.

`src/` is the library. Its public functions have contracts that Verus proves. Small wrappers around
`prost-reflect`, `serde_json` and `starlark` have contracts that are trusted; each of them says what
it claims of the function that it calls. `app/` is the command line around it:
arguments, files and streams. `tests/` runs the library with the real crates.

- `codec`: encode and decode messages, with `schema` (descriptor sets, and the private copy of a
  schema in which maps are lists), `sound`, `once` and `imports` (which descriptors can be used),
  `equality` (which count as the same), `structural` (configurations with declared fields),
  `validate` (the rules that messages keep), `normalize` (maps in order), `groups` (maps that cannot
  be read again) and `payload` (messages inside `google.protobuf.Any`).
- `determinism`, `steady`, `merge`, `nulls`, `sorting`, `keys`, `records`, `payloads`, `relating`,
  `known`, `readback`, `textual`, `faithful` and `integers`: what holds of the codec as a whole.
- `runtime`: evaluate configurations, with `loader` (which modules are loaded, and in which order)
  and `convert` (Starlark values as JSON). The caller reads files and finds paths; the library asks
  for them and decides.
- `loading` and `values`: what holds of whole loads, and of conversions.
- `cli`: what the commands give out.
- `json`, `message`, `types`, `order`, `text`, `error` and `fault`: plain data.
- `pool` and `star`: the wrappers.

The generator of constructors, and the source of the runtime that they share, are not part of this
crate. A generator finds its descriptors with `schema::load_descriptors` and the label of the runtime
with `cli::runtime_load`, and gives its source out, or checks a file against it, with
`cli::run_generate`. The command line takes the source of the runtime with `--runtime`.
