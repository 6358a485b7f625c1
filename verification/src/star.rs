//! The Starlark library: modules, their evaluation, and the values that they export.
use starlark::environment::{FrozenModule, Globals, LibraryExtension, Module};
use starlark::eval::{Evaluator, ReturnFileLoader};
use starlark::syntax::{AstModule, Dialect};
use starlark::values::dict::DictRef;
use starlark::values::list::ListRef;
use starlark::values::structs::StructRef;
use starlark::values::tuple::TupleRef;
use starlark::values::OwnedFrozenValue;
use vstd::prelude::*;

verus! {

use crate::loader::labels_view;

/// A module that was evaluated.
#[verifier::external_type_specification]
#[verifier::external_body]
pub struct ExFrozenModule(starlark::environment::FrozenModule);

/// A module that was parsed.
#[verifier::external_type_specification]
#[verifier::external_body]
pub struct ExAstModule(starlark::syntax::AstModule);

/// A value of a module that was evaluated.
#[verifier::external_type_specification]
#[verifier::external_body]
pub struct ExOwnedFrozenValue(starlark::values::OwnedFrozenValue);

/// A value.
#[verifier::external_type_specification]
#[verifier::external_body]
pub struct ExStarValue<'v>(starlark::values::Value<'v>);

/// What a key of a dictionary is.
pub enum DictKey {
    Text(String),
    Int(String),
    Bool(bool),
    Other,
}

/// What a value is, one level deep. An integer and a float are held as Starlark writes them, and
/// a float that JSON can hold as its JSON number too. Tuples are lists.
pub enum Shape {
    Nothing,
    Bool(bool),
    Text(String),
    Int(String),
    Float(String, Option<serde_json::Number>),
    List(Vec<OwnedFrozenValue>),
    Struct(Vec<(String, OwnedFrozenValue)>),
    Dict(Vec<(DictKey, OwnedFrozenValue)>),
    Other(String),
}

/// What a key of a dictionary is.
pub enum DictKeyV {
    Text(Seq<char>),
    Int(Seq<char>),
    Bool(bool),
    Other,
}

/// What a value is, down to some depth, under which all is `Deep`.
pub enum StarV {
    Deep,
    Nothing,
    Bool(bool),
    Text(Seq<char>),
    Int(Seq<char>),
    Float(Seq<char>, Option<serde_json::Number>),
    List(Seq<StarV>),
    Struct(Seq<(Seq<char>, StarV)>),
    Dict(Seq<(DictKeyV, StarV)>),
    Other(Seq<char>),
}

impl View for DictKey {
    type V = DictKeyV;

    open spec fn view(&self) -> DictKeyV {
        match self {
            DictKey::Text(s) => DictKeyV::Text(s@),
            DictKey::Int(s) => DictKeyV::Int(s@),
            DictKey::Bool(b) => DictKeyV::Bool(*b),
            DictKey::Other => DictKeyV::Other,
        }
    }
}

/// What a value is, this many levels deep.
pub uninterp spec fn star_value(v: OwnedFrozenValue, levels: nat) -> StarV;

/// What a value of this shape is, one level deeper than what its parts are.
pub open spec fn shape_value(s: Shape, levels: nat) -> StarV {
    match s {
        Shape::Nothing => StarV::Nothing,
        Shape::Bool(b) => StarV::Bool(b),
        Shape::Text(t) => StarV::Text(t@),
        Shape::Int(t) => StarV::Int(t@),
        Shape::Float(t, n) => StarV::Float(t@, n),
        Shape::List(l) => StarV::List(Seq::new(l@.len(), |i: int| star_value(l@[i], levels))),
        Shape::Struct(f) => StarV::Struct(
            Seq::new(f@.len(), |i: int| (f@[i].0@, star_value(f@[i].1, levels))),
        ),
        Shape::Dict(d) => StarV::Dict(
            Seq::new(d@.len(), |i: int| (d@[i].0@, star_value(d@[i].1, levels))),
        ),
        Shape::Other(t) => StarV::Other(t@),
    }
}

/// What a key of a dictionary is.
#[verifier::external_body]
fn key_shape<'v>(k: starlark::values::Value<'v>) -> (r: DictKey) {
    if let Some(s) = k.unpack_str() {
        DictKey::Text(s.to_owned())
    } else if let Some(b) = k.unpack_bool() {
        DictKey::Bool(b)
    } else if k.get_type() == "int" {
        DictKey::Int(k.to_repr())
    } else {
        DictKey::Other
    }
}

/// What a value without parts is.
#[verifier::external_body]
fn plain_shape<'v>(v: starlark::values::Value<'v>) -> (r: Shape) {
    match (v.unpack_str(), v.unpack_bool(), v.get_type()) {
        (Some(s), _, _) => Shape::Text(s.to_owned()),
        (_, Some(b), _) => Shape::Bool(b),
        (_, _, "NoneType") => Shape::Nothing,
        (_, _, "int") => Shape::Int(v.to_repr()),
        (_, _, "float") => Shape::Float(
            v.to_repr(),
            v.to_json_value().ok().and_then(|j| j.as_number().cloned()),
        ),
        (_, _, other) => Shape::Other(other.to_owned()),
    }
}

/// A part of a value that was frozen with it.
#[verifier::external_body]
fn part<'v>(v: &OwnedFrozenValue, x: starlark::values::Value<'v>) -> (r: OwnedFrozenValue) {
    v.map(|_| x.unpack_frozen().unwrap())
}

/// The values of a list or a tuple.
#[verifier::external_body]
fn sequence<'v>(v: starlark::values::Value<'v>) -> (r: Option<Vec<starlark::values::Value<'v>>>) {
    let list = ListRef::from_value(v).map(|l| l.iter().collect());
    list.or_else(|| TupleRef::from_value(v).map(|t| t.iter().collect()))
}

/// Reads a value one level deep with `StructRef`, `DictRef`, `ListRef` and `TupleRef`, whose
/// parts come in the order that they have in Starlark, and with `unpack_str`, `unpack_bool`,
/// `get_type`, `to_repr` and `to_json_value` of a Starlark value.
#[verifier::external_body]
pub(crate) fn open_value(v: &OwnedFrozenValue) -> (r: Shape)
    ensures
        forall|levels: nat|
            levels > 0 ==> #[trigger] star_value(*v, levels) == shape_value(r, (levels - 1) as nat),
{
    let value = v.value();
    if let Some(s) = StructRef::from_value(value) {
        Shape::Struct(s.iter().map(|(k, x)| (k.as_str().to_owned(), part(v, x))).collect())
    } else if let Some(d) = DictRef::from_value(value) {
        Shape::Dict(d.iter().map(|(k, x)| (key_shape(k), part(v, x))).collect())
    } else if let Some(items) = sequence(value) {
        Shape::List(items.iter().map(|x| part(v, *x)).collect())
    } else {
        plain_shape(value)
    }
}

/// The labels that a parsed module loads.
pub uninterp spec fn ast_loads(ast: AstModule) -> Seq<Seq<char>>;

/// The name and the source that a parsed module is made from.
pub uninterp spec fn ast_origin(ast: AstModule) -> (Seq<char>, Seq<char>);

/// The labels that a source loads, where it can be parsed. The name is shown in errors.
pub uninterp spec fn parsed_loads(name: Seq<char>, source: Seq<char>) -> Option<Seq<Seq<char>>>;

/// Calls `AstModule::parse` with the standard dialect. Claims that the name and the source decide
/// whether there is a parsed module and what it loads, and that it is made from them; the words of
/// an error are left open.
#[verifier::external_body]
pub(crate) fn parse_module(name: &str, source: String) -> (r: Result<AstModule, String>)
    ensures
        match r {
            Ok(ast) => ast_origin(ast) == (name@, source@) && parsed_loads(name@, source@) == Some(
                ast_loads(ast),
            ),
            Err(_) => parsed_loads(name@, source@) is None,
        },
{
    AstModule::parse(name, source, &Dialect::Standard).map_err(|e| e.to_string())
}

/// Calls `loads` of an `AstModule`: the labels of its load statements, in their order.
#[verifier::external_body]
pub(crate) fn module_loads(ast: &AstModule) -> (r: Vec<String>)
    ensures
        labels_view(r@) == ast_loads(*ast),
{
    ast.loads().iter().map(|load| load.module_id.to_owned()).collect()
}

/// Calls `clone` of a `FrozenModule`, which gives the same module.
#[verifier::external_body]
pub(crate) fn module_clone(m: &FrozenModule) -> (r: FrozenModule)
    ensures
        r == *m,
{
    m.clone()
}

/// Labels, and the modules that loads of them find.
pub open spec fn found_modules(d: Seq<(String, FrozenModule)>) -> Seq<(Seq<char>, FrozenModule)> {
    Seq::new(d.len(), |i: int| (d[i].0@, d[i].1))
}

/// Whether this module can come of the evaluation of one with this name and source, where loads
/// find these modules, within limits on stack frames, bytes of heap and ticks.
pub uninterp spec fn evaluates_to(
    origin: (Seq<char>, Seq<char>),
    deps: Seq<(Seq<char>, FrozenModule)>,
    frames: usize,
    heap: usize,
    ticks: u64,
    module: FrozenModule,
) -> bool;

/// Calls `eval_module` of an `Evaluator` with the standard globals and `struct`, and `freeze` on
/// the module. Loads find the modules that are given for their labels. The limits are those of
/// `set_max_callstack_size`, `set_max_heap_size` and `set_max_tick_count`. Claims that a module
/// that is returned is one that can come of this. Whether one is returned depends on the machine,
/// so success is never promised.
#[verifier::external_body]
pub(crate) fn evaluate_module(
    ast: AstModule,
    deps: &Vec<(String, FrozenModule)>,
    frames: usize,
    heap: usize,
    ticks: u64,
) -> (r: Result<FrozenModule, String>)
    ensures
        r matches Ok(m) ==> evaluates_to(
            ast_origin(ast),
            found_modules(deps@),
            frames,
            heap,
            ticks,
            m,
        ),
{
    let modules = deps.iter().map(|(k, v)| (k.as_str(), v)).collect();
    let loader = ReturnFileLoader { modules: &modules };
    let globals = Globals::extended_by(&[LibraryExtension::StructType]);
    let made = Module::with_temp_heap(|module| -> anyhow::Result<FrozenModule> {
        let mut eval = Evaluator::new(&module);
        eval.set_loader(&loader);
        eval.set_max_callstack_size(frames)?;
        eval.set_max_heap_size(heap)?;
        eval.set_max_tick_count(ticks)?;
        eval.eval_module(ast, &globals).map_err(|e| anyhow::Error::msg(e.to_string()))?;
        drop(eval);
        module.freeze().map_err(|e| anyhow::Error::msg(format!("{e:?}")))
    });
    made.map_err(|e| e.to_string())
}

/// What a symbol that a module exports is, this many levels deep.
pub uninterp spec fn exported_value(
    module: FrozenModule,
    symbol: Seq<char>,
    levels: nat,
) -> Option<StarV>;

/// Calls `get` of a `FrozenModule`.
#[verifier::external_body]
pub(crate) fn exported(module: &FrozenModule, symbol: &str) -> (r: Result<OwnedFrozenValue, String>)
    ensures
        forall|levels: nat| #[trigger]
            exported_value(*module, symbol@, levels) == match r {
                Ok(v) => Some(star_value(v, levels)),
                Err(_) => None,
            },
{
    module.get(symbol).map_err(|e| e.to_string())
}

} // verus!
