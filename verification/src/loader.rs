//! Which modules a configuration loads, and in which order: the decisions of the loader. Reading
//! files, finding them, and evaluating modules is left to the caller, who says how it went.
//!
//! Loads stay under a root, modules do not load each other in a circle, each file is read once,
//! and at most 128 files are loaded, at most 64 of them while another one is being loaded.
use crate::fault::RuntimeError;
use crate::message::{copy_bytes, same_bytes};
use crate::text::{replace_char, strip, text_eq};
use vstd::prelude::*;

verus! {

use crate::fault::RuntimeFault;
use crate::text::{begins_with, replaced};

/// The label of the shared runtime in `.scl` files.
pub const SCL_RUNTIME_LABEL: &'static str = "//protolark:runtime.scl";

/// The label of the shared runtime in `.bzl` files.
pub const BZL_RUNTIME_LABEL: &'static str = "@protolark//protolark:runtime.bzl";

/// How many modules can be on the way at once.
pub const ACTIVE_LIMIT: usize = 64;

/// How many modules can be loaded.
pub const MODULE_LIMIT: usize = 128;

/// How many bytes of source a module can have.
pub const SOURCE_LIMIT: usize = 4194304;

/// Where a file is: the names on its absolute path, free of links, and the path as it is shown.
pub struct Location {
    pub parts: Vec<Vec<u8>>,
    pub shown: String,
}

/// What a location is.
pub struct LocationV {
    pub parts: Seq<Seq<u8>>,
    pub shown: Seq<char>,
}

/// What the names on a path are.
pub open spec fn parts_view(p: Seq<Vec<u8>>) -> Seq<Seq<u8>> {
    Seq::new(p.len(), |i: int| p[i]@)
}

impl View for Location {
    type V = LocationV;

    open spec fn view(&self) -> LocationV {
        LocationV { parts: parts_view(self.parts@), shown: self.shown@ }
    }
}

/// Whether a path is at or under another.
pub open spec fn under(path: Seq<Seq<u8>>, root: Seq<Seq<u8>>) -> bool {
    root.len() <= path.len() && path.take(root.len() as int) == root
}

/// The directory that a file is in.
pub open spec fn parent(path: Seq<Seq<u8>>) -> Seq<Seq<u8>> {
    if path.len() == 0 {
        path
    } else {
        path.drop_last()
    }
}

/// A module that is being loaded: its file, the labels that it loads, and the modules that were
/// loaded for the first of them.
pub struct Frame {
    pub path: Location,
    pub loads: Vec<String>,
    pub deps: Vec<usize>,
}

/// What a module that is being loaded is.
pub struct FrameV {
    pub path: LocationV,
    pub loads: Seq<Seq<char>>,
    pub deps: Seq<nat>,
}

/// What labels are.
pub open spec fn labels_view(l: Seq<String>) -> Seq<Seq<char>> {
    Seq::new(l.len(), |i: int| l[i]@)
}

/// What the numbers of modules are.
pub open spec fn deps_view(d: Seq<usize>) -> Seq<nat> {
    Seq::new(d.len(), |i: int| d[i] as nat)
}

impl View for Frame {
    type V = FrameV;

    open spec fn view(&self) -> FrameV {
        FrameV {
            path: self.path@,
            loads: labels_view(self.loads@),
            deps: deps_view(self.deps@),
        }
    }
}

/// The state of the loader. Modules have numbers, in the order in which they were evaluated.
pub struct Loader {
    pub root: Location,
    pub cache: Vec<(Location, usize)>,
    pub active: Vec<Frame>,
    pub runtime: Option<usize>,
    pub made: usize,
}

/// What the state of the loader is.
pub struct LoaderV {
    pub root: LocationV,
    pub cache: Seq<(LocationV, nat)>,
    pub active: Seq<FrameV>,
    pub runtime: Option<nat>,
    pub made: nat,
}

/// What the modules that were loaded are.
pub open spec fn cache_view(c: Seq<(Location, usize)>) -> Seq<(LocationV, nat)> {
    Seq::new(c.len(), |i: int| (c[i].0@, c[i].1 as nat))
}

/// What the modules that are being loaded are.
pub open spec fn active_view(a: Seq<Frame>) -> Seq<FrameV> {
    Seq::new(a.len(), |i: int| a[i]@)
}

impl View for Loader {
    type V = LoaderV;

    open spec fn view(&self) -> LoaderV {
        LoaderV {
            root: self.root@,
            cache: cache_view(self.cache@),
            active: active_view(self.active@),
            runtime: match self.runtime {
                Some(n) => Some(n as nat),
                None => None,
            },
            made: self.made as nat,
        }
    }
}

/// What the loader wants next.
pub enum Step {
    /// The source of a file.
    Read(Location),
    /// The location of a path, relative to a directory.
    Resolve(Vec<Vec<u8>>, String),
    /// The shared runtime, evaluated.
    Runtime,
    /// The module on top, evaluated.
    Evaluate,
    /// Nothing: the module with this number is the configuration.
    Done(usize),
}

/// What the loader wants next.
pub enum StepV {
    Read(LocationV),
    Resolve(Seq<Seq<u8>>, Seq<char>),
    Runtime,
    Evaluate,
    Done(nat),
}

impl View for Step {
    type V = StepV;

    open spec fn view(&self) -> StepV {
        match self {
            Step::Read(p) => StepV::Read(p@),
            Step::Resolve(b, r) => StepV::Resolve(parts_view(b@), r@),
            Step::Runtime => StepV::Runtime,
            Step::Evaluate => StepV::Evaluate,
            Step::Done(n) => StepV::Done(*n as nat),
        }
    }
}

/// Whether a label is one of the shared runtime.
pub open spec fn is_runtime(label: Seq<char>) -> bool {
    label == SCL_RUNTIME_LABEL@ || label == BZL_RUNTIME_LABEL@
}

/// The text without a colon in front.
pub open spec fn without_colon(s: Seq<char>) -> Seq<char> {
    if begins_with(s, ":"@) {
        s.skip(1)
    } else {
        s
    }
}

/// Where a label is looked for: a directory, and a path relative to it. A label that begins with
/// `//` is relative to the root, with the colon between package and file as a slash. Labels of
/// other repositories and absolute paths are not supported.
pub open spec fn wanted(root: Seq<Seq<u8>>, path: Seq<Seq<u8>>, label: Seq<char>) -> Option<
    (Seq<Seq<u8>>, Seq<char>),
> {
    if begins_with(label, "//"@) {
        Some((root, replaced(without_colon(label.skip(2)), ':', "/"@)))
    } else if begins_with(label, "@"@) || begins_with(label, "/"@) {
        None
    } else {
        Some((parent(path), without_colon(label)))
    }
}

/// The number of the module that was loaded from a path, among the first `n`.
pub open spec fn cached(c: Seq<(LocationV, nat)>, path: Seq<Seq<u8>>, n: nat) -> Option<nat>
    decreases n,
{
    if n == 0 || n > c.len() {
        None
    } else {
        match cached(c, path, (n - 1) as nat) {
            Some(m) => Some(m),
            None => if c[n - 1].0.parts == path {
                Some(c[n - 1].1)
            } else {
                None
            },
        }
    }
}

/// Whether the file at a path is being loaded.
pub open spec fn is_active(a: Seq<FrameV>, path: Seq<Seq<u8>>) -> bool {
    exists|i: int| 0 <= i < a.len() && (#[trigger] a[i]).path.parts == path
}

/// How many labels of the module on top are left.
pub open spec fn labels_left(s: LoaderV) -> nat {
    if s.active.len() == 0 || s.active.last().deps.len() > s.active.last().loads.len() {
        0
    } else {
        (s.active.last().loads.len() - s.active.last().deps.len()) as nat
    }
}

/// A module goes to the one that loads it, or is the configuration.
pub open spec fn delivered(s: LoaderV, module: nat) -> Result<(LoaderV, StepV), RuntimeFault>
    decreases labels_left(s), 0nat,
{
    if s.active.len() == 0 {
        Ok((s, StepV::Done(module)))
    } else if labels_left(s) == 0 {
        Err(RuntimeFault::Confused)
    } else {
        advanced(with_dep(s, module))
    }
}

/// The module on top goes on with its next label, or is evaluated when there are none left.
pub open spec fn advanced(s: LoaderV) -> Result<(LoaderV, StepV), RuntimeFault>
    decreases labels_left(s), 1nat,
{
    if labels_left(s) == 0 {
        Ok((s, StepV::Evaluate))
    } else {
        let top = s.active.last();
        let label = top.loads[top.deps.len() as int];
        if is_runtime(label) {
            match s.runtime {
                Some(module) => delivered(s, module),
                None => Ok((s, StepV::Runtime)),
            }
        } else {
            match wanted(s.root.parts, top.path.parts, label) {
                Some((base, relative)) => Ok((s, StepV::Resolve(base, relative))),
                None => Err(RuntimeFault::UnsupportedLoad(label)),
            }
        }
    }
}

/// A module is wanted from a path.
pub open spec fn entered(s: LoaderV, path: LocationV) -> Result<(LoaderV, StepV), RuntimeFault> {
    if !under(path.parts, s.root.parts) {
        Err(RuntimeFault::Outside(path.shown, s.root.shown))
    } else {
        match cached(s.cache, path.parts, s.cache.len()) {
            Some(module) => delivered(s, module),
            None => if is_active(s.active, path.parts) {
                Err(RuntimeFault::Cycle(path.shown))
            } else if s.active.len() >= ACTIVE_LIMIT || s.active.len() + s.cache.len()
                >= MODULE_LIMIT {
                Err(RuntimeFault::Limit)
            } else {
                let frame = FrameV { path, loads: Seq::empty(), deps: Seq::empty() };
                Ok((LoaderV { active: s.active.push(frame), ..s }, StepV::Read(path)))
            },
        }
    }
}

/// Whether a path is refused: it is outside the root, or it is not loaded and is being loaded, or
/// would be one too many.
pub open spec fn refused(s: LoaderV, path: LocationV) -> bool {
    !under(path.parts, s.root.parts) || (cached(s.cache, path.parts, s.cache.len()) is None && (
    is_active(s.active, path.parts) || s.active.len() >= ACTIVE_LIMIT || s.active.len()
        + s.cache.len() >= MODULE_LIMIT))
}

/// The labels that the module on top loads are known.
pub open spec fn parsed(s: LoaderV, loads: Seq<Seq<char>>) -> Result<
    (LoaderV, StepV),
    RuntimeFault,
> {
    if s.active.len() == 0 {
        Err(RuntimeFault::Confused)
    } else {
        advanced(with_loads(s, loads))
    }
}

/// The label that the module on top wants next.
pub open spec fn current_label(s: LoaderV) -> Seq<char> {
    let top = s.active.last();
    top.loads[top.deps.len() as int]
}

/// The path that the module on top wanted is found.
pub open spec fn found(s: LoaderV, path: LocationV) -> Result<(LoaderV, StepV), RuntimeFault> {
    if labels_left(s) == 0 {
        Err(RuntimeFault::Confused)
    } else if !under(path.parts, s.root.parts) {
        Err(RuntimeFault::Escapes(current_label(s), s.root.shown))
    } else {
        entered(s, path)
    }
}

/// The shared runtime is evaluated.
pub open spec fn runtime_made(s: LoaderV) -> Result<(LoaderV, StepV), RuntimeFault> {
    delivered(with_runtime(s), s.made)
}

/// The module on top is evaluated.
pub open spec fn evaluated(s: LoaderV) -> Result<(LoaderV, StepV), RuntimeFault> {
    if s.active.len() == 0 {
        Err(RuntimeFault::Confused)
    } else {
        delivered(with_module(s), s.made)
    }
}

/// What always holds of the loader: the limits are kept, all files are under the root, no file is
/// loaded or being loaded twice, and each module that is being loaded waits for its next label.
pub open spec fn wf(s: LoaderV) -> bool {
    &&& s.active.len() <= ACTIVE_LIMIT
    &&& s.active.len() + s.cache.len() <= MODULE_LIMIT
    &&& s.made == s.cache.len() + (if s.runtime is Some {
        1nat
    } else {
        0nat
    })
    &&& forall|i: int|
        0 <= i < s.active.len() ==> under((#[trigger] s.active[i]).path.parts, s.root.parts)
            && s.active[i].deps.len() <= s.active[i].loads.len()
    &&& forall|i: int| 0 <= i < s.cache.len() ==> under((#[trigger] s.cache[i]).0.parts, s.root.parts)
    &&& forall|i: int, j: int|
        0 <= i < j < s.active.len() ==> s.active[i].path.parts != s.active[j].path.parts
    &&& forall|i: int, j: int|
        0 <= i < j < s.cache.len() ==> s.cache[i].0.parts != s.cache[j].0.parts
    &&& forall|i: int, j: int|
        0 <= i < s.active.len() && 0 <= j < s.cache.len() ==> s.active[i].path.parts
            != s.cache[j].0.parts
    &&& forall|i: int|
        0 <= i < s.active.len() - 1 ==> (#[trigger] s.active[i]).deps.len()
            < s.active[i].loads.len()
}

/// All numbers of modules are those of modules that were made.
pub open spec fn numbers_made(s: LoaderV) -> bool {
    &&& forall|i: int, k: int|
        #![trigger s.active[i].deps[k]]
        0 <= i < s.active.len() && 0 <= k < s.active[i].deps.len() ==> s.active[i].deps[k] < s.made
    &&& forall|i: int| 0 <= i < s.cache.len() ==> (#[trigger] s.cache[i]).1 < s.made
    &&& s.runtime matches Some(n) ==> n < s.made
}

/// What a step gives out are numbers of modules that were made.
pub open spec fn numbers_known(r: Result<(LoaderV, StepV), RuntimeFault>) -> bool {
    match r {
        Ok((t, StepV::Done(n))) => numbers_made(t) && n < t.made,
        Ok((t, _)) => numbers_made(t),
        Err(_) => true,
    }
}

proof fn delivered_numbers(s: LoaderV, module: nat)
    requires
        numbers_made(s),
        module < s.made,
    ensures
        numbers_known(delivered(s, module)),
    decreases labels_left(s), 0nat,
{
    if s.active.len() > 0 && labels_left(s) > 0 {
        let top = s.active.last();
        let next = FrameV { deps: top.deps.push(module), ..top };
        let t = LoaderV { active: s.active.drop_last().push(next), ..s };
        assert forall|i: int, k: int|
            #![trigger t.active[i].deps[k]]
            0 <= i < t.active.len() && 0 <= k < t.active[i].deps.len() implies t.active[i].deps[k]
            < t.made by {
            if i < t.active.len() - 1 || k < top.deps.len() {
                assert(s.active[i].deps[k] == t.active[i].deps[k]);
            }
        }
        advanced_numbers(t);
    }
}

proof fn advanced_numbers(s: LoaderV)
    requires
        numbers_made(s),
    ensures
        numbers_known(advanced(s)),
    decreases labels_left(s), 1nat,
{
    if labels_left(s) > 0 {
        if let Some(module) = s.runtime {
            delivered_numbers(s, module);
        }
    }
}

proof fn cached_made(c: Seq<(LocationV, nat)>, path: Seq<Seq<u8>>, n: nat, made: nat)
    requires
        n <= c.len(),
        forall|i: int| 0 <= i < c.len() ==> (#[trigger] c[i]).1 < made,
    ensures
        cached(c, path, n) matches Some(m) ==> m < made,
    decreases n,
{
    if n > 0 {
        cached_made(c, path, (n - 1) as nat, made);
        assert(c[n - 1].1 < made);
    }
}

/// Every step keeps to numbers of modules that were made.
pub proof fn steps_keep_numbers(s: LoaderV, path: LocationV, loads: Seq<Seq<char>>)
    requires
        numbers_made(s),
    ensures
        numbers_known(entered(s, path)),
        numbers_known(found(s, path)),
        numbers_known(parsed(s, loads)),
        numbers_known(runtime_made(s)),
        numbers_known(evaluated(s)),
{
    cached_made(s.cache, path.parts, s.cache.len(), s.made);
    if let Some(m) = cached(s.cache, path.parts, s.cache.len()) {
        delivered_numbers(s, m);
    }
    let frame = FrameV { path, loads: Seq::empty(), deps: Seq::empty() };
    let t = LoaderV { active: s.active.push(frame), ..s };
    assert forall|i: int, k: int|
        #![trigger t.active[i].deps[k]]
        0 <= i < t.active.len() && 0 <= k < t.active[i].deps.len() implies t.active[i].deps[k]
        < t.made by {
        assert(s.active[i].deps[k] == t.active[i].deps[k]);
    }
    assert(numbers_made(t));
    if s.active.len() > 0 {
        let top = s.active.last();
        let next = FrameV { loads, deps: Seq::empty(), ..top };
        let u = LoaderV { active: s.active.drop_last().push(next), ..s };
        assert forall|i: int, k: int|
            #![trigger u.active[i].deps[k]]
            0 <= i < u.active.len() && 0 <= k < u.active[i].deps.len() implies u.active[i].deps[k]
            < u.made by {
            assert(s.active[i].deps[k] == u.active[i].deps[k]);
        }
        advanced_numbers(u);
        let v = LoaderV {
            active: s.active.drop_last(),
            cache: s.cache.push((top.path, s.made)),
            made: s.made + 1,
            ..s
        };
        assert forall|i: int, k: int|
            #![trigger v.active[i].deps[k]]
            0 <= i < v.active.len() && 0 <= k < v.active[i].deps.len() implies v.active[i].deps[k]
            < v.made by {
            assert(s.active[i].deps[k] == v.active[i].deps[k]);
        }
        assert forall|i: int| 0 <= i < v.cache.len() implies (#[trigger] v.cache[i]).1 < v.made by {
            if i < s.cache.len() {
                assert(v.cache[i] == s.cache[i]);
            }
        }
        delivered_numbers(v, s.made);
    }
    let w = LoaderV { runtime: Some(s.made), made: s.made + 1, ..s };
    assert forall|i: int, k: int|
        #![trigger w.active[i].deps[k]]
        0 <= i < w.active.len() && 0 <= k < w.active[i].deps.len() implies w.active[i].deps[k]
        < w.made by {
        assert(s.active[i].deps[k] == w.active[i].deps[k]);
    }
    assert forall|i: int| 0 <= i < w.cache.len() implies (#[trigger] w.cache[i]).1 < w.made by {
        assert(w.cache[i] == s.cache[i]);
    }
    delivered_numbers(w, s.made);
}

/// The state in which the module on top has got the module for its next label.
pub open spec fn with_dep(s: LoaderV, module: nat) -> LoaderV {
    let top = s.active.last();
    let next = FrameV { deps: top.deps.push(module), ..top };
    LoaderV { active: s.active.drop_last().push(next), ..s }
}

/// The state in which the labels that the module on top loads are known.
pub open spec fn with_loads(s: LoaderV, loads: Seq<Seq<char>>) -> LoaderV {
    let top = s.active.last();
    let next = FrameV { loads, deps: Seq::empty(), ..top };
    LoaderV { active: s.active.drop_last().push(next), ..s }
}

/// The state in which the shared runtime is evaluated.
pub open spec fn with_runtime(s: LoaderV) -> LoaderV {
    LoaderV { runtime: Some(s.made), made: s.made + 1, ..s }
}

/// The state in which the module on top is evaluated.
pub open spec fn with_module(s: LoaderV) -> LoaderV {
    LoaderV {
        active: s.active.drop_last(),
        cache: s.cache.push((s.active.last().path, s.made)),
        made: s.made + 1,
        ..s
    }
}

/// Whether a state can come after another: what always holds does so still, the root is the same,
/// and the modules that were loaded are there under their numbers.
pub open spec fn outlives(before: LoaderV, after: LoaderV) -> bool {
    &&& wf(after)
    &&& after.root == before.root
    &&& before.cache.len() <= after.cache.len()
    &&& after.cache.take(before.cache.len() as int) == before.cache
}

/// A state that comes after one that comes after another comes after that one.
pub proof fn outlives_in_turn(a: LoaderV, b: LoaderV, c: LoaderV)
    requires
        outlives(a, b),
        outlives(b, c),
    ensures
        outlives(a, c),
{
    assert forall|i: int| 0 <= i < a.cache.len() implies c.cache[i] == a.cache[i] by {
        assert(c.cache.take(b.cache.len() as int)[i] == c.cache[i]);
        assert(b.cache.take(a.cache.len() as int)[i] == b.cache[i]);
    }
    assert(c.cache.take(a.cache.len() as int) =~= a.cache);
}

proof fn with_dep_keeps(s: LoaderV, module: nat)
    requires
        wf(s),
        labels_left(s) > 0,
    ensures
        wf(with_dep(s, module)),
{
    let top = s.active.last();
    let t = with_dep(s, module);
    assert(s.active[s.active.len() - 1] == top);
    assert forall|i: int| 0 <= i < t.active.len() implies under(
        (#[trigger] t.active[i]).path.parts,
        t.root.parts,
    ) && t.active[i].deps.len() <= t.active[i].loads.len() && t.active[i].path == s.active[i].path by {
        assert(s.active[i].path == t.active[i].path);
    }
    assert forall|i: int| 0 <= i < t.active.len() - 1 implies (#[trigger] t.active[i]).deps.len()
        < t.active[i].loads.len() by {
        assert(s.active[i] == t.active[i]);
    }
}

proof fn with_loads_keeps(s: LoaderV, loads: Seq<Seq<char>>)
    requires
        wf(s),
        s.active.len() > 0,
    ensures
        wf(with_loads(s, loads)),
{
    let top = s.active.last();
    let t = with_loads(s, loads);
    assert(s.active[s.active.len() - 1] == top);
    assert forall|i: int| 0 <= i < t.active.len() implies under(
        (#[trigger] t.active[i]).path.parts,
        t.root.parts,
    ) && t.active[i].deps.len() <= t.active[i].loads.len() && t.active[i].path == s.active[i].path by {
        assert(s.active[i].path == t.active[i].path);
    }
    assert forall|i: int| 0 <= i < t.active.len() - 1 implies (#[trigger] t.active[i]).deps.len()
        < t.active[i].loads.len() by {
        assert(s.active[i] == t.active[i]);
    }
}

/// Taking note of a module keeps what always holds.
pub proof fn with_module_keeps(s: LoaderV)
    requires
        wf(s),
        s.active.len() > 0,
    ensures
        wf(with_module(s)),
{
    let top = s.active.last();
    let t = with_module(s);
    assert(s.active[s.active.len() - 1] == top);
    assert forall|i: int| 0 <= i < t.active.len() implies under(
        (#[trigger] t.active[i]).path.parts,
        t.root.parts,
    ) && t.active[i].deps.len() <= t.active[i].loads.len() by {
        assert(s.active[i] == t.active[i]);
    }
    assert forall|i: int| 0 <= i < t.cache.len() implies under(
        (#[trigger] t.cache[i]).0.parts,
        t.root.parts,
    ) by {
        if i < s.cache.len() {
            assert(t.cache[i] == s.cache[i]);
        }
    }
    assert forall|i: int, j: int|
        0 <= i < j < t.active.len() implies t.active[i].path.parts != t.active[j].path.parts by {
        assert(t.active[i] == s.active[i] && t.active[j] == s.active[j]);
    }
    assert forall|i: int, j: int|
        0 <= i < j < t.cache.len() implies t.cache[i].0.parts != t.cache[j].0.parts by {
        assert(t.cache[i] == s.cache[i]);
        if j == s.cache.len() {
            assert(s.active[s.active.len() - 1].path.parts != s.cache[i].0.parts);
        }
    }
    assert forall|i: int, j: int|
        0 <= i < t.active.len() && 0 <= j < t.cache.len() implies t.active[i].path.parts
        != t.cache[j].0.parts by {
        assert(t.active[i] == s.active[i]);
        if j == s.cache.len() {
            assert(s.active[i].path.parts != s.active[s.active.len() - 1].path.parts);
        }
    }
    assert forall|i: int| 0 <= i < t.active.len() - 1 implies (#[trigger] t.active[i]).deps.len()
        < t.active[i].loads.len() by {
        assert(t.active[i] == s.active[i]);
    }
}

/// Delivering a module keeps what always holds, and asks for no file.
pub proof fn delivered_keeps(s: LoaderV, module: nat)
    requires
        wf(s),
    ensures
        match delivered(s, module) {
            Ok((t, step)) => wf(t) && t.cache == s.cache && t.runtime == s.runtime && t.made == s.made
                && t.root == s.root && t.active.len() == s.active.len() && !(step is Read) && (
            step is Done <==> s.active.len() == 0),
            Err(_) => true,
        },
    decreases labels_left(s), 0nat,
{
    if s.active.len() > 0 && labels_left(s) > 0 {
        with_dep_keeps(s, module);
        advanced_keeps(with_dep(s, module));
    }
}

/// Going on with the module on top keeps what always holds, and asks for no file.
pub proof fn advanced_keeps(s: LoaderV)
    requires
        wf(s),
        s.active.len() > 0,
    ensures
        match advanced(s) {
            Ok((t, step)) => wf(t) && t.cache == s.cache && t.runtime == s.runtime && t.made == s.made
                && t.root == s.root && t.active.len() == s.active.len() && !(step is Read) && !(step
                is Done),
            Err(_) => true,
        },
    decreases labels_left(s), 1nat,
{
    if labels_left(s) > 0 {
        if let Some(module) = s.runtime {
            delivered_keeps(s, module);
        }
    }
}

/// Whether a step is one that the loader can want in a state.
pub open spec fn fits(s: LoaderV, step: StepV) -> bool {
    match step {
        StepV::Read(p) => s.active.len() > 0 && s.active.last().path == p,
        StepV::Resolve(_, _) => labels_left(s) > 0,
        StepV::Runtime => labels_left(s) > 0 && s.runtime is None,
        StepV::Evaluate => s.active.len() > 0,
        StepV::Done(_) => s.active.len() == 0,
    }
}

/// Whether what comes of a step fits.
pub open spec fn result_fits(r: Result<(LoaderV, StepV), RuntimeFault>) -> bool {
    match r {
        Ok((t, step)) => fits(t, step),
        Err(_) => true,
    }
}

proof fn delivered_fits(s: LoaderV, module: nat)
    ensures
        result_fits(delivered(s, module)),
    decreases labels_left(s), 0nat,
{
    if s.active.len() > 0 && labels_left(s) > 0 {
        let top = s.active.last();
        let next = FrameV { deps: top.deps.push(module), ..top };
        advanced_fits(LoaderV { active: s.active.drop_last().push(next), ..s });
    }
}

proof fn advanced_fits(s: LoaderV)
    requires
        s.active.len() > 0,
    ensures
        result_fits(advanced(s)),
    decreases labels_left(s), 1nat,
{
    if labels_left(s) > 0 {
        if let Some(module) = s.runtime {
            delivered_fits(s, module);
        }
    }
}

/// What the loader wants next fits its state.
pub proof fn steps_fit(s: LoaderV, path: LocationV, loads: Seq<Seq<char>>)
    ensures
        result_fits(entered(s, path)),
        result_fits(found(s, path)),
        result_fits(parsed(s, loads)),
        result_fits(runtime_made(s)),
        result_fits(evaluated(s)),
{
    if let Some(m) = cached(s.cache, path.parts, s.cache.len()) {
        delivered_fits(s, m);
    }
    if s.active.len() > 0 {
        let top = s.active.last();
        let next = FrameV { loads, deps: Seq::empty(), ..top };
        advanced_fits(LoaderV { active: s.active.drop_last().push(next), ..s });
        delivered_fits(
            LoaderV {
                active: s.active.drop_last(),
                cache: s.cache.push((top.path, s.made)),
                made: s.made + 1,
                ..s
            },
            s.made,
        );
    }
    delivered_fits(LoaderV { runtime: Some(s.made), made: s.made + 1, ..s }, s.made);
}

/// Whether the loader can take a module for the label that the module on top wants next, or for
/// the configuration.
pub open spec fn waits(s: LoaderV) -> bool {
    s.active.len() == 0 || labels_left(s) > 0
}

/// A module is found at a path if one of the first was loaded from it.
pub proof fn cached_is(c: Seq<(LocationV, nat)>, path: Seq<Seq<u8>>, n: nat)
    requires
        n <= c.len(),
    ensures
        cached(c, path, n) is None <==> forall|i: int|
            0 <= i < n ==> (#[trigger] c[i]).0.parts != path,
    decreases n,
{
    if n > 0 {
        cached_is(c, path, (n - 1) as nat);
    }
}

/// Wanting a file keeps what always holds. A file that is then read is under the root, and was
/// neither loaded nor being loaded.
pub proof fn entered_keeps(s: LoaderV, path: LocationV)
    requires
        wf(s),
        waits(s),
    ensures
        match entered(s, path) {
            Ok((t, step)) => wf(t) && t.root == s.root && t.cache == s.cache && t.made == s.made && (!(
            step is Read) ==> t.active.len() == s.active.len()) && (step matches StepV::Read(
                p,
            ) ==> p == path && under(path.parts, s.root.parts) && cached(
                s.cache,
                path.parts,
                s.cache.len(),
            ) is None && !is_active(s.active, path.parts) && t.active.len() == s.active.len() + 1),
            Err(_) => true,
        },
{
    cached_is(s.cache, path.parts, s.cache.len());
    match cached(s.cache, path.parts, s.cache.len()) {
        Some(module) => {
            delivered_keeps(s, module);
        },
        None => {
            let frame = FrameV { path, loads: Seq::empty(), deps: Seq::empty() };
            let t = LoaderV { active: s.active.push(frame), ..s };
            if under(path.parts, s.root.parts) && !is_active(s.active, path.parts) && s.active.len()
                < ACTIVE_LIMIT && s.active.len() + s.cache.len() < MODULE_LIMIT {
                assert forall|i: int, j: int|
                    0 <= i < t.active.len() && 0 <= j < t.cache.len() implies t.active[i].path.parts
                    != t.cache[j].0.parts by {
                    if i == s.active.len() {
                        assert(s.cache[j].0.parts != path.parts);
                    }
                }
                assert forall|i: int, j: int|
                    0 <= i < j < t.active.len() implies t.active[i].path.parts
                    != t.active[j].path.parts by {
                    assert(t.active[i] == s.active[i]);
                    if j == s.active.len() {
                        assert(s.active[i].path.parts != path.parts);
                    }
                }
                assert forall|i: int|
                    0 <= i < t.active.len() implies under(
                    (#[trigger] t.active[i]).path.parts,
                    t.root.parts,
                ) && t.active[i].deps.len() <= t.active[i].loads.len() by {
                    if i < s.active.len() {
                        assert(t.active[i] == s.active[i]);
                    }
                }
                assert forall|i: int| 0 <= i < t.active.len() - 1 implies (
                #[trigger] t.active[i]).deps.len() < t.active[i].loads.len() by {
                    assert(t.active[i] == s.active[i]);
                }
            }
        },
    }
}

/// Learning the labels of the module on top keeps what always holds.
pub proof fn parsed_keeps(s: LoaderV, loads: Seq<Seq<char>>)
    requires
        wf(s),
    ensures
        match parsed(s, loads) {
            Ok((t, step)) => wf(t) && t.root == s.root && t.active.len() == s.active.len() && !(step
                is Read) && !(step is Done) && t.cache == s.cache && t.runtime == s.runtime && t.made
                == s.made,
            Err(_) => true,
        },
{
    if s.active.len() > 0 {
        with_loads_keeps(s, loads);
        advanced_keeps(with_loads(s, loads));
    }
}

/// Evaluating the shared runtime keeps what always holds.
pub proof fn runtime_keeps(s: LoaderV)
    requires
        wf(s),
        s.runtime is None,
    ensures
        match runtime_made(s) {
            Ok((t, step)) => wf(t) && t.root == s.root && t.active.len() == s.active.len() && !(step
                is Read) && t.runtime is Some && t.cache == s.cache && t.made == s.made + 1,
            Err(_) => true,
        },
{
    let t = LoaderV { runtime: Some(s.made), made: s.made + 1, ..s };
    assert(wf(t));
    delivered_keeps(t, s.made);
}

/// Evaluating the module on top keeps what always holds.
pub proof fn evaluated_keeps(s: LoaderV)
    requires
        wf(s),
    ensures
        match evaluated(s) {
            Ok((t, step)) => wf(t) && t.root == s.root && t.active.len() + 1 == s.active.len() && !(
            step is Read) && t.runtime == s.runtime && (step is Done <==> t.active.len() == 0)
                && t.made == s.made + 1,
            Err(_) => true,
        },
{
    if s.active.len() > 0 {
        with_module_keeps(s);
        delivered_keeps(with_module(s), s.made);
    }
}

fn copy_parts(p: &Vec<Vec<u8>>) -> (r: Vec<Vec<u8>>)
    ensures
        parts_view(r@) == parts_view(p@),
{
    let mut r: Vec<Vec<u8>> = Vec::new();
    let mut i: usize = 0;
    while i < p.len()
        invariant
            i <= p@.len(),
            r@.len() == i,
            forall|k: int| 0 <= k < i ==> r@[k]@ == p@[k]@,
        decreases p@.len() - i,
    {
        r.push(copy_bytes(&p[i]));
        i += 1;
    }
    assert(parts_view(r@) =~= parts_view(p@));
    r
}

/// Whether a path is at or under another.
pub fn is_under(path: &Vec<Vec<u8>>, root: &Vec<Vec<u8>>) -> (r: bool)
    ensures
        r == under(parts_view(path@), parts_view(root@)),
{
    let ghost p = parts_view(path@);
    let ghost q = parts_view(root@);
    if root.len() > path.len() {
        return false;
    }
    let mut i: usize = 0;
    while i < root.len()
        invariant
            i <= root@.len() <= path@.len(),
            p == parts_view(path@),
            q == parts_view(root@),
            forall|k: int| 0 <= k < i ==> p[k] == q[k],
        decreases root@.len() - i,
    {
        if !same_bytes(&path[i], &root[i]) {
            assert(p.take(q.len() as int)[i as int] != q[i as int]);
            return false;
        }
        i += 1;
    }
    assert(p.take(q.len() as int) =~= q);
    true
}

fn same_parts(a: &Vec<Vec<u8>>, b: &Vec<Vec<u8>>) -> (r: bool)
    ensures
        r == (parts_view(a@) == parts_view(b@)),
{
    if a.len() != b.len() {
        assert(parts_view(a@).len() != parts_view(b@).len());
        return false;
    }
    let r = is_under(a, b);
    assert(parts_view(a@).take(b@.len() as int) =~= parts_view(a@));
    r
}

impl Location {
    /// The same location once more.
    pub fn copy(&self) -> (r: Location)
        ensures
            r@ == self@,
    {
        Location { parts: copy_parts(&self.parts), shown: self.shown.clone() }
    }
}

fn is_runtime_label(label: &str) -> (r: bool)
    ensures
        r == is_runtime(label@),
{
    text_eq(label, SCL_RUNTIME_LABEL) || text_eq(label, BZL_RUNTIME_LABEL)
}

fn strip_colon(s: &str) -> (r: String)
    ensures
        r@ == without_colon(s@),
{
    proof {
        reveal_strlit(":");
    }
    match strip(s, ":") {
        Some(rest) => rest,
        None => s.to_owned(),
    }
}

fn parent_of(path: &Vec<Vec<u8>>) -> (r: Vec<Vec<u8>>)
    ensures
        parts_view(r@) == parent(parts_view(path@)),
{
    let mut r = copy_parts(path);
    if r.len() > 0 {
        let ghost before = parts_view(r@);
        r.pop();
        assert(parts_view(r@) =~= before.drop_last());
    }
    r
}

fn want(root: &Vec<Vec<u8>>, path: &Vec<Vec<u8>>, label: &str) -> (r: Option<
    (Vec<Vec<u8>>, String),
>)
    ensures
        match (r, wanted(parts_view(root@), parts_view(path@), label@)) {
            (Some((b, t)), Some((base, relative))) => parts_view(b@) == base && t@ == relative,
            (None, None) => true,
            _ => false,
        },
{
    proof {
        reveal_strlit("//");
    }
    if let Some(rest) = strip(label, "//") {
        let rest = strip_colon(rest.as_str());
        return Some((copy_parts(root), replace_char(rest.as_str(), ':', "/")));
    }
    if strip(label, "@").is_some() || strip(label, "/").is_some() {
        return None;
    }
    Some((parent_of(path), strip_colon(label)))
}

/// Whether a step was taken as it should.
pub open spec fn took(
    r: Result<Step, RuntimeError>,
    after: LoaderV,
    want: Result<(LoaderV, StepV), RuntimeFault>,
) -> bool {
    match (r, want) {
        (Ok(step), Ok((t, w))) => step@ == w && after == t,
        (Err(e), Err(f)) => e@ == f,
        _ => false,
    }
}

impl Loader {
    /// A loader that has loaded nothing.
    pub fn new(root: Location) -> (r: Loader)
        ensures
            r@ == (LoaderV {
                root: root@,
                cache: Seq::empty(),
                active: Seq::empty(),
                runtime: None,
                made: 0,
            }),
            wf(r@),
    {
        let r = Loader { root, cache: Vec::new(), active: Vec::new(), runtime: None, made: 0 };
        assert(r@.cache =~= Seq::empty());
        assert(r@.active =~= Seq::empty());
        r
    }

    fn left(&self) -> (r: usize)
        ensures
            r == labels_left(self@),
    {
        let n = self.active.len();
        if n == 0 {
            return 0;
        }
        let top = &self.active[n - 1];
        assert(self@.active.last() == top@);
        if top.deps.len() > top.loads.len() {
            0
        } else {
            top.loads.len() - top.deps.len()
        }
    }

    fn deliver(&mut self, module: usize) -> (r: Result<Step, RuntimeError>)
        ensures
            took(r, final(self)@, delivered(old(self)@, module as nat)),
            wf(old(self)@) ==> outlives(old(self)@, final(self)@),
        decreases labels_left(old(self)@), 0nat,
    {
        assert(self@.cache.take(self@.cache.len() as int) =~= self@.cache);
        if self.active.len() == 0 {
            return Ok(Step::Done(module));
        }
        if self.left() == 0 {
            return Err(RuntimeError::Confused);
        }
        let ghost before = self@;
        let n = self.active.len();
        let mut top = self.active.pop().unwrap();
        let ghost tv = top@;
        assert(tv == before.active.last());
        top.deps.push(module);
        assert(deps_view(top.deps@) =~= tv.deps.push(module as nat));
        let ghost next = FrameV { deps: tv.deps.push(module as nat), ..tv };
        assert(top@ == next);
        self.active.push(top);
        assert(active_view(self.active@) =~= before.active.drop_last().push(next));
        assert(self@ == with_dep(before, module as nat));
        proof {
            if wf(before) {
                with_dep_keeps(before, module as nat);
            }
        }
        self.advance()
    }

    fn advance(&mut self) -> (r: Result<Step, RuntimeError>)
        ensures
            took(r, final(self)@, advanced(old(self)@)),
            wf(old(self)@) ==> outlives(old(self)@, final(self)@),
        decreases labels_left(old(self)@), 1nat,
    {
        assert(self@.cache.take(self@.cache.len() as int) =~= self@.cache);
        if self.left() == 0 {
            return Ok(Step::Evaluate);
        }
        let n = self.active.len();
        let at = self.active[n - 1].deps.len();
        let label = self.active[n - 1].loads[at].clone();
        assert(self@.active.last() == self.active@[n - 1]@);
        assert(label@ == current_label(self@));
        if is_runtime_label(label.as_str()) {
            match self.runtime {
                Some(module) => self.deliver(module),
                None => Ok(Step::Runtime),
            }
        } else {
            match want(&self.root.parts, &self.active[n - 1].path.parts, label.as_str()) {
                Some((base, relative)) => Ok(Step::Resolve(base, relative)),
                None => Err(RuntimeError::UnsupportedLoad(label)),
            }
        }
    }

    fn find_cached(&self, path: &Location) -> (r: Option<usize>)
        ensures
            match (r, cached(self@.cache, path@.parts, self@.cache.len())) {
                (Some(m), Some(n)) => m == n,
                (None, None) => true,
                _ => false,
            },
    {
        let ghost c = self@.cache;
        let mut i: usize = 0;
        while i < self.cache.len()
            invariant
                i <= self.cache@.len(),
                c == cache_view(self.cache@),
                cached(c, path@.parts, i as nat) is None,
            decreases self.cache@.len() - i,
        {
            assert(c[i as int] == (self.cache@[i as int].0@, self.cache@[i as int].1 as nat));
            if same_parts(&self.cache[i].0.parts, &path.parts) {
                proof {
                    cached_first(c, path@.parts, (i + 1) as nat, c.len());
                }
                return Some(self.cache[i].1);
            }
            i += 1;
        }
        None
    }

    fn has_active(&self, path: &Location) -> (r: bool)
        ensures
            r == is_active(self@.active, path@.parts),
    {
        let ghost a = self@.active;
        let mut i: usize = 0;
        while i < self.active.len()
            invariant
                i <= self.active@.len(),
                a == active_view(self.active@),
                forall|k: int| 0 <= k < i ==> (#[trigger] a[k]).path.parts != path@.parts,
            decreases self.active@.len() - i,
        {
            assert(a[i as int] == self.active@[i as int]@);
            if same_parts(&self.active[i].path.parts, &path.parts) {
                return true;
            }
            i += 1;
        }
        false
    }

    /// Wants the module at a path. A path that is refused changes nothing.
    pub fn enter(&mut self, path: Location) -> (r: Result<Step, RuntimeError>)
        requires
            wf(old(self)@),
            waits(old(self)@),
        ensures
            took(r, final(self)@, entered(old(self)@, path@)),
            outlives(old(self)@, final(self)@),
            refused(old(self)@, path@) ==> r is Err && final(self)@ == old(self)@,
    {
        let ghost before = self@;
        proof {
            entered_keeps(before, path@);
            assert(before.cache.take(before.cache.len() as int) =~= before.cache);
        }
        if !is_under(&path.parts, &self.root.parts) {
            return Err(RuntimeError::Outside(path.shown, self.root.shown.clone()));
        }
        if let Some(module) = self.find_cached(&path) {
            return self.deliver(module);
        }
        if self.has_active(&path) {
            return Err(RuntimeError::Cycle(path.shown));
        }
        if self.active.len() >= ACTIVE_LIMIT || self.active.len() + self.cache.len()
            >= MODULE_LIMIT {
            return Err(RuntimeError::Limit);
        }
        let frame = Frame { path: path.copy(), loads: Vec::new(), deps: Vec::new() };
        assert(frame@.loads =~= Seq::empty());
        assert(frame@.deps =~= Seq::empty());
        let ghost fv = frame@;
        self.active.push(frame);
        assert(active_view(self.active@) =~= before.active.push(fv));
        Ok(Step::Read(path))
    }

    /// Takes the labels that the module on top loads.
    pub fn take_labels(&mut self, loads: Vec<String>) -> (r: Result<Step, RuntimeError>)
        requires
            wf(old(self)@),
        ensures
            took(r, final(self)@, parsed(old(self)@, labels_view(loads@))),
            outlives(old(self)@, final(self)@),
    {
        let ghost before = self@;
        proof {
            parsed_keeps(before, labels_view(loads@));
            assert(before.cache.take(before.cache.len() as int) =~= before.cache);
        }
        if self.active.len() == 0 {
            return Err(RuntimeError::Confused);
        }
        let ghost lv = labels_view(loads@);
        let top = self.active.pop().unwrap();
        let ghost tv = top@;
        assert(tv == before.active.last());
        let next = Frame { path: top.path, loads, deps: Vec::new() };
        assert(next@.deps =~= Seq::empty());
        let ghost nv = next@;
        assert(nv == (FrameV { loads: lv, deps: Seq::empty(), ..tv }));
        self.active.push(next);
        assert(active_view(self.active@) =~= before.active.drop_last().push(nv));
        assert(self@ == with_loads(before, lv));
        proof {
            with_loads_keeps(before, lv);
        }
        self.advance()
    }

    /// Takes the location of the path that the module on top wanted. A path that is refused changes
    /// nothing.
    pub fn take_location(&mut self, path: Location) -> (r: Result<Step, RuntimeError>)
        requires
            wf(old(self)@),
        ensures
            took(r, final(self)@, found(old(self)@, path@)),
            outlives(old(self)@, final(self)@),
            refused(old(self)@, path@) ==> r is Err && final(self)@ == old(self)@,
    {
        assert(self@.cache.take(self@.cache.len() as int) =~= self@.cache);
        if self.left() == 0 {
            return Err(RuntimeError::Confused);
        }
        if !is_under(&path.parts, &self.root.parts) {
            let n = self.active.len();
            let at = self.active[n - 1].deps.len();
            let label = self.active[n - 1].loads[at].clone();
            assert(self@.active.last() == self.active@[n - 1]@);
            return Err(RuntimeError::Escapes(label, self.root.shown.clone()));
        }
        self.enter(path)
    }

    /// Takes note that the shared runtime is evaluated.
    pub fn take_runtime(&mut self) -> (r: Result<Step, RuntimeError>)
        requires
            wf(old(self)@),
            old(self)@.runtime is None,
        ensures
            took(r, final(self)@, runtime_made(old(self)@)),
            outlives(old(self)@, final(self)@),
    {
        proof {
            runtime_keeps(self@);
        }
        let module = self.made;
        self.runtime = Some(module);
        self.made = module + 1;
        self.deliver(module)
    }

    /// Takes note that the module on top is evaluated.
    pub fn take_module(&mut self) -> (r: Result<Step, RuntimeError>)
        requires
            wf(old(self)@),
        ensures
            took(r, final(self)@, evaluated(old(self)@)),
            outlives(old(self)@, final(self)@),
    {
        let ghost before = self@;
        proof {
            evaluated_keeps(before);
            assert(before.cache.take(before.cache.len() as int) =~= before.cache);
        }
        if self.active.len() == 0 {
            return Err(RuntimeError::Confused);
        }
        let module = self.made;
        let top = self.active.pop().unwrap();
        let ghost tv = top@;
        assert(tv == before.active.last());
        assert(active_view(self.active@) =~= before.active.drop_last());
        self.cache.push((top.path, module));
        assert(cache_view(self.cache@) =~= before.cache.push((tv.path, module as nat)));
        self.made = module + 1;
        proof {
            with_module_keeps(before);
            assert(self@ == with_module(before));
        }
        let r = self.deliver(module);
        assert(self@.cache.take(before.cache.len() as int) =~= before.cache) by {
            let middle = with_module(before).cache;
            assert(self@.cache.take(middle.len() as int) == middle);
            assert forall|i: int| 0 <= i < before.cache.len() implies self@.cache[i]
                == before.cache[i] by {
                assert(self@.cache.take(middle.len() as int)[i] == middle[i]);
            }
        }
        r
    }
}

proof fn cached_first(c: Seq<(LocationV, nat)>, path: Seq<Seq<u8>>, k: nat, n: nat)
    requires
        k <= n <= c.len(),
        cached(c, path, k) is Some,
    ensures
        cached(c, path, n) == cached(c, path, k),
    decreases n,
{
    if k < n {
        cached_first(c, path, k, (n - 1) as nat);
    }
}

/// Labels of other repositories and absolute paths are looked for nowhere.
pub proof fn foreign_labels_are_refused(
    root: Seq<Seq<u8>>,
    path: Seq<Seq<u8>>,
    label: Seq<char>,
)
    requires
        begins_with(label, "@"@) || begins_with(label, "/"@) && !begins_with(label, "//"@),
    ensures
        wanted(root, path, label) is None,
{
    reveal_strlit("@");
    reveal_strlit("/");
    reveal_strlit("//");
    if begins_with(label, "@"@) && begins_with(label, "//"@) {
        assert(label.take(1)[0] == label[0]);
        assert(label.take(2)[0] == label[0]);
    }
}

/// A file that is wanted while it is being loaded is a cycle, and the evaluation fails.
pub proof fn cycles_are_refused(s: LoaderV, path: LocationV)
    requires
        wf(s),
        is_active(s.active, path.parts),
    ensures
        entered(s, path) == Err::<(LoaderV, StepV), RuntimeFault>(RuntimeFault::Cycle(path.shown)),
{
    let i = choose|i: int| 0 <= i < s.active.len() && (#[trigger] s.active[i]).path.parts
        == path.parts;
    assert(under(s.active[i].path.parts, s.root.parts));
    cached_is(s.cache, path.parts, s.cache.len());
    assert forall|j: int| 0 <= j < s.cache.len() implies (#[trigger] s.cache[j]).0.parts
        != path.parts by {
        assert(s.active[i].path.parts != s.cache[j].0.parts);
    }
}

/// A file that was loaded is not read again: its module goes to the one that wants it.
pub proof fn loaded_files_are_not_read_again(s: LoaderV, path: LocationV, i: int)
    requires
        wf(s),
        0 <= i < s.cache.len(),
        s.cache[i].0.parts == path.parts,
    ensures
        entered(s, path) == delivered(s, s.cache[i].1),
{
    cached_is(s.cache, path.parts, s.cache.len());
    cached_at(s.cache, path.parts, i, s.cache.len());
}

proof fn cached_at(c: Seq<(LocationV, nat)>, path: Seq<Seq<u8>>, i: int, n: nat)
    requires
        0 <= i < n <= c.len(),
        c[i].0.parts == path,
        forall|j: int| 0 <= j < i ==> (#[trigger] c[j]).0.parts != path,
    ensures
        cached(c, path, n) == Some(c[i].1),
    decreases n,
{
    if i < n - 1 {
        cached_at(c, path, i, (n - 1) as nat);
    } else {
        cached_is(c, path, (n - 1) as nat);
    }
}

} // verus!
