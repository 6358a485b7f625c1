//! Local Starlark configuration evaluation with confined loads and best-effort resource limits.
//!
//! `evaluate` starts an evaluation. It asks for sources and locations of files, and goes on with
//! each answer, until it has the value of the configuration or fails. `evaluate_files` decides
//! how files that are declared one by one are laid out for an evaluation.
use crate::convert::{to_json, VALUE_LIMIT};
use crate::fault::RuntimeError;
use crate::json::Json;
use crate::loader::{Frame, Loader, Location, Step, SCL_RUNTIME_LABEL, SOURCE_LIMIT};
use crate::message::same_bytes;
use crate::star::{
    evaluate_module, exported, module_clone, module_loads, parse_module,
};
use starlark::environment::FrozenModule;
use starlark::syntax::AstModule;
use vstd::prelude::*;
use vstd::string::*;

verus! {

use crate::convert::{
    conversion_is_bounded, converted, levels_at, values_in, within, DEPTH_LIMIT,
};
use crate::fault::RuntimeFault;
use crate::json::JsonV;
use crate::loader::{
    cached, current_label, entered, entered_keeps, evaluated, evaluated_keeps, fits, found,
    is_active, labels_left, numbers_made, outlives, outlives_in_turn, parsed, parsed_keeps,
    parts_view, runtime_keeps, runtime_made, steps_fit, steps_keep_numbers, under, wf, FrameV, LoaderV, LocationV, StepV,
};
use crate::star::{
    ast_loads, ast_origin, evaluates_to, exported_value, found_modules, parsed_loads,
};

/// How many calls can be nested in a module.
pub const FRAME_LIMIT: usize = 128;

/// How many bytes a module can use.
pub const HEAP_LIMIT: usize = 67108864;

/// How many steps the evaluation of a module can take.
pub const TICK_LIMIT: u64 = 1_000_000;

/// What an evaluation asks for, or what came of it.
pub enum Request {
    /// The source of a file.
    Source(Location),
    /// The location of a path, relative to a directory.
    Location(Vec<Vec<u8>>, String),
    /// Nothing more: the value of the configuration.
    Finished(Json),
    /// Nothing more: the evaluation failed.
    Failed(RuntimeError),
}

/// What an evaluation asks for, or what came of it.
pub enum RequestV {
    Source(LocationV),
    Location(Seq<Seq<u8>>, Seq<char>),
    Finished(JsonV),
    Failed(RuntimeFault),
}

impl View for Request {
    type V = RequestV;

    open spec fn view(&self) -> RequestV {
        match self {
            Request::Source(p) => RequestV::Source(p@),
            Request::Location(b, r) => RequestV::Location(parts_view(b@), r@),
            Request::Finished(j) => RequestV::Finished(j@),
            Request::Failed(e) => RequestV::Failed(e@),
        }
    }
}

/// What an evaluation waits for.
enum Awaits {
    Source,
    Location,
    Nothing,
}

/// An evaluation on its way.
pub struct Evaluation {
    loader: Loader,
    modules: Vec<FrozenModule>,
    asts: Vec<AstModule>,
    runtime: String,
    symbol: String,
    awaits: Awaits,
}

impl Evaluation {
    /// The state of the loader.
    pub closed spec fn state(self) -> LoaderV {
        self.loader@
    }

    /// The modules that were evaluated.
    pub closed spec fn modules(self) -> Seq<FrozenModule> {
        self.modules@
    }

    /// The files that are being loaded, parsed.
    pub closed spec fn asts(self) -> Seq<Origin> {
        origins(self.asts@)
    }

    /// The source of the shared runtime.
    pub closed spec fn runtime(self) -> Seq<char> {
        self.runtime@
    }

    /// The symbol that the configuration exports.
    pub closed spec fn symbol(self) -> Seq<char> {
        self.symbol@
    }

    /// Whether it waits for the source of the file on top.
    pub closed spec fn awaits_source(self) -> bool {
        self.awaits is Source
    }

    /// Whether it waits for the location of a label.
    pub closed spec fn awaits_location(self) -> bool {
        self.awaits is Location
    }

    spec fn sound(self) -> bool {
        &&& wf(self.loader@)
        &&& numbers_made(self.loader@)
        &&& self.modules@.len() == self.loader@.made
    }

    /// What always holds of an evaluation.
    pub closed spec fn inv(self) -> bool {
        wf(self.loader@) && match self.awaits {
            Awaits::Source => self.sound() && self.asts@.len() + 1 == self.loader@.active.len(),
            Awaits::Location => self.sound() && self.asts@.len() == self.loader@.active.len()
                && labels_left(self.loader@) > 0,
            Awaits::Nothing => true,
        }
    }
}

/// The name and the source of a file.
pub type Origin = (Seq<char>, Seq<char>);

/// What parsed files were made from.
pub open spec fn origins(asts: Seq<AstModule>) -> Seq<Origin> {
    Seq::new(asts.len(), |i: int| ast_origin(asts[i]))
}

/// Where an evaluation stands: the modules, the files that are being loaded, what it asks for,
/// and the state of the loader.
pub struct Standing {
    pub modules: Seq<FrozenModule>,
    pub asts: Seq<Origin>,
    pub symbol: Seq<char>,
    pub request: RequestV,
    pub state: LoaderV,
}

/// What comes of a configuration that was evaluated: the value of its symbol as JSON.
pub open spec fn value_of(module: FrozenModule, symbol: Seq<char>) -> RequestV {
    match exported_value(module, symbol, levels_at(0)) {
        None => RequestV::Failed(RuntimeFault::NoSymbol(symbol)),
        Some(v) => match converted(v, 0, VALUE_LIMIT as nat) {
            Ok((j, _)) => RequestV::Finished(j),
            Err(f) => RequestV::Failed(f),
        },
    }
}

/// The value of a configuration is bounded: it is made of at most a million values, nested at
/// most 64 levels deep under the outermost.
pub proof fn values_are_bounded(module: FrozenModule, symbol: Seq<char>)
    requires
        value_of(module, symbol) is Finished,
    ensures
        values_in(value_of(module, symbol)->Finished_0) <= VALUE_LIMIT,
        within(value_of(module, symbol)->Finished_0, (DEPTH_LIMIT + 1) as nat),
{
    conversion_is_bounded(
        exported_value(module, symbol, levels_at(0))->Some_0,
        0,
        VALUE_LIMIT as nat,
    );
}

/// The labels that a module loads, with the modules that were loaded for them.
pub open spec fn loaded(frame: FrameV, modules: Seq<FrozenModule>) -> Seq<
    (Seq<char>, FrozenModule),
> {
    Seq::new(frame.deps.len(), |k: int| (frame.loads[k], modules[frame.deps[k] as int]))
}

/// Whether a module was evaluated, within the limits, where loads find these modules.
pub open spec fn was_evaluated(
    origin: Origin,
    deps: Seq<(Seq<char>, FrozenModule)>,
    module: FrozenModule,
) -> bool {
    evaluates_to(origin, deps, FRAME_LIMIT, HEAP_LIMIT, TICK_LIMIT, module)
}

/// Whether what the loader wants leads to a standing, with at most `fuel` modules evaluated on
/// the way. Each evaluation may fail; if it does not, the loader goes on with the module that
/// came of it.
pub open spec fn leads(
    s: LoaderV,
    asts: Seq<Origin>,
    step: StepV,
    runtime: Seq<char>,
    end: Standing,
    fuel: nat,
) -> bool
    decreases fuel,
{
    match step {
        StepV::Read(p) => end.request == RequestV::Source(p) && end.state == s && end.asts == asts,
        StepV::Resolve(base, relative) => end.request == RequestV::Location(base, relative)
            && end.state == s && end.asts == asts,
        StepV::Runtime => match parsed_loads(SCL_RUNTIME_LABEL@, runtime) {
            None => end.request == RequestV::Failed(RuntimeFault::Parse),
            Some(_) => end.request == RequestV::Failed(RuntimeFault::Evaluation) || (fuel > 0
                && s.made < end.modules.len() && was_evaluated(
                (SCL_RUNTIME_LABEL@, runtime),
                Seq::empty(),
                end.modules[s.made as int],
            ) && match runtime_made(s) {
                Ok((t, next)) => leads(t, asts, next, runtime, end, (fuel - 1) as nat),
                Err(f) => end.request == RequestV::Failed(f),
            }),
        },
        StepV::Evaluate => end.request == RequestV::Failed(RuntimeFault::Evaluation) || (fuel > 0
            && s.made < end.modules.len() && was_evaluated(
            asts.last(),
            loaded(s.active.last(), end.modules),
            end.modules[s.made as int],
        ) && match evaluated(s) {
            Ok((t, next)) => leads(t, asts.drop_last(), next, runtime, end, (fuel - 1) as nat),
            Err(f) => end.request == RequestV::Failed(f),
        }),
        StepV::Done(n) => n < end.modules.len() && end.request == value_of(
            end.modules[n as int],
            end.symbol,
        ),
    }
}

/// Whether what came of a step of the loader leads to a standing.
pub open spec fn comes_to(
    r: Result<(LoaderV, StepV), RuntimeFault>,
    asts: Seq<Origin>,
    runtime: Seq<char>,
    end: Standing,
) -> bool {
    match r {
        Ok((t, step)) => exists|fuel: nat| leads(t, asts, step, runtime, end, fuel),
        Err(f) => end.request == RequestV::Failed(f),
    }
}

/// Whether modules that were made stay, and others may have come behind them.
pub open spec fn extends(before: Seq<FrozenModule>, after: Seq<FrozenModule>) -> bool {
    before.len() <= after.len() && after.take(before.len() as int) == before
}

/// The files that are being loaded, parsed, once the source of the one on top is known.
pub open spec fn with_ast(s: LoaderV, asts: Seq<Origin>, source: Option<Seq<char>>) -> Seq<
    Origin,
> {
    match source {
        Some(text) => match parsed_loads(s.active.last().path.shown, text) {
            Some(_) => asts.push((s.active.last().path.shown, text)),
            None => asts,
        },
        None => asts,
    }
}

/// What comes of the answer to a request for a source: the file cannot be read, is too long, or
/// cannot be parsed, or the loader goes on with the labels that it loads.
pub open spec fn with_source(s: LoaderV, source: Option<Seq<char>>, bytes: nat) -> Result<
    (LoaderV, StepV),
    RuntimeFault,
> {
    let shown = s.active.last().path.shown;
    match source {
        None => Err(RuntimeFault::Read(shown)),
        Some(text) => if bytes > SOURCE_LIMIT {
            Err(RuntimeFault::TooLong)
        } else {
            match parsed_loads(shown, text) {
                None => Err(RuntimeFault::Parse),
                Some(loads) => parsed(s, loads),
            }
        },
    }
}

/// The modules that were loaded for the labels of a module.
fn dependencies(frame: &Frame, modules: &Vec<FrozenModule>) -> (r: Vec<(String, FrozenModule)>)
    requires
        frame.deps@.len() <= frame.loads@.len(),
        forall|k: int| 0 <= k < frame.deps@.len() ==> (#[trigger] frame.deps@[k]) < modules@.len(),
    ensures
        r@.len() == frame.deps@.len(),
        forall|k: int|
            0 <= k < r@.len() ==> (#[trigger] r@[k]).0@ == frame.loads@[k]@ && r@[k].1
                == modules@[frame.deps@[k] as int],
{
    let mut r: Vec<(String, FrozenModule)> = Vec::new();
    let mut i: usize = 0;
    while i < frame.deps.len()
        invariant
            i <= frame.deps@.len() <= frame.loads@.len(),
            forall|k: int|
                0 <= k < frame.deps@.len() ==> (#[trigger] frame.deps@[k]) < modules@.len(),
            r@.len() == i,
            forall|k: int|
                0 <= k < r@.len() ==> (#[trigger] r@[k]).0@ == frame.loads@[k]@ && r@[k].1
                    == modules@[frame.deps@[k] as int],
        decreases frame.deps@.len() - i,
    {
        let module = module_clone(&modules[frame.deps[i]]);
        r.push((frame.loads[i].clone(), module));
        i += 1;
    }
    r
}

impl Evaluation {
    spec fn standing(self, request: Request) -> Standing {
        Standing {
            modules: self.modules@,
            asts: origins(self.asts@),
            symbol: self.symbol@,
            request: request@,
            state: self.loader@,
        }
    }

    /// Does what the loader wants until that needs an answer from outside.
    fn follow(&mut self, step: Step) -> (r: Request)
        requires
            old(self).sound(),
            fits(old(self).loader@, step@),
            old(self).asts@.len() + (if step is Read {
                1nat
            } else {
                0nat
            }) == old(self).loader@.active.len(),
            step matches Step::Done(n) ==> n < old(self).modules@.len(),
        ensures
            final(self).inv(),
            final(self).runtime@ == old(self).runtime@,
            final(self).symbol@ == old(self).symbol@,
            extends(old(self).modules@, final(self).modules@),
            exists|fuel: nat|
                leads(
                    old(self).loader@,
                    origins(old(self).asts@),
                    step@,
                    old(self).runtime@,
                    final(self).standing(r),
                    fuel,
                ),
            r matches Request::Finished(j) ==> j@.ordered(),
            r is Source ==> final(self).awaits is Source && step is Read,
            r is Location ==> final(self).awaits is Location,
            outlives(old(self).loader@, final(self).loader@),
        decreases
                2 * old(self).loader@.active.len() + (if old(self).loader@.runtime is None {
                    1nat
                } else {
                    0nat
                }),
    {
        let ghost s = self.loader@;
        let ghost asts = origins(self.asts@);
        let ghost before = self.modules@;
        let ghost rt = self.runtime@;
        assert(before.take(before.len() as int) =~= before);
        assert(s.cache.take(s.cache.len() as int) =~= s.cache);
        match step {
            Step::Read(p) => {
                self.awaits = Awaits::Source;
                let r = Request::Source(p);
                assert(leads(s, asts, step@, rt, self.standing(r), 0));
                r
            },
            Step::Resolve(base, relative) => {
                self.awaits = Awaits::Location;
                let r = Request::Location(base, relative);
                assert(leads(s, asts, step@, rt, self.standing(r), 0));
                r
            },
            Step::Runtime => {
                let ast = match parse_module(SCL_RUNTIME_LABEL, self.runtime.clone()) {
                    Ok(ast) => ast,
                    Err(e) => {
                        self.awaits = Awaits::Nothing;
                        let r = Request::Failed(RuntimeError::Parse(e));
                        assert(leads(s, asts, step@, rt, self.standing(r), 0));
                        return r;
                    },
                };
                let none: Vec<(String, FrozenModule)> = Vec::new();
                let module = match evaluate_module(
                    ast,
                    &none,
                    FRAME_LIMIT,
                    HEAP_LIMIT,
                    TICK_LIMIT,
                ) {
                    Ok(module) => module,
                    Err(e) => {
                        self.awaits = Awaits::Nothing;
                        let r = Request::Failed(RuntimeError::Evaluation(e));
                        assert(leads(s, asts, step@, rt, self.standing(r), 0));
                        return r;
                    },
                };
                proof {
                    runtime_keeps(s);
                    steps_keep_numbers(s, s.root, Seq::empty());
                    steps_fit(s, s.root, Seq::empty());
                }
                self.modules.push(module);
                let ghost pushed = self.modules@;
                assert(none@.len() == 0);
                assert(found_modules(none@) =~= Seq::empty());
                let taken = self.loader.take_runtime();
                let ghost middle = self.loader@;
                let r = match taken {
                    Ok(next) => self.follow(next),
                    Err(e) => {
                        self.awaits = Awaits::Nothing;
                        Request::Failed(e)
                    },
                };
                proof {
                    if taken is Ok {
                        outlives_in_turn(s, middle, self.loader@);
                    }
                }
                proof {
                    assert(pushed.take(pushed.len() as int) =~= pushed);
                    assert(self.modules@.take(pushed.len() as int)[s.made as int] == module);
                    assert(self.modules@.take(before.len() as int) =~= pushed.take(
                        before.len() as int,
                    ));
                    assert(pushed.take(before.len() as int) =~= before);
                    self.one_more(s, asts, step@, rt, r, before);
                }
                r
            },
            Step::Evaluate => {
                let n = self.loader.active.len();
                assert(self.loader@.active[n - 1] == self.loader.active@[n - 1]@);
                proof {
                    let top = self.loader.active@[n - 1];
                    assert forall|k: int| 0 <= k < top.deps@.len() implies (
                    #[trigger] top.deps@[k]) < self.modules@.len() by {
                        assert(s.active[n - 1].deps[k] == top.deps@[k] as nat);
                    }
                }
                let deps = dependencies(&self.loader.active[n - 1], &self.modules);
                let ast = self.asts.pop().unwrap();
                assert(origins(self.asts@) =~= asts.drop_last());
                let module = match evaluate_module(
                    ast,
                    &deps,
                    FRAME_LIMIT,
                    HEAP_LIMIT,
                    TICK_LIMIT,
                ) {
                    Ok(module) => module,
                    Err(e) => {
                        self.awaits = Awaits::Nothing;
                        let r = Request::Failed(RuntimeError::Evaluation(e));
                        assert(leads(s, asts, step@, rt, self.standing(r), 0));
                        return r;
                    },
                };
                proof {
                    evaluated_keeps(s);
                    steps_keep_numbers(s, s.root, Seq::empty());
                    steps_fit(s, s.root, Seq::empty());
                }
                self.modules.push(module);
                let ghost pushed = self.modules@;
                assert(found_modules(deps@) =~= loaded(s.active.last(), before));
                let taken = self.loader.take_module();
                let ghost middle = self.loader@;
                let r = match taken {
                    Ok(next) => self.follow(next),
                    Err(e) => {
                        self.awaits = Awaits::Nothing;
                        Request::Failed(e)
                    },
                };
                proof {
                    if taken is Ok {
                        outlives_in_turn(s, middle, self.loader@);
                    }
                }
                proof {
                    assert(pushed.take(pushed.len() as int) =~= pushed);
                    assert(self.modules@.take(pushed.len() as int)[s.made as int] == module);
                    assert(self.modules@.take(before.len() as int) =~= pushed.take(
                        before.len() as int,
                    ));
                    assert(pushed.take(before.len() as int) =~= before);
                    self.one_more(s, asts, step@, rt, r, before);
                }
                r
            },
            Step::Done(n) => {
                self.awaits = Awaits::Nothing;
                let r = match exported(&self.modules[n], self.symbol.as_str()) {
                    Ok(value) => {
                        let mut remaining: usize = VALUE_LIMIT;
                        match to_json(&value, 0, &mut remaining) {
                            Ok(j) => Request::Finished(j),
                            Err(e) => Request::Failed(e),
                        }
                    },
                    Err(e) => Request::Failed(RuntimeError::NoSymbol(self.symbol.clone(), e)),
                };
                assert(exported_value(self.modules@[n as int], self.symbol@, levels_at(0)) is Some
                    || r@ == RequestV::Failed(RuntimeFault::NoSymbol(self.symbol@)));
                assert(leads(s, asts, step@, rt, self.standing(r), 0));
                r
            },
        }
    }

    /// What the next step leads to, the one before it leads to.
    proof fn one_more(
        &self,
        s: LoaderV,
        asts: Seq<Origin>,
        step: StepV,
        runtime: Seq<char>,
        request: Request,
        before: Seq<FrozenModule>,
    )
        requires
            numbers_made(s),
            before.len() == s.made,
            before.len() < self.modules@.len(),
            extends(before, self.modules@),
            fits(s, step),
            match step {
                StepV::Runtime => parsed_loads(SCL_RUNTIME_LABEL@, runtime) is Some
                    && was_evaluated(
                    (SCL_RUNTIME_LABEL@, runtime),
                    Seq::empty(),
                    self.modules@[s.made as int],
                ),
                StepV::Evaluate => was_evaluated(
                    asts.last(),
                    loaded(s.active.last(), before),
                    self.modules@[s.made as int],
                ),
                _ => false,
            },
            step is Runtime ==> comes_to(runtime_made(s), asts, runtime, self.standing(request)),
            step is Evaluate ==> comes_to(
                evaluated(s),
                asts.drop_last(),
                runtime,
                self.standing(request),
            ),
        ensures
            exists|fuel: nat| leads(s, asts, step, runtime, self.standing(request), fuel),
    {
        let end = self.standing(request);
        let next = if step is Runtime {
            runtime_made(s)
        } else {
            evaluated(s)
        };
        let left = if step is Runtime {
            asts
        } else {
            asts.drop_last()
        };
        if step is Evaluate {
            let top = s.active.last();
            assert forall|k: int| 0 <= k < top.deps.len() implies before[top.deps[k] as int]
                == end.modules[top.deps[k] as int] by {
                assert(s.active[s.active.len() - 1].deps[k] < s.made);
                assert(end.modules.take(before.len() as int)[top.deps[k] as int]
                    == end.modules[top.deps[k] as int]);
            }
            assert(loaded(top, before) =~= loaded(top, end.modules));
        }
        match next {
            Ok((t, w)) => {
                let fuel = choose|fuel: nat| leads(t, left, w, runtime, end, fuel);
                assert(leads(s, asts, step, runtime, end, fuel + 1));
            },
            Err(f) => {
                assert(leads(s, asts, step, runtime, end, 1));
            },
        }
    }
}

/// Where an evaluation stands with a request.
pub open spec fn standing_of(e: Evaluation, request: RequestV) -> Standing {
    Standing {
        modules: e.modules(),
        asts: e.asts(),
        symbol: e.symbol(),
        request,
        state: e.state(),
    }
}

/// A loader that has loaded nothing.
pub open spec fn fresh(root: LocationV) -> LoaderV {
    LoaderV { root, cache: Seq::empty(), active: Seq::empty(), runtime: None, made: 0 }
}

/// Whether a file that is asked for is under the root, and neither loaded nor being loaded.
pub open spec fn confined(s: LoaderV, request: RequestV) -> bool {
    request matches RequestV::Source(p) ==> under(p.parts, s.root.parts) && cached(
        s.cache,
        p.parts,
        s.cache.len(),
    ) is None && !is_active(s.active, p.parts)
}

/// Starts the evaluation of a configuration, whose value is that of `symbol`. Loads are confined
/// to the root: relative paths and `//package:file` labels are supported, and the labels of the
/// shared runtime stand for the module of the given source. Each module is evaluated within
/// limits of 64 MiB of heap, a million steps and 128 stack frames, which are kept as well as the
/// machine can; at most 128 modules and 64 levels of loading and of JSON are accepted.
pub fn evaluate(config: Location, symbol: &str, root: Location, runtime: &str) -> (r: (
    Evaluation,
    Request,
))
    ensures
        r.0.inv(),
        r.0.runtime() == runtime@,
        r.0.symbol() == symbol@,
        comes_to(
            entered(fresh(root@), config@),
            Seq::empty(),
            runtime@,
            standing_of(r.0, r.1@),
        ),
        confined(fresh(root@), r.1@),
        r.1 matches Request::Finished(j) ==> j@.ordered(),
        r.1 is Source ==> r.0.awaits_source(),
        r.1 is Location ==> r.0.awaits_location(),
        outlives(fresh(root@), r.0.state()),
{
    let ghost s = fresh(root@);
    let loader = Loader::new(root);
    let mut e = Evaluation {
        loader,
        modules: Vec::new(),
        asts: Vec::new(),
        runtime: runtime.to_owned(),
        symbol: symbol.to_owned(),
        awaits: Awaits::Nothing,
    };
    proof {
        entered_keeps(s, config@);
        steps_keep_numbers(s, config@, Seq::empty());
        steps_fit(s, config@, Seq::empty());
    }
    assert(origins(e.asts@) =~= Seq::empty());
    let entry = e.loader.enter(config);
    let ghost middle = e.loader@;
    let request = match entry {
        Ok(step) => {
            let request = e.follow(step);
            assert(standing_of(e, request@) == e.standing(request));
            proof {
                outlives_in_turn(s, middle, e.loader@);
            }
            request
        },
        Err(x) => Request::Failed(x),
    };
    (e, request)
}

/// What an answer holds, if it holds anything.
pub open spec fn answered(source: Result<String, String>) -> Option<Seq<char>> {
    match source {
        Ok(text) => Some(text@),
        Err(_) => None,
    }
}

/// How many bytes an answer has.
pub open spec fn answer_bytes(source: Result<String, String>) -> nat {
    match source {
        Ok(text) => vstd::utf8::encode_utf8(text@).len(),
        Err(_) => 0,
    }
}

impl Evaluation {
    /// Goes on with the source of the file that was asked for, or with the reason why it cannot
    /// be read.
    pub fn give_source(&mut self, source: Result<String, String>) -> (r: Request)
        requires
            old(self).inv(),
        ensures
            final(self).inv(),
            final(self).runtime() == old(self).runtime(),
            final(self).symbol() == old(self).symbol(),
            extends(old(self).modules(), final(self).modules()),
            if old(self).awaits_source() {
                comes_to(
                    with_source(old(self).state(), answered(source), answer_bytes(source)),
                    with_ast(old(self).state(), old(self).asts(), answered(source)),
                    old(self).runtime(),
                    standing_of(*final(self), r@),
                )
            } else {
                r@ == RequestV::Failed(RuntimeFault::Confused)
            },
            !(r is Source),
            r matches Request::Finished(j) ==> j@.ordered(),
            r is Location ==> final(self).awaits_location(),
            outlives(old(self).state(), final(self).state()),
    {
        assert(self.modules@.take(self.modules@.len() as int) =~= self.modules@);
        assert(self.loader@.cache.take(self.loader@.cache.len() as int) =~= self.loader@.cache);
        if let Awaits::Source = &self.awaits {
        } else {
            self.awaits = Awaits::Nothing;
            return Request::Failed(RuntimeError::Confused);
        }
        let ghost s = self.loader@;
        let n = self.loader.active.len();
        let shown = self.loader.active[n - 1].path.shown.clone();
        assert(s.active.last() == self.loader.active@[n - 1]@);
        self.awaits = Awaits::Nothing;
        let text = match source {
            Ok(text) => text,
            Err(e) => {
                return Request::Failed(RuntimeError::Read(shown, e));
            },
        };
        if text.as_str().as_bytes().len() > SOURCE_LIMIT {
            return Request::Failed(RuntimeError::TooLong);
        }
        let ast = match parse_module(shown.as_str(), text) {
            Ok(ast) => ast,
            Err(e) => {
                return Request::Failed(RuntimeError::Parse(e));
            },
        };
        let loads = module_loads(&ast);
        proof {
            parsed_keeps(s, ast_loads(ast));
            steps_keep_numbers(s, s.root, ast_loads(ast));
            steps_fit(s, s.root, ast_loads(ast));
        }
        let taken = self.loader.take_labels(loads);
        let ghost middle = self.loader@;
        match taken {
            Ok(step) => {
                let ghost before = self.asts@;
                self.asts.push(ast);
                assert(origins(self.asts@) =~= origins(before).push(ast_origin(ast)));
                let r = self.follow(step);
                assert(standing_of(*self, r@) == self.standing(r));
                proof {
                    outlives_in_turn(s, middle, self.loader@);
                }
                r
            },
            Err(e) => Request::Failed(e),
        }
    }

    /// Goes on with the location of the path that was asked for, or with the reason why it cannot
    /// be found.
    pub fn give_location(&mut self, location: Result<Location, String>) -> (r: Request)
        requires
            old(self).inv(),
        ensures
            final(self).inv(),
            final(self).runtime() == old(self).runtime(),
            final(self).symbol() == old(self).symbol(),
            extends(old(self).modules(), final(self).modules()),
            if old(self).awaits_location() {
                match location {
                    Ok(p) => comes_to(
                        found(old(self).state(), p@),
                        old(self).asts(),
                        old(self).runtime(),
                        standing_of(*final(self), r@),
                    ),
                    Err(_) => r@ == RequestV::Failed(
                        RuntimeFault::UnresolvedLoad(current_label(old(self).state())),
                    ),
                }
            } else {
                r@ == RequestV::Failed(RuntimeFault::Confused)
            },
            confined(old(self).state(), r@),
            r matches Request::Finished(j) ==> j@.ordered(),
            r is Source ==> final(self).awaits_source(),
            r is Location ==> final(self).awaits_location(),
            outlives(old(self).state(), final(self).state()),
    {
        assert(self.modules@.take(self.modules@.len() as int) =~= self.modules@);
        assert(self.loader@.cache.take(self.loader@.cache.len() as int) =~= self.loader@.cache);
        if let Awaits::Location = &self.awaits {
        } else {
            self.awaits = Awaits::Nothing;
            return Request::Failed(RuntimeError::Confused);
        }
        let ghost s = self.loader@;
        self.awaits = Awaits::Nothing;
        let path = match location {
            Ok(path) => path,
            Err(e) => {
                let n = self.loader.active.len();
                let at = self.loader.active[n - 1].deps.len();
                let label = self.loader.active[n - 1].loads[at].clone();
                assert(s.active.last() == self.loader.active@[n - 1]@);
                return Request::Failed(RuntimeError::UnresolvedLoad(label, e));
            },
        };
        proof {
            entered_keeps(s, path@);
            steps_keep_numbers(s, path@, Seq::empty());
            steps_fit(s, path@, Seq::empty());
        }
        let taken = self.loader.take_location(path);
        let ghost middle = self.loader@;
        match taken {
            Ok(step) => {
                let r = self.follow(step);
                assert(standing_of(*self, r@) == self.standing(r));
                proof {
                    outlives_in_turn(s, middle, self.loader@);
                }
                r
            },
            Err(e) => Request::Failed(e),
        }
    }
}

/// A logical path of a declared file: its bytes, and the path as it is shown.
pub struct LogicalPath {
    pub bytes: Vec<u8>,
    pub shown: String,
}

/// Where the next slash is, from a place on.
pub open spec fn slash(s: Seq<u8>, from: int) -> int
    decreases s.len() - from,
{
    if from < 0 || from >= s.len() || s[from] == 0x2f {
        from
    } else {
        slash(s, from + 1)
    }
}

/// The names between the slashes of a path, from a place on.
pub open spec fn names_from(s: Seq<u8>, from: int) -> Seq<Seq<u8>>
    decreases s.len() - from,
    when 0 <= from <= s.len()
    via names_from_ends
{
    let end = slash(s, from);
    if end >= s.len() {
        seq![s.subrange(from, s.len() as int)]
    } else {
        seq![s.subrange(from, end)] + names_from(s, end + 1)
    }
}

#[via_fn]
proof fn names_from_ends(s: Seq<u8>, from: int) {
    slash_bounds(s, from);
}

proof fn slash_bounds(s: Seq<u8>, from: int)
    requires
        0 <= from <= s.len(),
    ensures
        from <= slash(s, from) <= s.len(),
    decreases s.len() - from,
{
    if from < s.len() && s[from] != 0x2f {
        slash_bounds(s, from + 1);
    }
}

/// The names on a logical path.
pub open spec fn names_on(s: Seq<u8>) -> Seq<Seq<u8>> {
    names_from(s, 0)
}

/// Whether a name can stand on a logical path: it is not empty, and neither `.` nor `..`.
pub open spec fn plain_name(n: Seq<u8>) -> bool {
    n.len() > 0 && n != seq![0x2eu8] && n != seq![0x2eu8, 0x2eu8]
}

/// Whether a logical path is a nonempty normalized relative path without `.` and `..`.
pub open spec fn is_logical(s: Seq<u8>) -> bool {
    forall|i: int| 0 <= i < names_on(s).len() ==> plain_name(#[trigger] names_on(s)[i])
}

/// How declared files are laid out: the names on the path of each, and on that of the
/// configuration.
pub struct Layout {
    pub config: Vec<Vec<u8>>,
    pub files: Vec<Vec<Vec<u8>>>,
}

/// What the first `n` declared files are refused for.
pub open spec fn refused(files: Seq<LogicalPath>, n: nat) -> Option<RuntimeFault>
    decreases n,
{
    if n == 0 || n > files.len() {
        None
    } else {
        match refused(files, (n - 1) as nat) {
            Some(f) => Some(f),
            None => {
                let path = files[n - 1];
                if !is_logical(path.bytes@) {
                    Some(RuntimeFault::LogicalPath(path.shown@))
                } else if exists|i: int|
                    0 <= i < n - 1 && (#[trigger] files[i]).bytes@ == path.bytes@ {
                    Some(RuntimeFault::DuplicatePath(path.shown@))
                } else {
                    None
                }
            },
        }
    }
}

/// What declared files are refused for: the configuration and each file have a logical path, no
/// path is declared twice, and the configuration is declared.
pub open spec fn files_refused(config: LogicalPath, files: Seq<LogicalPath>) -> Option<
    RuntimeFault,
> {
    if !is_logical(config.bytes@) {
        Some(RuntimeFault::LogicalPath(config.shown@))
    } else {
        match refused(files, files.len()) {
            Some(f) => Some(f),
            None => if exists|i: int|
                0 <= i < files.len() && (#[trigger] files[i]).bytes@ == config.bytes@ {
                None
            } else {
                Some(RuntimeFault::Undeclared(config.shown@))
            },
        }
    }
}

fn split_names(s: &Vec<u8>) -> (r: Vec<Vec<u8>>)
    ensures
        parts_view(r@) == names_on(s@),
{
    let mut r: Vec<Vec<u8>> = Vec::new();
    let mut part: Vec<u8> = Vec::new();
    let mut i: usize = 0;
    let ghost mut from: int = 0;
    assert(parts_view(r@) =~= Seq::empty());
    assert(names_on(s@) =~= Seq::empty() + names_from(s@, 0));
    while i < s.len()
        invariant
            0 <= from <= i <= s@.len(),
            part@ == s@.subrange(from, i as int),
            slash(s@, from) == slash(s@, i as int),
            names_on(s@) == parts_view(r@) + names_from(s@, from),
        decreases s@.len() - i,
    {
        if s[i] == 0x2f {
            assert(slash(s@, i as int) == i);
            let ghost before = parts_view(r@);
            let ghost pv = part@;
            r.push(part);
            assert(parts_view(r@) =~= before.push(pv));
            part = Vec::new();
            i += 1;
            proof {
                assert(names_from(s@, from) == seq![pv] + names_from(s@, i as int));
                assert(before.push(pv) + names_from(s@, i as int) =~= before + (seq![pv]
                    + names_from(s@, i as int)));
                from = i as int;
            }
            assert(part@ =~= s@.subrange(from, i as int));
        } else {
            part.push(s[i]);
            assert(part@ =~= s@.subrange(from, i + 1));
            i += 1;
        }
    }
    let ghost before = parts_view(r@);
    let ghost pv = part@;
    assert(slash(s@, from) == s@.len());
    assert(names_from(s@, from) == seq![pv]);
    r.push(part);
    assert(parts_view(r@) =~= before + seq![pv]);
    r
}

fn is_plain(n: &Vec<u8>) -> (r: bool)
    ensures
        r == plain_name(n@),
{
    let r = n.len() > 0 && !(n.len() == 1 && n[0] == 0x2e) && !(n.len() == 2 && n[0] == 0x2e && n[1]
        == 0x2e);
    proof {
        if n@.len() == 1 && n@[0] == 0x2e {
            assert(n@ =~= seq![0x2eu8]);
        }
        if n@.len() == 2 && n@[0] == 0x2e && n@[1] == 0x2e {
            assert(n@ =~= seq![0x2eu8, 0x2eu8]);
        }
        if n@ == seq![0x2eu8] {
            assert(n@.len() == 1 && n@[0] == 0x2e);
        }
        if n@ == seq![0x2eu8, 0x2eu8] {
            assert(n@.len() == 2 && n@[0] == 0x2e && n@[1] == 0x2e);
        }
    }
    r
}

fn logical_names(s: &Vec<u8>) -> (r: Option<Vec<Vec<u8>>>)
    ensures
        match r {
            Some(p) => is_logical(s@) && parts_view(p@) == names_on(s@),
            None => !is_logical(s@),
        },
{
    let names = split_names(s);
    let mut i: usize = 0;
    while i < names.len()
        invariant
            i <= names@.len(),
            parts_view(names@) == names_on(s@),
            forall|k: int| 0 <= k < i ==> plain_name(#[trigger] names_on(s@)[k]),
        decreases names@.len() - i,
    {
        assert(names_on(s@)[i as int] == names@[i as int]@);
        if !is_plain(&names[i]) {
            return None;
        }
        i += 1;
    }
    Some(names)
}

proof fn refused_stays(files: Seq<LogicalPath>, k: nat, n: nat)
    requires
        k <= n <= files.len(),
        refused(files, k) is Some,
    ensures
        refused(files, n) == refused(files, k),
    decreases n,
{
    if k < n {
        refused_stays(files, k, (n - 1) as nat);
    }
}

fn declares(files: &Vec<LogicalPath>, n: usize, bytes: &Vec<u8>) -> (r: bool)
    requires
        n <= files@.len(),
    ensures
        r == exists|i: int| 0 <= i < n && (#[trigger] files@[i]).bytes@ == bytes@,
{
    let mut i: usize = 0;
    while i < n
        invariant
            i <= n <= files@.len(),
            forall|k: int| 0 <= k < i ==> (#[trigger] files@[k]).bytes@ != bytes@,
        decreases n - i,
    {
        if same_bytes(&files[i].bytes, bytes) {
            assert(files@[i as int].bytes@ == bytes@);
            return true;
        }
        i += 1;
    }
    false
}

/// Decides how explicitly declared files are laid out under a root of their own, or why they are
/// refused. `config` is a logical path and must be that of a declared file.
pub fn evaluate_files(config: &LogicalPath, files: &Vec<LogicalPath>) -> (r: Result<
    Layout,
    RuntimeError,
>)
    ensures
        match (r, files_refused(*config, files@)) {
            (Ok(layout), None) => parts_view(layout.config@) == names_on(config.bytes@)
                && layout.files@.len() == files@.len() && forall|i: int|
                0 <= i < files@.len() ==> parts_view((#[trigger] layout.files@[i])@) == names_on(
                    files@[i].bytes@,
                ),
            (Err(e), Some(f)) => e@ == f,
            _ => false,
        },
{
    let config_names = match logical_names(&config.bytes) {
        Some(names) => names,
        None => {
            return Err(RuntimeError::LogicalPath(config.shown.clone()));
        },
    };
    let mut laid: Vec<Vec<Vec<u8>>> = Vec::new();
    let mut i: usize = 0;
    while i < files.len()
        invariant
            i <= files@.len(),
            is_logical(config.bytes@),
            refused(files@, i as nat) is None,
            laid@.len() == i,
            forall|k: int|
                0 <= k < i ==> parts_view((#[trigger] laid@[k])@) == names_on(files@[k].bytes@),
        decreases files@.len() - i,
    {
        proof {
            if refused(files@, (i + 1) as nat) is Some {
                refused_stays(files@, (i + 1) as nat, files@.len());
            }
        }
        let names = match logical_names(&files[i].bytes) {
            Some(names) => names,
            None => {
                return Err(RuntimeError::LogicalPath(files[i].shown.clone()));
            },
        };
        if declares(files, i, &files[i].bytes) {
            return Err(RuntimeError::DuplicatePath(files[i].shown.clone()));
        }
        laid.push(names);
        i += 1;
    }
    if !declares(files, files.len(), &config.bytes) {
        return Err(RuntimeError::Undeclared(config.shown.clone()));
    }
    Ok(Layout { config: config_names, files: laid })
}

} // verus!
