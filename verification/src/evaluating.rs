//! How an evaluation goes on: what it asks for, and with what modules are evaluated.
use vstd::prelude::*;

verus! {

use crate::fault::{runtime_text, RuntimeError, RuntimeFault};
use crate::labels::{files_are_read, next_label, package_labels, relative_labels};
use crate::loader::{
    advanced, entered, evaluated, is_runtime, wf, FrameV, LoaderV, LocationV, StepV,
};
use crate::runtime::{
    answer_bytes, answered, comes_to, fresh, leads, loaded, value_of, was_evaluated, with_ast,
    Origin, RequestV, Standing,
};
use crate::star::{evaluates_to, parsed_loads};
use starlark::environment::FrozenModule;

/// An evaluation begins with the source of the configuration, if that is under the root, and fails if
/// it is not.
pub proof fn evaluations_begin_with_the_configuration(
    root: LocationV,
    config: LocationV,
    runtime: Seq<char>,
    end: Standing,
)
    requires
        comes_to(entered(fresh(root), config), Seq::empty(), runtime, end),
    ensures
        ({
            let inside = config.parts.len() >= root.parts.len() && forall|i: int|
                0 <= i < root.parts.len() ==> #[trigger] config.parts[i] == root.parts[i];
            &&& inside ==> end.request == RequestV::Source(config)
            &&& !inside ==> end.request == RequestV::Failed(
                RuntimeFault::Outside(config.shown, root.shown),
            )
        }),
{
    let s = fresh(root);
    assert(wf(s));
    files_are_read(s, config);
}

/// A module whose next label is one of a package asks for the file under the directory of the package,
/// and one whose next label is relative for the file in its own directory.
pub proof fn evaluations_ask_for_labels(
    s: LoaderV,
    asts: Seq<Origin>,
    runtime: Seq<char>,
    end: Standing,
    package: Seq<char>,
    file: Seq<char>,
)
    requires
        comes_to(advanced(s), asts, runtime, end),
        crate::labels::no_colon(package),
        crate::labels::no_colon(file),
    ensures
        next_label(s) == Some(seq!['/', '/'] + package + seq![':'] + file) && package.len() > 0
            && !is_runtime(next_label(s)->Some_0) ==> end.request == RequestV::Location(
            s.root.parts,
            package + seq!['/'] + file,
        ),
        next_label(s) == Some(file) && file.len() > 0 && file[0] != '/' && file[0] != '@'
            && s.active[s.active.len() - 1].path.parts.len() > 0 && !is_runtime(file)
            ==> end.request == RequestV::Location(
            s.active[s.active.len() - 1].path.parts.take(
                s.active[s.active.len() - 1].path.parts.len() - 1,
            ),
            file,
        ),
{
    if s.active.len() > 0 {
        let top = s.active.last();
        if package.len() > 0 {
            package_labels(s.root.parts, top.path.parts, package, file);
        }
        if file.len() > 0 && file[0] != '/' && file[0] != '@' && top.path.parts.len() > 0 {
            relative_labels(s.root.parts, top.path.parts, file);
        }
    }
}

/// A module is evaluated with the source that was read, within 128 stack frames, 64 MiB of heap and a
/// million steps, and finds for each of its labels the module that was loaded for it.
pub proof fn modules_find_what_they_load(
    s: LoaderV,
    asts: Seq<Origin>,
    runtime: Seq<char>,
    end: Standing,
    fuel: nat,
)
    requires
        leads(s, asts, StepV::Evaluate, runtime, end, fuel),
        s.active.len() > 0,
        asts.len() > 0,
        end.request != RequestV::Failed(RuntimeFault::Evaluation),
    ensures
        s.made < end.modules.len(),
        exists|deps: Seq<(Seq<char>, FrozenModule)>| #[trigger]
            evaluates_to(
                asts[asts.len() - 1],
                deps,
                128,
                0x400_0000,
                1_000_000,
                end.modules[s.made as int],
            ) && gets(s.active[s.active.len() - 1], end.modules, deps),
        fuel > 0 && s.active.len() == 1 ==> end.request == value_of(
            end.modules[s.made as int],
            end.symbol,
        ),
{
    let top = s.active.last();
    let deps = loaded(top, end.modules);
    assert(was_evaluated(asts.last(), deps, end.modules[s.made as int]));
    assert(gets(top, end.modules, deps));
    assert(evaluates_to(
        asts[asts.len() - 1],
        deps,
        128,
        0x400_0000,
        1_000_000,
        end.modules[s.made as int],
    ));
    if s.active.len() == 1 && fuel > 0 {
        let t = crate::loader::with_module(s);
        assert(t.active.len() == 0);
        assert(evaluated(s) == Ok::<(LoaderV, StepV), RuntimeFault>((t, StepV::Done(s.made))));
        assert(leads(
            t,
            asts.drop_last(),
            StepV::Done(s.made),
            runtime,
            end,
            (fuel - 1) as nat,
        ));
    }
}

/// Whether labels find the modules with these numbers, each under its own label.
pub open spec fn gets(
    top: FrameV,
    modules: Seq<FrozenModule>,
    deps: Seq<(Seq<char>, FrozenModule)>,
) -> bool {
    deps.len() == top.deps.len() && forall|k: int|
        0 <= k < deps.len() ==> (#[trigger] deps[k]).0 == top.loads[k] && deps[k].1
            == modules[top.deps[k] as int]
}

/// A file that was read and parsed is the last of those that are being loaded, under its name and with
/// its source.
pub proof fn sources_are_kept(s: LoaderV, asts: Seq<Origin>, source: Result<String, String>)
    requires
        s.active.len() > 0,
    ensures
        source matches Ok(text) ==> answered(source) == Some(text@) && answer_bytes(source)
            == vstd::utf8::encode_utf8(text@).len() && (parsed_loads(
            s.active[s.active.len() - 1].path.shown,
            text@,
        ) is Some ==> with_ast(s, asts, answered(source)) == asts.push(
            (s.active[s.active.len() - 1].path.shown, text@),
        )),
        source is Err ==> answered(source) is None && with_ast(s, asts, answered(source)) == asts,
{
}

/// Whether a text holds another one.
pub open spec fn holds(t: Seq<char>, part: Seq<char>) -> bool {
    exists|a: Seq<char>, b: Seq<char>| t == #[trigger] (a + part + b)
}

proof fn holds_between(a: Seq<char>, part: Seq<char>, b: Seq<char>)
    ensures
        holds(a + part + b, part),
        holds(a + part, part),
{
    assert(a + part =~= a + part + Seq::<char>::empty());
}

/// An error of an evaluation says what it is about: the path, the label, the symbol or the type, and
/// the reason that was given.
pub proof fn evaluation_errors_say_what_is_wrong(p: String, r: String)
    ensures
        holds(runtime_text(RuntimeError::Outside(p, r)), p@),
        holds(runtime_text(RuntimeError::Outside(p, r)), r@),
        holds(runtime_text(RuntimeError::Cycle(p)), p@),
        holds(runtime_text(RuntimeError::Cycle(p)), "cycle"@),
        holds(runtime_text(RuntimeError::Read(p, r)), p@),
        holds(runtime_text(RuntimeError::Read(p, r)), r@),
        runtime_text(RuntimeError::Parse(r)) == r@,
        runtime_text(RuntimeError::Evaluation(r)) == r@,
        holds(runtime_text(RuntimeError::UnresolvedLoad(p, r)), crate::text::quoted_text(p@)),
        holds(runtime_text(RuntimeError::UnresolvedLoad(p, r)), r@),
        holds(runtime_text(RuntimeError::UnsupportedLoad(p)), crate::text::quoted_text(p@)),
        holds(runtime_text(RuntimeError::Escapes(p, r)), crate::text::quoted_text(p@)),
        holds(runtime_text(RuntimeError::Escapes(p, r)), r@),
        holds(runtime_text(RuntimeError::NoSymbol(p, r)), crate::text::quoted_text(p@)),
        holds(runtime_text(RuntimeError::NoSymbol(p, r)), r@),
        holds(runtime_text(RuntimeError::KeyCollision(p)), crate::text::quoted_text(p@)),
        holds(runtime_text(RuntimeError::IntegerRange(p)), p@),
        holds(runtime_text(RuntimeError::BadValue(p)), p@),
        holds(runtime_text(RuntimeError::LogicalPath(p)), p@),
        holds(runtime_text(RuntimeError::DuplicatePath(p)), p@),
        holds(runtime_text(RuntimeError::Undeclared(p)), p@),
{
    let q = crate::text::quoted_text(p@);
    let front = "convert Starlark configuration to JSON: "@;
    holds_between("config "@, p@, " is outside load root "@ + r@);
    assert("config "@ + p@ + " is outside load root "@ + r@ =~= "config "@ + p@ + (
    " is outside load root "@ + r@));
    holds_between("config "@ + p@ + " is outside load root "@, r@, Seq::empty());
    holds_between("Starlark load cycle at "@, p@, Seq::empty());
    reveal_strlit("Starlark load cycle at ");
    reveal_strlit("Starlark load ");
    reveal_strlit("cycle");
    reveal_strlit(" at ");
    holds_between("Starlark load "@, "cycle"@, " at "@ + p@);
    assert("Starlark load cycle at "@ + p@ =~= "Starlark load "@ + "cycle"@ + (" at "@ + p@));
    holds_between("read "@, p@, ": "@ + r@);
    assert("read "@ + p@ + ": "@ + r@ =~= "read "@ + p@ + (": "@ + r@));
    holds_between("read "@ + p@ + ": "@, r@, Seq::empty());
    holds_between("resolve load "@, q, ": "@ + r@);
    assert("resolve load "@ + q + ": "@ + r@ =~= "resolve load "@ + q + (": "@ + r@));
    holds_between("resolve load "@ + q + ": "@, r@, Seq::empty());
    holds_between("unsupported load "@, q, ": use a relative path or //package:file label"@);
    holds_between("load "@, q, " escapes load root "@ + r@);
    assert("load "@ + q + " escapes load root "@ + r@ =~= "load "@ + q + (" escapes load root "@
        + r@));
    holds_between("load "@ + q + " escapes load root "@, r@, Seq::empty());
    holds_between("configuration has no exported symbol "@, q, ": "@ + r@);
    assert("configuration has no exported symbol "@ + q + ": "@ + r@
        =~= "configuration has no exported symbol "@ + q + (": "@ + r@));
    holds_between("configuration has no exported symbol "@ + q + ": "@, r@, Seq::empty());
    holds_between(front + "map keys collide after JSON conversion: "@, q, Seq::empty());
    holds_between(
        front + "integer "@,
        p@,
        " is outside protobuf signed/unsigned 64-bit range"@,
    );
    holds_between(front + "unsupported configuration value type "@, p@, Seq::empty());
    holds_between(
        "logical load path "@,
        p@,
        " must be a nonempty normalized relative path without . or .. components"@,
    );
    holds_between("duplicate logical load path "@, p@, Seq::empty());
    holds_between("configuration "@, p@, " is not declared in the load files"@);
}

/// The shared runtime is evaluated from its source, within the same limits, and loads nothing. One
/// that cannot be parsed fails.
pub proof fn the_runtime_is_evaluated(
    s: LoaderV,
    asts: Seq<Origin>,
    runtime: Seq<char>,
    end: Standing,
    fuel: nat,
)
    requires
        leads(s, asts, StepV::Runtime, runtime, end, fuel),
    ensures
        parsed_loads("//protolark:runtime.scl"@, runtime) is None ==> end.request
            == RequestV::Failed(RuntimeFault::Parse),
        parsed_loads("//protolark:runtime.scl"@, runtime) is Some && end.request
            != RequestV::Failed(RuntimeFault::Evaluation) ==> s.made < end.modules.len()
            && evaluates_to(
            ("//protolark:runtime.scl"@, runtime),
            Seq::empty(),
            128,
            0x400_0000,
            1_000_000,
            end.modules[s.made as int],
        ),
{
}

/// What the loader asks for is what the evaluation asks for, with nothing else changed, and a step
/// that fails fails the evaluation for the same reason.
pub proof fn steps_are_asked_for(
    s: LoaderV,
    path: LocationV,
    base: Seq<Seq<u8>>,
    relative: Seq<char>,
    f: RuntimeFault,
    asts: Seq<Origin>,
    runtime: Seq<char>,
    end: Standing,
)
    ensures
        comes_to(Err::<(LoaderV, StepV), RuntimeFault>(f), asts, runtime, end) ==> end.request
            == RequestV::Failed(f),
        comes_to(
            Ok::<(LoaderV, StepV), RuntimeFault>((s, StepV::Read(path))),
            asts,
            runtime,
            end,
        ) ==> end.request == RequestV::Source(path) && end.state == s && end.asts == asts,
        comes_to(
            Ok::<(LoaderV, StepV), RuntimeFault>((s, StepV::Resolve(base, relative))),
            asts,
            runtime,
            end,
        ) ==> end.request == RequestV::Location(base, relative) && end.state == s && end.asts
            == asts,
{
}

/// An evaluation goes on with what comes of each module that is evaluated, and ends with the value of
/// the configuration.
pub proof fn evaluations_go_on(
    s: LoaderV,
    asts: Seq<Origin>,
    runtime: Seq<char>,
    end: Standing,
    fuel: nat,
    n: nat,
)
    ensures
        leads(s, asts, StepV::Evaluate, runtime, end, fuel) && end.request != RequestV::Failed(
            RuntimeFault::Evaluation,
        ) ==> comes_to(evaluated(s), asts.take(asts.len() - 1), runtime, end) || asts.len() == 0,
        leads(s, asts, StepV::Runtime, runtime, end, fuel) && end.request != RequestV::Failed(
            RuntimeFault::Evaluation,
        ) && parsed_loads("//protolark:runtime.scl"@, runtime) is Some ==> comes_to(
            crate::loader::runtime_made(s),
            asts,
            runtime,
            end,
        ),
        leads(s, asts, StepV::Done(n), runtime, end, fuel) ==> n < end.modules.len() && end.request
            == value_of(end.modules[n as int], end.symbol),
{
    if asts.len() > 0 {
        assert(asts.drop_last() =~= asts.take(asts.len() - 1));
    }
    if leads(s, asts, StepV::Evaluate, runtime, end, fuel) && end.request != RequestV::Failed(
        RuntimeFault::Evaluation,
    ) && asts.len() > 0 {
        if let Ok((t, next)) = evaluated(s) {
            assert(leads(t, asts.drop_last(), next, runtime, end, (fuel - 1) as nat));
        }
    }
    if leads(s, asts, StepV::Runtime, runtime, end, fuel) && end.request != RequestV::Failed(
        RuntimeFault::Evaluation,
    ) && parsed_loads("//protolark:runtime.scl"@, runtime) is Some {
        if let Ok((t, next)) = crate::loader::runtime_made(s) {
            assert(leads(t, asts, next, runtime, end, (fuel - 1) as nat));
        }
    }
}

} // verus!
