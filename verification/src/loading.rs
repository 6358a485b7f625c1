//! Whole loads: what comes of wanting a file, once all that it loads has been loaded.
use vstd::prelude::*;

verus! {

use crate::fault::RuntimeFault;
use crate::loader::{
    advanced, cached, cached_is, current_label, delivered, delivered_keeps, entered, entered_keeps,
    evaluated, evaluated_keeps, fits, found, is_active, is_runtime, labels_left, outlives,
    outlives_in_turn, parsed, parsed_keeps, runtime_keeps, runtime_made, steps_fit, under, waits,
    wanted, wf, with_dep, with_loads, with_module, with_module_keeps, with_runtime, FrameV, LoaderV,
    LocationV, StepV, ACTIVE_LIMIT, MODULE_LIMIT,
};
use crate::runtime::fresh;

/// What a load finds outside: the labels that a file loads, or why it has none; where a path
/// relative to a directory is, if it is anywhere; which modules can be evaluated, and whether the
/// shared runtime can.
pub struct Outside {
    pub loads: spec_fn(LocationV) -> Result<Seq<Seq<char>>, RuntimeFault>,
    pub place: spec_fn(Seq<Seq<u8>>, Seq<char>) -> Option<LocationV>,
    pub runs: spec_fn(LocationV) -> bool,
    pub runtime_runs: bool,
}

/// What comes of doing what the loader wants, until the module above so many others is evaluated:
/// the state with that module, and its number. `fuel` bounds the steps.
pub open spec fn run(
    s: LoaderV,
    step: StepV,
    outside: Outside,
    level: nat,
    fuel: nat,
) -> Result<(LoaderV, nat), RuntimeFault>
    decreases fuel, 0nat,
{
    if fuel == 0 {
        Err(RuntimeFault::Confused)
    } else {
        let less = (fuel - 1) as nat;
        match step {
            StepV::Read(p) => match (outside.loads)(p) {
                Ok(l) => go_on(parsed(s, l), outside, level, less),
                Err(e) => Err(e),
            },
            StepV::Resolve(base, relative) => match (outside.place)(base, relative) {
                Some(p) => go_on(found(s, p), outside, level, less),
                None => Err(RuntimeFault::UnresolvedLoad(current_label(s))),
            },
            StepV::Runtime => if outside.runtime_runs {
                go_on(runtime_made(s), outside, level, less)
            } else {
                Err(RuntimeFault::Evaluation)
            },
            StepV::Evaluate => if !(outside.runs)(s.active.last().path) {
                Err(RuntimeFault::Evaluation)
            } else if s.active.len() == level + 1 {
                Ok((with_module(s), s.made))
            } else {
                go_on(evaluated(s), outside, level, less)
            },
            StepV::Done(_) => Err(RuntimeFault::Confused),
        }
    }
}

/// Goes on with what came of a step.
pub open spec fn go_on(
    r: Result<(LoaderV, StepV), RuntimeFault>,
    outside: Outside,
    level: nat,
    fuel: nat,
) -> Result<(LoaderV, nat), RuntimeFault>
    decreases fuel, 1nat,
{
    match r {
        Ok((t, w)) => run(t, w, outside, level, fuel),
        Err(e) => Err(e),
    }
}

/// What comes of wanting a file: the state in which it is loaded, and the number of its module.
pub open spec fn load(s: LoaderV, path: LocationV, outside: Outside, fuel: nat) -> Result<
    (LoaderV, nat),
    RuntimeFault,
> {
    match cached(s.cache, path.parts, s.cache.len()) {
        Some(m) if under(path.parts, s.root.parts) => Ok((s, m)),
        _ => go_on(entered(s, path), outside, s.active.len(), fuel),
    }
}

/// Whether a state is one on the way to the module at a path, wanted in another state.
spec fn on_the_way(base: LoaderV, path: LocationV, s: LoaderV) -> bool {
    let level = base.active.len() as int;
    &&& outlives(base, s)
    &&& s.active.len() > level
    &&& s.active.take(level) == base.active
    &&& s.active[level].path == path
}

/// Delivering a module changes only what is on top.
proof fn only_the_top(s: LoaderV, module: nat)
    requires
        s.active.len() > 0,
        delivered(s, module) is Ok,
    ensures
        ({
            let t = (delivered(s, module)->Ok_0).0;
            &&& t.active.len() == s.active.len()
            &&& t.active.drop_last() == s.active.drop_last()
            &&& t.active.last().path == s.active.last().path
        }),
    decreases labels_left(s), 0nat,
{
    let u = with_dep(s, module);
    assert(u.active.drop_last() =~= s.active.drop_last());
    only_the_top_advanced(u);
}

proof fn only_the_top_advanced(s: LoaderV)
    requires
        s.active.len() > 0,
        advanced(s) is Ok,
    ensures
        ({
            let t = (advanced(s)->Ok_0).0;
            &&& t.active.len() == s.active.len()
            &&& t.active.drop_last() == s.active.drop_last()
            &&& t.active.last().path == s.active.last().path
        }),
    decreases labels_left(s), 1nat,
{
    if labels_left(s) > 0 {
        if let Some(module) = s.runtime {
            if delivered(s, module) is Ok {
                only_the_top(s, module);
            }
        }
    }
}

/// Changing only what is on top stays on the way.
proof fn still_on_the_way(base: LoaderV, path: LocationV, s: LoaderV, t: LoaderV)
    requires
        on_the_way(base, path, s),
        outlives(s, t),
        t.active.len() == s.active.len(),
        t.active.drop_last() == s.active.drop_last(),
        t.active.last().path == s.active.last().path,
    ensures
        on_the_way(base, path, t),
{
    outlives_in_turn(base, s, t);
    let level = base.active.len() as int;
    assert forall|i: int| 0 <= i < t.active.len() - 1 implies t.active[i] == s.active[i] by {
        assert(t.active.drop_last()[i] == t.active[i]);
        assert(s.active.drop_last()[i] == s.active[i]);
    }
    assert(t.active.take(level) =~= s.active.take(level));
}

/// A module that comes out of a load is the last that was loaded, and what was being loaded before
/// is being loaded still.
proof fn run_keeps(
    base: LoaderV,
    path: LocationV,
    s: LoaderV,
    step: StepV,
    outside: Outside,
    fuel: nat,
)
    requires
        on_the_way(base, path, s),
        wf(s),
        fits(s, step),
        run(s, step, outside, base.active.len(), fuel) is Ok,
    ensures
        ({
            let (u, m) = run(s, step, outside, base.active.len(), fuel)->Ok_0;
            &&& outlives(base, u)
            &&& u.active == base.active
            &&& u.cache.len() > 0
            &&& u.cache.last() == (path, m)
        }),
    decreases fuel,
{
    let level = base.active.len();
    let less = (fuel - 1) as nat;
    assert(s.cache.take(s.cache.len() as int) =~= s.cache);
    match step {
        StepV::Read(p) => {
            let l = (outside.loads)(p)->Ok_0;
            let (t, w) = parsed(s, l)->Ok_0;
            parsed_keeps(s, l);
            steps_fit(s, p, l);
            assert(with_loads(s, l).active.drop_last() =~= s.active.drop_last());
            only_the_top_advanced(with_loads(s, l));
            still_on_the_way(base, path, s, t);
            run_keeps(base, path, t, w, outside, less);
        },
        StepV::Resolve(b, r) => {
            let p = (outside.place)(b, r)->Some_0;
            let (t, w) = found(s, p)->Ok_0;
            entered_keeps(s, p);
            steps_fit(s, p, Seq::empty());
            match cached(s.cache, p.parts, s.cache.len()) {
                Some(module) => {
                    only_the_top(s, module);
                    still_on_the_way(base, path, s, t);
                },
                None => {
                    assert(t.active.take(level as int) =~= s.active.take(level as int));
                    outlives_in_turn(base, s, t);
                },
            }
            run_keeps(base, path, t, w, outside, less);
        },
        StepV::Runtime => {
            let (t, w) = runtime_made(s)->Ok_0;
            runtime_keeps(s);
            steps_fit(s, s.root, Seq::empty());
            only_the_top(with_runtime(s), s.made);
            still_on_the_way(base, path, s, t);
            run_keeps(base, path, t, w, outside, less);
        },
        StepV::Evaluate => {
            with_module_keeps(s);
            let v = with_module(s);
            assert(v.cache.take(s.cache.len() as int) =~= s.cache);
            outlives_in_turn(base, s, v);
            if s.active.len() == level + 1 {
                assert(v.active =~= s.active.take(level as int));
                assert(s.active.last() == s.active[level as int]);
            } else {
                let (t, w) = evaluated(s)->Ok_0;
                evaluated_keeps(s);
                steps_fit(s, s.root, Seq::empty());
                assert(v.active.take(level as int) =~= s.active.take(level as int));
                assert(v.active[level as int] == s.active[level as int]);
                only_the_top(v, s.made);
                delivered_keeps(v, s.made);
                assert(t.cache.take(v.cache.len() as int) =~= v.cache);
                still_on_the_way(base, path, v, t);
                run_keeps(base, path, t, w, outside, less);
            }
        },
        StepV::Done(_) => {},
    }
}

/// The last module that was loaded is found at its path.
proof fn last_is_cached(s: LoaderV)
    requires
        wf(s),
        s.cache.len() > 0,
    ensures
        cached(s.cache, s.cache.last().0.parts, s.cache.len()) == Some(s.cache.last().1),
{
    let n = (s.cache.len() - 1) as nat;
    cached_is(s.cache, s.cache.last().0.parts, n);
    assert forall|i: int| 0 <= i < n implies (#[trigger] s.cache[i]).0.parts
        != s.cache.last().0.parts by {
        assert(s.cache[i].0.parts != s.cache[n as int].0.parts);
    }
}

/// What a whole load does. A file outside the root is refused. A file that was loaded gives its
/// module, and nothing changes. A file that is being loaded is a cycle. Otherwise, if the load
/// succeeds, the file is loaded afterwards, what was being loaded is being loaded still, what was
/// loaded before is there under its number, and the same file wanted again gives the same module.
pub proof fn whole_loads(s: LoaderV, path: LocationV, outside: Outside, fuel: nat, again: nat)
    requires
        wf(s),
        waits(s),
    ensures
        !under(path.parts, s.root.parts) ==> load(s, path, outside, fuel) == Err::<
            (LoaderV, nat),
            RuntimeFault,
        >(RuntimeFault::Outside(path.shown, s.root.shown)),
        under(path.parts, s.root.parts) ==> (cached(s.cache, path.parts, s.cache.len()) matches Some(m)
            ==> load(s, path, outside, fuel) == Ok::<(LoaderV, nat), RuntimeFault>((s, m))),
        is_active(s.active, path.parts) ==> load(s, path, outside, fuel) == Err::<
            (LoaderV, nat),
            RuntimeFault,
        >(RuntimeFault::Cycle(path.shown)),
        load(s, path, outside, fuel) matches Ok((u, m)) ==> outlives(s, u) && u.active == s.active
            && cached(u.cache, path.parts, u.cache.len()) == Some(m) && load(
            u,
            path,
            outside,
            again,
        ) == Ok::<(LoaderV, nat), RuntimeFault>((u, m)),
{
    assert(s.cache.take(s.cache.len() as int) =~= s.cache);
    if is_active(s.active, path.parts) {
        crate::loader::cycles_are_refused(s, path);
        cached_is(s.cache, path.parts, s.cache.len());
        let i = choose|i: int| 0 <= i < s.active.len() && (#[trigger] s.active[i]).path.parts
            == path.parts;
        assert(under(s.active[i].path.parts, s.root.parts));
        assert forall|j: int| 0 <= j < s.cache.len() implies (#[trigger] s.cache[j]).0.parts
            != path.parts by {
            assert(s.active[i].path.parts != s.cache[j].0.parts);
        }
    }
    if load(s, path, outside, fuel) is Ok && cached(s.cache, path.parts, s.cache.len()) is None {
        let (t, w) = entered(s, path)->Ok_0;
        let (u, m) = load(s, path, outside, fuel)->Ok_0;
        entered_keeps(s, path);
        steps_fit(s, path, Seq::empty());
        let level = s.active.len() as int;
        assert(t.active.take(level) =~= s.active);
        run_keeps(s, path, t, w, outside, fuel);
        last_is_cached(u);
    }
}

/// The limits on loads: a file that is neither loaded nor being loaded is refused if, and only if,
/// as many files are being loaded as can be at a time, or as many were loaded or are being loaded
/// as can be in all.
pub proof fn load_limits_are_exact(s: LoaderV, path: LocationV)
    requires
        under(path.parts, s.root.parts),
        cached(s.cache, path.parts, s.cache.len()) is None,
        !is_active(s.active, path.parts),
    ensures
        entered(s, path) is Ok <==> s.active.len() < ACTIVE_LIMIT && s.active.len() + s.cache.len()
            < MODULE_LIMIT,
        entered(s, path) is Err ==> entered(s, path) == Err::<(LoaderV, StepV), RuntimeFault>(
            RuntimeFault::Limit,
        ),
{
}

/// Whether files make a chain: each loads the next by its label, and the last loads nothing. All of
/// them are under the root, and can be evaluated.
pub open spec fn is_chain(
    outside: Outside,
    root: LocationV,
    files: Seq<LocationV>,
    labels: Seq<Seq<char>>,
) -> bool {
    &&& files.len() > 0
    &&& files.len() == labels.len()
    &&& forall|i: int, j: int| 0 <= i < j < files.len() ==> files[i].parts != files[j].parts
    &&& forall|i: int|
        0 <= i < files.len() ==> under((#[trigger] files[i]).parts, root.parts) && (outside.runs)(
            files[i],
        ) && (outside.loads)(files[i]) == Ok::<Seq<Seq<char>>, RuntimeFault>(
            if i < files.len() - 1 {
                seq![labels[i]]
            } else {
                Seq::empty()
            },
        )
    &&& forall|i: int|
        0 <= i < files.len() - 1 ==> leads_to(
            outside,
            root,
            #[trigger] files[i],
            labels[i],
            files[i + 1],
        )
}

/// Whether a label in one file stands for another.
pub open spec fn leads_to(
    outside: Outside,
    root: LocationV,
    from: LocationV,
    label: Seq<char>,
    to: LocationV,
) -> bool {
    !is_runtime(label) && match wanted(root.parts, from.parts, label) {
        Some((base, relative)) => (outside.place)(base, relative) == Some(to),
        None => false,
    }
}

/// The state in which the first `n` files of a chain are being loaded.
spec fn chain_state(
    root: LocationV,
    files: Seq<LocationV>,
    labels: Seq<Seq<char>>,
    n: nat,
) -> LoaderV {
    LoaderV {
        active: Seq::new(
            n,
            |k: int| FrameV { path: files[k], loads: seq![labels[k]], deps: Seq::empty() },
        ),
        ..fresh(root)
    }
}

/// Once the last file of a chain is there, the files before it follow.
proof fn chain_comes_up(
    outside: Outside,
    files: Seq<LocationV>,
    s: LoaderV,
    fuel: nat,
)
    requires
        0 < s.active.len() <= files.len(),
        forall|k: int|
            0 <= k < s.active.len() ==> (#[trigger] s.active[k]).path == files[k] && (outside.runs)(
                files[k],
            ),
        forall|k: int|
            0 <= k < s.active.len() - 1 ==> (#[trigger] s.active[k]).loads.len() == 1
                && s.active[k].deps.len() == 0,
        fuel >= s.active.len(),
    ensures
        run(s, StepV::Evaluate, outside, 0, fuel) is Ok,
    decreases s.active.len(),
{
    let n = s.active.len();
    assert(s.active[n - 1].path == files[n - 1]);
    if n > 1 {
        let v = with_module(s);
        let w = with_dep(v, s.made);
        assert(v.active.last() == s.active[n - 2]);
        assert(labels_left(v) == 1);
        assert(w.active.last().deps.len() == 1);
        assert(labels_left(w) == 0);
        assert(evaluated(s) == Ok::<(LoaderV, StepV), RuntimeFault>((w, StepV::Evaluate)));
        assert forall|k: int| 0 <= k < w.active.len() implies (#[trigger] w.active[k]).path
            == files[k] && (outside.runs)(files[k]) by {
            assert(s.active[k].path == files[k]);
        }
        assert forall|k: int| 0 <= k < w.active.len() - 1 implies (
        #[trigger] w.active[k]).loads.len() == 1 && w.active[k].deps.len() == 0 by {
            assert(w.active[k] == s.active[k]);
        }
        chain_comes_up(outside, files, w, (fuel - 1) as nat);
    }
}

proof fn chain_goes_down(
    outside: Outside,
    root: LocationV,
    files: Seq<LocationV>,
    labels: Seq<Seq<char>>,
    n: nat,
    fuel: nat,
)
    requires
        is_chain(outside, root, files, labels),
        n < files.len(),
        fuel >= 3 * files.len() - 2 * n,
    ensures
        ({
            let r = go_on(
                entered(chain_state(root, files, labels, n), files[n as int]),
                outside,
                0,
                fuel,
            );
            &&& files.len() <= ACTIVE_LIMIT ==> r is Ok
            &&& files.len() > ACTIVE_LIMIT && n <= ACTIVE_LIMIT ==> r == Err::<
                (LoaderV, nat),
                RuntimeFault,
            >(RuntimeFault::Limit)
        }),
    decreases files.len() - n,
{
    let s = chain_state(root, files, labels, n);
    let path = files[n as int];
    assert(under(path.parts, root.parts));
    assert(!is_active(s.active, path.parts)) by {
        if is_active(s.active, path.parts) {
            let i = choose|i: int| 0 <= i < s.active.len() && (#[trigger] s.active[i]).path.parts
                == path.parts;
            assert(files[i].parts != files[n as int].parts);
        }
    }
    assert(cached(s.cache, path.parts, s.cache.len()) is None);
    if n < ACTIVE_LIMIT {
        let frame = FrameV { path, loads: Seq::empty(), deps: Seq::empty() };
        let t = LoaderV { active: s.active.push(frame), ..s };
        assert(entered(s, path) == Ok::<(LoaderV, StepV), RuntimeFault>((t, StepV::Read(path))));
        let loads = (outside.loads)(path)->Ok_0;
        let u = with_loads(t, loads);
        assert(t.active.drop_last() =~= s.active);
        if n < files.len() - 1 {
            let next = chain_state(root, files, labels, n + 1);
            assert(leads_to(outside, root, files[n as int], labels[n as int], files[n as int + 1]));
            assert(u.active.last().path == path);
            assert(u == next) by {
                assert(u.active =~= next.active);
            }
            let (base, relative) = wanted(root.parts, path.parts, labels[n as int])->Some_0;
            assert(labels_left(u) == 1);
            assert(u.active.last().loads[0] == labels[n as int]);
            assert(parsed(t, loads) == Ok::<(LoaderV, StepV), RuntimeFault>(
                (u, StepV::Resolve(base, relative)),
            ));
            chain_goes_down(outside, root, files, labels, n + 1, (fuel - 2) as nat);
            assert(under(files[n as int + 1].parts, root.parts));
            assert(found(u, files[n as int + 1]) == entered(u, files[n as int + 1]));
            assert(run(u, StepV::Resolve(base, relative), outside, 0, (fuel - 1) as nat) == go_on(
                entered(u, files[n as int + 1]),
                outside,
                0,
                (fuel - 2) as nat,
            ));
            assert(run(t, StepV::Read(path), outside, 0, fuel) == go_on(
                parsed(t, loads),
                outside,
                0,
                (fuel - 1) as nat,
            ));
        } else {
            assert(labels_left(u) == 0);
            assert(parsed(t, loads) == Ok::<(LoaderV, StepV), RuntimeFault>(
                (u, StepV::Evaluate),
            ));
            assert forall|k: int| 0 <= k < u.active.len() implies (#[trigger] u.active[k]).path
                == files[k] && (outside.runs)(files[k]) by {
                if k < n {
                    assert(u.active[k] == s.active[k]);
                }
                assert(under(files[k].parts, root.parts));
            }
            assert forall|k: int| 0 <= k < u.active.len() - 1 implies (
            #[trigger] u.active[k]).loads.len() == 1 && u.active[k].deps.len() == 0 by {
                assert(u.active[k] == s.active[k]);
            }
            chain_comes_up(outside, files, u, (fuel - 1) as nat);
        }
    }
}

/// How deep loads can go: a chain of files is loaded if, and only if, it has no more files than can
/// be loaded at a time.
pub proof fn chains_are_limited(
    outside: Outside,
    root: LocationV,
    files: Seq<LocationV>,
    labels: Seq<Seq<char>>,
    fuel: nat,
)
    requires
        is_chain(outside, root, files, labels),
        fuel >= 3 * files.len(),
    ensures
        load(fresh(root), files[0], outside, fuel) is Ok <==> files.len() <= ACTIVE_LIMIT,
        files.len() > ACTIVE_LIMIT ==> load(fresh(root), files[0], outside, fuel) == Err::<
            (LoaderV, nat),
            RuntimeFault,
        >(RuntimeFault::Limit),
{
    chain_goes_down(outside, root, files, labels, 0, fuel);
    assert(chain_state(root, files, labels, 0) == fresh(root)) by {
        assert(chain_state(root, files, labels, 0).active =~= Seq::empty());
    }
}

/// Whether a file loads others, each by its label, which load nothing. All of them are under the
/// root, and can be evaluated.
pub open spec fn is_fan(
    outside: Outside,
    root: LocationV,
    hub: LocationV,
    files: Seq<LocationV>,
    labels: Seq<Seq<char>>,
) -> bool {
    &&& files.len() == labels.len()
    &&& under(hub.parts, root.parts) && (outside.runs)(hub) && (outside.loads)(hub) == Ok::<
        Seq<Seq<char>>,
        RuntimeFault,
    >(labels)
    &&& forall|i: int, j: int| 0 <= i < j < files.len() ==> files[i].parts != files[j].parts
    &&& forall|i: int|
        0 <= i < files.len() ==> under((#[trigger] files[i]).parts, root.parts) && files[i].parts
            != hub.parts && (outside.runs)(files[i]) && (outside.loads)(files[i]) == Ok::<
            Seq<Seq<char>>,
            RuntimeFault,
        >(Seq::empty()) && leads_to(outside, root, hub, labels[i], files[i])
}

/// Whether a state is the one in which the first `n` files of a fan are loaded.
spec fn in_fan(
    root: LocationV,
    hub: LocationV,
    files: Seq<LocationV>,
    labels: Seq<Seq<char>>,
    n: nat,
    s: LoaderV,
) -> bool {
    &&& s.root == root
    &&& s.runtime is None
    &&& s.active.len() == 1
    &&& s.active[0].path == hub
    &&& s.active[0].loads == labels
    &&& s.active[0].deps.len() == n
    &&& s.cache.len() == n
    &&& forall|k: int| 0 <= k < n ==> (#[trigger] s.cache[k]).0 == files[k]
}

proof fn fan_goes_on(
    outside: Outside,
    root: LocationV,
    hub: LocationV,
    files: Seq<LocationV>,
    labels: Seq<Seq<char>>,
    n: nat,
    s: LoaderV,
    fuel: nat,
)
    requires
        is_fan(outside, root, hub, files, labels),
        n <= files.len(),
        in_fan(root, hub, files, labels, n, s),
        fuel >= 3 * (files.len() - n) + 1,
    ensures
        ({
            let r = go_on(advanced(s), outside, 0, fuel);
            &&& files.len() < MODULE_LIMIT ==> r is Ok
            &&& files.len() >= MODULE_LIMIT && n < MODULE_LIMIT ==> r == Err::<
                (LoaderV, nat),
                RuntimeFault,
            >(RuntimeFault::Limit)
        }),
    decreases files.len() - n,
{
    assert(s.active.last() == s.active[0]);
    if n < files.len() {
        let label = labels[n as int];
        let path = files[n as int];
        assert(leads_to(outside, root, hub, label, path));
        let (base, relative) = wanted(root.parts, hub.parts, label)->Some_0;
        assert(labels_left(s) > 0);
        assert(advanced(s) == Ok::<(LoaderV, StepV), RuntimeFault>(
            (s, StepV::Resolve(base, relative)),
        ));
        assert(under(path.parts, root.parts));
        assert(!is_active(s.active, path.parts)) by {
            if is_active(s.active, path.parts) {
                let i = choose|i: int|
                    0 <= i < s.active.len() && (#[trigger] s.active[i]).path.parts == path.parts;
                assert(s.active[0].path.parts == path.parts);
            }
        }
        cached_is(s.cache, path.parts, s.cache.len());
        assert forall|k: int| 0 <= k < s.cache.len() implies (#[trigger] s.cache[k]).0.parts
            != path.parts by {
            assert(files[k].parts != files[n as int].parts);
        }
        assert(run(s, StepV::Resolve(base, relative), outside, 0, fuel) == go_on(
            entered(s, path),
            outside,
            0,
            (fuel - 1) as nat,
        ));
        if 1 + n < MODULE_LIMIT {
            let frame = FrameV { path, loads: Seq::empty(), deps: Seq::empty() };
            let t = LoaderV { active: s.active.push(frame), ..s };
            assert(entered(s, path) == Ok::<(LoaderV, StepV), RuntimeFault>(
                (t, StepV::Read(path)),
            ));
            let u = with_loads(t, Seq::empty());
            assert(labels_left(u) == 0);
            assert(parsed(t, Seq::empty()) == Ok::<(LoaderV, StepV), RuntimeFault>(
                (u, StepV::Evaluate),
            ));
            assert(run(t, StepV::Read(path), outside, 0, (fuel - 1) as nat) == run(
                u,
                StepV::Evaluate,
                outside,
                0,
                (fuel - 2) as nat,
            ));
            assert(u.active.last().path == path);
            let v = with_module(u);
            assert(v.active =~= s.active);
            let w = with_dep(v, u.made);
            assert(w.active[0].deps.len() == n + 1);
            assert forall|k: int| 0 <= k < n + 1 implies (#[trigger] w.cache[k]).0 == files[k] by {
                if k < n {
                    assert(w.cache[k] == s.cache[k]);
                }
            }
            assert(in_fan(root, hub, files, labels, n + 1, w));
            assert(labels_left(v) > 0);
            assert(evaluated(u) == advanced(w));
            assert(run(u, StepV::Evaluate, outside, 0, (fuel - 2) as nat) == go_on(
                advanced(w),
                outside,
                0,
                (fuel - 3) as nat,
            ));
            fan_goes_on(outside, root, hub, files, labels, n + 1, w, (fuel - 3) as nat);
        }
    } else {
        assert(labels_left(s) == 0);
        assert(advanced(s) == Ok::<(LoaderV, StepV), RuntimeFault>((s, StepV::Evaluate)));
        assert(run(s, StepV::Evaluate, outside, 0, fuel) is Ok);
    }
}

/// How many files can be loaded: a file and those that it loads are loaded if, and only if, they are
/// no more than can be loaded in all.
pub proof fn fans_are_limited(
    outside: Outside,
    root: LocationV,
    hub: LocationV,
    files: Seq<LocationV>,
    labels: Seq<Seq<char>>,
    fuel: nat,
)
    requires
        is_fan(outside, root, hub, files, labels),
        fuel >= 3 * files.len() + 2,
    ensures
        load(fresh(root), hub, outside, fuel) is Ok <==> 1 + files.len() <= MODULE_LIMIT,
        1 + files.len() > MODULE_LIMIT ==> load(fresh(root), hub, outside, fuel) == Err::<
            (LoaderV, nat),
            RuntimeFault,
        >(RuntimeFault::Limit),
{
    let s = fresh(root);
    let frame = FrameV { path: hub, loads: Seq::empty(), deps: Seq::empty() };
    let t = LoaderV { active: s.active.push(frame), ..s };
    assert(entered(s, hub) == Ok::<(LoaderV, StepV), RuntimeFault>((t, StepV::Read(hub))));
    let u = with_loads(t, labels);
    assert(in_fan(root, hub, files, labels, 0, u));
    fan_goes_on(outside, root, hub, files, labels, 0, u, (fuel - 1) as nat);
    assert(parsed(t, labels) == advanced(u));
}

} // verus!
