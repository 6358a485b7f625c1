//! What the labels of loads stand for, and what becomes of the modules that are loaded for them.
use vstd::prelude::*;

verus! {

use crate::fault::RuntimeFault;
use crate::loader::{
    advanced, delivered, entered, evaluated, found, is_active, is_runtime, labels_left, parsed,
    runtime_made, under, wanted, wf, with_dep, with_loads, with_module, with_runtime,
    without_colon, FrameV, LoaderV, LocationV, StepV,
};
use crate::runtime::with_source;
use crate::star::parsed_loads;
use crate::text::{begins_with, replaced};

/// Replacing a character by another one leaves the places of all others.
pub proof fn replacing_keeps_places(s: Seq<char>, c: char, d: char)
    ensures
        replaced(s, c, seq![d]).len() == s.len(),
        forall|i: int|
            0 <= i < s.len() ==> #[trigger] replaced(s, c, seq![d])[i] == if s[i] == c {
                d
            } else {
                s[i]
            },
    decreases s.len(),
{
    if s.len() > 0 {
        replacing_keeps_places(s.drop_last(), c, d);
    }
}

/// Whether a text has no colon.
pub open spec fn no_colon(s: Seq<char>) -> bool {
    forall|i: int| 0 <= i < s.len() ==> #[trigger] s[i] != ':'
}

/// A label that begins with two slashes is looked for from the root on. What stands behind the
/// slashes, without a colon in front, is the path, character by character, with slashes for colons.
pub proof fn rooted_labels_keep_their_places(
    root: Seq<Seq<u8>>,
    path: Seq<Seq<u8>>,
    label: Seq<char>,
)
    requires
        label.len() >= 2,
        label[0] == '/' && label[1] == '/',
    ensures
        wanted(root, path, label) is Some,
        ({
            let (base, relative) = wanted(root, path, label)->Some_0;
            let from = if label.len() > 2 && label[2] == ':' {
                3int
            } else {
                2int
            };
            &&& base == root
            &&& relative.len() == label.len() - from
            &&& forall|i: int|
                0 <= i < relative.len() ==> #[trigger] relative[i] == if label[from + i] == ':' {
                    '/'
                } else {
                    label[from + i]
                }
        }),
{
    reveal_strlit("/");
    reveal_strlit("//");
    reveal_strlit(":");
    assert(label.take(2) =~= "//"@);
    assert("/"@ =~= seq!['/']);
    let rest = label.skip(2);
    if rest.len() > 0 && rest[0] == ':' {
        assert(rest.take(1) =~= ":"@);
    } else if begins_with(rest, ":"@) {
        assert(rest.take(1)[0] == ':');
    }
    replacing_keeps_places(without_colon(rest), ':', '/');
}

/// A label of a package and a file stands for the file under the directory of the package, in
/// however many directories that is.
pub proof fn package_labels(
    root: Seq<Seq<u8>>,
    path: Seq<Seq<u8>>,
    package: Seq<char>,
    file: Seq<char>,
)
    requires
        no_colon(package),
        no_colon(file),
        package.len() > 0,
    ensures
        wanted(root, path, seq!['/', '/'] + package + seq![':'] + file) == Some(
            (root, package + seq!['/'] + file),
        ),
{
    let label = seq!['/', '/'] + package + seq![':'] + file;
    let want = package + seq!['/'] + file;
    rooted_labels_keep_their_places(root, path, label);
    let relative = (wanted(root, path, label)->Some_0).1;
    assert(label[2] == package[0]);
    assert forall|i: int| 0 <= i < want.len() implies relative[i] == want[i] by {
        if i < package.len() {
            assert(label[2 + i] == package[i]);
        } else if i > package.len() {
            assert(label[2 + i] == file[i - package.len() - 1]);
        } else {
            assert(label[2 + i] == ':');
        }
    }
    assert(relative =~= want);
}

/// A label of a file in the outermost package stands for the file under the root, with a colon in
/// front of its name or without.
pub proof fn root_labels(root: Seq<Seq<u8>>, path: Seq<Seq<u8>>, file: Seq<char>)
    requires
        no_colon(file),
    ensures
        wanted(root, path, seq!['/', '/', ':'] + file) == Some((root, file)),
        wanted(root, path, seq!['/', '/'] + file) == Some((root, file)),
{
    let a = seq!['/', '/', ':'] + file;
    let b = seq!['/', '/'] + file;
    rooted_labels_keep_their_places(root, path, a);
    rooted_labels_keep_their_places(root, path, b);
    if file.len() > 0 {
        assert(b[2] == file[0]);
    }
    assert forall|i: int| 0 <= i < file.len() implies a[3 + i] == file[i] && b[2 + i] == file[i] by {}
    assert((wanted(root, path, a)->Some_0).1 =~= file);
    assert((wanted(root, path, b)->Some_0).1 =~= file);
}

/// A relative label stands for the file in the directory of the one that loads it, with a colon in
/// front of its name or without. Its colons further on are left as they are.
pub proof fn relative_labels(root: Seq<Seq<u8>>, path: Seq<Seq<u8>>, name: Seq<char>)
    requires
        path.len() > 0,
        name.len() > 0 ==> name[0] != '/' && name[0] != '@' && name[0] != ':',
    ensures
        wanted(root, path, name) == Some((path.take(path.len() - 1), name)),
        wanted(root, path, seq![':'] + name) == Some((path.take(path.len() - 1), name)),
{
    reveal_strlit("/");
    reveal_strlit("//");
    reveal_strlit(":");
    reveal_strlit("@");
    let b = seq![':'] + name;
    assert(path.drop_last() =~= path.take(path.len() - 1));
    assert(b.take(1) =~= ":"@);
    assert(b.skip(1) =~= name);
    if name.len() > 0 {
        assert(name.take(1)[0] == name[0]);
        if name.len() > 1 {
            assert(name.take(2)[0] == name[0]);
        }
    }
    assert(b.take(1)[0] == ':');
    if b.len() > 1 {
        assert(b.take(2)[0] == ':');
    }
}

/// A label of another repository, or an absolute path, stands for nothing.
pub proof fn foreign_labels(root: Seq<Seq<u8>>, path: Seq<Seq<u8>>, label: Seq<char>)
    requires
        label.len() > 0,
        label[0] == '@' || (label[0] == '/' && (label.len() == 1 || label[1] != '/')),
    ensures
        wanted(root, path, label) is None,
{
    reveal_strlit("/");
    reveal_strlit("//");
    reveal_strlit("@");
    if label[0] == '@' {
        assert(label.take(1) =~= "@"@);
    } else {
        assert(label.take(1) =~= "/"@);
    }
    if begins_with(label, "//"@) {
        assert(label.take(2)[0] == label[0]);
        assert(label.take(2)[1] == label[1]);
    }
}

/// Two labels stand for the shared runtime, and no other does.
pub proof fn labels_of_the_runtime(label: Seq<char>)
    ensures
        is_runtime(label) <==> label == "//protolark:runtime.scl"@ || label
            == "@protolark//protolark:runtime.bzl"@,
{
}

/// The label that the module on top wants next, if there is one.
pub open spec fn next_label(s: LoaderV) -> Option<Seq<char>> {
    if s.active.len() == 0 {
        None
    } else {
        let top = s.active[s.active.len() - 1];
        if top.deps.len() < top.loads.len() {
            Some(top.loads[top.deps.len() as int])
        } else {
            None
        }
    }
}

/// What a loader does with its next label: a file of a package is looked for under the root, a
/// file without a package under the directory of the one that loads it, and what is not supported
/// is refused. Nothing else changes. Without a next label the module on top is evaluated.
pub proof fn next_labels_are_looked_for(s: LoaderV, package: Seq<char>, file: Seq<char>)
    requires
        s.active.len() > 0,
        no_colon(package),
        no_colon(file),
        !is_runtime(seq!['/', '/'] + package + seq![':'] + file),
        !is_runtime(file),
    ensures
        next_label(s) == Some(seq!['/', '/'] + package + seq![':'] + file) && package.len() > 0
            ==> advanced(s) == Ok::<(LoaderV, StepV), RuntimeFault>(
            (s, StepV::Resolve(s.root.parts, package + seq!['/'] + file)),
        ),
        next_label(s) == Some(file) && file.len() > 0 && file[0] != '/' && file[0] != '@'
            && s.active[s.active.len() - 1].path.parts.len() > 0 ==> advanced(s) == Ok::<
            (LoaderV, StepV),
            RuntimeFault,
        >(
            (
                s,
                StepV::Resolve(
                    s.active[s.active.len() - 1].path.parts.take(
                        s.active[s.active.len() - 1].path.parts.len() - 1,
                    ),
                    file,
                ),
            ),
        ),
        next_label(s) is Some && next_label(s) == Some(file) && file.len() > 0 && file[0] == '@'
            ==> advanced(s) == Err::<(LoaderV, StepV), RuntimeFault>(
            RuntimeFault::UnsupportedLoad(file),
        ),
        next_label(s) is None ==> advanced(s) == Ok::<(LoaderV, StepV), RuntimeFault>(
            (s, StepV::Evaluate),
        ),
{
    let top = s.active.last();
    if package.len() > 0 {
        package_labels(s.root.parts, top.path.parts, package, file);
    }
    if file.len() > 0 && file[0] != '/' && file[0] != '@' && top.path.parts.len() > 0 {
        assert(file[0] != ':');
        relative_labels(s.root.parts, top.path.parts, file);
    }
    if file.len() > 0 && file[0] == '@' {
        foreign_labels(s.root.parts, top.path.parts, file);
    }
}

/// What a module gets for its labels: a module that is delivered comes behind those that the one on
/// top has got. Only the shared runtime may come behind it, for labels of the runtime. Nothing else
/// changes. Where none is being loaded, the module is the configuration.
pub proof fn modules_go_to_the_top(s: LoaderV, module: nat)
    ensures
        s.active.len() == 0 ==> delivered(s, module) == Ok::<(LoaderV, StepV), RuntimeFault>(
            (s, StepV::Done(module)),
        ),
        s.active.len() > 0 && delivered(s, module) is Ok ==> next_label(s) is Some && comes_behind(
            s,
            s.active[s.active.len() - 1].deps.push(module),
            (delivered(s, module)->Ok_0).0,
        ),
    decreases labels_left(s), 0nat,
{
    if s.active.len() > 0 && delivered(s, module) is Ok {
        let t = with_dep(s, module);
        assert(t.active.drop_last() =~= s.active.drop_last());
        runtime_goes_to_the_top(t);
        let u = (delivered(s, module)->Ok_0).0;
        assert(u.active.last() == u.active[u.active.len() - 1]);
    }
}

/// Whether a state is another one, but that the module on top has got these modules, and the shared
/// runtime for labels behind them.
pub open spec fn comes_behind(s: LoaderV, deps: Seq<nat>, t: LoaderV) -> bool {
    let n = s.active.len() as int;
    let old_top = s.active[n - 1];
    let new_top = t.active[n - 1];
    &&& t.root == s.root && t.cache == s.cache && t.runtime == s.runtime && t.made == s.made
    &&& t.active.len() == n
    &&& forall|i: int| 0 <= i < n - 1 ==> #[trigger] t.active[i] == s.active[i]
    &&& new_top.path == old_top.path && new_top.loads == old_top.loads
    &&& deps.len() <= new_top.deps.len() <= new_top.loads.len()
    &&& new_top.deps.take(deps.len() as int) == deps
    &&& forall|k: int|
        deps.len() <= k < new_top.deps.len() ==> s.runtime == Some(#[trigger] new_top.deps[k]) && (
        new_top.loads[k] == "//protolark:runtime.scl"@ || new_top.loads[k]
            == "@protolark//protolark:runtime.bzl"@)
}

proof fn runtime_goes_to_the_top(s: LoaderV)
    requires
        s.active.len() > 0,
        s.active.last().deps.len() <= s.active.last().loads.len(),
        advanced(s) is Ok,
    ensures
        comes_behind(s, s.active[s.active.len() - 1].deps, (advanced(s)->Ok_0).0),
    decreases labels_left(s), 1nat,
{
    let n = s.active.len() as int;
    let old = s.active[n - 1].deps;
    assert(old.take(old.len() as int) =~= old);
    if labels_left(s) > 0 {
        let label = s.active.last().loads[s.active.last().deps.len() as int];
        if is_runtime(label) && s.runtime is Some {
            let m = s.runtime->Some_0;
            let u = with_dep(s, m);
            assert(u.active.drop_last() =~= s.active.drop_last());
            assert(u.active.last().deps == old.push(m));
            assert(delivered(s, m) == advanced(u));
            runtime_goes_to_the_top(u);
            let t = (advanced(u)->Ok_0).0;
            let now = t.active[n - 1].deps;
            assert(now.take((old.len() + 1) as int) == old.push(m));
            assert(now.take(old.len() as int) =~= old) by {
                assert(now.take((old.len() + 1) as int).take(old.len() as int) =~= now.take(
                    old.len() as int,
                ));
                assert(old.push(m).take(old.len() as int) =~= old);
            }
            assert forall|k: int| old.len() <= k < now.len() implies s.runtime == Some(
                #[trigger] now[k],
            ) && (t.active[n - 1].loads[k] == "//protolark:runtime.scl"@
                || t.active[n - 1].loads[k] == "@protolark//protolark:runtime.bzl"@) by {
                if k == old.len() {
                    assert(now.take((old.len() + 1) as int)[k] == m);
                }
            }
            assert forall|i: int| 0 <= i < n - 1 implies #[trigger] t.active[i] == s.active[i] by {
                assert(u.active[i] == s.active.drop_last()[i]);
            }
        }
    }
}

/// What becomes of the module on top once it is evaluated: it is no longer being loaded, it is found
/// under its path, with the next number, and goes to the one that loads it, or is the configuration.
pub proof fn evaluated_modules_are_kept(s: LoaderV)
    requires
        s.active.len() > 0,
        evaluated(s) is Ok,
    ensures
        ({
            let (t, step) = evaluated(s)->Ok_0;
            let n = s.active.len() as int;
            &&& t.root == s.root && t.runtime == s.runtime && t.made == s.made + 1
            &&& t.cache == s.cache.push((s.active[n - 1].path, s.made))
            &&& t.active.len() == n - 1
            &&& forall|i: int| 0 <= i < n - 2 ==> #[trigger] t.active[i] == s.active[i]
            &&& n == 1 ==> step == StepV::Done(s.made)
            &&& n > 1 ==> t.active[n - 2].path == s.active[n - 2].path && t.active[n - 2].loads
                == s.active[n - 2].loads && t.active[n - 2].deps.len() > s.active[n - 2].deps.len()
                && t.active[n - 2].deps.take((s.active[n - 2].deps.len() + 1) as int)
                == s.active[n - 2].deps.push(s.made)
        }),
{
    let w = with_module(s);
    let n = s.active.len() as int;
    modules_go_to_the_top(w, s.made);
    if n > 1 {
        assert(w.active[n - 2] == s.active[n - 2]);
        let t = (evaluated(s)->Ok_0).0;
        assert forall|i: int| 0 <= i < n - 2 implies #[trigger] t.active[i] == s.active[i] by {
            assert(t.active[i] == w.active[i]);
        }
    }
}

/// What becomes of the shared runtime once it is evaluated: it has the next number, and goes to the
/// module on top.
pub proof fn the_runtime_is_kept(s: LoaderV)
    requires
        s.active.len() > 0,
        runtime_made(s) is Ok,
    ensures
        ({
            let (t, step) = runtime_made(s)->Ok_0;
            let n = s.active.len() as int;
            &&& t.root == s.root && t.cache == s.cache && t.made == s.made + 1
            &&& t.runtime == Some(s.made)
            &&& t.active.len() == n
            &&& forall|i: int| 0 <= i < n - 1 ==> #[trigger] t.active[i] == s.active[i]
            &&& t.active[n - 1].path == s.active[n - 1].path && t.active[n - 1].loads
                == s.active[n - 1].loads
            &&& t.active[n - 1].deps.len() > s.active[n - 1].deps.len()
            &&& t.active[n - 1].deps.take((s.active[n - 1].deps.len() + 1) as int)
                == s.active[n - 1].deps.push(s.made)
        }),
{
    modules_go_to_the_top(with_runtime(s), s.made);
}

/// A file that is wanted is read if, and only if, it is under the root, was not loaded, is not being
/// loaded, fewer than 64 files are being loaded, and fewer than 128 were or are being loaded. It is
/// then the one on top, with no labels yet.
pub proof fn files_are_read(s: LoaderV, path: LocationV)
    requires
        wf(s),
    ensures
        ({
            let inside = path.parts.len() >= s.root.parts.len() && forall|i: int|
                0 <= i < s.root.parts.len() ==> #[trigger] path.parts[i] == s.root.parts[i];
            let was_loaded = exists|i: int|
                0 <= i < s.cache.len() && (#[trigger] s.cache[i]).0.parts == path.parts;
            let is_loading = exists|i: int|
                0 <= i < s.active.len() && (#[trigger] s.active[i]).path.parts == path.parts;
            let room = s.active.len() < 64 && s.active.len() + s.cache.len() < 128;
            let r = entered(s, path);
            &&& !inside ==> r == Err::<(LoaderV, StepV), RuntimeFault>(
                RuntimeFault::Outside(path.shown, s.root.shown),
            )
            &&& inside && is_loading ==> r == Err::<(LoaderV, StepV), RuntimeFault>(
                RuntimeFault::Cycle(path.shown),
            )
            &&& inside && !was_loaded && !is_loading && !room ==> r == Err::<
                (LoaderV, StepV),
                RuntimeFault,
            >(RuntimeFault::Limit)
            &&& inside && !was_loaded && !is_loading && room ==> r == Ok::<
                (LoaderV, StepV),
                RuntimeFault,
            >(
                (
                    LoaderV {
                        root: s.root,
                        cache: s.cache,
                        active: s.active.push(
                            FrameV { path, loads: Seq::empty(), deps: Seq::empty() },
                        ),
                        runtime: s.runtime,
                        made: s.made,
                    },
                    StepV::Read(path),
                ),
            )
        }),
{
    let inside = path.parts.len() >= s.root.parts.len() && forall|i: int|
        0 <= i < s.root.parts.len() ==> #[trigger] path.parts[i] == s.root.parts[i];
    if inside {
        assert(path.parts.take(s.root.parts.len() as int) =~= s.root.parts);
    } else if under(path.parts, s.root.parts) {
        assert forall|i: int| 0 <= i < s.root.parts.len() implies #[trigger] path.parts[i]
            == s.root.parts[i] by {
            assert(path.parts.take(s.root.parts.len() as int)[i] == path.parts[i]);
        }
    }
    crate::loader::cached_is(s.cache, path.parts, s.cache.len());
    if is_active(s.active, path.parts) {
        crate::loader::cycles_are_refused(s, path);
    }
}

/// A file that was loaded before goes to the one on top under the number that it has, and nothing
/// is read.
pub proof fn loaded_files_are_reused(s: LoaderV, path: LocationV, i: int)
    requires
        wf(s),
        s.active.len() > 0,
        0 <= i < s.cache.len(),
        s.cache[i].0.parts == path.parts,
        found(s, path) is Ok,
    ensures
        comes_behind(
            s,
            s.active[s.active.len() - 1].deps.push(s.cache[i].1),
            (found(s, path)->Ok_0).0,
        ),
{
    crate::loader::loaded_files_are_not_read_again(s, path, i);
    modules_go_to_the_top(s, s.cache[i].1);
}

/// A path that a label led to, and that is outside the root, is refused under the label.
pub proof fn labels_do_not_lead_out(s: LoaderV, path: LocationV)
    requires
        next_label(s) is Some,
        path.parts.len() < s.root.parts.len() || exists|i: int|
            0 <= i < s.root.parts.len() && #[trigger] path.parts[i] != s.root.parts[i],
    ensures
        found(s, path) == Err::<(LoaderV, StepV), RuntimeFault>(
            RuntimeFault::Escapes(next_label(s)->Some_0, s.root.shown),
        ),
{
    if under(path.parts, s.root.parts) {
        let i = choose|i: int| 0 <= i < s.root.parts.len() && #[trigger] path.parts[i]
            != s.root.parts[i];
        assert(path.parts.take(s.root.parts.len() as int)[i] == path.parts[i]);
    }
}

/// The state in which the module on top loads these labels and has got nothing for them.
pub open spec fn with_labels(s: LoaderV, loads: Seq<Seq<char>>) -> LoaderV {
    let n = s.active.len() as int;
    let top = FrameV { path: s.active[n - 1].path, loads, deps: Seq::empty() };
    LoaderV { active: s.active.update(n - 1, top), ..s }
}

/// The labels that a file loads are taken as they are, in their order, and it has got no module but
/// the shared runtime for them. A file that is longer than 4 MiB is refused, and one that is not
/// longer is not for its length.
pub proof fn labels_are_taken(s: LoaderV, loads: Seq<Seq<char>>, text: Seq<char>, bytes: nat)
    requires
        s.active.len() > 0,
    ensures
        loads.len() == 0 ==> parsed(s, loads) == Ok::<(LoaderV, StepV), RuntimeFault>(
            (with_labels(s, loads), StepV::Evaluate),
        ),
        parsed(s, loads) matches Ok((t, step)) ==> comes_behind(
            with_labels(s, loads),
            Seq::empty(),
            t,
        ),
        parsed(s, loads) == advanced(with_labels(s, loads)),
        with_source(s, Some(text), bytes) == Err::<(LoaderV, StepV), RuntimeFault>(
            RuntimeFault::TooLong,
        ) <== bytes > 4 * 1024 * 1024,
        with_source(s, Some(text), bytes) == with_source(s, Some(text), 0) <== bytes <= 4 * 1024
            * 1024,
{
    let w = with_loads(s, loads);
    assert(w.active =~= with_labels(s, loads).active);
    if parsed(s, loads) is Ok {
        runtime_goes_to_the_top(w);
    }
}

/// What a file that was read comes to: it cannot be read, it cannot be parsed, or the labels that it
/// loads are taken.
pub proof fn sources_are_taken(s: LoaderV, text: Seq<char>, bytes: nat)
    requires
        s.active.len() > 0,
        bytes <= 4 * 1024 * 1024,
    ensures
        with_source(s, None, bytes) == Err::<(LoaderV, StepV), RuntimeFault>(
            RuntimeFault::Read(s.active[s.active.len() - 1].path.shown),
        ),
        match parsed_loads(s.active[s.active.len() - 1].path.shown, text) {
            Some(loads) => with_source(s, Some(text), bytes) == parsed(s, loads),
            None => with_source(s, Some(text), bytes) == Err::<(LoaderV, StepV), RuntimeFault>(
                RuntimeFault::Parse,
            ),
        },
{
}

/// A label of the shared runtime asks for the runtime where it was not evaluated yet, and else gets
/// the module that it is.
pub proof fn runtime_labels_get_the_runtime(s: LoaderV)
    requires
        next_label(s) == Some("//protolark:runtime.scl"@) || next_label(s) == Some(
            "@protolark//protolark:runtime.bzl"@,
        ),
    ensures
        s.runtime is None ==> advanced(s) == Ok::<(LoaderV, StepV), RuntimeFault>(
            (s, StepV::Runtime),
        ),
        s.runtime matches Some(m) ==> advanced(s) == delivered(s, m),
        s.runtime is Some && advanced(s) is Ok ==> comes_behind(
            s,
            s.active[s.active.len() - 1].deps.push(s.runtime->Some_0),
            (advanced(s)->Ok_0).0,
        ),
{
    if let Some(m) = s.runtime {
        modules_go_to_the_top(s, m);
    }
}

/// The state in which the module on top has got one module more.
pub open spec fn with_one_more(s: LoaderV, module: nat) -> LoaderV {
    let n = s.active.len() as int;
    let top = s.active[n - 1];
    LoaderV {
        active: s.active.update(
            n - 1,
            FrameV { path: top.path, loads: top.loads, deps: top.deps.push(module) },
        ),
        ..s
    }
}

/// A module that has got one for a label goes on with its next label, or is evaluated, however many
/// it has got.
pub proof fn modules_go_on(s: LoaderV, module: nat)
    requires
        next_label(s) is Some,
    ensures
        delivered(s, module) == advanced(with_one_more(s, module)),
{
    assert(with_dep(s, module).active =~= with_one_more(s, module).active);
}

/// A module that is evaluated goes to the one below it, and that goes on; so does the module on top
/// once it has got the shared runtime. Neither fails where a label waits for it.
pub proof fn loads_go_on(s: LoaderV)
    requires
        s.active.len() > 0,
    ensures
        s.active.len() > 1 && s.active[s.active.len() - 2].deps.len() < s.active[s.active.len()
            - 2].loads.len() ==> evaluated(s) == advanced(
            with_one_more(
                LoaderV {
                    root: s.root,
                    cache: s.cache.push((s.active[s.active.len() - 1].path, s.made)),
                    active: s.active.take(s.active.len() - 1),
                    runtime: s.runtime,
                    made: s.made + 1,
                },
                s.made,
            ),
        ),
        s.active.len() == 1 ==> evaluated(s) is Ok,
        next_label(s) is Some ==> runtime_made(s) == advanced(
            with_one_more(LoaderV { runtime: Some(s.made), made: s.made + 1, ..s }, s.made),
        ),
{
    let n = s.active.len() as int;
    let w = with_module(s);
    assert(w.active =~= s.active.take(n - 1));
    if n > 1 && s.active[n - 2].deps.len() < s.active[n - 2].loads.len() {
        assert(w.active.last() == s.active[n - 2]);
        modules_go_on(w, s.made);
    }
    if next_label(s) is Some {
        modules_go_on(with_runtime(s), s.made);
    }
}

/// A path that a label led to, and that is under the root, is wanted like any other.
pub proof fn labels_lead_to_files(s: LoaderV, path: LocationV)
    requires
        next_label(s) is Some,
        path.parts.len() >= s.root.parts.len(),
        forall|i: int| 0 <= i < s.root.parts.len() ==> #[trigger] path.parts[i] == s.root.parts[i],
    ensures
        found(s, path) == entered(s, path),
{
    assert(path.parts.take(s.root.parts.len() as int) =~= s.root.parts);
}

} // verus!
