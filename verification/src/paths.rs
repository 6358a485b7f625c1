//! Logical paths: they are their names with slashes between them, and which of them are accepted.
use vstd::prelude::*;

verus! {

use crate::fault::RuntimeFault;
use crate::runtime::{
    files_refused, is_logical, names_from, names_on, plain_name, refused, slash, LogicalPath,
};

/// Names with slashes between them.
pub open spec fn joined(names: Seq<Seq<u8>>) -> Seq<u8>
    decreases names.len(),
{
    if names.len() == 0 {
        Seq::empty()
    } else if names.len() == 1 {
        names[0]
    } else {
        names[0] + seq![0x2fu8] + joined(names.drop_first())
    }
}

/// Whether no name has a slash in it.
pub open spec fn without_slashes(names: Seq<Seq<u8>>) -> bool {
    forall|i: int, k: int|
        0 <= i < names.len() && 0 <= k < names[i].len() ==> #[trigger] names[i][k] != 0x2f
}

proof fn slash_is(s: Seq<u8>, from: int, p: int)
    requires
        0 <= from <= p <= s.len(),
        forall|k: int| from <= k < p ==> #[trigger] s[k] != 0x2f,
        p < s.len() ==> s[p] == 0x2f,
    ensures
        slash(s, from) == p,
    decreases p - from,
{
    if from < p {
        assert(s[from] != 0x2f);
        slash_is(s, from + 1, p);
    }
}

proof fn joined_from(names: Seq<Seq<u8>>, s: Seq<u8>, from: int)
    requires
        names.len() > 0,
        without_slashes(names),
        0 <= from <= s.len(),
        s.skip(from) == joined(names),
    ensures
        names_from(s, from) == names,
    decreases names.len(),
{
    let first = names[0];
    let p = from + first.len();
    assert(s.skip(from).len() == s.len() - from);
    if names.len() == 1 {
        assert forall|k: int| from <= k < s.len() implies #[trigger] s[k] != 0x2f by {
            assert(s.skip(from)[k - from] == names[0][k - from]);
        }
        slash_is(s, from, s.len() as int);
        assert(s.subrange(from, s.len() as int) =~= s.skip(from));
        assert(names_from(s, from) =~= names);
    } else {
        let rest = names.drop_first();
        let all = first + seq![0x2fu8] + joined(rest);
        assert(s.skip(from) == all);
        assert forall|k: int| from <= k < p implies #[trigger] s[k] != 0x2f by {
            assert(s.skip(from)[k - from] == names[0][k - from]);
        }
        assert(s.skip(from)[p - from] == 0x2f);
        assert(s[p] == 0x2f);
        slash_is(s, from, p);
        assert(s.subrange(from, p) =~= first) by {
            assert forall|k: int| 0 <= k < first.len() implies s[from + k] == first[k] by {
                assert(s.skip(from)[k] == all[k]);
            }
        }
        assert(s.skip(p + 1) =~= joined(rest)) by {
            assert forall|k: int| 0 <= k < joined(rest).len() implies s[p + 1 + k] == joined(
                rest,
            )[k] by {
                assert(s.skip(from)[first.len() + 1 + k] == all[first.len() + 1 + k]);
            }
        }
        assert(without_slashes(rest)) by {
            assert forall|i: int, k: int|
                0 <= i < rest.len() && 0 <= k < rest[i].len() implies #[trigger] rest[i][k]
                != 0x2f by {
                assert(names[i + 1][k] != 0x2f);
            }
        }
        joined_from(rest, s, p + 1);
        assert(seq![first] + rest =~= names);
    }
}

/// The names on a path are those that it is made of, with slashes between them.
pub proof fn paths_are_their_names(names: Seq<Seq<u8>>)
    requires
        names.len() > 0,
        without_slashes(names),
    ensures
        names_on(joined(names)) == names,
{
    let s = joined(names);
    assert(s.skip(0) =~= s);
    joined_from(names, s, 0);
}

/// A path is accepted if, and only if, none of the names that it is made of is empty, `.` or `..`.
pub proof fn paths_of_plain_names_are_accepted(names: Seq<Seq<u8>>)
    requires
        names.len() > 0,
        without_slashes(names),
    ensures
        is_logical(joined(names)) <==> forall|i: int|
            0 <= i < names.len() ==> (#[trigger] names[i]).len() > 0 && !(names[i].len() == 1
                && names[i][0] == '.' as u8) && !(names[i].len() == 2 && names[i][0] == '.' as u8
                && names[i][1] == '.' as u8),
{
    paths_are_their_names(names);
    assert forall|i: int| 0 <= i < names.len() implies plain_name(#[trigger] names[i]) == (
    names[i].len() > 0 && !(names[i].len() == 1 && names[i][0] == '.' as u8) && !(names[i].len()
        == 2 && names[i][0] == '.' as u8 && names[i][1] == '.' as u8)) by {
        let n = names[i];
        if n.len() == 1 && n[0] == '.' as u8 {
            assert(n =~= seq![0x2eu8]);
        }
        if n.len() == 2 && n[0] == '.' as u8 && n[1] == '.' as u8 {
            assert(n =~= seq![0x2eu8, 0x2eu8]);
        }
    }
    if is_logical(joined(names)) {
        assert forall|i: int| 0 <= i < names.len() implies plain_name(#[trigger] names[i]) by {
            assert(names_on(joined(names))[i] == names[i]);
        }
    } else {
        let i = choose|i: int|
            0 <= i < names.len() && !plain_name(#[trigger] names_on(joined(names))[i]);
        assert(!plain_name(names[i]));
    }
}

/// Every path is made of names in this way.
pub proof fn every_path_has_names(s: Seq<u8>)
    ensures
        names_on(s).len() > 0,
        without_slashes(names_on(s)),
        joined(names_on(s)) == s,
{
    names_make_the_path(s, 0);
    assert(s.skip(0) =~= s);
}

proof fn slash_divides(s: Seq<u8>, from: int)
    requires
        0 <= from <= s.len(),
    ensures
        from <= slash(s, from) <= s.len(),
        forall|k: int| from <= k < slash(s, from) ==> #[trigger] s[k] != 0x2f,
        slash(s, from) < s.len() ==> s[slash(s, from)] == 0x2f,
    decreases s.len() - from,
{
    if from < s.len() && s[from] != 0x2f {
        slash_divides(s, from + 1);
    }
}

proof fn names_make_the_path(s: Seq<u8>, from: int)
    requires
        0 <= from <= s.len(),
    ensures
        names_from(s, from).len() > 0,
        without_slashes(names_from(s, from)),
        joined(names_from(s, from)) == s.skip(from),
    decreases s.len() - from,
{
    slash_divides(s, from);
    let end = slash(s, from);
    let names = names_from(s, from);
    if end >= s.len() {
        assert(s.subrange(from, s.len() as int) =~= s.skip(from));
    } else {
        names_make_the_path(s, end + 1);
        let rest = names_from(s, end + 1);
        assert(names.drop_first() =~= rest);
        assert(names[0] + seq![0x2fu8] + joined(rest) =~= s.skip(from));
        assert forall|i: int, k: int|
            0 <= i < names.len() && 0 <= k < names[i].len() implies #[trigger] names[i][k]
            != 0x2f by {
            if i > 0 {
                assert(rest[i - 1][k] != 0x2f);
            }
        }
    }
}

/// Declared files are laid out if, and only if, the configuration and all of them have logical
/// paths, no two of them have the same one, and the configuration is one of them.
pub proof fn when_files_are_laid_out(config: LogicalPath, files: Seq<LogicalPath>)
    ensures
        files_refused(config, files) is None <==> is_logical(config.bytes@) && (forall|i: int|
            0 <= i < files.len() ==> is_logical((#[trigger] files[i]).bytes@)) && (forall|
            i: int,
            j: int,
        |
            0 <= i < j < files.len() ==> (#[trigger] files[i]).bytes@ != (
            #[trigger] files[j]).bytes@) && exists|i: int|
            0 <= i < files.len() && (#[trigger] files[i]).bytes@ == config.bytes@,
{
    first_files_are_fine(files, files.len());
}

/// Whether the first files have logical paths, no two of them the same.
pub open spec fn fine(files: Seq<LogicalPath>, n: nat) -> bool {
    &&& forall|i: int| 0 <= i < n ==> is_logical((#[trigger] files[i]).bytes@)
    &&& forall|i: int, j: int|
        0 <= i < j < n ==> (#[trigger] files[i]).bytes@ != (#[trigger] files[j]).bytes@
}

proof fn first_files_are_fine(files: Seq<LogicalPath>, n: nat)
    requires
        n <= files.len(),
    ensures
        refused(files, n) is None <==> fine(files, n),
    decreases n,
{
    if n > 0 {
        first_files_are_fine(files, (n - 1) as nat);
        if refused(files, n) is None {
            assert forall|i: int, j: int| 0 <= i < j < n implies (#[trigger] files[i]).bytes@ != (
            #[trigger] files[j]).bytes@ by {}
        } else if fine(files, n) {
            assert(fine(files, (n - 1) as nat));
            assert(is_logical(files[n - 1].bytes@));
            let i = choose|i: int|
                0 <= i < n - 1 && (#[trigger] files[i]).bytes@ == files[n - 1].bytes@;
            assert(files[i].bytes@ != files[n - 1].bytes@);
        }
    }
}

/// What files are refused for: a configuration without a logical path; the first file that has none
/// or that of a file before it; or a configuration that is not among the files.
pub proof fn why_files_are_refused(config: LogicalPath, files: Seq<LogicalPath>, n: nat)
    requires
        n < files.len(),
    ensures
        !is_logical(config.bytes@) ==> files_refused(config, files) == Some(
            RuntimeFault::LogicalPath(config.shown@),
        ),
        is_logical(config.bytes@) && fine(files, n) && !is_logical(files[n as int].bytes@)
            ==> files_refused(config, files) == Some(
            RuntimeFault::LogicalPath(files[n as int].shown@),
        ),
        is_logical(config.bytes@) && fine(files, n) && is_logical(files[n as int].bytes@) && (
        exists|i: int| 0 <= i < n && (#[trigger] files[i]).bytes@ == files[n as int].bytes@)
            ==> files_refused(config, files) == Some(
            RuntimeFault::DuplicatePath(files[n as int].shown@),
        ),
        is_logical(config.bytes@) && fine(files, files.len()) && !(exists|i: int|
            0 <= i < files.len() && (#[trigger] files[i]).bytes@ == config.bytes@)
            ==> files_refused(config, files) == Some(RuntimeFault::Undeclared(config.shown@)),
{
    first_files_are_fine(files, n);
    first_files_are_fine(files, files.len());
    if refused(files, n + 1) is Some {
        refusals_stay(files, n + 1, files.len());
    }
}

proof fn refusals_stay(files: Seq<LogicalPath>, k: nat, n: nat)
    requires
        k <= n <= files.len(),
        refused(files, k) is Some,
    ensures
        refused(files, n) == refused(files, k),
    decreases n,
{
    if k < n {
        refusals_stay(files, k, (n - 1) as nat);
    }
}

} // verus!
