//! The order of descriptor sets, and of files in them, is immaterial, and so is giving one twice.
use vstd::prelude::*;

verus! {

use crate::codec::{bare, merged_sets, schema_of};
use crate::equality::{alike, alike_is_same, ordinary};
use crate::error::Fault;
use crate::imports::{chain, imports};
use crate::message::MessageV;
use crate::once::file_once;
use crate::order::{ascending, ascending_insert, ascending_is_unique, slot, slot_divides};
use crate::pool::{message_type, resolves, set_files};
use crate::schema::{
    file_index, file_name, index_names, indexed, indexed_sets, merged, without_source,
};
use crate::sound::{sound, sound_file};
use crate::text::{text_less, text_less_irreflexive};

/// Whether a file is one of the first `n` sets, without its source locations.
pub open spec fn is_file(sets: Seq<Seq<u8>>, n: nat, f: MessageV) -> bool {
    exists|i: int, j: int| #[trigger] file_at(sets, n, i, j, f)
}

/// Whether a file is the one at a place in the first `n` sets.
pub open spec fn file_at(sets: Seq<Seq<u8>>, n: nat, i: int, j: int, f: MessageV) -> bool {
    0 <= i < n && match set_files(sets[i]) {
        Some(files) => 0 <= j < files.len() && f == without_source(files[j]),
        None => false,
    }
}

/// Whether files of one name among the first `n` sets are the same.
pub open spec fn consistent(sets: Seq<Seq<u8>>, n: nat) -> bool {
    forall|f: MessageV, g: MessageV| #[trigger]
        is_file(sets, n, f) && #[trigger] is_file(sets, n, g) && file_name(f) == file_name(g) ==> f
            == g
}

/// Whether two files, if they have one name, count as the same exactly if they are the same. Files
/// whose numbers are ordinary always do.
pub open spec fn told_apart(f: MessageV, g: MessageV) -> bool {
    file_name(f) == file_name(g) ==> (alike(f, g) <==> f == g)
}

/// The same of any two files of the first `n` sets. It fails only where an option that is not
/// interpreted holds NaN, or zeros of both signs.
pub open spec fn all_told_apart(sets: Seq<Seq<u8>>, n: nat) -> bool {
    forall|f: MessageV, g: MessageV| #[trigger]
        is_file(sets, n, f) && #[trigger] is_file(sets, n, g) ==> told_apart(f, g)
}

/// Files are told apart if their numbers are ordinary.
pub proof fn ordinary_files_are_told_apart(sets: Seq<Seq<u8>>, n: nat)
    requires
        forall|f: MessageV| #[trigger] is_file(sets, n, f) ==> ordinary(f),
    ensures
        all_told_apart(sets, n),
{
    assert forall|f: MessageV, g: MessageV| #[trigger]
        is_file(sets, n, f) && #[trigger] is_file(sets, n, g) implies told_apart(f, g) by {
        alike_is_same(f, g);
    }
}

/// Files of fewer sets are told apart too.
proof fn told_apart_before(sets: Seq<Seq<u8>>, m: nat, n: nat)
    requires
        m <= n,
        all_told_apart(sets, n),
    ensures
        all_told_apart(sets, m),
{
    assert forall|f: MessageV| #[trigger] is_file(sets, m, f) implies is_file(sets, n, f) by {
        let (i, j) = choose|i: int, j: int| #[trigger] file_at(sets, m, i, j, f);
        assert(file_at(sets, n, i, j, f));
    }
}

/// The files of one set are told apart from those before it, and among themselves.
proof fn set_told_apart(sets: Seq<Seq<u8>>, m: nat, more: Seq<MessageV>)
    requires
        set_files(sets[m as int]) == Some(more),
        all_told_apart(sets, m + 1),
    ensures
        forall|f: MessageV, j: int|
            is_file(sets, m, f) && 0 <= j < more.len() ==> #[trigger] told_apart(
                f,
                without_source(more[j]),
            ),
        more_told_apart(more),
{
    assert forall|f: MessageV| #[trigger] is_file(sets, m, f) implies is_file(sets, m + 1, f) by {
        let (i, j) = choose|i: int, j: int| #[trigger] file_at(sets, m, i, j, f);
        assert(file_at(sets, m + 1, i, j, f));
    }
    assert forall|j: int| 0 <= j < more.len() implies is_file(
        sets,
        m + 1,
        without_source(#[trigger] more[j]),
    ) by {
        assert(file_at(sets, m + 1, m as int, j, without_source(more[j])));
    }
    assert forall|f: MessageV, j: int|
        is_file(sets, m, f) && 0 <= j < more.len() implies #[trigger] told_apart(
        f,
        without_source(more[j]),
    ) by {
        assert(is_file(sets, m + 1, f) && is_file(sets, m + 1, without_source(more[j])));
    }
}

/// Whether files are told apart among themselves.
spec fn more_told_apart(more: Seq<MessageV>) -> bool {
    forall|k: int, j: int|
        0 <= k < more.len() && 0 <= j < more.len() ==> told_apart(
            without_source(#[trigger] more[k]),
            without_source(#[trigger] more[j]),
        )
}

/// No two files have the same name.
pub open spec fn names_differ(files: Seq<MessageV>) -> bool {
    forall|i: int, j: int|
        0 <= i < j < files.len() ==> file_name(#[trigger] files[i]) != file_name(
            #[trigger] files[j],
        )
}

/// Whether two schemas have the same files, in any order.
pub open spec fn same_members(a: Seq<MessageV>, b: Seq<MessageV>) -> bool {
    names_differ(a) && names_differ(b) && forall|f: MessageV| #[trigger]
        a.contains(f) <==> b.contains(f)
}

proof fn members_back(a: Seq<MessageV>, b: Seq<MessageV>)
    requires
        same_members(a, b),
    ensures
        same_members(b, a),
        a.len() == b.len(),
{
    assert forall|f: MessageV| #[trigger] b.contains(f) <==> a.contains(f) by {
        assert(a.contains(f) <==> b.contains(f));
    }
    assert(a.no_duplicates());
    assert(b.no_duplicates());
    a.unique_seq_to_set();
    b.unique_seq_to_set();
    assert(a.to_set() =~= b.to_set());
}

proof fn chain_in_any_order(a: Seq<MessageV>, b: Seq<MessageV>, f: MessageV, n: nat)
    requires
        same_members(a, b),
        chain(a, f, n),
    ensures
        chain(b, f, n),
    decreases n,
{
    if n > 0 {
        let j = choose|j: int|
            0 <= j < a.len() && imports(f, #[trigger] a[j]) && chain(a, a[j], (n - 1) as nat);
        chain_in_any_order(a, b, a[j], (n - 1) as nat);
        assert(a.contains(a[j]));
        let k = choose|k: int| 0 <= k < b.len() && b[k] == a[j];
        assert(imports(f, b[k]) && chain(b, b[k], (n - 1) as nat));
    }
}

/// Files are sound in any order.
proof fn sound_in_any_order(a: Seq<MessageV>, b: Seq<MessageV>)
    requires
        same_members(a, b),
        sound(a),
    ensures
        sound(b),
{
    members_back(a, b);
    assert forall|i: int| 0 <= i < b.len() implies file_once(#[trigger] b[i], true) by {
        assert(b.contains(b[i]));
        let k = choose|k: int| 0 <= k < a.len() && a[k] == b[i];
        assert(file_once(a[k], true));
    }
    assert forall|i: int| 0 <= i < b.len() implies sound_file(#[trigger] b[i]) by {
        assert(b.contains(b[i]));
        let k = choose|k: int| 0 <= k < a.len() && a[k] == b[i];
        assert(sound_file(a[k]));
    }
    assert forall|i: int| 0 <= i < b.len() implies !chain(b, #[trigger] b[i], b.len()) by {
        if chain(b, b[i], b.len()) {
            chain_in_any_order(b, a, b[i], b.len());
            assert(b.contains(b[i]));
            let k = choose|k: int| 0 <= k < a.len() && a[k] == b[i];
            assert(!chain(a, a[k], a.len()));
        }
    }
}

/// The same descriptor sets in any order, and any number of times, make files that are the same, and
/// as sound.
pub proof fn same_sets_same_files(a: Seq<Seq<u8>>, b: Seq<Seq<u8>>)
    requires
        all_told_apart(a, a.len()),
        same_sets(a, b),
    ensures
        merged_sets(a, a.len()) is Ok <==> merged_sets(b, b.len()) is Ok,
        merged_sets(a, a.len()) matches Ok(x) ==> same_members(x, merged_sets(b, b.len())->Ok_0)
            && sound(x) == sound(merged_sets(b, b.len())->Ok_0),
        a.len() > 0 <==> b.len() > 0,
{
    set_order_is_immaterial(a, b);
    told_apart_there(a, b);
    merged_sets_says(a, a.len());
    merged_sets_says(b, b.len());
    if let Ok(x) = merged_sets(a, a.len()) {
        let y = merged_sets(b, b.len())->Ok_0;
        assert(same_members(x, y));
        members_back(x, y);
        if sound(x) {
            sound_in_any_order(x, y);
        }
        if sound(y) {
            sound_in_any_order(y, x);
        }
    }
    if a.len() > 0 {
        assert(a.contains(a[0]));
        assert(b.contains(a[0]));
    }
    if b.len() > 0 {
        assert(b.contains(b[0]));
        assert(a.contains(b[0]));
    }
}

/// Whether descriptor sets are the same, in any order and any number of times.
pub open spec fn same_sets(a: Seq<Seq<u8>>, b: Seq<Seq<u8>>) -> bool {
    forall|s: Seq<u8>| #[trigger] a.contains(s) <==> b.contains(s)
}

proof fn file_index_says(files: Seq<MessageV>, name: Option<Seq<char>>)
    ensures
        file_index(files, name) <= files.len(),
        file_index(files, name) < files.len() ==> file_name(files[file_index(files, name) as int])
            == name,
        file_index(files, name) == files.len() ==> forall|i: int|
            0 <= i < files.len() ==> file_name(#[trigger] files[i]) != name,
    decreases files.len(),
{
    if files.len() > 0 && file_name(files[0]) != name {
        file_index_says(files.drop_first(), name);
        if file_index(files, name) == files.len() {
            assert forall|i: int| 0 <= i < files.len() implies file_name(#[trigger] files[i])
                != name by {
                if i > 0 {
                    assert(files[i] == files.drop_first()[i - 1]);
                }
            }
        }
    }
}

/// Adding files: they are all there afterwards, and a conflict is one of files with one name.
proof fn merged_says(files: Seq<MessageV>, more: Seq<MessageV>, n: nat)
    requires
        names_differ(files),
        n <= more.len(),
        forall|f: MessageV, j: int|
            files.contains(f) && 0 <= j < more.len() ==> #[trigger] told_apart(
                f,
                without_source(more[j]),
            ),
        more_told_apart(more),
    ensures
        match merged(files, more, n) {
            Ok(all) => names_differ(all) && forall|f: MessageV|
                #![trigger all.contains(f)]
                all.contains(f) <==> files.contains(f) || exists|j: int|
                    0 <= j < n && f == without_source(#[trigger] more[j]),
            Err(e) => e is Conflict && exists|f: MessageV, j: int|
                0 <= j < n && #[trigger] file_name(f) == file_name(
                    without_source(#[trigger] more[j]),
                ) && f != without_source(more[j]) && (files.contains(f) || exists|k: int|
                    0 <= k < n && f == without_source(#[trigger] more[k])),
        },
    decreases n,
{
    if n > 0 {
        let m = (n - 1) as nat;
        merged_says(files, more, m);
        if let Ok(all) = merged(files, more, m) {
            let g = without_source(more[m as int]);
            file_index_says(all, file_name(g));
            let i = file_index(all, file_name(g)) as int;
            if i < all.len() {
                assert(all.contains(all[i]));
                assert(told_apart(all[i], g)) by {
                    if !files.contains(all[i]) {
                        let k = choose|k: int|
                            0 <= k < m && all[i] == without_source(#[trigger] more[k]);
                        assert(told_apart(without_source(more[k]), without_source(more[m as int])));
                    }
                }
                if all[i] == g {
                    assert forall|f: MessageV|
                        #![trigger all.contains(f)]
                        all.contains(f) <==> files.contains(f) || exists|j: int|
                            0 <= j < n && f == without_source(#[trigger] more[j]) by {
                        if f == g {
                            assert(f == without_source(more[m as int]));
                        }
                        if exists|j: int| 0 <= j < n && f == without_source(#[trigger] more[j]) {
                            let j = choose|j: int|
                                0 <= j < n && f == without_source(#[trigger] more[j]);
                            if j < m {
                                assert(f == without_source(more[j]));
                            }
                        }
                    }
                } else {
                    let f = all[i];
                    assert(file_name(f) == file_name(without_source(more[m as int])));
                    if !files.contains(f) {
                        let k = choose|k: int|
                            0 <= k < m && f == without_source(#[trigger] more[k]);
                        assert(0 <= k < n && f == without_source(more[k]));
                    }
                }
            } else {
                let next = all.push(g);
                assert forall|f: MessageV|
                    #![trigger next.contains(f)]
                    next.contains(f) <==> files.contains(f) || exists|j: int|
                        0 <= j < n && f == without_source(#[trigger] more[j]) by {
                    if next.contains(f) {
                        let p = choose|p: int| 0 <= p < next.len() && next[p] == f;
                        if p < all.len() {
                            assert(all[p] == f);
                            assert(all.contains(f));
                            if !files.contains(f) {
                                let j = choose|j: int|
                                    0 <= j < m && f == without_source(#[trigger] more[j]);
                                assert(0 <= j < n && f == without_source(more[j]));
                            }
                        } else {
                            assert(f == without_source(more[m as int]));
                        }
                    }
                    if files.contains(f) {
                        assert(all.contains(f));
                        let p = choose|p: int| 0 <= p < all.len() && all[p] == f;
                        assert(next[p] == f);
                    }
                    if exists|j: int| 0 <= j < n && f == without_source(#[trigger] more[j]) {
                        let j = choose|j: int|
                            0 <= j < n && f == without_source(#[trigger] more[j]);
                        if j < m {
                            assert(f == without_source(more[j]));
                            assert(all.contains(f));
                            let p = choose|p: int| 0 <= p < all.len() && all[p] == f;
                            assert(next[p] == f);
                        } else {
                            assert(next[all.len() as int] == f);
                        }
                    }
                }
                assert(names_differ(next));
            }
        } else {
            let (f, j) = choose|f: MessageV, j: int|
                0 <= j < m && #[trigger] file_name(f) == file_name(
                    without_source(#[trigger] more[j]),
                ) && f != without_source(more[j]) && (files.contains(f) || exists|k: int|
                    0 <= k < m && f == without_source(#[trigger] more[k]));
            assert(0 <= j < n && file_name(f) == file_name(without_source(more[j])));
            if !files.contains(f) {
                let k = choose|k: int| 0 <= k < m && f == without_source(#[trigger] more[k]);
                assert(0 <= k < n && f == without_source(more[k]));
            }
        }
    }
}

/// Descriptor sets can be merged if and only if all of them can be read and files of one name are
/// the same. The merged files are then the files of the sets, each name once.
pub proof fn merged_sets_says(sets: Seq<Seq<u8>>, n: nat)
    requires
        n <= sets.len(),
        all_told_apart(sets, n),
    ensures
        match merged_sets(sets, n) {
            Ok(all) => names_differ(all) && (forall|f: MessageV| #[trigger]
                all.contains(f) <==> is_file(sets, n, f)) && consistent(sets, n) && forall|i: int|
                0 <= i < n ==> set_files(#[trigger] sets[i]) is Some,
            Err(_) => !consistent(sets, n) || exists|i: int|
                0 <= i < n && set_files(#[trigger] sets[i]) is None,
        },
    decreases n,
{
    if n == 0 {
        let all = Seq::<MessageV>::empty();
        assert forall|f: MessageV| #[trigger] all.contains(f) <==> is_file(sets, n, f) by {
            if is_file(sets, n, f) {
                let (i, j) = choose|i: int, j: int| #[trigger] file_at(sets, n, i, j, f);
                assert(false);
            }
        }
    } else {
        let m = (n - 1) as nat;
        told_apart_before(sets, m, n);
        merged_sets_says(sets, m);
        match merged_sets(sets, m) {
            Ok(files) => match set_files(sets[m as int]) {
                Some(more) => {
                    set_told_apart(sets, m, more);
                    merged_says(files, more, more.len());
                    match merged(files, more, more.len()) {
                        Ok(all) => {
                            assert forall|f: MessageV| #[trigger]
                                all.contains(f) <==> is_file(sets, n, f) by {
                                one_set_more(sets, m, files, more, f);
                            }
                            assert(consistent(sets, n)) by {
                                assert forall|f: MessageV, g: MessageV| #[trigger]
                                    is_file(sets, n, f) && #[trigger] is_file(sets, n, g)
                                        && file_name(f) == file_name(g) implies f == g by {
                                    assert(all.contains(f) && all.contains(g));
                                    let p = choose|p: int| 0 <= p < all.len() && all[p] == f;
                                    let q = choose|q: int| 0 <= q < all.len() && all[q] == g;
                                    if p < q {
                                        assert(file_name(all[p]) != file_name(all[q]));
                                    } else if q < p {
                                        assert(file_name(all[q]) != file_name(all[p]));
                                    }
                                }
                            }
                            assert forall|i: int| 0 <= i < n implies set_files(#[trigger] sets[i])
                                is Some by {}
                        },
                        Err(_) => {
                            let (f, j) = choose|f: MessageV, j: int|
                                0 <= j < more.len() && #[trigger] file_name(f) == file_name(
                                    without_source(#[trigger] more[j]),
                                ) && f != without_source(more[j]) && (files.contains(f) || exists|
                                    k: int,
                                |
                                    0 <= k < more.len() && f == without_source(#[trigger] more[k]));
                            let g = without_source(more[j]);
                            assert(file_at(sets, n, m as int, j, g));
                            assert(is_file(sets, n, g));
                            one_set_more(sets, m, files, more, f);
                            assert(is_file(sets, n, f));
                        },
                    }
                },
                None => {
                    assert(set_files(sets[m as int]) is None);
                },
            },
            Err(_) => {
                if !consistent(sets, m) {
                    let (f, g) = choose|f: MessageV, g: MessageV| #[trigger]
                        is_file(sets, m, f) && #[trigger] is_file(sets, m, g) && file_name(f)
                            == file_name(g) && f != g;
                    let (i, j) = choose|i: int, j: int| #[trigger] file_at(sets, m, i, j, f);
                    assert(file_at(sets, n, i, j, f));
                    let (k, l) = choose|k: int, l: int| #[trigger] file_at(sets, m, k, l, g);
                    assert(file_at(sets, n, k, l, g));
                    assert(is_file(sets, n, f) && is_file(sets, n, g));
                }
            },
        }
    }
}

proof fn one_set_more(
    sets: Seq<Seq<u8>>,
    m: nat,
    files: Seq<MessageV>,
    more: Seq<MessageV>,
    f: MessageV,
)
    requires
        m < sets.len(),
        set_files(sets[m as int]) == Some(more),
        files.contains(f) <==> is_file(sets, m, f),
    ensures
        is_file(sets, m + 1, f) <==> files.contains(f) || exists|j: int|
            0 <= j < more.len() && f == without_source(#[trigger] more[j]),
{
    if is_file(sets, m + 1, f) {
        let (i, j) = choose|i: int, j: int| #[trigger] file_at(sets, m + 1, i, j, f);
        if i < m {
            assert(file_at(sets, m, i, j, f));
        } else {
            assert(f == without_source(more[j]));
        }
    }
    if files.contains(f) {
        let (i, j) = choose|i: int, j: int| #[trigger] file_at(sets, m, i, j, f);
        assert(file_at(sets, m + 1, i, j, f));
    }
    if exists|j: int| 0 <= j < more.len() && f == without_source(#[trigger] more[j]) {
        let j = choose|j: int| 0 <= j < more.len() && f == without_source(#[trigger] more[j]);
        assert(file_at(sets, m + 1, m as int, j, f));
    }
}

/// The order of descriptor sets is immaterial, and so is how often one is given: the same sets
/// make the same files, or none do.
pub proof fn set_order_is_immaterial(a: Seq<Seq<u8>>, b: Seq<Seq<u8>>)
    requires
        all_told_apart(a, a.len()),
        forall|s: Seq<u8>| #[trigger] a.contains(s) <==> b.contains(s),
    ensures
        merged_sets(a, a.len()) is Ok <==> merged_sets(b, b.len()) is Ok,
        match (merged_sets(a, a.len()), merged_sets(b, b.len())) {
            (Ok(x), Ok(y)) => forall|f: MessageV| #[trigger] x.contains(f) <==> y.contains(f),
            _ => true,
        },
{
    told_apart_there(a, b);
    merged_sets_says(a, a.len());
    merged_sets_says(b, b.len());
    assert forall|f: MessageV| #[trigger] is_file(a, a.len(), f) <==> is_file(b, b.len(), f) by {
        same_files(a, b, f);
        same_files(b, a, f);
    }
    assert forall|i: int| 0 <= i < a.len() implies b.contains(#[trigger] a[i]) by {
        assert(a.contains(a[i]));
    }
    assert forall|i: int| 0 <= i < b.len() implies a.contains(#[trigger] b[i]) by {
        assert(b.contains(b[i]));
    }
    same_consistency(a, b);
    same_consistency(b, a);
    if merged_sets(a, a.len()) is Ok && merged_sets(b, b.len()) is Err {
        let i = choose|i: int| 0 <= i < b.len() && set_files(#[trigger] b[i]) is None;
        assert(a.contains(b[i]));
        let k = choose|k: int| 0 <= k < a.len() && a[k] == b[i];
        assert(set_files(a[k]) is Some);
    }
    if merged_sets(b, b.len()) is Ok && merged_sets(a, a.len()) is Err {
        let i = choose|i: int| 0 <= i < a.len() && set_files(#[trigger] a[i]) is None;
        assert(b.contains(a[i]));
        let k = choose|k: int| 0 <= k < b.len() && b[k] == a[i];
        assert(set_files(b[k]) is Some);
    }
}

/// A descriptor set that was given before is immaterial: the schema, or the error, is the same.
pub proof fn repeated_sets_are_immaterial(sets: Seq<Seq<u8>>, s: Seq<u8>, name: Seq<char>)
    requires
        all_told_apart(sets, sets.len()),
        sets.contains(s),
    ensures
        schema_of(sets.push(s), name) == schema_of(sets, name),
{
    let n = sets.len();
    let all = sets.push(s);
    merged_front(sets, s, n);
    merged_sets_says(sets, n);
    if let Ok(files) = merged_sets(sets, n) {
        let i = choose|i: int| 0 <= i < n && sets[i] == s;
        assert(set_files(sets[i]) is Some);
        let more = set_files(s)->Some_0;
        assert forall|j: int| 0 <= j < more.len() implies files.contains(
            without_source(#[trigger] more[j]),
        ) by {
            assert(file_at(sets, n, i, j, without_source(more[j])));
            assert(is_file(sets, n, without_source(more[j])));
        }
        assert forall|j: int| 0 <= j < more.len() implies alike(
            without_source(#[trigger] more[j]),
            without_source(more[j]),
        ) by {
            let f = without_source(more[j]);
            assert(files.contains(f));
            assert(is_file(sets, n, f));
            assert(told_apart(f, f));
        }
        merged_again(files, more, more.len());
    }
    assert(merged_sets(all, n + 1) == merged_sets(sets, n));
}

proof fn merged_front(sets: Seq<Seq<u8>>, s: Seq<u8>, n: nat)
    requires
        n <= sets.len(),
    ensures
        merged_sets(sets.push(s), n) == merged_sets(sets, n),
    decreases n,
{
    if n > 0 {
        merged_front(sets, s, (n - 1) as nat);
        assert(sets.push(s)[n - 1] == sets[n - 1]);
    }
}

proof fn merged_again(files: Seq<MessageV>, more: Seq<MessageV>, n: nat)
    requires
        names_differ(files),
        n <= more.len(),
        forall|j: int|
            0 <= j < more.len() ==> files.contains(without_source(#[trigger] more[j])) && alike(
                without_source(more[j]),
                without_source(more[j]),
            ),
    ensures
        merged(files, more, n) == Ok::<Seq<MessageV>, Fault>(files),
    decreases n,
{
    if n > 0 {
        merged_again(files, more, (n - 1) as nat);
        let g = without_source(more[n - 1]);
        assert(files.contains(g));
        file_index_says(files, file_name(g));
        let i = choose|i: int| 0 <= i < files.len() && files[i] == g;
        assert(file_name(files[i]) == file_name(g));
        let k = file_index(files, file_name(g)) as int;
        if k < i {
            assert(file_name(files[k]) != file_name(files[i]));
        } else if i < k {
            assert(file_name(files[i]) != file_name(files[k]));
        }
    }
}

proof fn same_consistency(a: Seq<Seq<u8>>, b: Seq<Seq<u8>>)
    requires
        forall|s: Seq<u8>| #[trigger] a.contains(s) <==> b.contains(s),
    ensures
        consistent(a, a.len()) ==> consistent(b, b.len()),
{
    if consistent(a, a.len()) {
        assert forall|f: MessageV, g: MessageV| #[trigger]
            is_file(b, b.len(), f) && #[trigger] is_file(b, b.len(), g) && file_name(f) == file_name(
                g,
            ) implies f == g by {
            same_files(b, a, f);
            same_files(b, a, g);
        }
    }
}

proof fn told_apart_there(a: Seq<Seq<u8>>, b: Seq<Seq<u8>>)
    requires
        all_told_apart(a, a.len()),
        forall|s: Seq<u8>| #[trigger] a.contains(s) <==> b.contains(s),
    ensures
        all_told_apart(b, b.len()),
{
    assert forall|f: MessageV, g: MessageV| #[trigger]
        is_file(b, b.len(), f) && #[trigger] is_file(b, b.len(), g) implies told_apart(f, g) by {
        same_files(b, a, f);
        same_files(b, a, g);
    }
}

proof fn same_files(a: Seq<Seq<u8>>, b: Seq<Seq<u8>>, f: MessageV)
    requires
        forall|s: Seq<u8>| #[trigger] a.contains(s) <==> b.contains(s),
    ensures
        is_file(a, a.len(), f) ==> is_file(b, b.len(), f),
{
    if is_file(a, a.len(), f) {
        let (i, j) = choose|i: int, j: int| #[trigger] file_at(a, a.len(), i, j, f);
        assert(a.contains(a[i]));
        assert(b.contains(a[i]));
        let k = choose|k: int| 0 <= k < b.len() && b[k] == a[i];
        assert(file_at(b, b.len(), k, j, f));
    }
}

/// Whether each of the first `n` sets can be read.
pub open spec fn readable_sets(sets: Seq<Seq<u8>>, n: nat) -> bool {
    forall|i: int| 0 <= i < n ==> set_files(#[trigger] sets[i]) is Some
}

/// Descriptor sets make a schema that has a message type if, and only if, there are any, all of
/// them can be read, files of one name are the same, and what they declare can be used, resolves,
/// and has the type.
pub proof fn when_schemas_are_made(sets: Seq<Seq<u8>>, name: Seq<char>)
    requires
        all_told_apart(sets, sets.len()),
    ensures
        schema_of(sets, name) is Ok <==> sets.len() > 0 && readable_sets(sets, sets.len())
            && consistent(sets, sets.len()) && {
            let files = merged_sets(sets, sets.len())->Ok_0;
            sound(files) && resolves(files) && message_type(files, bare(name)) is Some
        },
        schema_of(sets, name) is Ok ==> schema_of(sets, name) == merged_sets(sets, sets.len()),
{
    merged_sets_says(sets, sets.len());
}

/// Whether each file of the first `n` sets has a name.
pub open spec fn all_named(sets: Seq<Seq<u8>>, n: nat) -> bool {
    forall|f: MessageV| #[trigger] is_file(sets, n, f) ==> file_name(f) is Some
}

/// A file with its name.
spec fn named(f: MessageV) -> (Seq<char>, MessageV) {
    (file_name(f)->Some_0, f)
}

/// The name of an index stands where its slot is.
proof fn slot_finds(index: Seq<(Seq<char>, MessageV)>, p: int)
    requires
        ascending(index_names(index)),
        0 <= p < index.len(),
    ensures
        slot(index_names(index), index[p].0) == p,
{
    let keys = index_names(index);
    let name = index[p].0;
    slot_divides(keys, name);
    let i = slot(keys, name) as int;
    text_less_irreflexive(name);
    if p < i {
        assert(text_less(keys[p], name));
    }
    if i < p {
        assert(text_less(keys[i], keys[p]));
    }
}

/// Whether a file that is in an index, or among the first `n` of more files, is another one than
/// that with its name at a place among these.
spec fn clash(
    index: Seq<(Seq<char>, MessageV)>,
    more: Seq<MessageV>,
    n: nat,
    x: (Seq<char>, MessageV),
    j: int,
) -> bool {
    0 <= j < n && file_name(without_source(more[j])) == Some(x.0) && x.1 != without_source(more[j])
        && (index.contains(x) || exists|k: int|
        0 <= k < n && file_name(without_source(more[k])) is Some && x == named(
            without_source(#[trigger] more[k]),
        ))
}

/// Adding files to an index: they are all there afterwards, under their names.
proof fn indexed_says(index: Seq<(Seq<char>, MessageV)>, more: Seq<MessageV>, n: nat)
    requires
        ascending(index_names(index)),
        n <= more.len(),
        forall|x: (Seq<char>, MessageV), j: int|
            #![trigger index.contains(x), more[j]]
            index.contains(x) && 0 <= j < more.len() ==> file_name(x.1) == Some(x.0) && told_apart(
                x.1,
                without_source(more[j]),
            ),
        more_told_apart(more),
    ensures
        match indexed(index, more, n) {
            Ok(all) => ascending(index_names(all)) && (forall|x: (Seq<char>, MessageV)|
                #![trigger all.contains(x)]
                all.contains(x) <==> index.contains(x) || exists|j: int|
                    0 <= j < n && file_name(without_source(more[j])) is Some && x == named(
                        without_source(#[trigger] more[j]),
                    )) && forall|j: int|
                0 <= j < n ==> file_name(without_source(#[trigger] more[j])) is Some,
            Err(e) => (exists|j: int|
                0 <= j < n && file_name(without_source(#[trigger] more[j])) is None) || exists|
                x: (Seq<char>, MessageV),
                j: int,
            | #[trigger]
                clash(index, more, n, x, j),
        },
    decreases n,
{
    if n > 0 {
        let m = (n - 1) as nat;
        indexed_says(index, more, m);
        let g = without_source(more[m as int]);
        if let Ok(all) = indexed(index, more, m) {
            if let Some(name) = file_name(g) {
                let keys = index_names(all);
                slot_divides(keys, name);
                let i = slot(keys, name) as int;
                if i < all.len() && all[i].0 == name {
                    assert(all.contains(all[i]));
                    let there = all[i];
                    assert(file_name(there.1) == Some(name) && told_apart(there.1, g)) by {
                        if !index.contains(there) {
                            let k = choose|k: int|
                                0 <= k < m && file_name(without_source(more[k])) is Some && there
                                    == named(without_source(#[trigger] more[k]));
                            assert(told_apart(
                                without_source(more[k]),
                                without_source(more[m as int]),
                            ));
                        }
                    }
                    if all[i].1 == g {
                        assert forall|x: (Seq<char>, MessageV)|
                            #![trigger all.contains(x)]
                            all.contains(x) <==> index.contains(x) || exists|j: int|
                                0 <= j < n && file_name(without_source(more[j])) is Some && x
                                    == named(without_source(#[trigger] more[j])) by {
                            one_file_more(index, more, m, x);
                            if x == named(g) {
                                assert(all[i] == x);
                            }
                        }
                    } else {
                        one_file_more(index, more, m, all[i]);
                        assert(clash(index, more, n, all[i], m as int));
                    }
                } else {
                    let next = all.insert(i, (name, g));
                    if keys.contains(name) {
                        let p = keys.index_of(name);
                        slot_finds(all, p);
                    }
                    ascending_insert(keys, name);
                    assert(index_names(next) =~= keys.insert(i, name));
                    assert forall|x: (Seq<char>, MessageV)|
                        #![trigger next.contains(x)]
                        next.contains(x) <==> index.contains(x) || exists|j: int|
                            0 <= j < n && file_name(without_source(more[j])) is Some && x == named(
                                without_source(#[trigger] more[j]),
                            ) by {
                        one_file_more(index, more, m, x);
                        if next.contains(x) {
                            let p = next.index_of(x);
                            if p < i {
                                assert(all[p] == x);
                                assert(all.contains(x));
                            } else if p > i {
                                assert(all[p - 1] == x);
                                assert(all.contains(x));
                            }
                        }
                        if all.contains(x) {
                            let p = all.index_of(x);
                            assert(next[if p < i {
                                p
                            } else {
                                p + 1
                            }] == x);
                        }
                        if x == named(g) {
                            assert(next[i] == x);
                        }
                    }
                }
            } else {
                assert(file_name(without_source(more[m as int])) is None);
            }
        } else if !(exists|j: int|
            0 <= j < m && file_name(without_source(#[trigger] more[j])) is None) {
            let (x, j) = choose|x: (Seq<char>, MessageV), j: int| #[trigger]
                clash(index, more, m, x, j);
            one_file_more(index, more, m, x);
            assert(clash(index, more, n, x, j));
        } else {
            let j = choose|j: int|
                0 <= j < m && file_name(without_source(#[trigger] more[j])) is None;
            assert(0 <= j < n && file_name(without_source(more[j])) is None);
        }
    }
}

/// What the first files and one more give.
proof fn one_file_more(
    index: Seq<(Seq<char>, MessageV)>,
    more: Seq<MessageV>,
    m: nat,
    x: (Seq<char>, MessageV),
)
    requires
        m < more.len(),
    ensures
        (exists|j: int|
            0 <= j < m + 1 && file_name(without_source(more[j])) is Some && x == named(
                without_source(#[trigger] more[j]),
            )) <==> (exists|j: int|
            0 <= j < m && file_name(without_source(more[j])) is Some && x == named(
                without_source(#[trigger] more[j]),
            )) || (file_name(without_source(more[m as int])) is Some && x == named(
            without_source(more[m as int]),
        )),
{
    if exists|j: int|
        0 <= j < m + 1 && file_name(without_source(more[j])) is Some && x == named(
            without_source(#[trigger] more[j]),
        ) {
        let j = choose|j: int|
            0 <= j < m + 1 && file_name(without_source(more[j])) is Some && x == named(
                without_source(#[trigger] more[j]),
            );
        if j < m {
            assert(x == named(without_source(more[j])));
        }
    }
    if exists|j: int|
        0 <= j < m && file_name(without_source(more[j])) is Some && x == named(
            without_source(#[trigger] more[j]),
        ) {
        let j = choose|j: int|
            0 <= j < m && file_name(without_source(more[j])) is Some && x == named(
                without_source(#[trigger] more[j]),
            );
        assert(0 <= j < m + 1 && x == named(without_source(more[j])));
    }
}

/// Descriptor sets can be loaded if, and only if, all of them can be read, each file has a name,
/// and files of one name are the same. The files are then those of the sets, each once, in
/// ascending order of their names.
pub proof fn indexed_sets_says(sets: Seq<Seq<u8>>, n: nat)
    requires
        n <= sets.len(),
        all_told_apart(sets, n),
    ensures
        indexed_sets(sets, n) is Ok <==> readable_sets(sets, n) && all_named(sets, n)
            && consistent(sets, n),
        indexed_sets(sets, n) matches Ok(all) ==> ascending(index_names(all)) && (forall|
            x: (Seq<char>, MessageV),
        | #[trigger]
            all.contains(x) <==> is_file(sets, n, x.1) && file_name(x.1) == Some(x.0)),
    decreases n,
{
    if n == 0 {
        assert forall|f: MessageV| !(#[trigger] is_file(sets, n, f)) by {
            if is_file(sets, n, f) {
                let (i, j) = choose|i: int, j: int| #[trigger] file_at(sets, n, i, j, f);
                assert(false);
            }
        }
    } else {
        let m = (n - 1) as nat;
        told_apart_before(sets, m, n);
        indexed_sets_says(sets, m);
        assert forall|f: MessageV| #[trigger] is_file(sets, m, f) implies is_file(sets, n, f) by {
            let (i, j) = choose|i: int, j: int| #[trigger] file_at(sets, m, i, j, f);
            assert(file_at(sets, n, i, j, f));
        }
        if let Ok(index) = indexed_sets(sets, m) {
            if let Some(more) = set_files(sets[m as int]) {
                assert forall|j: int| 0 <= j < more.len() implies is_file(
                    sets,
                    n,
                    without_source(#[trigger] more[j]),
                ) by {
                    assert(file_at(sets, n, m as int, j, without_source(more[j])));
                }
                assert forall|f: MessageV| #[trigger] is_file(sets, n, f) implies is_file(
                    sets,
                    m,
                    f,
                ) || exists|j: int| 0 <= j < more.len() && f == without_source(#[trigger] more[j]) by {
                    let (i, j) = choose|i: int, j: int| #[trigger] file_at(sets, n, i, j, f);
                    if i < m {
                        assert(file_at(sets, m, i, j, f));
                    } else {
                        assert(f == without_source(more[j]));
                    }
                }
                set_told_apart(sets, m, more);
                index_with_a_set(sets, m, index, more);
            } else {
                assert(!readable_sets(sets, n));
            }
        } else {
            if readable_sets(sets, n) && all_named(sets, n) && consistent(sets, n) {
                assert(readable_sets(sets, m));
                assert(all_named(sets, m));
                assert(consistent(sets, m));
            }
        }
    }
}

/// What an index and one set more give.
proof fn index_with_a_set(
    sets: Seq<Seq<u8>>,
    m: nat,
    index: Seq<(Seq<char>, MessageV)>,
    more: Seq<MessageV>,
)
    requires
        m < sets.len(),
        set_files(sets[m as int]) == Some(more),
        indexed_sets(sets, m) == Ok::<Seq<(Seq<char>, MessageV)>, Fault>(index),
        readable_sets(sets, m),
        all_named(sets, m),
        all_told_apart(sets, m + 1),
        ascending(index_names(index)),
        forall|x: (Seq<char>, MessageV)| #[trigger]
            index.contains(x) <==> is_file(sets, m, x.1) && file_name(x.1) == Some(x.0),
        forall|f: MessageV| #[trigger] is_file(sets, m, f) ==> is_file(sets, m + 1, f),
        forall|j: int|
            0 <= j < more.len() ==> is_file(sets, m + 1, without_source(#[trigger] more[j])),
        forall|f: MessageV| #[trigger]
            is_file(sets, m + 1, f) ==> is_file(sets, m, f) || exists|j: int|
                0 <= j < more.len() && f == without_source(#[trigger] more[j]),
    ensures
        indexed_sets(sets, m + 1) is Ok <==> readable_sets(sets, m + 1) && all_named(sets, m + 1)
            && consistent(sets, m + 1),
        indexed_sets(sets, m + 1) matches Ok(all) ==> ascending(index_names(all)) && (forall|
            x: (Seq<char>, MessageV),
        | #[trigger]
            all.contains(x) <==> is_file(sets, m + 1, x.1) && file_name(x.1) == Some(x.0)),
{
    let n = m + 1;
    set_told_apart(sets, m, more);
    assert forall|x: (Seq<char>, MessageV), j: int|
        #![trigger index.contains(x), more[j]]
        index.contains(x) && 0 <= j < more.len() implies file_name(x.1) == Some(x.0) && told_apart(
        x.1,
        without_source(more[j]),
    ) by {
        assert(is_file(sets, m, x.1));
    }
    indexed_says(index, more, more.len());
    assert(readable_sets(sets, n));
    match indexed(index, more, more.len()) {
        Ok(all) => {
            assert forall|x: (Seq<char>, MessageV)| #[trigger]
                all.contains(x) <==> is_file(sets, n, x.1) && file_name(x.1) == Some(x.0) by {
                if all.contains(x) && !index.contains(x) {
                    let j = choose|j: int|
                        0 <= j < more.len() && file_name(without_source(more[j])) is Some && x
                            == named(without_source(#[trigger] more[j]));
                    assert(is_file(sets, n, without_source(more[j])));
                }
                if is_file(sets, n, x.1) && file_name(x.1) == Some(x.0) {
                    if is_file(sets, m, x.1) {
                        assert(index.contains(x));
                    } else {
                        let j = choose|j: int|
                            0 <= j < more.len() && x.1 == without_source(#[trigger] more[j]);
                        assert(x == named(without_source(more[j])));
                    }
                }
            }
            assert(all_named(sets, n));
            assert(consistent(sets, n)) by {
                assert forall|f: MessageV, g: MessageV| #[trigger]
                    is_file(sets, n, f) && #[trigger] is_file(sets, n, g) && file_name(f)
                        == file_name(g) implies f == g by {
                    assert(all.contains(named(f)) && all.contains(named(g)));
                    let p = all.index_of(named(f));
                    let q = all.index_of(named(g));
                    slot_finds(all, p);
                    slot_finds(all, q);
                }
            }
        },
        Err(_) => {
            if exists|j: int|
                0 <= j < more.len() && file_name(without_source(#[trigger] more[j])) is None {
                let j = choose|j: int|
                    0 <= j < more.len() && file_name(without_source(#[trigger] more[j])) is None;
                assert(is_file(sets, n, without_source(more[j])));
                assert(!all_named(sets, n));
            } else {
                let (x, j) = choose|x: (Seq<char>, MessageV), j: int| #[trigger]
                    clash(index, more, more.len(), x, j);
                let g = without_source(more[j]);
                assert(is_file(sets, n, g));
                assert(is_file(sets, n, x.1));
                assert(file_name(x.1) == file_name(g));
                assert(!consistent(sets, n));
            }
        },
    }
}

/// The order of descriptor sets that are loaded is immaterial, and so is how often one is given:
/// the same files come out in the same order, or none do.
pub proof fn load_order_is_immaterial(a: Seq<Seq<u8>>, b: Seq<Seq<u8>>)
    requires
        all_told_apart(a, a.len()),
        forall|s: Seq<u8>| #[trigger] a.contains(s) <==> b.contains(s),
    ensures
        indexed_sets(a, a.len()) is Ok <==> indexed_sets(b, b.len()) is Ok,
        indexed_sets(a, a.len()) is Ok ==> indexed_sets(a, a.len()) == indexed_sets(b, b.len()),
{
    told_apart_there(a, b);
    indexed_sets_says(a, a.len());
    indexed_sets_says(b, b.len());
    assert forall|f: MessageV| #[trigger] is_file(a, a.len(), f) <==> is_file(b, b.len(), f) by {
        same_files(a, b, f);
        same_files(b, a, f);
    }
    assert forall|f: MessageV| #[trigger] is_file(b, b.len(), f) implies is_file(a, a.len(), f) by {
        same_files(b, a, f);
    }
    same_consistency(a, b);
    same_consistency(b, a);
    assert(readable_sets(a, a.len()) <==> readable_sets(b, b.len())) by {
        if readable_sets(a, a.len()) {
            assert forall|i: int| 0 <= i < b.len() implies set_files(#[trigger] b[i]) is Some by {
                assert(b.contains(b[i]));
                assert(a.contains(b[i]));
                let k = a.index_of(b[i]);
                assert(set_files(a[k]) is Some);
            }
        }
        if readable_sets(b, b.len()) {
            assert forall|i: int| 0 <= i < a.len() implies set_files(#[trigger] a[i]) is Some by {
                assert(a.contains(a[i]));
                let k = b.index_of(a[i]);
                assert(set_files(b[k]) is Some);
            }
        }
    }
    if let Ok(x) = indexed_sets(a, a.len()) {
        let y = indexed_sets(b, b.len())->Ok_0;
        assert forall|i: int, j: int| 0 <= i < j < x.len() implies text_less(x[i].0, x[j].0) by {
            assert(text_less(index_names(x)[i], index_names(x)[j]));
        }
        assert forall|i: int, j: int| 0 <= i < j < y.len() implies text_less(y[i].0, y[j].0) by {
            assert(text_less(index_names(y)[i], index_names(y)[j]));
        }
        ascending_is_unique(x, y);
    }
}

} // verus!
