//! Where a text belongs in a sequence that is ordered by text.
use crate::text::text_lt;
use vstd::prelude::*;

verus! {

use crate::text::{text_less, text_less_irreflexive, text_less_total, text_less_transitive};

/// The texts stand in strictly ascending order.
pub open spec fn ascending(keys: Seq<Seq<char>>) -> bool {
    forall|i: int, j: int| 0 <= i < j < keys.len() ==> text_less(keys[i], keys[j])
}

/// No text stands behind one that comes after it.
pub open spec fn nondescending(keys: Seq<Seq<char>>) -> bool {
    forall|i: int, j: int| 0 <= i < j < keys.len() ==> !text_less(keys[j], keys[i])
}

/// How many texts at the front come before `k`.
pub open spec fn slot(keys: Seq<Seq<char>>, k: Seq<char>) -> nat
    decreases keys.len(),
{
    if keys.len() > 0 && text_less(keys[0], k) {
        1 + slot(keys.drop_first(), k)
    } else {
        0
    }
}

/// How many texts at the front do not come after `k`.
pub open spec fn slot_behind(keys: Seq<Seq<char>>, k: Seq<char>) -> nat
    decreases keys.len(),
{
    if keys.len() > 0 && !text_less(k, keys[0]) {
        1 + slot_behind(keys.drop_first(), k)
    } else {
        0
    }
}

/// What decides where the slot is.
pub proof fn slot_is(keys: Seq<Seq<char>>, k: Seq<char>, p: int)
    requires
        0 <= p <= keys.len(),
        forall|i: int| 0 <= i < p ==> text_less(keys[i], k),
        p < keys.len() ==> !text_less(keys[p], k),
    ensures
        slot(keys, k) == p,
    decreases p,
{
    if p > 0 {
        assert(text_less(keys[0], k));
        slot_is(keys.drop_first(), k, p - 1);
    }
}

/// What decides where the slot behind is.
pub proof fn slot_behind_is(keys: Seq<Seq<char>>, k: Seq<char>, p: int)
    requires
        0 <= p <= keys.len(),
        forall|i: int| 0 <= i < p ==> !text_less(k, keys[i]),
        p < keys.len() ==> text_less(k, keys[p]),
    ensures
        slot_behind(keys, k) == p,
    decreases p,
{
    if p > 0 {
        assert(!text_less(k, keys[0]));
        slot_behind_is(keys.drop_first(), k, p - 1);
    }
}

/// The slot divides the sequence as `slot_is` says.
pub proof fn slot_divides(keys: Seq<Seq<char>>, k: Seq<char>)
    ensures
        slot(keys, k) <= keys.len(),
        forall|i: int| 0 <= i < slot(keys, k) ==> text_less(keys[i], k),
        slot(keys, k) < keys.len() ==> !text_less(keys[slot(keys, k) as int], k),
    decreases keys.len(),
{
    if keys.len() > 0 && text_less(keys[0], k) {
        slot_divides(keys.drop_first(), k);
        assert forall|i: int| 0 <= i < slot(keys, k) implies text_less(keys[i], k) by {
            if i > 0 {
                assert(keys[i] == keys.drop_first()[i - 1]);
            }
        }
    }
}

/// The slot behind divides the sequence as `slot_behind_is` says.
pub proof fn slot_behind_divides(keys: Seq<Seq<char>>, k: Seq<char>)
    ensures
        slot_behind(keys, k) <= keys.len(),
        forall|i: int| 0 <= i < slot_behind(keys, k) ==> !text_less(k, keys[i]),
        slot_behind(keys, k) < keys.len() ==> text_less(k, keys[slot_behind(keys, k) as int]),
    decreases keys.len(),
{
    if keys.len() > 0 && !text_less(k, keys[0]) {
        slot_behind_divides(keys.drop_first(), k);
        assert forall|i: int| 0 <= i < slot_behind(keys, k) implies !text_less(k, keys[i]) by {
            if i > 0 {
                assert(keys[i] == keys.drop_first()[i - 1]);
            }
        }
    }
}

/// What texts in ascending order stand with is in one order only.
pub proof fn ascending_is_unique<T>(a: Seq<(Seq<char>, T)>, b: Seq<(Seq<char>, T)>)
    requires
        forall|i: int, j: int| 0 <= i < j < a.len() ==> text_less(a[i].0, a[j].0),
        forall|i: int, j: int| 0 <= i < j < b.len() ==> text_less(b[i].0, b[j].0),
        forall|x: (Seq<char>, T)| #[trigger] a.contains(x) <==> b.contains(x),
    ensures
        a == b,
    decreases a.len(),
{
    if a.len() == 0 {
        if b.len() > 0 {
            assert(b.contains(b[0]));
            assert(a.contains(b[0]));
        }
        assert(a =~= b);
    } else {
        let x = a.last();
        assert(a.contains(x));
        let q = b.index_of(x);
        let y = b.last();
        assert(b.contains(y));
        assert(a.contains(y));
        let p = a.index_of(y);
        if q < b.len() - 1 {
            assert(text_less(b[q].0, b[b.len() - 1].0));
            if p < a.len() - 1 {
                assert(text_less(a[p].0, a[a.len() - 1].0));
                text_less_transitive(x.0, y.0, x.0);
            }
            text_less_irreflexive(x.0);
        }
        assert(x == y);
        let c = a.drop_last();
        let d = b.drop_last();
        assert forall|z: (Seq<char>, T)| #[trigger] c.contains(z) <==> d.contains(z) by {
            text_less_irreflexive(x.0);
            if c.contains(z) {
                let i = c.index_of(z);
                assert(a[i] == z && a.contains(z));
                assert(b.contains(z));
                assert(text_less(a[i].0, a[a.len() - 1].0));
                let j = b.index_of(z);
                assert(j < b.len() - 1);
                assert(d[j] == z);
            }
            if d.contains(z) {
                let i = d.index_of(z);
                assert(b[i] == z && b.contains(z));
                assert(a.contains(z));
                assert(text_less(b[i].0, b[b.len() - 1].0));
                let j = a.index_of(z);
                assert(j < a.len() - 1);
                assert(c[j] == z);
            }
        }
        ascending_is_unique(c, d);
        assert(a =~= c.push(x));
        assert(b =~= d.push(x));
    }
}

/// A text that is not in an ascending sequence can go into its slot.
pub proof fn ascending_insert(keys: Seq<Seq<char>>, k: Seq<char>)
    requires
        ascending(keys),
        !keys.contains(k),
    ensures
        slot(keys, k) <= keys.len(),
        ascending(keys.insert(slot(keys, k) as int, k)),
{
    slot_divides(keys, k);
    let p = slot(keys, k) as int;
    let all = keys.insert(p, k);
    assert forall|i: int, j: int| 0 <= i < j < all.len() implies text_less(all[i], all[j]) by {
        if i == p {
            assert(all[j] == keys[j - 1]);
            text_less_total(k, keys[p]);
            if p < j - 1 {
                text_less_transitive(k, keys[p], keys[j - 1]);
            }
        }
    }
}

/// Any text can go into its slot behind in a sequence without descents.
pub proof fn nondescending_insert(keys: Seq<Seq<char>>, k: Seq<char>)
    requires
        nondescending(keys),
    ensures
        slot_behind(keys, k) <= keys.len(),
        nondescending(keys.insert(slot_behind(keys, k) as int, k)),
{
    slot_behind_divides(keys, k);
    let p = slot_behind(keys, k) as int;
    let all = keys.insert(p, k);
    assert forall|i: int, j: int| 0 <= i < j < all.len() implies !text_less(all[j], all[i]) by {
        if i == p {
            assert(all[j] == keys[j - 1]);
            text_less_irreflexive(k);
            if text_less(keys[j - 1], k) {
                text_less_transitive(keys[j - 1], k, keys[p]);
                text_less_irreflexive(keys[p]);
            }
        }
    }
}

/// The first texts of pairs.
pub open spec fn keys_of<T>(s: Seq<(String, T)>) -> Seq<Seq<char>> {
    Seq::new(s.len(), |i: int| s[i].0@)
}

/// Finds the slot by bisection.
pub fn find_slot<T>(s: &Vec<(String, T)>, k: &str) -> (r: usize)
    requires
        ascending(keys_of(s@)),
    ensures
        r == slot(keys_of(s@), k@),
        r <= s@.len(),
{
    let ghost keys = keys_of(s@);
    let mut lo: usize = 0;
    let mut hi: usize = s.len();
    while lo < hi
        invariant
            keys == keys_of(s@),
            ascending(keys),
            lo <= hi <= s@.len(),
            forall|i: int| 0 <= i < lo ==> text_less(keys[i], k@),
            forall|i: int| hi <= i < keys.len() ==> !text_less(keys[i], k@),
        decreases hi - lo,
    {
        let mid: usize = lo + (hi - lo) / 2;
        assert(keys[mid as int] == s@[mid as int].0@);
        if text_lt(s[mid].0.as_str(), k) {
            assert forall|i: int| 0 <= i < mid + 1 implies text_less(keys[i], k@) by {
                if i < mid {
                    text_less_transitive(keys[i], keys[mid as int], k@);
                }
            }
            lo = mid + 1;
        } else {
            assert forall|i: int| mid <= i < keys.len() implies !text_less(keys[i], k@) by {
                if i > mid && text_less(keys[i], k@) {
                    text_less_transitive(keys[mid as int], keys[i], k@);
                }
            }
            hi = mid;
        }
    }
    proof {
        slot_is(keys, k@, lo as int);
    }
    lo
}

/// Finds the slot behind by bisection.
pub fn find_slot_behind<T>(s: &Vec<(String, T)>, k: &str) -> (r: usize)
    requires
        nondescending(keys_of(s@)),
    ensures
        r == slot_behind(keys_of(s@), k@),
        r <= s@.len(),
{
    let ghost keys = keys_of(s@);
    let mut lo: usize = 0;
    let mut hi: usize = s.len();
    while lo < hi
        invariant
            keys == keys_of(s@),
            nondescending(keys),
            lo <= hi <= s@.len(),
            forall|i: int| 0 <= i < lo ==> !text_less(k@, keys[i]),
            forall|i: int| hi <= i < keys.len() ==> text_less(k@, keys[i]),
        decreases hi - lo,
    {
        let mid: usize = lo + (hi - lo) / 2;
        assert(keys[mid as int] == s@[mid as int].0@);
        if text_lt(k, s[mid].0.as_str()) {
            assert forall|i: int| mid <= i < keys.len() implies text_less(k@, keys[i]) by {
                if i > mid {
                    text_less_total(keys[mid as int], keys[i]);
                    if text_less(keys[mid as int], keys[i]) {
                        text_less_transitive(k@, keys[mid as int], keys[i]);
                    }
                }
            }
            hi = mid;
        } else {
            assert forall|i: int| 0 <= i < mid + 1 implies !text_less(k@, keys[i]) by {
                if i < mid && text_less(k@, keys[i]) {
                    text_less_total(keys[i], keys[mid as int]);
                    if text_less(keys[i], keys[mid as int]) {
                        text_less_transitive(k@, keys[i], keys[mid as int]);
                    }
                }
            }
            lo = mid + 1;
        }
    }
    proof {
        slot_behind_is(keys, k@, lo as int);
    }
    lo
}

} // verus!
