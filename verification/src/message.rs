//! Protobuf messages as plain data.
use crate::text::{text_eq, text_lt};
use vstd::prelude::*;

verus! {

use crate::equality::{
    alike, datum_alike, entries_alike, equal, fields_alike, list_alike,
};

use crate::text::{text_less, text_less_irreflexive, text_less_total, text_less_transitive};

/// A value that fits in a machine word. Floating-point numbers are held by their bits.
#[derive(Clone, Copy, PartialEq, Eq, Structural, Debug)]
pub enum Scalar {
    Bool(bool),
    I32(i32),
    I64(i64),
    U32(u32),
    U64(u64),
    F32(u32),
    F64(u64),
    Enum(i32),
}

/// A key of a map field.
pub enum EntryKey {
    Scalar(Scalar),
    Text(String),
}

/// A value of a field.
pub enum Datum {
    Scalar(Scalar),
    Text(String),
    Bytes(Vec<u8>),
    Message(Message),
    List(Vec<Datum>),
    Entries(Vec<(EntryKey, Datum)>),
}

/// A message: the fields and the extensions that are set, each with its number, and the wire
/// bytes of the fields that the schema does not know.
pub struct Message {
    pub full_name: String,
    pub fields: Vec<(u32, Datum)>,
    pub extensions: Vec<(u32, Datum)>,
    pub unknown: Vec<u8>,
}

/// What a map key is.
pub enum KeyV {
    Scalar(Scalar),
    Text(Seq<char>),
}

/// What a value is.
pub enum DatumV {
    Scalar(Scalar),
    Text(Seq<char>),
    Bytes(Seq<u8>),
    Message(MessageV),
    List(Seq<DatumV>),
    Entries(Seq<(KeyV, DatumV)>),
}

/// What a message is.
pub struct MessageV {
    pub full_name: Seq<char>,
    pub fields: Seq<(u32, DatumV)>,
    pub extensions: Seq<(u32, DatumV)>,
    pub unknown: Seq<u8>,
}

impl View for EntryKey {
    type V = KeyV;

    open spec fn view(&self) -> KeyV {
        match self {
            EntryKey::Scalar(s) => KeyV::Scalar(*s),
            EntryKey::Text(s) => KeyV::Text(s@),
        }
    }
}

impl Datum {
    pub open spec fn spec_view(self) -> DatumV
        decreases self,
    {
        match self {
            Datum::Scalar(s) => DatumV::Scalar(s),
            Datum::Text(s) => DatumV::Text(s@),
            Datum::Bytes(b) => DatumV::Bytes(b@),
            Datum::Message(m) => DatumV::Message(m.spec_view()),
            Datum::List(v) => DatumV::List(
                Seq::new(
                    v@.len(),
                    |i: int|
                        if 0 <= i < v@.len() {
                            v@[i].spec_view()
                        } else {
                            DatumV::Bytes(Seq::empty())
                        },
                ),
            ),
            Datum::Entries(v) => DatumV::Entries(
                Seq::new(
                    v@.len(),
                    |i: int|
                        if 0 <= i < v@.len() {
                            (v@[i].0@, v@[i].1.spec_view())
                        } else {
                            (KeyV::Text(Seq::empty()), DatumV::Bytes(Seq::empty()))
                        },
                ),
            ),
        }
    }
}

impl Message {
    pub open spec fn spec_view(self) -> MessageV
        decreases self,
    {
        MessageV {
            full_name: self.full_name@,
            fields: Seq::new(
                self.fields@.len(),
                |i: int|
                    if 0 <= i < self.fields@.len() {
                        (self.fields@[i].0, self.fields@[i].1.spec_view())
                    } else {
                        (0u32, DatumV::Bytes(Seq::empty()))
                    },
            ),
            extensions: Seq::new(
                self.extensions@.len(),
                |i: int|
                    if 0 <= i < self.extensions@.len() {
                        (self.extensions@[i].0, self.extensions@[i].1.spec_view())
                    } else {
                        (0u32, DatumV::Bytes(Seq::empty()))
                    },
            ),
            unknown: self.unknown@,
        }
    }
}

impl View for Datum {
    type V = DatumV;

    open spec fn view(&self) -> DatumV {
        self.spec_view()
    }
}

impl View for Message {
    type V = MessageV;

    open spec fn view(&self) -> MessageV {
        self.spec_view()
    }
}

/// The numbers and values of fields.
pub open spec fn fields_view(v: Seq<(u32, Datum)>) -> Seq<(u32, DatumV)> {
    Seq::new(v.len(), |i: int| (v[i].0, v[i].1@))
}

/// The values of a list.
pub open spec fn list_view(v: Seq<Datum>) -> Seq<DatumV> {
    Seq::new(v.len(), |i: int| v[i]@)
}

/// The keys and values of a map.
pub open spec fn map_view(v: Seq<(EntryKey, Datum)>) -> Seq<(KeyV, DatumV)> {
    Seq::new(v.len(), |i: int| (v[i].0@, v[i].1@))
}

/// What a message is, from what its parts are.
pub broadcast proof fn message_views(m: Message)
    ensures
        #[trigger] m.spec_view() == (MessageV {
            full_name: m.full_name@,
            fields: fields_view(m.fields@),
            extensions: fields_view(m.extensions@),
            unknown: m.unknown@,
        }),
{
    assert(m@.fields =~= fields_view(m.fields@));
    assert(m@.extensions =~= fields_view(m.extensions@));
}

/// What a list or a map is, from what its parts are.
pub broadcast proof fn value_views(v: Datum)
    ensures
        v matches Datum::List(l) ==> #[trigger] v.spec_view() == DatumV::List(list_view(l@)),
        v matches Datum::Entries(e) ==> v.spec_view() == DatumV::Entries(map_view(e@)),
{
    if v is List {
        assert(v@->List_0 =~= list_view(v->List_0@));
    }
    if v is Entries {
        assert(v@->Entries_0 =~= map_view(v->Entries_0@));
    }
}

/// Which sort of scalar it is.
pub open spec fn scalar_rank(s: Scalar) -> int {
    match s {
        Scalar::Bool(_) => 0,
        Scalar::I32(_) => 1,
        Scalar::I64(_) => 2,
        Scalar::U32(_) => 3,
        Scalar::U64(_) => 4,
        Scalar::F32(_) => 5,
        Scalar::F64(_) => 6,
        Scalar::Enum(_) => 7,
    }
}

/// The number that the scalar holds.
pub open spec fn scalar_number(s: Scalar) -> int {
    match s {
        Scalar::Bool(b) => if b {
            1
        } else {
            0
        },
        Scalar::I32(n) => n as int,
        Scalar::I64(n) => n as int,
        Scalar::U32(n) => n as int,
        Scalar::U64(n) => n as int,
        Scalar::F32(n) => n as int,
        Scalar::F64(n) => n as int,
        Scalar::Enum(n) => n as int,
    }
}

/// A total order of map keys.
pub open spec fn key_less(a: KeyV, b: KeyV) -> bool {
    match (a, b) {
        (KeyV::Scalar(x), KeyV::Scalar(y)) => scalar_rank(x) < scalar_rank(y) || (scalar_rank(x)
            == scalar_rank(y) && scalar_number(x) < scalar_number(y)),
        (KeyV::Scalar(_), KeyV::Text(_)) => true,
        (KeyV::Text(_), KeyV::Scalar(_)) => false,
        (KeyV::Text(x), KeyV::Text(y)) => text_less(x, y),
    }
}

/// No key comes before itself.
pub proof fn key_less_irreflexive(a: KeyV)
    ensures
        !key_less(a, a),
{
    if a is Text {
        text_less_irreflexive(a->Text_0);
    }
}

/// The order of keys is transitive.
pub proof fn key_less_transitive(a: KeyV, b: KeyV, c: KeyV)
    requires
        key_less(a, b),
        key_less(b, c),
    ensures
        key_less(a, c),
{
    if a is Text {
        text_less_transitive(a->Text_0, b->Text_0, c->Text_0);
    }
}

/// Of two different keys one comes first.
pub proof fn key_less_total(a: KeyV, b: KeyV)
    ensures
        key_less(a, b) || key_less(b, a) || a == b,
{
    if a is Text && b is Text {
        text_less_total(a->Text_0, b->Text_0);
    }
}

fn scalar_parts(s: Scalar) -> (r: (u8, i128))
    ensures
        r.0 == scalar_rank(s),
        r.1 == scalar_number(s),
{
    match s {
        Scalar::Bool(b) => (
            0,
            if b {
                1
            } else {
                0
            },
        ),
        Scalar::I32(n) => (1, n as i128),
        Scalar::I64(n) => (2, n as i128),
        Scalar::U32(n) => (3, n as i128),
        Scalar::U64(n) => (4, n as i128),
        Scalar::F32(n) => (5, n as i128),
        Scalar::F64(n) => (6, n as i128),
        Scalar::Enum(n) => (7, n as i128),
    }
}

/// Whether one key comes before another.
pub fn key_lt(a: &EntryKey, b: &EntryKey) -> (r: bool)
    ensures
        r == key_less(a@, b@),
{
    match (a, b) {
        (EntryKey::Scalar(x), EntryKey::Scalar(y)) => {
            let p = scalar_parts(*x);
            let q = scalar_parts(*y);
            p.0 < q.0 || (p.0 == q.0 && p.1 < q.1)
        },
        (EntryKey::Scalar(_), EntryKey::Text(_)) => true,
        (EntryKey::Text(_), EntryKey::Scalar(_)) => false,
        (EntryKey::Text(x), EntryKey::Text(y)) => text_lt(x.as_str(), y.as_str()),
    }
}

/// How many entries at the front have a key that does not come after `k`.
pub open spec fn key_slot(s: Seq<(KeyV, DatumV)>, k: KeyV) -> nat
    decreases s.len(),
{
    if s.len() > 0 && !key_less(k, s[0].0) {
        1 + key_slot(s.drop_first(), k)
    } else {
        0
    }
}

/// The entries in the order of their keys.
pub open spec fn key_sorted(s: Seq<(KeyV, DatumV)>) -> Seq<(KeyV, DatumV)>
    decreases s.len(),
{
    if s.len() == 0 {
        s
    } else {
        let rest = key_sorted(s.drop_last());
        rest.insert(key_slot(rest, s.last().0) as int, s.last())
    }
}

/// The message with the entries of each map in the order of their keys.
pub open spec fn canonical(m: MessageV) -> MessageV
    decreases m,
{
    MessageV {
        full_name: m.full_name,
        fields: canonical_fields(m.fields),
        extensions: canonical_fields(m.extensions),
        unknown: m.unknown,
    }
}

/// The fields with the entries of each map in the order of their keys.
pub open spec fn canonical_fields(f: Seq<(u32, DatumV)>) -> Seq<(u32, DatumV)>
    decreases f,
{
    Seq::new(
        f.len(),
        |i: int|
            if 0 <= i < f.len() {
                (f[i].0, canonical_value(f[i].1))
            } else {
                f[i]
            },
    )
}

/// The values with the entries of each map in the order of their keys.
pub open spec fn canonical_list(l: Seq<DatumV>) -> Seq<DatumV>
    decreases l,
{
    Seq::new(
        l.len(),
        |i: int|
            if 0 <= i < l.len() {
                canonical_value(l[i])
            } else {
                l[i]
            },
    )
}

/// The entries, where they stand, with those of each map inside them in order.
pub open spec fn canonical_entries(e: Seq<(KeyV, DatumV)>) -> Seq<(KeyV, DatumV)>
    decreases e,
{
    Seq::new(
        e.len(),
        |i: int|
            if 0 <= i < e.len() {
                (e[i].0, canonical_value(e[i].1))
            } else {
                e[i]
            },
    )
}

/// The value with the entries of each map in the order of their keys.
pub open spec fn canonical_value(v: DatumV) -> DatumV
    decreases v,
{
    match v {
        DatumV::Message(m) => DatumV::Message(canonical(m)),
        DatumV::List(l) => DatumV::List(canonical_list(l)),
        DatumV::Entries(e) => DatumV::Entries(key_sorted(canonical_entries(e))),
        _ => v,
    }
}

/// No entry stands behind one whose key comes after its own.
pub open spec fn keys_nondescending(s: Seq<(KeyV, DatumV)>) -> bool {
    forall|i: int, j: int| 0 <= i < j < s.len() ==> !key_less(s[j].0, s[i].0)
}

/// No key occurs twice.
pub open spec fn keys_distinct(s: Seq<(KeyV, DatumV)>) -> bool {
    forall|i: int, j: int| 0 <= i < j < s.len() ==> s[i].0 != s[j].0
}

/// What decides where the slot of a key is.
pub proof fn key_slot_is(s: Seq<(KeyV, DatumV)>, k: KeyV, p: int)
    requires
        0 <= p <= s.len(),
        forall|i: int| 0 <= i < p ==> !key_less(k, s[i].0),
        p < s.len() ==> key_less(k, s[p].0),
    ensures
        key_slot(s, k) == p,
    decreases p,
{
    if p > 0 {
        assert(!key_less(k, s[0].0));
        key_slot_is(s.drop_first(), k, p - 1);
    }
}

/// The slot of a key divides the entries as `key_slot_is` says.
pub proof fn key_slot_divides(s: Seq<(KeyV, DatumV)>, k: KeyV)
    ensures
        key_slot(s, k) <= s.len(),
        forall|i: int| 0 <= i < key_slot(s, k) ==> !key_less(k, s[i].0),
        key_slot(s, k) < s.len() ==> key_less(k, s[key_slot(s, k) as int].0),
    decreases s.len(),
{
    if s.len() > 0 && !key_less(k, s[0].0) {
        key_slot_divides(s.drop_first(), k);
        assert forall|i: int| 0 <= i < key_slot(s, k) implies !key_less(k, s[i].0) by {
            if i > 0 {
                assert(s[i] == s.drop_first()[i - 1]);
            }
        }
    }
}

/// An entry can go into the slot of its key.
pub proof fn keys_nondescending_insert(s: Seq<(KeyV, DatumV)>, e: (KeyV, DatumV))
    requires
        keys_nondescending(s),
    ensures
        key_slot(s, e.0) <= s.len(),
        keys_nondescending(s.insert(key_slot(s, e.0) as int, e)),
{
    key_slot_divides(s, e.0);
    let p = key_slot(s, e.0) as int;
    let all = s.insert(p, e);
    assert forall|i: int, j: int| 0 <= i < j < all.len() implies !key_less(all[j].0, all[i].0) by {
        if i == p {
            assert(all[j] == s[j - 1]);
            key_less_irreflexive(e.0);
            if key_less(s[j - 1].0, e.0) {
                key_less_transitive(s[j - 1].0, e.0, s[p].0);
                key_less_irreflexive(s[p].0);
            }
        }
    }
}

/// Sorting puts the same entries in the order of their keys.
pub proof fn key_sorted_sorts(s: Seq<(KeyV, DatumV)>)
    ensures
        key_sorted(s).len() == s.len(),
        keys_nondescending(key_sorted(s)),
        key_sorted(s).to_multiset() == s.to_multiset(),
    decreases s.len(),
{
    broadcast use vstd::seq_lib::group_to_multiset_ensures;

    if s.len() > 0 {
        let rest = key_sorted(s.drop_last());
        key_sorted_sorts(s.drop_last());
        keys_nondescending_insert(rest, s.last());
        assert(s =~= s.drop_last().push(s.last()));
        assert(s.to_multiset() == s.drop_last().to_multiset().insert(s.last()));
    }
}

/// The order in which the entries of a map are walked does not matter to the sorted map.
pub proof fn key_sorted_ignores_order(a: Seq<(KeyV, DatumV)>, b: Seq<(KeyV, DatumV)>)
    requires
        a.to_multiset() == b.to_multiset(),
        keys_distinct(a),
    ensures
        key_sorted(a) == key_sorted(b),
{
    key_sorted_sorts(a);
    key_sorted_sorts(b);
    keys_distinct_permuted(a, key_sorted(a));
    sorted_entries_unique(key_sorted(a), key_sorted(b));
}

/// Entries with distinct keys keep them distinct in any order.
proof fn keys_distinct_permuted(a: Seq<(KeyV, DatumV)>, b: Seq<(KeyV, DatumV)>)
    requires
        a.to_multiset() == b.to_multiset(),
        keys_distinct(a),
    ensures
        keys_distinct(b),
    decreases b.len(),
{
    broadcast use vstd::seq_lib::group_to_multiset_ensures;

    assert(a.len() == a.to_multiset().len());
    assert(b.len() == b.to_multiset().len());
    if b.len() > 0 {
        let e = b.last();
        assert(b.to_multiset().contains(e)) by {
            assert(b.contains(e));
        }
        assert(a.contains(e));
        let i = choose|i: int| 0 <= i < a.len() && a[i] == e;
        let a1 = a.remove(i);
        let b1 = b.drop_last();
        assert(b1 =~= b.remove(b.len() - 1));
        assert(a1.to_multiset() =~= b1.to_multiset());
        assert(keys_distinct(a1));
        keys_distinct_permuted(a1, b1);
        assert forall|x: int, y: int| 0 <= x < y < b.len() implies b[x].0 != b[y].0 by {
            if y == b.len() - 1 {
                assert(b1.contains(b1[x]));
                assert(a1.to_multiset().contains(b1[x]));
                assert(a1.contains(b1[x]));
                let j = choose|j: int| 0 <= j < a1.len() && a1[j] == b1[x];
                assert(a1[j] == if j < i {
                    a[j]
                } else {
                    a[j + 1]
                });
            } else {
                assert(b1[x].0 != b1[y].0);
            }
        }
    }
}

/// There is one way to put entries with distinct keys in order.
proof fn sorted_entries_unique(x: Seq<(KeyV, DatumV)>, y: Seq<(KeyV, DatumV)>)
    requires
        x.to_multiset() == y.to_multiset(),
        keys_nondescending(x),
        keys_nondescending(y),
        keys_distinct(x),
    ensures
        x == y,
    decreases x.len(),
{
    broadcast use vstd::seq_lib::group_to_multiset_ensures;

    assert(x.len() == x.to_multiset().len());
    assert(y.len() == y.to_multiset().len());
    if x.len() == 0 {
        assert(x =~= y);
    } else {
        let n = x.len() - 1;
        assert(x.contains(x[n]));
        assert(y.contains(y[n]));
        assert(x.to_multiset().contains(y[n]));
        assert(y.to_multiset().contains(x[n]));
        assert(x.contains(y[n]));
        assert(y.contains(x[n]));
        let i = choose|i: int| 0 <= i < x.len() && x[i] == y[n];
        let j = choose|j: int| 0 <= j < y.len() && y[j] == x[n];
        key_less_total(x[n].0, y[n].0);
        if x[n].0 != y[n].0 {
            if key_less(x[n].0, y[n].0) {
                assert(i < n);
                assert(!key_less(x[n].0, x[i].0));
            } else {
                assert(j < n);
                assert(!key_less(y[n].0, y[j].0));
            }
        }
        if i < n {
            assert(x[i].0 != x[n].0);
        }
        assert(x[n] == y[n]);
        assert(x.drop_last() =~= x.remove(n));
        assert(y.drop_last() =~= y.remove(n));
        assert(x.drop_last().to_multiset() =~= y.drop_last().to_multiset());
        sorted_entries_unique(x.drop_last(), y.drop_last());
        assert(x =~= x.drop_last().push(x[n]));
        assert(y =~= y.drop_last().push(y[n]));
    }
}

fn find_key_slot(s: &Vec<(EntryKey, Datum)>, k: &EntryKey) -> (r: usize)
    requires
        keys_nondescending(map_view(s@)),
    ensures
        r == key_slot(map_view(s@), k@),
        r <= s@.len(),
{
    let ghost all = map_view(s@);
    let mut lo: usize = 0;
    let mut hi: usize = s.len();
    while lo < hi
        invariant
            all == map_view(s@),
            keys_nondescending(all),
            lo <= hi <= s@.len(),
            forall|i: int| 0 <= i < lo ==> !key_less(k@, all[i].0),
            forall|i: int| hi <= i < all.len() ==> key_less(k@, all[i].0),
        decreases hi - lo,
    {
        let mid: usize = lo + (hi - lo) / 2;
        assert(all[mid as int].0 == s@[mid as int].0@);
        if key_lt(k, &s[mid].0) {
            assert forall|i: int| mid <= i < all.len() implies key_less(k@, all[i].0) by {
                if i > mid {
                    key_less_total(all[mid as int].0, all[i].0);
                    if key_less(all[mid as int].0, all[i].0) {
                        key_less_transitive(k@, all[mid as int].0, all[i].0);
                    }
                }
            }
            hi = mid;
        } else {
            assert forall|i: int| 0 <= i < mid + 1 implies !key_less(k@, all[i].0) by {
                if i < mid && key_less(k@, all[i].0) {
                    key_less_total(all[i].0, all[mid as int].0);
                    if key_less(all[i].0, all[mid as int].0) {
                        key_less_transitive(k@, all[i].0, all[mid as int].0);
                    }
                }
            }
            lo = mid + 1;
        }
    }
    proof {
        key_slot_is(all, k@, lo as int);
    }
    lo
}

impl EntryKey {
    /// The same key once more.
    pub fn copy(&self) -> (r: EntryKey)
        ensures
            r@ == self@,
    {
        match self {
            EntryKey::Scalar(s) => EntryKey::Scalar(*s),
            EntryKey::Text(s) => EntryKey::Text(s.clone()),
        }
    }
}

/// The same bytes once more.
pub fn copy_bytes(b: &Vec<u8>) -> (r: Vec<u8>)
    ensures
        r@ == b@,
{
    let mut r: Vec<u8> = Vec::new();
    let mut i: usize = 0;
    while i < b.len()
        invariant
            i <= b@.len(),
            r@ == b@.take(i as int),
        decreases b@.len() - i,
    {
        r.push(b[i]);
        i += 1;
    }
    assert(b@.take(b@.len() as int) =~= b@);
    r
}

impl Message {
    /// Puts the entries of each map in the order of their keys.
    pub fn canonical(&self) -> (r: Message)
        ensures
            r@ == canonical(self@),
        decreases self,
    {
        broadcast use message_views;

        let fields = canonical_fields_of(&self.fields);
        let extensions = canonical_fields_of(&self.extensions);
        let r = Message {
            full_name: self.full_name.clone(),
            fields,
            extensions,
            unknown: copy_bytes(&self.unknown),
        };
        assert(r@.fields =~= canonical(self@).fields);
        assert(r@.extensions =~= canonical(self@).extensions);
        r
    }
}

fn canonical_fields_of(f: &Vec<(u32, Datum)>) -> (r: Vec<(u32, Datum)>)
    ensures
        fields_view(r@) == canonical_fields(fields_view(f@)),
    decreases f,
{
    let mut r: Vec<(u32, Datum)> = Vec::new();
    let mut i: usize = 0;
    while i < f.len()
        invariant
            i <= f@.len(),
            r@.len() == i,
            forall|k: int|
                0 <= k < i ==> r@[k].0 == f@[k].0 && r@[k].1@ == canonical_value(f@[k].1@),
        decreases f@.len() - i,
    {
        r.push((f[i].0, f[i].1.canonical()));
        i += 1;
    }
    assert(fields_view(r@) =~= canonical_fields(fields_view(f@)));
    r
}

impl Datum {
    /// Puts the entries of each map in the order of their keys.
    pub fn canonical(&self) -> (r: Datum)
        ensures
            r@ == canonical_value(self@),
        decreases self,
    {
        broadcast use value_views;

        match self {
            Datum::Scalar(s) => Datum::Scalar(*s),
            Datum::Text(s) => Datum::Text(s.clone()),
            Datum::Bytes(b) => Datum::Bytes(copy_bytes(b)),
            Datum::Message(m) => Datum::Message(m.canonical()),
            Datum::List(v) => {
                let mut out: Vec<Datum> = Vec::new();
                let mut i: usize = 0;
                while i < v.len()
                    invariant
                        decreases_to!(self => v),
                        i <= v@.len(),
                        out@.len() == i,
                        forall|k: int| 0 <= k < i ==> out@[k]@ == canonical_value(v@[k]@),
                    decreases v@.len() - i,
                {
                    out.push(v[i].canonical());
                    i += 1;
                }
                let r = Datum::List(out);
                assert(r@->List_0 =~= canonical_list(self@->List_0));
                r
            },
            Datum::Entries(e) => {
                let ghost all = canonical_entries(map_view(e@));
                let mut out: Vec<(EntryKey, Datum)> = Vec::new();
                let mut i: usize = 0;
                assert(all.take(0) =~= Seq::empty());
                assert(map_view(out@) =~= Seq::empty());
                while i < e.len()
                    invariant
                        decreases_to!(self => e),
                        i <= e@.len(),
                        all == canonical_entries(map_view(e@)),
                        keys_nondescending(map_view(out@)),
                        map_view(out@) == key_sorted(all.take(i as int)),
                    decreases e@.len() - i,
                {
                    let key = e[i].0.copy();
                    let value = e[i].1.canonical();
                    let ghost pair = (key@, value@);
                    let ghost before = map_view(out@);
                    assert(pair == all[i as int]);
                    assert(all.take(i + 1).drop_last() =~= all.take(i as int));
                    proof {
                        keys_nondescending_insert(before, pair);
                    }
                    let p = find_key_slot(&out, &key);
                    out.insert(p, (key, value));
                    assert(map_view(out@) =~= before.insert(p as int, pair));
                    i += 1;
                }
                assert(all.take(e@.len() as int) =~= all);
                Datum::Entries(out)
            },
        }
    }
}

fn copy_fields(f: &Vec<(u32, Datum)>) -> (r: Vec<(u32, Datum)>)
    ensures
        fields_view(r@) == fields_view(f@),
    decreases f,
{
    let mut r: Vec<(u32, Datum)> = Vec::new();
    let mut i: usize = 0;
    while i < f.len()
        invariant
            i <= f@.len(),
            r@.len() == i,
            forall|k: int| 0 <= k < i ==> r@[k].0 == f@[k].0 && r@[k].1@ == f@[k].1@,
        decreases f@.len() - i,
    {
        r.push((f[i].0, f[i].1.copy()));
        i += 1;
    }
    assert(fields_view(r@) =~= fields_view(f@));
    r
}

impl Message {
    /// The same message once more.
    pub fn copy(&self) -> (r: Message)
        ensures
            r@ == self@,
        decreases self,
    {
        broadcast use message_views;

        Message {
            full_name: self.full_name.clone(),
            fields: copy_fields(&self.fields),
            extensions: copy_fields(&self.extensions),
            unknown: copy_bytes(&self.unknown),
        }
    }
}

impl Datum {
    /// The same value once more.
    pub fn copy(&self) -> (r: Datum)
        ensures
            r@ == self@,
        decreases self,
    {
        broadcast use value_views;

        match self {
            Datum::Scalar(s) => Datum::Scalar(*s),
            Datum::Text(s) => Datum::Text(s.clone()),
            Datum::Bytes(b) => Datum::Bytes(copy_bytes(b)),
            Datum::Message(m) => Datum::Message(m.copy()),
            Datum::List(v) => {
                let mut out: Vec<Datum> = Vec::new();
                let mut i: usize = 0;
                while i < v.len()
                    invariant
                        decreases_to!(self => v),
                        i <= v@.len(),
                        out@.len() == i,
                        forall|k: int| 0 <= k < i ==> out@[k]@ == v@[k]@,
                    decreases v@.len() - i,
                {
                    out.push(v[i].copy());
                    i += 1;
                }
                assert(list_view(out@) =~= list_view(v@));
                Datum::List(out)
            },
            Datum::Entries(e) => {
                let mut out: Vec<(EntryKey, Datum)> = Vec::new();
                let mut i: usize = 0;
                while i < e.len()
                    invariant
                        decreases_to!(self => e),
                        i <= e@.len(),
                        out@.len() == i,
                        forall|k: int|
                            0 <= k < i ==> out@[k].0@ == e@[k].0@ && out@[k].1@ == e@[k].1@,
                    decreases e@.len() - i,
                {
                    out.push((e[i].0.copy(), e[i].1.copy()));
                    i += 1;
                }
                assert(map_view(out@) =~= map_view(e@));
                Datum::Entries(out)
            },
        }
    }
}

/// Whether two byte strings are the same.
pub fn same_bytes(a: &Vec<u8>, b: &Vec<u8>) -> (r: bool)
    ensures
        r == (a@ == b@),
{
    if a.len() != b.len() {
        return false;
    }
    let mut i: usize = 0;
    while i < a.len()
        invariant
            i <= a@.len(),
            a@.len() == b@.len(),
            forall|k: int| 0 <= k < i ==> a@[k] == b@[k],
        decreases a@.len() - i,
    {
        if a[i] != b[i] {
            assert(a@[i as int] != b@[i as int]);
            return false;
        }
        i += 1;
    }
    assert(a@ =~= b@);
    true
}

fn same_fields(a: &Vec<(u32, Datum)>, b: &Vec<(u32, Datum)>) -> (r: bool)
    ensures
        r == fields_alike(fields_view(a@), fields_view(b@)),
    decreases a,
{
    let ghost x = fields_view(a@);
    let ghost y = fields_view(b@);
    if a.len() != b.len() {
        assert(x.len() != y.len());
        return false;
    }
    let mut i: usize = 0;
    while i < a.len()
        invariant
            i <= a@.len(),
            a@.len() == b@.len(),
            x == fields_view(a@),
            y == fields_view(b@),
            forall|k: int| 0 <= k < i ==> (#[trigger] x[k]).0 == y[k].0 && datum_alike(x[k].1, y[k].1),
        decreases a@.len() - i,
    {
        assert(x[i as int] == (a@[i as int].0, a@[i as int].1@));
        assert(y[i as int] == (b@[i as int].0, b@[i as int].1@));
        if a[i].0 != b[i].0 || !a[i].1.same(&b[i].1) {
            assert(!(x[i as int].0 == y[i as int].0 && datum_alike(
                x[i as int].1,
                y[i as int].1,
            )));
            return false;
        }
        i += 1;
    }
    true
}

impl EntryKey {
    /// Whether two keys are the same.
    pub fn same(&self, other: &EntryKey) -> (r: bool)
        ensures
            r == (self@ == other@),
    {
        match (self, other) {
            (EntryKey::Scalar(a), EntryKey::Scalar(b)) => *a == *b,
            (EntryKey::Text(a), EntryKey::Text(b)) => text_eq(a.as_str(), b.as_str()),
            _ => false,
        }
    }
}

impl Message {
    /// Whether two messages count as the same.
    pub fn same(&self, other: &Message) -> (r: bool)
        ensures
            r == alike(self@, other@),
        decreases self,
    {
        broadcast use message_views;

        text_eq(self.full_name.as_str(), other.full_name.as_str()) && same_fields(
            &self.fields,
            &other.fields,
        ) && same_fields(&self.extensions, &other.extensions) && same_bytes(
            &self.unknown,
            &other.unknown,
        )
    }
}

impl Datum {
    /// Whether two values count as the same.
    pub fn same(&self, other: &Datum) -> (r: bool)
        ensures
            r == datum_alike(self@, other@),
        decreases self,
    {
        broadcast use value_views;

        match (self, other) {
            (Datum::Scalar(a), Datum::Scalar(b)) => scalars_equal(*a, *b),
            (Datum::Text(a), Datum::Text(b)) => text_eq(a.as_str(), b.as_str()),
            (Datum::Bytes(a), Datum::Bytes(b)) => same_bytes(a, b),
            (Datum::Message(a), Datum::Message(b)) => a.same(b),
            (Datum::List(a), Datum::List(b)) => same_list(a, b),
            (Datum::Entries(a), Datum::Entries(b)) => same_entries(a, b),
            _ => false,
        }
    }
}

fn same_list(a: &Vec<Datum>, b: &Vec<Datum>) -> (r: bool)
    ensures
        r == list_alike(list_view(a@), list_view(b@)),
    decreases a,
{
    let ghost x = list_view(a@);
    let ghost y = list_view(b@);
    if a.len() != b.len() {
        assert(x.len() != y.len());
        return false;
    }
    let mut i: usize = 0;
    while i < a.len()
        invariant
            i <= a@.len(),
            a@.len() == b@.len(),
            x == list_view(a@),
            y == list_view(b@),
            forall|k: int| 0 <= k < i ==> datum_alike(#[trigger] x[k], y[k]),
        decreases a@.len() - i,
    {
        assert(x[i as int] == a@[i as int]@);
        assert(y[i as int] == b@[i as int]@);
        if !a[i].same(&b[i]) {
            assert(!datum_alike(x[i as int], y[i as int]));
            return false;
        }
        i += 1;
    }
    true
}

fn same_entries(a: &Vec<(EntryKey, Datum)>, b: &Vec<(EntryKey, Datum)>) -> (r: bool)
    ensures
        r == entries_alike(map_view(a@), map_view(b@)),
    decreases a,
{
    let ghost x = map_view(a@);
    let ghost y = map_view(b@);
    if a.len() != b.len() {
        assert(x.len() != y.len());
        return false;
    }
    let mut i: usize = 0;
    while i < a.len()
        invariant
            i <= a@.len(),
            a@.len() == b@.len(),
            x == map_view(a@),
            y == map_view(b@),
            forall|k: int| 0 <= k < i ==> (#[trigger] x[k]).0 == y[k].0 && datum_alike(x[k].1, y[k].1),
        decreases a@.len() - i,
    {
        assert(x[i as int] == (a@[i as int].0@, a@[i as int].1@));
        assert(y[i as int] == (b@[i as int].0@, b@[i as int].1@));
        if !a[i].0.same(&b[i].0) || !a[i].1.same(&b[i].1) {
            assert(!(x[i as int].0 == y[i as int].0 && datum_alike(
                x[i as int].1,
                y[i as int].1,
            )));
            return false;
        }
        i += 1;
    }
    true
}

fn scalars_equal(a: Scalar, b: Scalar) -> (r: bool)
    ensures
        r == equal(a, b),
{
    match (a, b) {
        (Scalar::F64(x), Scalar::F64(y)) => x % 0x8000_0000_0000_0000
            <= 0x7ff0_0000_0000_0000 && (x == y || (x % 0x8000_0000_0000_0000 == 0 && y
            % 0x8000_0000_0000_0000 == 0)),
        _ => a == b,
    }
}

/// Where the field with this number stands: the number of fields in front of it, or of all
/// fields where there is none.
pub open spec fn field_index(f: Seq<(u32, DatumV)>, number: u32) -> nat
    decreases f.len(),
{
    if f.len() == 0 || f[0].0 == number {
        0
    } else {
        1 + field_index(f.drop_first(), number)
    }
}

/// The value of the field with this number, where it is set.
pub open spec fn field_value(f: Seq<(u32, DatumV)>, number: u32) -> Option<DatumV> {
    let i = field_index(f, number) as int;
    if i < f.len() {
        Some(f[i].1)
    } else {
        None
    }
}

/// What decides where a field stands.
pub proof fn field_index_is(f: Seq<(u32, DatumV)>, number: u32, p: int)
    requires
        0 <= p <= f.len(),
        forall|i: int| 0 <= i < p ==> f[i].0 != number,
        p < f.len() ==> f[p].0 == number,
    ensures
        field_index(f, number) == p,
    decreases p,
{
    if p > 0 {
        assert(f[0].0 != number);
        field_index_is(f.drop_first(), number, p - 1);
    }
}

/// The place of a field is as `field_index_is` says.
pub proof fn field_index_divides(f: Seq<(u32, DatumV)>, number: u32)
    ensures
        field_index(f, number) <= f.len(),
        forall|i: int| 0 <= i < field_index(f, number) ==> f[i].0 != number,
        field_index(f, number) < f.len() ==> f[field_index(f, number) as int].0 == number,
    decreases f.len(),
{
    if f.len() > 0 && f[0].0 != number {
        field_index_divides(f.drop_first(), number);
        assert forall|i: int| 0 <= i < field_index(f, number) implies f[i].0 != number by {
            if i > 0 {
                assert(f[i] == f.drop_first()[i - 1]);
            }
        }
    }
}

/// Finds the field with this number.
pub fn find_field(f: &Vec<(u32, Datum)>, number: u32) -> (r: usize)
    ensures
        r == field_index(fields_view(f@), number),
        r <= f@.len(),
{
    let mut i: usize = 0;
    while i < f.len() && f[i].0 != number
        invariant
            i <= f@.len(),
            forall|k: int| 0 <= k < i ==> f@[k].0 != number,
        decreases f@.len() - i,
    {
        i += 1;
    }
    proof {
        field_index_is(fields_view(f@), number, i as int);
    }
    i
}

/// The fields without the one with this number.
pub open spec fn without_field(f: Seq<(u32, DatumV)>, number: u32) -> Seq<(u32, DatumV)> {
    let i = field_index(f, number) as int;
    if i < f.len() {
        f.remove(i)
    } else {
        f
    }
}

/// The fields with this value under this number: in the place of the one that was there, or
/// behind all others.
pub open spec fn with_field(f: Seq<(u32, DatumV)>, number: u32, value: DatumV) -> Seq<
    (u32, DatumV),
> {
    let i = field_index(f, number) as int;
    if i < f.len() {
        f.update(i, (number, value))
    } else {
        f.push((number, value))
    }
}

/// Takes the field with this number away.
pub fn remove_field(f: &mut Vec<(u32, Datum)>, number: u32)
    ensures
        fields_view(final(f)@) == without_field(fields_view(old(f)@), number),
{
    let i = find_field(f, number);
    if i < f.len() {
        f.remove(i);
    }
    assert(fields_view(f@) =~= without_field(fields_view(old(f)@), number));
}

/// Sets the field with this number.
pub fn put_field(f: &mut Vec<(u32, Datum)>, number: u32, value: Datum)
    ensures
        fields_view(final(f)@) == with_field(fields_view(old(f)@), number, value@),
{
    let i = find_field(f, number);
    if i < f.len() {
        f.set(i, (number, value));
    } else {
        f.push((number, value));
    }
    assert(fields_view(f@) =~= with_field(fields_view(old(f)@), number, value@));
}

} // verus!
