//! When descriptor files count as the same: their numbers are compared as numbers, so NaN is the
//! same as nothing, and zero is zero with either sign.
use vstd::prelude::*;

verus! {

use crate::message::{DatumV, KeyV, MessageV, Scalar};

/// Whether bits are those of a number of double precision that is NaN.
pub open spec fn is_nan(bits: u64) -> bool {
    bits % 0x8000_0000_0000_0000 > 0x7ff0_0000_0000_0000
}

/// Whether bits are those of a zero of double precision.
pub open spec fn is_zero(bits: u64) -> bool {
    bits % 0x8000_0000_0000_0000 == 0
}

/// Whether two values are equal as numbers are. Descriptors hold none of single precision.
pub open spec fn equal(a: Scalar, b: Scalar) -> bool {
    match (a, b) {
        (Scalar::F64(x), Scalar::F64(y)) => !is_nan(x) && (x == y || (is_zero(x) && is_zero(y))),
        _ => a == b,
    }
}

/// Whether two messages count as the same.
pub open spec fn alike(m: MessageV, n: MessageV) -> bool
    decreases m,
{
    &&& m.full_name == n.full_name
    &&& m.unknown == n.unknown
    &&& fields_alike(m.fields, n.fields)
    &&& fields_alike(m.extensions, n.extensions)
}

/// The same of fields.
pub open spec fn fields_alike(f: Seq<(u32, DatumV)>, g: Seq<(u32, DatumV)>) -> bool
    decreases f,
{
    f.len() == g.len() && forall|i: int|
        0 <= i < f.len() ==> (#[trigger] f[i]).0 == g[i].0 && datum_alike(f[i].1, g[i].1)
}

/// The same of values.
pub open spec fn datum_alike(v: DatumV, w: DatumV) -> bool
    decreases v,
{
    match (v, w) {
        (DatumV::Scalar(a), DatumV::Scalar(b)) => equal(a, b),
        (DatumV::Message(m), DatumV::Message(n)) => alike(m, n),
        (DatumV::List(l), DatumV::List(k)) => list_alike(l, k),
        (DatumV::Entries(e), DatumV::Entries(h)) => entries_alike(e, h),
        _ => v == w,
    }
}

/// The same of lists.
pub open spec fn list_alike(l: Seq<DatumV>, k: Seq<DatumV>) -> bool
    decreases l,
{
    l.len() == k.len() && forall|i: int|
        0 <= i < l.len() ==> datum_alike(#[trigger] l[i], k[i])
}

/// The same of maps.
pub open spec fn entries_alike(e: Seq<(KeyV, DatumV)>, h: Seq<(KeyV, DatumV)>) -> bool
    decreases e,
{
    e.len() == h.len() && forall|i: int|
        0 <= i < e.len() ==> (#[trigger] e[i]).0 == h[i].0 && datum_alike(e[i].1, h[i].1)
}

/// Whether no number in a message is NaN, or a zero with a sign.
pub open spec fn ordinary(m: MessageV) -> bool
    decreases m,
{
    fields_ordinary(m.fields) && fields_ordinary(m.extensions)
}

/// The same of fields.
pub open spec fn fields_ordinary(f: Seq<(u32, DatumV)>) -> bool
    decreases f,
{
    forall|i: int| 0 <= i < f.len() ==> datum_ordinary((#[trigger] f[i]).1)
}

/// The same of a value.
pub open spec fn datum_ordinary(v: DatumV) -> bool
    decreases v,
{
    match v {
        DatumV::Scalar(Scalar::F64(x)) => !is_nan(x) && x != 0x8000_0000_0000_0000,
        DatumV::Message(m) => ordinary(m),
        DatumV::List(l) => forall|i: int| 0 <= i < l.len() ==> datum_ordinary(#[trigger] l[i]),
        DatumV::Entries(e) => forall|i: int|
            0 <= i < e.len() ==> datum_ordinary((#[trigger] e[i]).1),
        _ => true,
    }
}

/// Ordinary messages count as the same only if they are.
pub proof fn alike_is_same(m: MessageV, n: MessageV)
    requires
        ordinary(m),
        ordinary(n),
    ensures
        alike(m, n) == (m == n),
    decreases m, 0nat,
{
    fields_alike_are_same(m.fields, n.fields);
    fields_alike_are_same(m.extensions, n.extensions);
}

proof fn fields_alike_are_same(f: Seq<(u32, DatumV)>, g: Seq<(u32, DatumV)>)
    requires
        fields_ordinary(f),
        fields_ordinary(g),
    ensures
        fields_alike(f, g) == (f == g),
    decreases f, 0nat,
{
    if f.len() == g.len() {
        assert forall|i: int| 0 <= i < f.len() implies datum_alike((#[trigger] f[i]).1, g[i].1) == (
        f[i].1 == g[i].1) by {
            assert(datum_ordinary(g[i].1));
            datum_alike_is_same(f[i].1, g[i].1);
        }
        if fields_alike(f, g) {
            assert forall|i: int| 0 <= i < f.len() implies f[i] == g[i] by {
                assert(f[i].0 == g[i].0 && datum_alike(f[i].1, g[i].1));
            }
            assert(f =~= g);
        }
    }
}

proof fn datum_alike_is_same(v: DatumV, w: DatumV)
    requires
        datum_ordinary(v),
        datum_ordinary(w),
    ensures
        datum_alike(v, w) == (v == w),
    decreases v, 0nat,
{
    match (v, w) {
        (DatumV::Message(m), DatumV::Message(n)) => {
            alike_is_same(m, n);
        },
        (DatumV::List(l), DatumV::List(k)) => {
            if l.len() == k.len() {
                assert forall|i: int| 0 <= i < l.len() implies datum_alike(#[trigger] l[i], k[i]) == (
                l[i] == k[i]) by {
                    assert(datum_ordinary(k[i]));
                    datum_alike_is_same(l[i], k[i]);
                }
                if list_alike(l, k) {
                    assert forall|i: int| 0 <= i < l.len() implies l[i] == k[i] by {
                        assert(datum_alike(l[i], k[i]));
                    }
                    assert(l =~= k);
                }
            }
        },
        (DatumV::Entries(e), DatumV::Entries(h)) => {
            if e.len() == h.len() {
                assert forall|i: int| 0 <= i < e.len() implies datum_alike(
                    (#[trigger] e[i]).1,
                    h[i].1,
                ) == (e[i].1 == h[i].1) by {
                    assert(datum_ordinary(h[i].1));
                    datum_alike_is_same(e[i].1, h[i].1);
                }
                if entries_alike(e, h) {
                    assert forall|i: int| 0 <= i < e.len() implies e[i] == h[i] by {
                        assert(e[i].0 == h[i].0 && datum_alike(e[i].1, h[i].1));
                    }
                    assert(e =~= h);
                }
            }
        },
        _ => {},
    }
}

/// Doubles are equal as numbers: NaN to nothing, the zeros to each other, and any other to itself
/// alone. Values of other kinds are equal only if they are the same.
pub proof fn doubles_are_equal_as_numbers(x: u64, y: u64)
    ensures
        (x >> 52) & 0x7ff == 0x7ff && x & 0xf_ffff_ffff_ffff != 0 ==> !equal(
            Scalar::F64(x),
            Scalar::F64(y),
        ),
        x << 1 == 0 && y << 1 == 0 ==> equal(Scalar::F64(x), Scalar::F64(y)),
        !((x >> 52) & 0x7ff == 0x7ff && x & 0xf_ffff_ffff_ffff != 0) ==> equal(
            Scalar::F64(x),
            Scalar::F64(x),
        ),
        x != y && x << 1 != 0 ==> !equal(Scalar::F64(x), Scalar::F64(y)),
{
    assert((x >> 52) & 0x7ff == 0x7ff && x & 0xf_ffff_ffff_ffff != 0 <==> x % 0x8000_0000_0000_0000
        > 0x7ff0_0000_0000_0000) by (bit_vector);
    assert(x << 1 == 0 <==> x % 0x8000_0000_0000_0000 == 0) by (bit_vector);
    assert(y << 1 == 0 <==> y % 0x8000_0000_0000_0000 == 0) by (bit_vector);
}

} // verus!
