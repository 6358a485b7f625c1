//! The order that the entries of a map are written in: that of the texts of their keys.
use vstd::prelude::*;

verus! {

use crate::message::{KeyV, Scalar};
use crate::pool::key_text;
use crate::text::{decimal_is_digits, integer_text, integer_text_reads_back, text_less};

/// A text that two texts begin with does not matter to their order.
proof fn same_beginning(p: Seq<char>, a: Seq<char>, b: Seq<char>)
    ensures
        text_less(p + a, p + b) == text_less(a, b),
    decreases p.len(),
{
    if p.len() == 0 {
        assert(p + a =~= a);
        assert(p + b =~= b);
    } else {
        same_beginning(p.drop_first(), a, b);
        assert((p + a).drop_first() =~= p.drop_first() + a);
        assert((p + b).drop_first() =~= p.drop_first() + b);
    }
}

/// The entry of `false` is written before that of `true`.
pub proof fn false_comes_before_true()
    ensures
        text_less(
            key_text(KeyV::Scalar(Scalar::Bool(false))),
            key_text(KeyV::Scalar(Scalar::Bool(true))),
        ),
{
    reveal_strlit("Bool(true)");
    reveal_strlit("Bool(false)");
    reveal_strlit("Bool(");
    reveal_strlit("true)");
    reveal_strlit("false)");
    assert("Bool(true)"@ =~= "Bool("@ + "true)"@);
    assert("Bool(false)"@ =~= "Bool("@ + "false)"@);
    same_beginning("Bool("@, "false)"@, "true)"@);
}

/// The entries of negative keys are written before those of the others.
pub proof fn negative_keys_come_first(a: i64, b: i64)
    requires
        a < 0 <= b,
    ensures
        text_less(key_text(KeyV::Scalar(Scalar::I64(a))), key_text(KeyV::Scalar(Scalar::I64(b)))),
        i32::MIN <= a && b <= i32::MAX ==> text_less(
            key_text(KeyV::Scalar(Scalar::I32(a as i32))),
            key_text(KeyV::Scalar(Scalar::I32(b as i32))),
        ),
{
    reveal_strlit("-");
    reveal_strlit(")");
    let x = integer_text(a as int) + ")"@;
    let y = integer_text(b as int) + ")"@;
    decimal_is_digits(b as nat);
    assert(x[0] == '-');
    assert('0' <= integer_text(b as int)[0] <= '9');
    assert(y[0] == integer_text(b as int)[0]);
    assert(text_less(x, y));
    same_beginning("I64("@, x, y);
    same_beginning("I32("@, x, y);
    assert("I64("@ + integer_text(a as int) + ")"@ =~= "I64("@ + x);
    assert("I64("@ + integer_text(b as int) + ")"@ =~= "I64("@ + y);
    assert("I32("@ + integer_text(a as int) + ")"@ =~= "I32("@ + x);
    assert("I32("@ + integer_text(b as int) + ")"@ =~= "I32("@ + y);
}

/// Integers have texts of their own, so no two entries of a map with integer keys have the same.
pub proof fn integer_keys_differ(a: i64, b: i64)
    requires
        key_text(KeyV::Scalar(Scalar::I64(a))) == key_text(KeyV::Scalar(Scalar::I64(b))),
    ensures
        a == b,
{
    same_whole("I64("@, a as int, b as int);
}

/// The same of unsigned integers.
pub proof fn unsigned_keys_differ(a: u64, b: u64)
    requires
        key_text(KeyV::Scalar(Scalar::U64(a))) == key_text(KeyV::Scalar(Scalar::U64(b))),
    ensures
        a == b,
{
    same_whole("U64("@, a as int, b as int);
}

/// The same of integers of half the size.
pub proof fn small_keys_differ(a: i32, b: i32, c: u32, d: u32)
    ensures
        key_text(KeyV::Scalar(Scalar::I32(a))) == key_text(KeyV::Scalar(Scalar::I32(b))) ==> a == b,
        key_text(KeyV::Scalar(Scalar::U32(c))) == key_text(KeyV::Scalar(Scalar::U32(d))) ==> c == d,
{
    if key_text(KeyV::Scalar(Scalar::I32(a))) == key_text(KeyV::Scalar(Scalar::I32(b))) {
        same_whole("I32("@, a as int, b as int);
    }
    if key_text(KeyV::Scalar(Scalar::U32(c))) == key_text(KeyV::Scalar(Scalar::U32(d))) {
        same_whole("U32("@, c as int, d as int);
    }
}

proof fn same_whole(p: Seq<char>, a: int, b: int)
    requires
        p + integer_text(a) + ")"@ == p + integer_text(b) + ")"@,
    ensures
        a == b,
{
    reveal_strlit(")");
    let x = p + integer_text(a) + ")"@;
    let y = p + integer_text(b) + ")"@;
    assert(x.subrange(p.len() as int, x.len() - 1) =~= integer_text(a));
    assert(y.subrange(p.len() as int, y.len() - 1) =~= integer_text(b));
    integer_text_reads_back(a);
    integer_text_reads_back(b);
}

} // verus!
