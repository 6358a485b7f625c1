//! Text: the order of strings, decimal numerals, and the few cuts that names and labels need.
use vstd::prelude::*;
use vstd::string::*;

verus! {

broadcast use vstd::string::group_string_axioms;

/// Lexicographic order of texts by code point.
pub open spec fn text_less(a: Seq<char>, b: Seq<char>) -> bool
    decreases a.len(),
{
    if b.len() == 0 {
        false
    } else if a.len() == 0 {
        true
    } else if a[0] == b[0] {
        text_less(a.drop_first(), b.drop_first())
    } else {
        (a[0] as int) < (b[0] as int)
    }
}

/// No text comes before itself.
pub proof fn text_less_irreflexive(a: Seq<char>)
    ensures
        !text_less(a, a),
    decreases a.len(),
{
    if a.len() > 0 {
        text_less_irreflexive(a.drop_first());
    }
}

/// The order of texts is transitive.
pub proof fn text_less_transitive(a: Seq<char>, b: Seq<char>, c: Seq<char>)
    requires
        text_less(a, b),
        text_less(b, c),
    ensures
        text_less(a, c),
    decreases a.len(),
{
    if a.len() > 0 && b.len() > 0 && c.len() > 0 && a[0] == b[0] && b[0] == c[0] {
        text_less_transitive(a.drop_first(), b.drop_first(), c.drop_first());
    }
}

/// Of two different texts one comes first.
pub proof fn text_less_total(a: Seq<char>, b: Seq<char>)
    ensures
        text_less(a, b) || text_less(b, a) || a == b,
    decreases a.len(),
{
    if a.len() == 0 || b.len() == 0 {
        assert(a.len() == 0 && b.len() == 0 ==> a =~= b);
    } else if a[0] == b[0] {
        text_less_total(a.drop_first(), b.drop_first());
        if a.drop_first() == b.drop_first() {
            assert(a =~= seq![a[0]] + a.drop_first());
            assert(b =~= seq![b[0]] + b.drop_first());
        }
    }
}

/// Calls the `<` of std's `str`, which orders strings by their bytes and so, as its
/// documentation says, by the code points of their characters.
#[verifier::external_body]
pub(crate) fn text_lt(a: &str, b: &str) -> (r: bool)
    ensures
        r == text_less(a@, b@),
{
    a < b
}

/// Whether two texts are the same.
pub fn text_eq(a: &str, b: &str) -> (r: bool)
    ensures
        r == (a@ == b@),
{
    proof {
        text_less_total(a@, b@);
        text_less_irreflexive(a@);
    }
    !text_lt(a, b) && !text_lt(b, a)
}

/// Whether two optional texts are the same.
pub fn optional_eq(a: &Option<String>, b: &Option<String>) -> (r: bool)
    ensures
        r == (optional_text(*a) == optional_text(*b)),
{
    match (a, b) {
        (None, None) => true,
        (Some(x), Some(y)) => text_eq(x.as_str(), y.as_str()),
        _ => false,
    }
}

/// The characters of an optional text.
pub open spec fn optional_text(a: Option<String>) -> Option<Seq<char>> {
    match a {
        Some(s) => Some(s@),
        None => None,
    }
}

/// The digit that stands for `d`.
pub open spec fn digit_text(d: nat) -> Seq<char> {
    seq![(('0' as int) + d) as char]
}

/// The decimal numeral of `n`, without leading zeros.
pub open spec fn decimal_text(n: nat) -> Seq<char>
    decreases n,
{
    if n < 10 {
        digit_text(n)
    } else {
        decimal_text(n / 10) + digit_text(n % 10)
    }
}

fn digit(d: usize) -> (r: &'static str)
    requires
        d < 10,
    ensures
        r@ == digit_text(d as nat),
{
    proof {
        reveal_strlit("0");
        reveal_strlit("1");
        reveal_strlit("2");
        reveal_strlit("3");
        reveal_strlit("4");
        reveal_strlit("5");
        reveal_strlit("6");
        reveal_strlit("7");
        reveal_strlit("8");
        reveal_strlit("9");
    }
    let r = match d {
        0 => "0",
        1 => "1",
        2 => "2",
        3 => "3",
        4 => "4",
        5 => "5",
        6 => "6",
        7 => "7",
        8 => "8",
        _ => "9",
    };
    assert(r@ =~= digit_text(d as nat));
    r
}

/// The decimal numeral of an integer.
pub open spec fn integer_text(n: int) -> Seq<char> {
    if n < 0 {
        "-"@ + decimal_text((-n) as nat)
    } else {
        decimal_text(n as nat)
    }
}

/// The decimal numeral of `n`.
pub fn decimal(n: usize) -> (r: String)
    ensures
        r@ == decimal_text(n as nat),
    decreases n,
{
    if n < 10 {
        digit(n).to_owned()
    } else {
        let mut r = decimal(n / 10);
        r.append(digit(n % 10));
        r
    }
}

/// The text without the `c`s that it begins with.
pub open spec fn trimmed(s: Seq<char>, c: char) -> Seq<char>
    decreases s.len(),
{
    if s.len() > 0 && s[0] == c {
        trimmed(s.drop_first(), c)
    } else {
        s
    }
}

/// Cuts off the `c`s that the text begins with.
pub fn trim_start(s: &str, c: char) -> (r: String)
    ensures
        r@ == trimmed(s@, c),
{
    let n = s.unicode_len();
    let mut i: usize = 0;
    assert(s@.skip(0) =~= s@);
    while i < n && s.get_char(i) == c
        invariant
            i <= n,
            n == s@.len(),
            trimmed(s@, c) == trimmed(s@.skip(i as int), c),
        decreases n - i,
    {
        assert(s@.skip(i as int).drop_first() =~= s@.skip(i + 1));
        i += 1;
    }
    assert(s@.skip(i as int) =~= s@.subrange(i as int, n as int));
    s.substring_char(i, n).to_owned()
}

/// The part of the text behind its last `c`, or the whole text where it has no `c`.
pub open spec fn last_part(s: Seq<char>, c: char) -> Seq<char> {
    s.skip(tail_start(s, c))
}

/// Where the part behind the last `c` begins.
pub open spec fn tail_start(s: Seq<char>, c: char) -> int
    decreases s.len(),
{
    if s.len() == 0 {
        0
    } else if s.last() == c {
        s.len() as int
    } else {
        tail_start(s.drop_last(), c)
    }
}

/// The part behind the last `c` has no `c` in it, and where it is not the whole text, a `c`
/// stands right before it.
pub proof fn tail_start_facts(s: Seq<char>, c: char)
    ensures
        0 <= tail_start(s, c) <= s.len(),
        forall|k: int| tail_start(s, c) <= k < s.len() ==> s[k] != c,
        tail_start(s, c) > 0 ==> s[tail_start(s, c) - 1] == c,
    decreases s.len(),
{
    if s.len() > 0 && s.last() != c {
        tail_start_facts(s.drop_last(), c);
        assert forall|k: int| tail_start(s, c) <= k < s.len() implies s[k] != c by {
            if k < s.len() - 1 {
                assert(s.drop_last()[k] != c);
            }
        }
    }
}

/// Cuts out the part behind the last `c`.
pub fn after_last(s: &str, c: char) -> (r: String)
    ensures
        r@ == last_part(s@, c),
{
    let n = s.unicode_len();
    let mut i: usize = n;
    assert(s@.take(n as int) =~= s@);
    while i > 0 && s.get_char((i - 1) as usize) != c
        invariant
            i <= n,
            n == s@.len(),
            tail_start(s@, c) == tail_start(s@.take(i as int), c),
        decreases i,
    {
        assert(s@.take(i as int).drop_last() =~= s@.take(i - 1));
        i -= 1;
    }
    assert(tail_start(s@.take(i as int), c) == i);
    assert(s@.skip(i as int) =~= s@.subrange(i as int, n as int));
    s.substring_char(i, n).to_owned()
}

/// Whether `s` begins with `p`.
pub open spec fn begins_with(s: Seq<char>, p: Seq<char>) -> bool {
    p.len() <= s.len() && s.take(p.len() as int) == p
}

/// What stands behind the prefix `p`, where `s` begins with it.
pub fn strip(s: &str, p: &str) -> (r: Option<String>)
    ensures
        r is Some <==> begins_with(s@, p@),
        r matches Some(t) ==> t@ == s@.skip(p@.len() as int),
{
    let n = s.unicode_len();
    let k = p.unicode_len();
    if k <= n {
        assert(s@.subrange(0, k as int) =~= s@.take(k as int));
        if text_eq(s.substring_char(0, k), p) {
            assert(s@.subrange(k as int, n as int) =~= s@.skip(k as int));
            return Some(s.substring_char(k, n).to_owned());
        }
    }
    None
}

/// The text with each `c` replaced by `with`.
pub open spec fn replaced(s: Seq<char>, c: char, with: Seq<char>) -> Seq<char>
    decreases s.len(),
{
    if s.len() == 0 {
        seq![]
    } else {
        replaced(s.drop_last(), c, with) + (if s.last() == c {
            with
        } else {
            seq![s.last()]
        })
    }
}

/// Replaces each `c` by `with`.
pub fn replace_char(s: &str, c: char, with: &str) -> (r: String)
    ensures
        r@ == replaced(s@, c, with@),
{
    let n = s.unicode_len();
    let mut r = String::new();
    let mut i: usize = 0;
    assert(s@.take(0) =~= Seq::<char>::empty());
    while i < n
        invariant
            i <= n,
            n == s@.len(),
            r@ == replaced(s@.take(i as int), c, with@),
        decreases n - i,
    {
        assert(s@.take(i + 1).drop_last() =~= s@.take(i as int));
        if s.get_char(i) == c {
            r.append(with);
        } else {
            r.append(s.substring_char(i, i + 1));
            assert(s@.subrange(i as int, i + 1) =~= seq![s@[i as int]]);
        }
        i += 1;
    }
    assert(s@.take(n as int) =~= s@);
    r
}

/// Two texts, one behind the other.
pub fn join2(a: &str, b: &str) -> (r: String)
    ensures
        r@ == a@ + b@,
{
    let mut r = a.to_owned();
    r.append(b);
    r
}

/// Three texts, one behind the other.
pub fn join3(a: &str, b: &str, c: &str) -> (r: String)
    ensures
        r@ == a@ + b@ + c@,
{
    let mut r = join2(a, b);
    r.append(c);
    r
}

/// Four texts, one behind the other.
pub fn join4(a: &str, b: &str, c: &str, d: &str) -> (r: String)
    ensures
        r@ == a@ + b@ + c@ + d@,
{
    let mut r = join3(a, b, c);
    r.append(d);
    r
}

/// What std's `Debug` makes of a string: the string in double quotes, with escapes.
pub uninterp spec fn quoted_text(s: Seq<char>) -> Seq<char>;

/// Formats a string with `{:?}`, that is, calls `Debug` of std's `str`. The result is a function
/// of the string alone; which characters are escaped, and how, is not stated.
#[verifier::external_body]
pub(crate) fn quoted(s: &str) -> (r: String)
    ensures
        r@ == quoted_text(s@),
{
    format!("{s:?}")
}

/// Whether the text is a sequence of decimal digits.
pub open spec fn all_digits(s: Seq<char>) -> bool {
    forall|i: int| 0 <= i < s.len() ==> '0' <= #[trigger] s[i] <= '9'
}

/// The number that decimal digits stand for.
pub open spec fn digits_value(s: Seq<char>) -> nat
    decreases s.len(),
{
    if s.len() == 0 {
        0
    } else {
        10 * digits_value(s.drop_last()) + (s.last() as nat - '0' as nat) as nat
    }
}

/// The number that a numeral stands for: digits, with a sign in front of them or not.
pub open spec fn numeral_value(s: Seq<char>) -> Option<int> {
    if s.len() > 0 && s[0] == '-' {
        if s.len() > 1 && all_digits(s.skip(1)) {
            Some(-(digits_value(s.skip(1)) as int))
        } else {
            None
        }
    } else if s.len() > 0 && s[0] == '+' {
        if s.len() > 1 && all_digits(s.skip(1)) {
            Some(digits_value(s.skip(1)) as int)
        } else {
            None
        }
    } else if s.len() > 0 && all_digits(s) {
        Some(digits_value(s) as int)
    } else {
        None
    }
}

/// More digits do not make a smaller number.
proof fn digits_value_grows(s: Seq<char>, k: int)
    requires
        0 <= k <= s.len(),
    ensures
        digits_value(s.take(k)) <= digits_value(s),
    decreases s.len() - k,
{
    if k < s.len() {
        digits_value_grows(s, k + 1);
        assert(s.take(k + 1).drop_last() =~= s.take(k));
    } else {
        assert(s.take(k) =~= s);
    }
}

/// Reads digits from a place on, unless there are none, there is something else, or the number
/// is too large.
fn read_digits(s: &str, from: usize) -> (r: Option<u64>)
    requires
        from <= s@.len(),
    ensures
        match r {
            Some(n) => from < s@.len() && all_digits(s@.skip(from as int)) && digits_value(
                s@.skip(from as int),
            ) == n,
            None => from == s@.len() || !all_digits(s@.skip(from as int)) || digits_value(
                s@.skip(from as int),
            ) > u64::MAX,
        },
{
    let n = s.unicode_len();
    let ghost d = s@.skip(from as int);
    if from == n {
        return None;
    }
    let mut i: usize = from;
    let mut total: u64 = 0;
    assert(d.take(0) =~= Seq::empty());
    while i < n
        invariant
            from <= i <= n,
            n == s@.len(),
            d == s@.skip(from as int),
            total == digits_value(d.take(i - from)),
            forall|k: int| 0 <= k < i - from ==> '0' <= #[trigger] d[k] <= '9',
        decreases n - i,
    {
        let c = s.get_char(i);
        assert(c == d[i - from]);
        if c < '0' || c > '9' {
            return None;
        }
        let digit: u64 = c as u64 - '0' as u64;
        assert(d.take(i - from + 1).drop_last() =~= d.take(i - from));
        assert(digits_value(d.take(i - from + 1)) == 10 * total + digit);
        if total > (u64::MAX - digit) / 10 {
            proof {
                digits_value_grows(d, i - from + 1);
            }
            return None;
        }
        total = total * 10 + digit;
        i += 1;
    }
    assert(d.take(n - from) =~= d);
    Some(total)
}

/// A 64-bit integer, signed where it can be.
pub enum Numeral {
    Signed(i64),
    Unsigned(u64),
}

/// The 64-bit integer of this value: signed where it can be, or else unsigned where it can be.
pub open spec fn numeral_of(v: Option<int>) -> Option<Numeral> {
    match v {
        Some(n) => if i64::MIN <= n <= i64::MAX {
            Some(Numeral::Signed(n as i64))
        } else if 0 <= n <= u64::MAX {
            Some(Numeral::Unsigned(n as u64))
        } else {
            None
        },
        None => None,
    }
}

/// Reads a numeral.
pub fn read_numeral(s: &str) -> (r: Option<Numeral>)
    ensures
        r == numeral_of(numeral_value(s@)),
{
    let n = s.unicode_len();
    if n == 0 {
        return None;
    }
    let first = s.get_char(0);
    if first == '-' {
        match read_digits(s, 1) {
            Some(d) => {
                if d < 0x8000_0000_0000_0000 {
                    Some(Numeral::Signed(-(d as i64)))
                } else if d == 0x8000_0000_0000_0000 {
                    Some(Numeral::Signed(i64::MIN))
                } else {
                    None
                }
            },
            None => None,
        }
    } else {
        let from: usize = if first == '+' {
            1
        } else {
            0
        };
        assert(s@.skip(0) =~= s@);
        match read_digits(s, from) {
            Some(d) => if d < 0x8000_0000_0000_0000 {
                Some(Numeral::Signed(d as i64))
            } else {
                Some(Numeral::Unsigned(d))
            },
            None => None,
        }
    }
}

pub proof fn decimal_is_digits(n: nat)
    ensures
        decimal_text(n).len() > 0,
        all_digits(decimal_text(n)),
        digits_value(decimal_text(n)) == n,
    decreases n,
{
    let d = digit_text(n % 10);
    reveal_strlit("0");
    reveal_strlit("1");
    reveal_strlit("2");
    reveal_strlit("3");
    reveal_strlit("4");
    reveal_strlit("5");
    reveal_strlit("6");
    reveal_strlit("7");
    reveal_strlit("8");
    reveal_strlit("9");
    assert(d.len() == 1);
    assert(d[0] as nat == '0' as nat + n % 10);
    if n < 10 {
        assert(d.drop_last() =~= Seq::empty());
        assert(digits_value(d.drop_last()) == 0);
    } else {
        decimal_is_digits(n / 10);
        let all = decimal_text(n / 10) + d;
        assert(all.drop_last() =~= decimal_text(n / 10));
        assert(all.last() == d[0]);
    }
}

/// The decimal numeral of an integer stands for that integer.
pub proof fn integer_text_reads_back(n: int)
    ensures
        numeral_value(integer_text(n)) == Some(n),
{
    reveal_strlit("-");
    if n < 0 {
        decimal_is_digits((-n) as nat);
        assert(integer_text(n).skip(1) =~= decimal_text((-n) as nat));
    } else {
        decimal_is_digits(n as nat);
    }
}

} // verus!
