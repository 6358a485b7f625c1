use protolark::json::{put_name, put_value, Json};
use protolark::message::{key_lt, EntryKey, Scalar};
use protolark::order::{find_slot, find_slot_behind};
use protolark::text::{
    after_last, decimal, join2, join3, join4, optional_eq, read_numeral, replace_char, strip,
    text_eq, trim_start, Numeral,
};

#[test]
fn decimal_numerals() {
    assert_eq!(decimal(0), "0");
    assert_eq!(decimal(1203), "1203");
    assert_eq!(decimal(usize::MAX), usize::MAX.to_string());
}

#[test]
fn numerals_are_signed_where_they_can_be() {
    assert!(matches!(read_numeral("-9223372036854775808"), Some(Numeral::Signed(i64::MIN))));
    assert!(matches!(read_numeral("9223372036854775807"), Some(Numeral::Signed(i64::MAX))));
    assert!(matches!(
        read_numeral("9223372036854775808"),
        Some(Numeral::Unsigned(0x8000_0000_0000_0000))
    ));
    assert!(matches!(read_numeral("18446744073709551615"), Some(Numeral::Unsigned(u64::MAX))));
    assert!(matches!(read_numeral("+007"), Some(Numeral::Signed(7))));
    for text in ["", "-", "+", "1a", "--1", "18446744073709551616", "-9223372036854775809", "1.0"] {
        assert!(read_numeral(text).is_none(), "read {text:?}");
    }
}

#[test]
fn cuts_and_joins() {
    assert_eq!(trim_start("..a.b", '.'), "a.b");
    assert_eq!(trim_start("...", '.'), "");
    assert_eq!(after_last("a/b/c", '/'), "c");
    assert_eq!(after_last("abc", '/'), "abc");
    assert_eq!(after_last("abc/", '/'), "");
    assert_eq!(strip("//a", "//").as_deref(), Some("a"));
    assert_eq!(strip("/a", "//"), None);
    assert_eq!(replace_char("a:b:c", ':', "/"), "a/b/c");
    assert_eq!(join2("a", "b"), "ab");
    assert_eq!(join3("a", "b", "c"), "abc");
    assert_eq!(join4("a", "b", "c", "d"), "abcd");
}

#[test]
fn equal_texts() {
    assert!(text_eq("\u{e9}", "\u{e9}"));
    assert!(!text_eq("e", "\u{e9}"));
    assert!(!text_eq("a", "ab"));
    assert!(optional_eq(&None, &None));
    assert!(!optional_eq(&Some("a".to_owned()), &None));
}

#[test]
fn places_in_order() {
    let s = vec![("b".to_owned(), 1), ("b".to_owned(), 2), ("d".to_owned(), 3)];
    assert_eq!(find_slot(&s, "b"), 0);
    assert_eq!(find_slot_behind(&s, "b"), 2);
    assert_eq!(find_slot(&s, "c"), 2);
    assert_eq!(find_slot(&s, "e"), 3);
    // Bytes decide, as they do in UTF-8, not the units of UTF-16.
    let s = vec![("\u{ffff}".to_owned(), 1)];
    assert_eq!(find_slot(&s, "\u{10000}"), 1);
}

#[test]
fn objects_keep_their_names_in_order() {
    let mut o = Vec::new();
    assert!(put_name(&mut o, "b".to_owned(), Json::Bool(true)));
    assert!(put_name(&mut o, "a".to_owned(), Json::Null));
    assert!(!put_name(&mut o, "b".to_owned(), Json::Null));
    assert_eq!(o.len(), 2);
    assert_eq!(o[0].0, "a");
    assert!(matches!(o[1].1, Json::Bool(true)));
    put_value(&mut o, "b".to_owned(), Json::Bool(false));
    assert!(matches!(o[1].1, Json::Bool(false)));
    put_value(&mut o, "c".to_owned(), Json::Null);
    assert_eq!(o.len(), 3);
}

#[test]
fn keys_of_maps_have_one_order() {
    let number = |n: i32| EntryKey::Scalar(Scalar::I32(n));
    let text = |t: &str| EntryKey::Text(t.to_owned());
    assert!(key_lt(&number(-1), &number(0)));
    assert!(!key_lt(&number(0), &number(0)));
    assert!(key_lt(&text("a"), &text("b")));
    assert!(key_lt(&number(5), &text("")) != key_lt(&text(""), &number(5)));
}
