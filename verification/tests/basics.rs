use ds_free_api::clock::{epoch_ms, epoch_secs, reading_ms, reading_secs, whole_ms};
use ds_free_api::encoding::{encode, hex_number_of, padding_from, random_padding};
use ds_free_api::json::{get_u64, Json};
use ds_free_api::table::Table;
use ds_free_api::text::{
    bytes_of, char_count, contains, decimal_of, ends_with, find, is_white_space, join, lines,
    parse_number, signed_decimal_of, split, starts_with, strip_prefix, take_bytes, take_chars,
    trim, trim_end, trim_end_char,
};

#[test]
fn white_space_is_that_of_the_language() {
    for c in '\0'..=char::MAX {
        assert_eq!(is_white_space(c), c.is_whitespace(), "{:?}", c);
    }
}

#[test]
fn texts_are_split_as_usual() {
    for s in ["", "a", "a\n", "a\r\nb", "\n\n", "a\n\nb\n", "ă\râ\n"] {
        assert_eq!(lines(s), s.lines().map(String::from).collect::<Vec<_>>(), "{:?}", s);
        for sep in ["\n\n", "\n", "a"] {
            assert_eq!(split(s, sep), s.split(sep).map(String::from).collect::<Vec<_>>(), "{:?}", s);
        }
    }
    for s in ["", "  a b\u{3000}", "\u{a0}x\t", "x"] {
        assert_eq!(trim(s), s.trim());
        assert_eq!(trim_end(s), s.trim_end());
    }
    assert_eq!(trim_end_char("a\n\n", '\n'), "a");
    assert_eq!(join(&vec!["a".into(), "b".into()], ", "), "a, b");
    assert_eq!(join(&vec![], ", "), "");
}

#[test]
fn texts_are_searched_by_characters() {
    assert_eq!(find("ăâbc", "bc"), Some(2));
    assert_eq!(find("aaab", "ab"), Some(2));
    assert_eq!(find("abc", ""), Some(0));
    assert_eq!(find("abc", "d"), None);
    assert!(contains("abc", "bc") && !contains("abc", "cb"));
    assert!(starts_with("abc", "ab") && !starts_with("abc", "b"));
    assert!(ends_with("abc", "bc") && !ends_with("abc", "b"));
    assert_eq!(strip_prefix("data: x", "data: "), Some("x".to_string()));
    assert_eq!(strip_prefix("x", "data: "), None);
    assert_eq!(take_chars("ăâbc", 2), "ăâ");
    assert_eq!(take_chars("ă", 2), "ă");
    assert_eq!(char_count("ăâb"), 3);
    assert_eq!(take_bytes("ăb", 2), "ă");
    assert_eq!(bytes_of("ă"), "ă".as_bytes());
}

#[test]
fn numbers_are_written_and_read() {
    for n in [0, 7, 10, 99, 100, 65_535, u64::MAX] {
        assert_eq!(decimal_of(n), n.to_string());
        assert_eq!(parse_number(&n.to_string(), u64::MAX), Some(n));
    }
    for n in [i64::MIN, -10, -1, 0, 1, i64::MAX] {
        assert_eq!(signed_decimal_of(n), n.to_string());
    }
    assert_eq!(parse_number("65536", 65_535), None);
    assert_eq!(parse_number("", 10), None);
    assert_eq!(parse_number("1x", 10), None);
    assert_eq!(parse_number("007", 10), Some(7));
    assert_eq!(parse_number("99999999999999999999999", u64::MAX), None);
}

#[test]
fn bytes_are_written_in_hexadecimal() {
    assert_eq!(encode(&[0, 15, 16, 255]), "000f10ff");
    assert_eq!(encode(&[]), "");
    assert_ne!(encode(&[1, 2]), encode(&[2, 1]));
    assert_eq!(hex_number_of(255, 16), format!("{:016x}", 255));
    assert_eq!(hex_number_of(u64::MAX, 16), "ffffffffffffffff");
}

#[test]
fn padding_is_base64() {
    assert_eq!(padding_from(b"hello w", 9), "aGVsbG8gd");
    assert_eq!(padding_from(&[0xfb, 0xff, 0xbf], 4), "+/+/");
    assert_eq!(random_padding(0), "");
    for len in [1, 2, 3, 4, 5, 100] {
        let p = random_padding(len);
        assert_eq!(p.len(), len);
        assert!(p.chars().all(|c| c.is_ascii_alphanumeric() || c == '+' || c == '/'));
    }
    assert_ne!(random_padding(40), random_padding(40));
}

#[test]
fn numbers_in_json_have_ranges() {
    let number = |s: &str| Json::Number(s.to_string());
    assert_eq!(number("-5").as_i64(), Some(-5));
    assert_eq!(number("9223372036854775807").as_i64(), Some(i64::MAX));
    assert_eq!(number("-9223372036854775808").as_i64(), Some(i64::MIN));
    assert_eq!(number("9223372036854775808").as_i64(), None);
    assert_eq!(number("1.5").as_i64(), None);
    assert_eq!(number("18446744073709551615").as_u64(), Some(u64::MAX));
    assert_eq!(number("-1").as_u64(), None);
    assert_eq!(Json::Text("5".into()).as_u64(), None);
    let v = Json::Object(vec![("n".into(), Json::from_u64(3)), ("s".into(), Json::from_str("x"))]);
    assert_eq!(get_u64(&v, "n"), Some(3));
    assert_eq!(get_u64(&v, "s"), None);
    assert_eq!(v.get_str("s").map(|s| s.as_str()), Some("x"));
    assert!(v.get("t").is_none());
}

#[test]
fn table_holds_one_value_for_a_name() {
    let mut t: Table<u32> = Table::new();
    assert_eq!(t.len(), 0);
    t.insert("a".to_string(), 1);
    t.insert("b".to_string(), 2);
    t.insert("c".to_string(), 3);
    t.insert("a".to_string(), 4);
    assert_eq!(t.len(), 3);
    assert_eq!(t.get("a"), Some(&4));
    if let Some(v) = t.get_mut("b") {
        *v = 5;
    }
    assert_eq!(t.remove("a"), Some(4));
    assert_eq!(t.remove("a"), None);
    assert!(!t.contains("a") && t.contains("b") && t.contains("c"));
    assert_eq!(t.get("b"), Some(&5));
    assert_eq!(t.get("c"), Some(&3));
    let mut names = t.keys();
    names.sort();
    assert_eq!(names, vec!["b", "c"]);
}

#[test]
fn clock_counts_from_the_epoch() {
    let before = std::time::SystemTime::now()
        .duration_since(std::time::UNIX_EPOCH)
        .unwrap()
        .as_secs();
    let secs = epoch_secs();
    let ms = epoch_ms();
    assert_eq!(whole_ms(12, 345), 12_345);
    assert_eq!((reading_secs(Some((12, 345))), reading_ms(Some((12, 345)))), (12, 12_345));
    assert_eq!((reading_secs(None), reading_ms(None)), (0, 0));
    assert!(before <= secs && secs <= before + 60);
    assert!(secs * 1000 <= ms as u64 && ms as u64 <= (secs + 60) * 1000);
}
