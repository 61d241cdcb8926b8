use divar_scraper::clock::now_secs;
use divar_scraper::codec::{from_value, parse_json, render, to_value};
use divar_scraper::json::{count_value, text_list_value, Json};
use divar_scraper::keymap::{KeyMap, KeySet, TextMap};
use divar_scraper::store::TokenSet;
use divar_scraper::text::{
    contains, decimal_text, ends_with, file_entry, first_chars, is_blank, is_digits, join, parse_unsigned, rank, same,
    split, split_lines, split_list, starts_with, Rank,
};

#[test]
fn texts_are_ordered_by_code_point() {
    assert_eq!(rank("a", "b"), Rank::Before);
    assert_eq!(rank("b", "a"), Rank::After);
    assert_eq!(rank("ab", "a"), Rank::After);
    assert_eq!(rank("", "a"), Rank::Before);
    assert_eq!(rank("\u{ffff}", "\u{10000}"), Rank::Before);
    assert_eq!(rank("گ", "گ"), Rank::Same);
    assert!(same("x", "x") && !same("x", "X"));
}

#[test]
fn lists_are_split_and_joined() {
    assert_eq!(split("a,,b", ','), vec!["a", "", "b"]);
    assert_eq!(split("", ','), vec![""]);
    assert_eq!(split_list("\u{a0}a , ,b\u{3000}"), vec!["a", "b"]);
    assert_eq!(join(&vec!["a".into(), "b".into()], " | "), "a | b");
    assert_eq!(join(&vec![], "x"), "");
}

#[test]
fn files_are_split_into_lines() {
    assert!(split_lines("").is_empty());
    assert_eq!(split_lines("a\n"), vec!["a"]);
    assert_eq!(split_lines("a\r\n\nb"), vec!["a", "", "b"]);
    assert_eq!(split_lines("a\r\r\nb\r"), vec!["a\r", "b\r"]);
    assert_eq!(split_lines("\n\r\n"), vec!["", ""]);
    let content = "x\r\ny\n".to_string() + &file_entry("گ");
    assert_eq!(content, "x\r\ny\nگ\n");
    assert_eq!(split_lines(&content), vec!["x", "y", "گ"]);
    assert!(is_digits("0912") && is_digits("") && !is_digits("1a") && !is_digits("۷"));
}

#[test]
fn blank_means_white_space() {
    for blank in ["", " ", "\t\n\u{b}\u{c}\r", "\u{85}", "\u{a0}", "\u{1680}", "\u{2000}\u{200a}", "\u{2028}\u{2029}", "\u{202f}", "\u{205f}", "\u{3000}"] {
        assert!(is_blank(blank), "{blank:?}");
    }
    for other in ["x", "\u{200b}", "\u{200c}", "\u{feff}", "\u{180e}", "\0"] {
        assert!(!is_blank(other), "{other:?}");
    }
}

#[test]
fn numbers_are_written_and_read() {
    assert_eq!(decimal_text(0), "0");
    assert_eq!(decimal_text(18446744073709551615), "18446744073709551615");
    assert_eq!(parse_unsigned("18446744073709551615"), Some(18446744073709551615));
    assert_eq!(parse_unsigned("18446744073709551616"), None);
    assert_eq!(parse_unsigned("007"), Some(7));
    assert_eq!(parse_unsigned("+"), None);
    assert_eq!(parse_unsigned("++1"), None);
    assert_eq!(parse_unsigned("۷"), None);
}

#[test]
fn parts_are_found() {
    assert!(contains("abcabd", "abd") && contains("x", "") && !contains("ab", "abc"));
    assert!(starts_with("abc", "ab") && !starts_with("abc", "b"));
    assert!(ends_with("abc", "bc") && !ends_with("abc", "ab") && ends_with("", ""));
    assert_eq!(first_chars("گچپژ", 2), "گچ");
    assert_eq!(first_chars("ab", 5), "ab");
    assert_eq!(first_chars("ab", 0), "");
}

#[test]
fn maps_keep_their_keys_in_order() {
    let mut m: KeyMap<u64> = KeyMap::new();
    for (k, v) in [("m", 1), ("a", 2), ("z", 3), ("m", 4), ("b", 5)] {
        m.insert(k.to_string(), v);
    }
    m.or_insert("a".to_string(), 9);
    m.or_insert("c".to_string(), 6);
    m.remove("z");
    m.remove("y");
    assert_eq!(m.len(), 4);
    assert_eq!(m.get("m"), Some(&4));
    assert!(m.contains_key("b") && !m.contains_key("z"));
    let all: Vec<(String, u64)> = m.into_entries();
    assert_eq!(all, vec![("a".into(), 2), ("b".into(), 5), ("c".into(), 6), ("m".into(), 4)]);

    let mut t = TextMap::new();
    t.insert("k".into(), "v".into());
    t.or_insert("k".into(), "w".into());
    assert_eq!(t.get("k").unwrap(), "v");
    assert_eq!(t.key_at(0), "k");
    t.remove("k");
    assert_eq!(t.len(), 0);

    let mut s = KeySet::new();
    for k in ["b", "a", "b"] {
        s.insert(k.to_string());
    }
    assert!(s.contains("a") && !s.contains("c"));
    assert_eq!(s.to_list(), vec!["a", "b"]);

    let mut tokens = TokenSet::new();
    assert!(tokens.is_empty());
    assert!(tokens.insert("x".into()) && !tokens.insert("x".into()));
    assert_eq!(tokens.len(), 1);
}

#[test]
fn values_go_to_serde_json_and_back() {
    let text = r#"{"a":[1,-2,3.5,true,null,"x"],"b":{}}"#;
    let v: serde_json::Value = serde_json::from_str(text).unwrap();
    let j = from_value(v.clone());
    assert_eq!(to_value(&j), v);
    assert_eq!(render(&j), text);
    assert_eq!(parse_json(text).unwrap(), j);
    assert_eq!(j.duplicate(), j);
    // A key that is there twice counts once, with its last value.
    assert_eq!(render(&parse_json(r#"{"k":1,"j":0,"k":2}"#).unwrap()), r#"{"j":0,"k":2}"#);
    assert_eq!(parse_json("[").err().unwrap().message, "EOF while parsing a list at line 1 column 1");
    assert_eq!(render(&count_value(18446744073709551615)), "18446744073709551615");
    assert_eq!(count_value(7).as_u64(), Some(7));
    assert_eq!(parse_json("-7").unwrap().as_u64(), None);
    assert_eq!(parse_json("7.0").unwrap().as_u64(), None);
    assert_eq!(render(&text_list_value(&vec!["a".into(), "\"".into()])), r#"["a","\""]"#);
    assert_eq!(parse_json("1e3").unwrap(), Json::Num(serde_json::Number::from_f64(1000.0).unwrap()));
}

#[test]
fn deep_values_are_read_back_up_to_a_limit() {
    let deep = |n: usize| format!("{}{}", "[".repeat(n), "]".repeat(n));
    let v = parse_json(&deep(127)).unwrap();
    assert_eq!(render(&v), deep(127));
    assert!(parse_json(&deep(128)).is_err());
}

#[test]
fn the_clock_runs() {
    assert!(now_secs() > 1_600_000_000);
}
