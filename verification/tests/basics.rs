use dsh_rs::json::{self, Json};
use dsh_rs::ordered_map::OrderedMap;
use dsh_rs::paths::{join_path, resolve_path};
use dsh_rs::text;

#[test]
fn white_space_is_what_std_says() {
    for n in 0..=0x10ffffu32 {
        if let Some(c) = char::from_u32(n) {
            assert_eq!(text::is_whitespace(c), c.is_whitespace(), "U+{n:04X}");
        }
    }
}

#[test]
fn trimming_is_what_std_does() {
    for s in ["", " ", "a", "  a b\t", "\u{3000}x\u{a0}", "\n\r\n", "no"] {
        assert_eq!(text::trimmed(s), s.trim());
        assert_eq!(text::blank(s), s.trim().is_empty());
    }
}

#[test]
fn numbers_are_what_std_writes() {
    for n in [0u64, 7, 10, 99, 100, 65536, u64::MAX] {
        assert_eq!(text::decimal_text(n), n.to_string());
    }
    for n in [0i32, -1, 42, i32::MIN, i32::MAX] {
        assert_eq!(text::signed_text(n), n.to_string());
    }
}

#[test]
fn searching_is_what_std_does() {
    for (s, p) in [("abcabc", "bc"), ("aaa", "aa"), ("", "x"), ("x", ""), ("\u{4e2d}\u{6587}", "\u{6587}")] {
        assert_eq!(text::contains(s, p), s.contains(p), "{s:?} {p:?}");
        assert_eq!(text::starts_with(s, p), s.starts_with(p));
        assert_eq!(text::strip_prefix(s, p).as_deref(), s.strip_prefix(p));
        if !p.is_empty() {
            assert_eq!(text::replaced_all(s, p, "-"), s.replace(p, "-"));
            assert_eq!(text::replaced_first(s, p, "-"), s.replacen(p, "-", 1));
        }
    }
    assert_eq!(text::split_once("a=b=c", '='), Some(("a".to_string(), "b=c".to_string())));
    assert_eq!(text::split_once("abc", '='), None);
}

#[test]
fn lines_are_what_std_splits() {
    for s in ["", "a", "a\n", "a\r\nb\n\nc", "\n", "a\rb\n", "x\r\n"] {
        let expected: Vec<&str> = s.lines().collect();
        assert_eq!(text::lines_of(s), expected, "{s:?}");
    }
}

#[test]
fn joining_cutting_and_sorting_are_what_std_does() {
    let parts: Vec<String> = vec!["b".into(), "".into(), "a".into()];
    assert_eq!(text::joined(&parts, ", "), parts.join(", "));
    assert_eq!(text::take_chars("h\u{e9}llo", 2), "h\u{e9}");
    assert_eq!(text::take_chars("h", 2), "h");
    let mut expected = vec!["b".to_string(), "ab".into(), "a".into(), "\u{e9}".into(), "B".into()];
    let sorted = text::sort(None, expected.clone());
    expected.sort();
    assert_eq!(sorted, expected);
    assert_eq!(text::comes_before(None, "a", "ab"), true);
    assert_eq!(text::comes_before(None, "b", "ab"), false);
}

#[test]
fn json_is_read_and_printed() {
    let v = json::read("{\"b\": [1, -2, 0.5, true, null], \"a\": \"x\\n\"}").unwrap();
    assert_eq!(json::print(&v), "{\"a\":\"x\\n\",\"b\":[1,-2,0.5,true,null]}");
    assert_eq!(v.str_at("a"), Some("x\n"));
    assert_eq!(v.array_at("b").unwrap()[0].as_u64(), Some(1));
    assert_eq!(v.array_at("b").unwrap()[1].as_u64(), None);
    assert_eq!(json::print_pretty(&json::parse("[1]").unwrap()).unwrap(), "[\n  1\n]");
    assert_eq!(json::parse("{"), None);
    let error = json::read("{").unwrap_err();
    assert_eq!(error, serde_json::from_str::<serde_json::Value>("{").unwrap_err().to_string());
}

#[test]
fn entries_are_set_in_the_order_of_their_keys() {
    let mut entries = json::no_entries();
    for (key, n) in [("m", 1), ("b", 2), ("z", 3), ("b", 4), ("m", 5)] {
        json::set(&mut entries, key, Json::unsigned(n));
    }
    let shown: Vec<(&str, Option<u64>)> =
        entries.iter().map(|e| (e.0.as_str(), e.1.as_u64())).collect();
    assert_eq!(shown, vec![("b", Some(4)), ("m", Some(5)), ("z", Some(3))]);
    let again = json::settled(&entries);
    assert_eq!(again, entries);
}

#[test]
fn json_is_taken_apart_and_put_together() {
    let value: serde_json::Value =
        serde_json::from_str("{\"n\":18446744073709551615,\"s\":[{},[],\"t\"],\"f\":1.25}").unwrap();
    let json = json::from_value(value.clone());
    assert_eq!(json.u64_at("n"), Some(u64::MAX));
    assert_eq!(json::to_value(&json), value);
    assert_eq!(Json::signed(-3), json::parse("-3").unwrap());
    assert_eq!(Json::unsigned(3), json::parse("3").unwrap());
    assert_eq!(json::print(&Json::texts(&vec!["a".into(), "b".into()])), "[\"a\",\"b\"]");
}

#[test]
fn later_entry_of_an_object_counts() {
    let mut entries = json::no_entries();
    json::put(&mut entries, "k", Json::unsigned(1));
    json::put(&mut entries, "k", Json::unsigned(2));
    let object = Json::object(entries);
    assert_eq!(object.u64_at("k"), Some(2));
    assert_eq!(json::print(&object), "{\"k\":2}");
}

#[test]
fn ordered_map_keeps_the_order_of_insertion() {
    let mut map: OrderedMap<u32> = OrderedMap::new();
    map.insert("b", 1);
    map.insert("a", 2);
    map.insert("b", 3);
    assert_eq!(map.len(), 2);
    assert_eq!(map.at(0), (&"b".to_string(), &3));
    assert_eq!(map.get("a"), Some(&2));
    assert!(map.contains_key("b"));
    *map.value_at_mut(1) = 7;
    assert_eq!(map.remove("b"), Some(3));
    assert_eq!(map.remove("b"), None);
    assert_eq!(map.at(0), (&"a".to_string(), &7));
}

#[test]
fn paths_are_joined_as_std_does() {
    for (base, path) in [("/tmp", "x"), ("/tmp/", "x"), ("", "x"), ("a/b", "c/d")] {
        let expected = std::path::Path::new(base).join(path);
        assert_eq!(join_path(base, path), expected.to_str().unwrap());
    }
    assert_eq!(resolve_path(&Some("/w".into()), "/abs"), "/abs");
    assert_eq!(resolve_path(&Some("/w".into()), "rel"), "/w/rel");
    assert_eq!(resolve_path(&None, "rel"), "rel");
}
