use mitm_cache::header::checksum_headers;
use mitm_cache::pattern::{rule_applies, Pattern};
use mitm_cache::string_map::StringMap;
use mitm_cache::text::{ends_with, position, same_text, split_segments, Position};

#[test]
fn strings_are_ordered_as_std_orders_them() {
    let words = ["", "a", "aa", "ab", "b", "\u{7f}", "\u{80}", "\u{fff}", "\u{ffff}", "\u{10000}"];
    for a in words {
        for b in words {
            let expected = if a < b {
                Position::Before
            } else if a == b {
                Position::Same
            } else {
                Position::After
            };
            assert_eq!(position(a, b), expected);
            assert_eq!(same_text(a, b), a == b);
        }
    }
}

#[test]
fn suffixes_are_found() {
    assert!(ends_with("x-checksum-md5", "-md5"));
    assert!(ends_with("abc", ""));
    assert!(ends_with("\u{e9}t\u{e9}", "t\u{e9}"));
    assert!(!ends_with("md5", "-md5"));
    assert!(!ends_with("-md5x", "-md5"));
}

#[test]
fn segments_are_split_off() {
    assert_eq!(split_segments("/a//b/c", '/'), ["a", "b", "c"]);
    assert_eq!(split_segments("a", '/'), ["a"]);
    assert_eq!(split_segments("/\u{e9}/", '/'), ["\u{e9}"]);
    assert!(split_segments("", '/').is_empty());
    assert!(split_segments("///", '/').is_empty());
}

#[test]
fn map_holds_what_was_written() {
    let mut map: StringMap<u32> = StringMap::new();
    for (i, key) in ["m", "c", "x", "a", "z", "c"].iter().enumerate() {
        map.insert(key.to_string(), i as u32);
    }
    assert_eq!(map.get("c"), Some(&5));
    assert_eq!(map.get("b"), None);
    assert_eq!(map.take("m"), Some(0));
    assert_eq!(map.take("m"), None);
    let keys: Vec<&str> = map.entries().iter().map(|e| e.0.as_str()).collect();
    assert_eq!(keys, ["a", "c", "x", "z"]);
}

#[test]
fn checksum_headers_are_picked_out() {
    let names = [
        "content-md5",
        "content-type",
        "x-checksum",
        "x-checksum-sha1",
        "x-goog-hash",
        "x-sha256",
        "sha256",
        "x-amz-meta-sha512",
        "x-checksums",
        "x-sha384",
        "md5",
    ];
    let names: Vec<String> = names.iter().map(|n| n.to_string()).collect();
    let picked = checksum_headers(&names);
    let expected =
        ["content-md5", "x-checksum", "x-checksum-sha1", "x-sha256", "x-amz-meta-sha512"];
    assert_eq!(picked, expected);
}

#[test]
fn patterns_match_anywhere() {
    let pattern = Pattern::new("exam.le\\.(com|org)").unwrap();
    assert!(pattern.is_match("https://example.com/a"));
    assert!(pattern.clone().is_match("http://exam-le.org"));
    assert!(!pattern.is_match("https://example.net/"));
    let anchored = Pattern::new("^https://h/$").unwrap();
    assert!(anchored.is_match("https://h/"));
    assert!(!anchored.is_match("https://h/a"));
}

#[test]
fn broken_patterns_are_refused() {
    let message = Pattern::new("a(").unwrap_err();
    assert_eq!(message, regex::Regex::new("a(").unwrap_err().to_string());
}

#[test]
fn missing_rules_apply_to_nothing() {
    assert!(!rule_applies(&None, "anything"));
    assert!(rule_applies(&Some(Pattern::new("").unwrap()), "anything"));
    assert!(!rule_applies(&Some(Pattern::new("x").unwrap()), "anything"));
}
