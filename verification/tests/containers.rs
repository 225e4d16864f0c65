use aube::fs_path::FsPath;
use aube::str_map::{StrMap, StrSet};
use aube::text;

#[test]
fn map_walks_in_key_order() {
    let mut m: StrMap<u32> = StrMap::new();
    for (k, v) in [("b", 2), ("a", 1), ("\u{e9}", 4), ("c", 3), ("a", 10)] {
        m.insert(k.to_string(), v);
    }
    let keys: Vec<&str> = (0..m.len()).map(|i| m.key_at(i)).collect();
    assert_eq!(keys, vec!["a", "b", "c", "\u{e9}"]);
    assert_eq!(m.get("a"), Some(&10));
    assert_eq!(m.remove("b"), Some(2));
    assert_eq!(m.remove("b"), None);
    assert_eq!(m.len(), 3);
    assert!(!m.contains_key("b"));
    let mut s = StrSet::new();
    assert!(s.insert("x".to_string()));
    assert!(!s.insert("x".to_string()));
    assert_eq!(s.len(), 1);
}

#[test]
fn paths_are_their_components() {
    assert_eq!(FsPath::parse("/a//b/./c/").to_text(), "/a/b/c");
    assert_eq!(FsPath::parse("./a/.").to_text(), "./a");
    assert_eq!(FsPath::parse("/").to_text(), "/");
    assert_eq!(FsPath::parse("").to_text(), "");
    assert_eq!(FsPath::parse("/a/b").parent().unwrap().to_text(), "/a");
    assert!(FsPath::parse("/").parent().is_none());
    assert!(FsPath::parse("").parent().is_none());
    assert_eq!(FsPath::parse("a").parent().unwrap().to_text(), "");
    assert_eq!(FsPath::parse("/a").join("b/c").to_text(), "/a/b/c");
    assert_eq!(FsPath::parse("/a").join("/b").to_text(), "/b");
    assert_eq!(FsPath::parse("").join("./b").to_text(), "./b");
    assert_eq!(FsPath::parse("/a/../b/./c").normalize_lexical().to_text(), "/b/c");
    assert_eq!(FsPath::parse("../../a/..").normalize_lexical().to_text(), "../..");
    assert_eq!(FsPath::parse("/..").normalize_lexical().to_text(), "/");
    assert_eq!(FsPath::parse("/a/b").file_name(), Some("b"));
    assert_eq!(FsPath::parse("/a/..").file_name(), None);
    assert!(FsPath::parse("/a/b").starts_with(&FsPath::parse("/a")));
    assert!(!FsPath::parse("/ab").starts_with(&FsPath::parse("/a")));
    assert!(FsPath::parse("/a").is_absolute());
    assert!(!FsPath::parse("a").is_absolute());
}

#[test]
fn writing_and_reading_a_path_gives_it_back() {
    for t in ["/", "/x", "/x/y", "a/b", "./a", ".", "", "../x"] {
        let p = FsPath::parse(t);
        assert_eq!(FsPath::parse(&p.to_text()), p);
    }
}

#[test]
fn text_helpers() {
    assert_eq!(text::find_text("abcabc", "ca"), Some(2));
    assert!(text::contains_text("abc", ""));
    assert!(!text::contains_text("abc", "abcd"));
    assert_eq!(text::text_until("a@1(b)", '('), "a@1");
    assert_eq!(text::rsplit_once("@s/p@1", '@'), Some(("@s/p".to_string(), "1".to_string())));
    assert_eq!(text::rsplit_once("none", '@'), None);
    assert_eq!(text::replace_char("a\\b", '\\', '/'), "a/b");
    assert_eq!(text::replace_first("x.y.x.", "x.", "z."), "z.y.x.");
    assert_eq!(text::decimal(0), "0");
    assert_eq!(text::decimal(1205), "1205");
    assert_eq!(text::join(&vec!["a".to_string(), "b".to_string()], ", "), "a, b");
}
