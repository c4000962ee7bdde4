use oxidoc::document::{Attributes, CrateInfo, ModPath, PathSegment};
use oxidoc::paths::{crate_doc_path, doc_registry_path, path_join, src_registry_path, store_file_path};
use oxidoc::text::{join_strs, split_str};

fn seg(s: &str) -> PathSegment {
    PathSegment { identifier: s.to_string() }
}

fn texts(p: &ModPath) -> Vec<String> {
    p.segments().iter().map(|s| s.identifier.clone()).collect()
}

#[test]
fn mod_path_push_and_pop() {
    let mut p = ModPath::new();
    p.push(seg("crate"));
    p.push_string("a".to_string());
    assert_eq!(p.to_string(), "crate::a");
    p.push(seg("b"));
    p.pop();
    assert_eq!(p.to_string(), "crate::a");
    p.pop();
    p.pop();
    p.pop();
    assert_eq!(p.to_string(), "");
    assert!(p.name().is_none());
}

#[test]
fn mod_path_parts() {
    let p = ModPath::from_string("crate::a::b".to_string());
    assert_eq!(texts(&p), vec!["crate", "a", "b"]);
    assert_eq!(p.head().unwrap().identifier, "crate");
    assert_eq!(p.name().unwrap().identifier, "b");
    assert_eq!(p.parent().unwrap().to_string(), "crate::a");
    assert_eq!(p.tail().to_string(), "a::b");
    assert!(ModPath::from_string("crate".to_string()).parent().is_none());
    let q = ModPath::from_string("c::d".to_string());
    assert_eq!(ModPath::join(&p, &q).to_string(), "crate::a::b::c::d");
    assert_eq!(p.to_filepath(), "crate/a/b/");
}

#[test]
fn mod_path_text_round_trip() {
    for s in ["crate", "crate::a::b", "", "::", "a:::b", "x::"] {
        assert_eq!(ModPath::from_string(s.to_string()).to_string(), s);
    }
}

#[test]
fn split_and_join() {
    assert_eq!(split_str("a::b::c", "::"), vec!["a", "b", "c"]);
    assert_eq!(split_str("", "::"), vec![""]);
    assert_eq!(split_str("::a::", "::"), vec!["", "a", ""]);
    assert_eq!(split_str("1.2.3", "."), vec!["1", "2", "3"]);
    let parts = vec!["x".to_string(), "".to_string(), "y".to_string()];
    assert_eq!(join_strs(&parts, "::"), "x::::y");
    for s in ["a::b", "::", "a:::b", "abc"] {
        assert_eq!(join_strs(&split_str(s, "::"), "::"), s);
    }
}

#[test]
fn crate_info_text() {
    let info = CrateInfo { name: "serde".to_string(), version: "1.0.0".to_string(), lib_path: None };
    assert_eq!(info.to_path_prefix(), "serde-1.0.0");
    assert_eq!(info.to_string(), "serde-1.0.0");
}

#[test]
fn attributes_doc_value() {
    let none = Attributes::new();
    assert!(none.doc_value().is_none());
    let some = Attributes { doc_strings: vec!["First line".to_string(), "second".to_string()] };
    assert_eq!(some.doc_value(), Some("First line"));
}

#[test]
fn registry_paths() {
    assert_eq!(path_join("/a", "b"), "/a/b");
    assert_eq!(path_join("/a/", "b"), "/a/b");
    assert_eq!(path_join("/a", "/b"), "/b");
    assert_eq!(doc_registry_path("/home/u"), "/home/u/.cargo/registry/doc");
    assert_eq!(src_registry_path("/home/u"), "/home/u/.cargo/registry/src");
    assert_eq!(store_file_path("/home/u"), "/home/u/.cargo/registry/doc/store");
    let info = CrateInfo { name: "serde".to_string(), version: "1.0.0".to_string(), lib_path: None };
    assert_eq!(crate_doc_path("/home/u", &info), "/home/u/.cargo/registry/doc/serde-1.0.0");
}
