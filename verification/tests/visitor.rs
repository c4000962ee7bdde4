use oxidoc::doc_types::{Abi, Constness, DocInnerData, Unsafety, Visibility};
use oxidoc::document::{Attributes, CrateInfo};
use oxidoc::visitor::{OxidocVisitor, SourceItem, SourceItemKind, SourceMethod};

fn item(name: &str, vis: Visibility, kind: SourceItemKind) -> SourceItem {
    SourceItem { name: name.to_string(), vis, doc_hidden: false, attrs: Attributes::new(), kind }
}

fn public_mod(name: &str, items: Vec<SourceItem>) -> SourceItem {
    item(name, Visibility::Public, SourceItemKind::Mod(items))
}

fn unit_struct(name: &str) -> SourceItem {
    item(name, Visibility::Public, SourceItemKind::Struct(vec![]))
}

fn method(name: &str) -> SourceMethod {
    SourceMethod {
        name: name.to_string(),
        attrs: Attributes::new(),
        vis: Visibility::Public,
        header: "()".to_string(),
        unsafety: Unsafety::Normal,
        constness: Constness::NotConst,
        abi: Abi::Rust,
    }
}

fn impl_of(ty: &str, methods: Vec<SourceMethod>) -> SourceItem {
    item("", Visibility::Inherited, SourceItemKind::Impl { self_ty: ty.to_string(), methods })
}

fn source_to_paths(items: Vec<SourceItem>) -> Vec<String> {
    let info = CrateInfo { name: "crate".to_string(), version: "0.1.0".to_string(), lib_path: None };
    let mut v = OxidocVisitor::new(info);
    v.visit_crate(&Attributes::new(), &items);
    let mut paths: Vec<String> = v.documents.iter().map(|d| d.mod_path.to_string()).collect();
    paths.sort();
    paths
}

fn assert_paths_found(found: Vec<String>, mut paths: Vec<&str>) {
    paths.sort();
    assert_eq!(found, paths);
}

#[test]
fn test_no_modules() {
    assert_paths_found(source_to_paths(vec![]), vec!["crate"]);
}

#[test]
fn test_one_module() {
    assert_paths_found(source_to_paths(vec![public_mod("test", vec![])]), vec!["crate", "crate::test"]);
}

#[test]
fn test_one_struct() {
    let docs = source_to_paths(vec![public_mod("test", vec![unit_struct("MyStruct")])]);
    assert_paths_found(docs, vec!["crate", "crate::test", "crate::test::MyStruct"]);
}

#[test]
fn test_one_method() {
    let docs = source_to_paths(vec![public_mod(
        "test",
        vec![unit_struct("MyStruct"), impl_of("MyStruct", vec![method("method")])],
    )]);
    assert_paths_found(
        docs,
        vec!["crate", "crate::test", "crate::test::MyStruct", "crate::test::MyStruct::method"],
    );
}

#[test]
fn test_paths_test_nested_modules() {
    let docs = source_to_paths(vec![public_mod("a", vec![public_mod("b", vec![])])]);
    assert_paths_found(docs, vec!["crate", "crate::a", "crate::a::b"]);
}

#[test]
fn visitor_test_nested_modules() {
    let docs = source_to_paths(vec![item(
        "a",
        Visibility::Inherited,
        SourceItemKind::Mod(vec![item("b", Visibility::Inherited, SourceItemKind::Mod(vec![]))]),
    )]);
    assert_paths_found(docs, vec!["crate"]);
}

#[test]
fn test_private_module() {
    let docs = source_to_paths(vec![item("a", Visibility::Inherited, SourceItemKind::Mod(vec![]))]);
    assert_paths_found(docs, vec!["crate"]);
}

#[test]
fn test_separate_impl() {
    let docs = source_to_paths(vec![
        unit_struct("Test"),
        impl_of("Test", vec![method("foo")]),
        impl_of("Test", vec![method("bar")]),
    ]);
    assert_paths_found(docs, vec!["crate", "crate::Test", "crate::Test::foo", "crate::Test::bar"]);
}

#[test]
fn hidden_items_are_not_recorded() {
    let mut hidden = unit_struct("Hidden");
    hidden.doc_hidden = true;
    let private_fn = item(
        "private",
        Visibility::Inherited,
        SourceItemKind::Fn {
            header: "()".to_string(),
            unsafety: Unsafety::Normal,
            constness: Constness::NotConst,
            abi: Abi::Rust,
        },
    );
    let docs = source_to_paths(vec![hidden, private_fn, unit_struct("Shown")]);
    assert_paths_found(docs, vec!["crate", "crate::Shown"]);
}

#[test]
fn function_records_keep_signature_and_comments() {
    let mut f = item(
        "run",
        Visibility::Public,
        SourceItemKind::Fn {
            header: "(x: u32) -> bool".to_string(),
            unsafety: Unsafety::Unsafe,
            constness: Constness::NotConst,
            abi: Abi::Rust,
        },
    );
    f.attrs = Attributes { doc_strings: vec!["/// Runs it.".to_string()] };
    let info = CrateInfo { name: "crate".to_string(), version: "0.1.0".to_string(), lib_path: None };
    let mut v = OxidocVisitor::new(info);
    v.visit_item(&f);
    assert_eq!(v.documents.len(), 1);
    let d = &v.documents[0];
    assert_eq!(d.name, "run");
    assert_eq!(d.attrs.doc_strings, vec!["/// Runs it.".to_string()]);
    assert_eq!(d.visibility, Some(Visibility::Public));
    match &d.inner_data {
        DocInnerData::FnDoc(func) => {
            assert_eq!(func.header, "(x: u32) -> bool");
            assert_eq!(func.unsafety, Unsafety::Unsafe);
        },
        _ => panic!("a function record was expected"),
    }
    assert!(d.links.is_empty());
}

#[test]
fn enum_records_list_their_variants() {
    let e = item("Color", Visibility::Public, SourceItemKind::Enum(vec!["Red".to_string(), "Green".to_string()]));
    let info = CrateInfo { name: "crate".to_string(), version: "0.1.0".to_string(), lib_path: None };
    let mut v = OxidocVisitor::new(info);
    v.visit_item(&e);
    let d = &v.documents[0];
    assert_eq!(d.links.len(), 1);
    let names: Vec<String> = d.links[0].1.iter().map(|l| l.name.clone()).collect();
    assert_eq!(names, vec!["Red".to_string(), "Green".to_string()]);
}
