use oxidoc::doc_types::{
    Abi, Constness, DocInnerData, DocType, Function, Generics, Module, NewDocTemp_, Struct,
    Unsafety, Visibility,
};
use oxidoc::document::{Attributes, CrateInfo, FnKind, ModPath};
use oxidoc::store::{get_all_matching_paths, Docset, Store, StoreLocation};
use oxidoc::version::is_version_hashable;

fn get_crate_info(name: &str, version: &str) -> CrateInfo {
    CrateInfo { name: name.to_string(), version: version.to_string(), lib_path: None }
}

fn doc(krate: &CrateInfo, path: &str, inner_data: DocInnerData) -> NewDocTemp_ {
    let mod_path = ModPath::from_string(path.to_string());
    let name = path.rsplit("::").next().unwrap().to_string();
    NewDocTemp_ {
        name,
        attrs: Attributes::new(),
        crate_info: CrateInfo {
            name: krate.name.clone(),
            version: krate.version.clone(),
            lib_path: krate.lib_path.clone(),
        },
        mod_path,
        inner_data,
        visibility: Some(Visibility::Public),
        links: Vec::new(),
    }
}

fn module(is_crate: bool) -> DocInnerData {
    DocInnerData::ModuleDoc(Module { is_crate })
}

fn structure() -> DocInnerData {
    DocInnerData::StructDoc(Struct { fields: Vec::new() })
}

fn function(header: &str) -> DocInnerData {
    DocInnerData::FnDoc(Function {
        header: header.to_string(),
        generics: Generics {},
        unsafety: Unsafety::Normal,
        constness: Constness::NotConst,
        abi: Abi::Rust,
        kind: FnKind::ItemFn,
    })
}

/// Files the given documents of a crate version in the store, as generating documentation
/// for that crate's source would.
fn add_docs(store: &mut Store, krate_name: &str, version: &str, docs: Vec<(&str, DocInnerData)>) {
    let info = get_crate_info(krate_name, version);
    let documents: Vec<NewDocTemp_> = docs.into_iter().map(|(p, d)| doc(&info, p, d)).collect();
    let mut docset = Docset::new();
    docset.add_docs(&documents);
    store.add_docset(info, docset);
}

fn store_from_docs(docs: Vec<(&str, DocInnerData)>) -> Store {
    let mut store = Store::new();
    add_docs(&mut store, "crate", "1.0.0", docs);
    store
}

fn assert_search_query(store: &Store, query: &str, expected_paths: Vec<&str>) {
    let results = store.lookup_name(query);
    let mut found_paths: Vec<String> = results.into_iter().map(|r| r.mod_path.to_string()).collect();
    let mut expected_paths: Vec<String> = expected_paths.iter().map(|p| p.to_string()).collect();

    found_paths.sort();
    expected_paths.sort();

    assert!(
        found_paths == expected_paths,
        "\nSearch results for {}:\nFound\n========\n{}\n\nExpected\n========\n{}\n\n",
        query,
        found_paths.join("\n"),
        expected_paths.join("\n")
    );
}

#[test]
fn test_search_ignores_case() {
    // pub struct Test;
    let store = store_from_docs(vec![("crate", module(true)), ("crate::Test", structure())]);
    assert_search_query(&store, "test", vec!["crate::Test"]);
}

#[test]
fn test_nested_search() {
    // pub mod a { pub mod b { pub fn test() {} } }
    let store = store_from_docs(vec![
        ("crate", module(true)),
        ("crate::a", module(false)),
        ("crate::a::b", module(false)),
        ("crate::a::b::test", function("fn test()")),
    ]);
    assert_search_query(&store, "a", vec!["crate::a", "crate::a::b", "crate::a::b::test"]);
}

#[test]
fn test_same_segment_name() {
    // pub mod nyanko { pub struct Nyanko; }
    let store = store_from_docs(vec![
        ("crate", module(true)),
        ("crate::nyanko", module(false)),
        ("crate::nyanko::Nyanko", structure()),
    ]);
    assert_search_query(&store, "nyanko::Nyanko", vec!["crate::nyanko::Nyanko"]);
}

#[test]
fn test_search_for_removed_item() {
    let mut store = Store::new();
    // pub mod stuff { pub fn depreciated() {} }
    add_docs(&mut store, "crate", "0.0.1", vec![
        ("crate", module(true)),
        ("crate::stuff", module(false)),
        ("crate::stuff::depreciated", function("fn depreciated()")),
    ]);
    // pub mod stuff { }
    add_docs(&mut store, "crate", "0.1.0", vec![("crate", module(true)), ("crate::stuff", module(false))]);
    assert_search_query(&store, "stuff::depreciated", vec!["crate::stuff::depreciated"]);
}

#[test]
fn test_store_loc_to_path() {
    let loc = StoreLocation {
        name: "Test".to_string(),
        crate_info: CrateInfo { name: "test".to_string(), version: "0.1.0".to_string(), lib_path: None },
        mod_path: ModPath::from_string("crate::thing".to_string()),
        doc_type: DocType::Struct,
    };

    let path = loc.to_filepath("/home/user");
    assert!(path.contains("test-0.1.0"), "{}", path);
    assert!(path.contains("crate"), "{}", path);
    assert!(path.contains("thing"), "{}", path);
    assert!(path.contains("sdesc-Test.odoc"), "{}", path);
    assert_eq!(path, "/home/user/.cargo/registry/doc/test-0.1.0/crate/thing/sdesc-Test.odoc");
}

#[test]
fn lookup_prefers_the_newest_version_holding_the_item() {
    let mut store = Store::new();
    add_docs(&mut store, "crate", "0.1.0", vec![("crate", module(true)), ("crate::f", function("fn f()"))]);
    add_docs(&mut store, "crate", "0.2.0", vec![("crate", module(true)), ("crate::f", function("fn f(x: u8)"))]);
    let results = store.lookup_name("f");
    assert_eq!(results.len(), 1);
    assert_eq!(results[0].crate_info.version, "0.2.0");
}

#[test]
fn adding_a_docset_again_replaces_it() {
    let mut store = Store::new();
    add_docs(&mut store, "crate", "0.1.0", vec![("crate", module(true)), ("crate::old", function("fn old()"))]);
    add_docs(&mut store, "crate", "0.1.0", vec![("crate", module(true)), ("crate::new", function("fn new()"))]);
    // the keyword index still knows `old`, but no docset holds it any more
    assert_search_query(&store, "old", vec![]);
    assert_search_query(&store, "new", vec!["crate::new"]);
    let all: Vec<String> = store.all_locations().iter().map(|l| l.mod_path.to_string()).collect();
    assert_eq!(all.len(), 2);
}

#[test]
fn results_come_nearest_first() {
    let store = store_from_docs(vec![
        ("crate", module(true)),
        ("crate::vec", module(false)),
        ("crate::vec::Vec", structure()),
        ("crate::vec::vec_deque", module(false)),
    ]);
    let results: Vec<String> = store.lookup_name("vec").into_iter().map(|r| r.mod_path.to_string()).collect();
    assert_eq!(results, vec!["crate::vec", "crate::vec::Vec", "crate::vec::vec_deque"]);
}

#[test]
fn matching_paths_intersect_known_keywords() {
    let expansions = vec![
        ("a".to_string(), vec!["crate::a".to_string(), "crate::a::b".to_string()]),
        ("b".to_string(), vec!["crate::a::b".to_string()]),
    ];
    assert_eq!(get_all_matching_paths("a::b".to_string(), &expansions), vec!["crate::a::b".to_string()]);
    assert_eq!(get_all_matching_paths("A".to_string(), &expansions), vec!["crate::a".to_string(), "crate::a::b".to_string()]);
    // unknown keywords narrow nothing, but the text must still occur
    assert_eq!(get_all_matching_paths("zzz".to_string(), &expansions), Vec::<String>::new());
}

#[test]
fn store_location_text() {
    let loc = StoreLocation::new(
        "Vec".to_string(),
        get_crate_info("collections", "1.0.0"),
        ModPath::from_string("crate::vec::Vec".to_string()),
        DocType::Struct,
    );
    assert_eq!(loc.to_string(), "crate::vec::Vec (collections 1.0.0)");
}

#[test]
fn version_checks() {
    assert!(is_version_hashable("1.2.3"));
    assert!(is_version_hashable("1.2"));
    assert!(!is_version_hashable("1.x.3"));
    assert!(is_version_hashable("281474976710656.0.0"));
    assert!(!is_version_hashable("18446744073709551615.255.256"));
    let store = store_from_docs(vec![("crate", module(true))]);
    assert!(store.is_well_versioned());
    let mut bad = Store::new();
    add_docs(&mut bad, "crate", "a.b.c", vec![("crate", module(true))]);
    assert!(!bad.is_well_versioned());
}
