use oxidoc::doc_types::{
    Abi, Constness, DocInnerData, DocLink, DocType, Function, Generics, NewDocTemp_, TraitItemKind,
    Unsafety, Visibility,
};
use oxidoc::document::{Attributes, CrateInfo, FnKind, ModPath};
use oxidoc::markup::{Format, Markup, MarkupDoc};
use oxidoc::related::{group_members, member_link, struct_field_links, MemberKind};

fn function_doc() -> NewDocTemp_ {
    NewDocTemp_ {
        name: "f".to_string(),
        attrs: Attributes { doc_strings: vec!["Does things.".to_string()] },
        crate_info: CrateInfo { name: "krate".to_string(), version: "0.1.0".to_string(), lib_path: None },
        mod_path: ModPath::from_string("krate::f".to_string()),
        inner_data: DocInnerData::FnDoc(Function {
            header: "fn f(x: u8) -> u8".to_string(),
            generics: Generics {},
            unsafety: Unsafety::Normal,
            constness: Constness::NotConst,
            abi: Abi::Rust,
            kind: FnKind::ItemFn,
        }),
        visibility: Some(Visibility::Public),
        links: Vec::new(),
    }
}

#[test]
fn markup_pieces() {
    assert_eq!(Markup::Header("Title".to_string()).to_string(), "\u{1b}[1m==== Title\u{1b}[0m");
    assert_eq!(Markup::Section("Part".to_string()).to_string(), "\u{1b}[1m== Part\u{1b}[0m");
    assert_eq!(Markup::Block("text".to_string()).to_string(), "text");
    assert_eq!(Markup::Rule(3).to_string(), "---");
    assert_eq!(Markup::Rule(0).to_string(), "");
    assert_eq!(Markup::LineBreak.to_string(), "\n");
    let doc = MarkupDoc::new(vec![Markup::Block("a".to_string()), Markup::Rule(2)]);
    assert_eq!(doc.to_string(), "a\n--\n");
}

#[test]
fn module_path_format() {
    let p = ModPath::from_string("krate::a".to_string());
    assert_eq!(p.format().to_string(), "\u{1b}[1m==== krate::a\u{1b}[0m\n");
}

#[test]
fn function_record_format() {
    let doc = function_doc();
    let formatted = doc.format();
    assert_eq!(formatted.parts.len(), 9);
    let text = formatted.to_string();
    assert!(text.starts_with("\u{1b}[1m==== krate::f\u{1b}[0m\n"), "{}", text);
    assert!(text.contains("fn f(x: u8) -> u8"), "{}", text);
    assert!(text.contains("Does things."), "{}", text);
    assert!(text.contains("----------"), "{}", text);
    assert_eq!(doc.get_type(), DocType::Function);
    assert_eq!(doc.to_store_location().name, "f");
}

#[test]
fn doc_type_names() {
    assert_eq!(DocType::Struct.get_file_prefix(), "sdesc-");
    assert_eq!(DocType::Function.get_file_prefix(), "");
    assert_eq!(DocType::Module.get_file_prefix(), "mdesc-");
    assert_eq!(DocType::Struct.to_string(), "Structs");
    assert_eq!(DocType::StructField.to_string(), "Struct Fields");
    assert_eq!(Visibility::Public.to_string(), "pub");
    assert_eq!(Visibility::Private.to_string(), "");
    assert_eq!(TraitItemKind::Macro("m".to_string()).get_category_string(), "macro");
    assert_eq!(TraitItemKind::Type(None).get_category_string(), "type");
}

#[test]
fn subitems_list_related_items() {
    let mut doc = function_doc();
    doc.inner_data = DocInnerData::ModuleDoc(oxidoc::doc_types::Module { is_crate: false });
    doc.links = vec![(
        DocType::Function,
        vec![DocLink { name: "g".to_string(), path: ModPath::from_string("krate::g".to_string()) }],
    )];
    let listing = doc.subitems();
    assert!(listing.contains("Functions"), "{}", listing);
    assert!(listing.contains("g"), "{}", listing);
}

#[test]
fn members_are_grouped_by_kind() {
    let path = ModPath::from_string("krate::T".to_string());
    let members = vec![
        (MemberKind::Method, member_link(&path, "run")),
        (MemberKind::Const, member_link(&path, "MAX")),
        (MemberKind::Method, member_link(&path, "stop")),
        (MemberKind::Type, member_link(&path, "Item")),
    ];
    let groups = group_members(&members, DocType::TraitItemMethod);
    assert_eq!(groups.len(), 4);
    assert_eq!(groups[0].0, DocType::AssocConst);
    assert_eq!(groups[1].0, DocType::TraitItemMethod);
    let methods: Vec<String> = groups[1].1.iter().map(|l| l.name.clone()).collect();
    assert_eq!(methods, vec!["run", "stop"]);
    assert_eq!(groups[1].1[0].path.to_string(), "krate::T::run");
    assert_eq!(groups[2].1.len(), 1);
    assert!(groups[3].1.is_empty());
    let fields = struct_field_links(&vec![Some("x".to_string()), None, Some("y".to_string())], &path);
    assert_eq!(fields[0].0, DocType::StructField);
    let names: Vec<String> = fields[0].1.iter().map(|l| l.path.to_string()).collect();
    assert_eq!(names, vec!["krate::T::x", "krate::T::y"]);
}
