//! The documentation records kept for each item, and how they are classified and filed.

use vstd::prelude::*;

use crate::document::{Attributes, CrateInfo, FnKind, ModPath, Ty};
use crate::text::join_seq;

verus! {

/// The kinds of documented items, which decide a document's file name and its listing heading.
#[derive(PartialEq, Eq, Structural, Clone, Copy, Debug)]
pub enum DocType {
    Function,
    Module,
    Enum,
    Variant,
    Struct,
    StructField,
    Const,
    Trait,
    AssocConst,
    TraitItemMethod,
    TraitItemConst,
    TraitItemType,
    TraitItemMacro,
    AssocType,
    Macro,
}

/// The file-name prefix of a document of type `t`.
pub open spec fn file_prefix(t: DocType) -> Seq<char> {
    match t {
        DocType::Function => ""@,
        DocType::Module => "mdesc-"@,
        DocType::Enum => "edesc-"@,
        DocType::Variant => "vdesc-"@,
        DocType::Struct => "sdesc-"@,
        DocType::StructField => "sfdesc-"@,
        DocType::Const => "cdesc-"@,
        DocType::Trait => "tdesc-"@,
        DocType::AssocConst => "acdesc-"@,
        DocType::TraitItemConst => "tcdesc-"@,
        DocType::TraitItemMethod => "tmcdesc-"@,
        DocType::TraitItemType => "ttcdesc-"@,
        DocType::TraitItemMacro => "tmdesc-"@,
        DocType::AssocType => "atdesc-"@,
        DocType::Macro => "macdesc-"@,
    }
}

/// The heading under which items of type `t` are listed.
pub open spec fn type_heading(t: DocType) -> Seq<char> {
    match t {
        DocType::Function => "Functions"@,
        DocType::Module => "Modules"@,
        DocType::Enum => "Enums"@,
        DocType::Variant => "Variants"@,
        DocType::Struct => "Structs"@,
        DocType::StructField => "Struct Fields"@,
        DocType::Const => "Constants"@,
        DocType::Trait => "Traits"@,
        DocType::AssocConst => "Associated Constants"@,
        DocType::TraitItemConst => "Trait Constants"@,
        DocType::TraitItemMethod => "Trait Methods"@,
        DocType::TraitItemType => "Trait Types"@,
        DocType::TraitItemMacro => "Trait Macros"@,
        DocType::AssocType => "Associated Types"@,
        DocType::Macro => "Macros"@,
    }
}

impl DocType {
    /// The prefix of the file name under which a document of this type is stored.
    pub fn get_file_prefix(&self) -> (r: &'static str)
        ensures
            r@ == file_prefix(*self),
    {
        match *self {
            DocType::Function => "",
            DocType::Module => "mdesc-",
            DocType::Enum => "edesc-",
            DocType::Variant => "vdesc-",
            DocType::Struct => "sdesc-",
            DocType::StructField => "sfdesc-",
            DocType::Const => "cdesc-",
            DocType::Trait => "tdesc-",
            DocType::AssocConst => "acdesc-",
            DocType::TraitItemConst => "tcdesc-",
            DocType::TraitItemMethod => "tmcdesc-",
            DocType::TraitItemType => "ttcdesc-",
            DocType::TraitItemMacro => "tmdesc-",
            DocType::AssocType => "atdesc-",
            DocType::Macro => "macdesc-",
        }
    }

    /// The heading under which items of this type are listed, as it is displayed.
    pub fn to_string(&self) -> (r: String)
        ensures
            r@ == type_heading(*self),
    {
        let s = match *self {
            DocType::Function => "Functions",
            DocType::Module => "Modules",
            DocType::Enum => "Enums",
            DocType::Variant => "Variants",
            DocType::Struct => "Structs",
            DocType::StructField => "Struct Fields",
            DocType::Const => "Constants",
            DocType::Trait => "Traits",
            DocType::AssocConst => "Associated Constants",
            DocType::TraitItemConst => "Trait Constants",
            DocType::TraitItemMethod => "Trait Methods",
            DocType::TraitItemType => "Trait Types",
            DocType::TraitItemMacro => "Trait Macros",
            DocType::AssocType => "Associated Types",
            DocType::Macro => "Macros",
        };
        s.to_owned()
    }
}

/// Whether an item is `unsafe`.
#[derive(PartialEq, Eq, Structural, Clone, Copy, Debug)]
pub enum Unsafety {
    Unsafe,
    Normal,
}

/// Whether a function is `const`.
#[derive(PartialEq, Eq, Structural, Clone, Copy, Debug)]
pub enum Constness {
    Const,
    NotConst,
}

/// An item's visibility.
#[derive(PartialEq, Eq, Structural, Clone, Copy, Debug)]
pub enum Visibility {
    Public,
    Private,
    Inherited,
}

/// The keyword shown for a visibility: `pub` for public items, nothing otherwise.
pub open spec fn visibility_text(v: Visibility) -> Seq<char> {
    match v {
        Visibility::Public => "pub"@,
        _ => ""@,
    }
}

impl Visibility {
    /// The keyword shown for this visibility.
    pub fn to_string(&self) -> (r: String)
        ensures
            r@ == visibility_text(*self),
    {
        match *self {
            Visibility::Public => "pub".to_owned(),
            _ => "".to_owned(),
        }
    }
}

/// A function's calling convention.
#[derive(PartialEq, Eq, Structural, Clone, Copy, Debug)]
pub enum Abi {
    Cdecl,
    Stdcall,
    Fastcall,
    Vectorcall,
    Aapcs,
    Win64,
    SysV64,
    PtxKernel,
    Msp430Interrupt,
    Rust,
    C,
    System,
    RustIntrinsic,
    RustCall,
    PlatformIntrinsic,
    Unadjusted,
}

/// Generic parameters (none are recorded yet).
#[derive(PartialEq, Eq, Structural, Clone, Copy, Debug)]
pub struct Generics {}

/// The signature of a trait method.
#[derive(Debug)]
pub struct MethodSig {
    pub unsafety: Unsafety,
    pub constness: Constness,
    pub abi: Abi,
    pub header: String,
}

/// What a trait item is.
#[derive(Debug)]
pub enum TraitItemKind {
    Const(String, Option<String>),
    Method(MethodSig),
    Type(Option<String>),
    Macro(String),
}

/// The keyword that introduces a trait item of the given kind.
pub open spec fn category_text(k: TraitItemKind) -> Seq<char> {
    match k {
        TraitItemKind::Const(..) => "const"@,
        TraitItemKind::Method(..) => "fn"@,
        TraitItemKind::Type(..) => "type"@,
        TraitItemKind::Macro(..) => "macro"@,
    }
}

impl TraitItemKind {
    /// The keyword that introduces this kind of trait item.
    pub fn get_category_string(&self) -> (r: &'static str)
        ensures
            r@ == category_text(*self),
    {
        match *self {
            TraitItemKind::Const(..) => "const",
            TraitItemKind::Method(..) => "fn",
            TraitItemKind::Type(..) => "type",
            TraitItemKind::Macro(..) => "macro",
        }
    }
}

/// A trait item.
#[derive(Debug)]
pub struct TraitItem {
    pub node: TraitItemKind,
}

/// A link from one document to a related one.
#[derive(Debug)]
pub struct DocLink {
    pub name: String,
    pub path: ModPath,
}

/// Related documents grouped by type, in the order the groups were added.
pub type DocRelatedItems = Vec<(DocType, Vec<DocLink>)>;

/// The fields of a struct-like enum variant.
#[derive(Debug)]
pub struct VariantStruct {
    pub fields: DocRelatedItems,
}

/// An enum's variants.
#[derive(Debug)]
pub struct Enum {
    pub variants: DocRelatedItems,
}

/// A struct's fields.
#[derive(Debug)]
pub struct Struct {
    pub fields: DocRelatedItems,
}

/// A module.
#[derive(Debug)]
pub struct Module {
    pub is_crate: bool,
}

/// A constant: its type and value expression.
#[derive(Debug)]
pub struct Constant {
    pub ty: Ty,
    pub expr: String,
}

/// A function: its printed signature and qualifiers.
#[derive(Debug)]
pub struct Function {
    pub header: String,
    pub generics: Generics,
    pub unsafety: Unsafety,
    pub constness: Constness,
    pub abi: Abi,
    pub kind: FnKind,
}

/// A trait.
#[derive(Debug)]
pub struct Trait {
    pub unsafety: Unsafety,
}

/// Describes all possible types of documentation.
#[derive(Debug)]
pub enum DocInnerData {
    FnDoc(Function),
    ModuleDoc(Module),
    EnumDoc(Enum),
    StructDoc(Struct),
    ConstDoc(Constant),
    TraitDoc(Trait),
    TraitItemDoc(TraitItem),
}

/// The documentation record of one item.
#[derive(Debug)]
pub struct NewDocTemp_ {
    pub name: String,
    pub attrs: Attributes,
    pub crate_info: CrateInfo,
    pub mod_path: ModPath,
    pub inner_data: DocInnerData,
    pub visibility: Option<Visibility>,
    pub links: DocRelatedItems,
}

/// The document type of a record with the given contents.
pub open spec fn doc_type_of(d: DocInnerData) -> DocType {
    match d {
        DocInnerData::FnDoc(..) => DocType::Function,
        DocInnerData::ModuleDoc(..) => DocType::Module,
        DocInnerData::EnumDoc(..) => DocType::Enum,
        DocInnerData::StructDoc(..) => DocType::Struct,
        DocInnerData::ConstDoc(..) => DocType::Const,
        DocInnerData::TraitDoc(..) => DocType::Trait,
        DocInnerData::TraitItemDoc(item) => match item.node {
            TraitItemKind::Const(..) => DocType::TraitItemConst,
            TraitItemKind::Method(..) => DocType::TraitItemMethod,
            TraitItemKind::Type(..) => DocType::TraitItemType,
            TraitItemKind::Macro(..) => DocType::TraitItemMacro,
        },
    }
}

/// The categories of related items listed under a record with the given contents.
pub open spec fn subitem_categories(d: DocInnerData) -> Seq<DocType> {
    match d {
        DocInnerData::ModuleDoc(..) => seq![
            DocType::Function,
            DocType::Module,
            DocType::Enum,
            DocType::Struct,
            DocType::Trait,
            DocType::Const,
        ],
        DocInnerData::TraitDoc(..) => seq![
            DocType::AssocConst,
            DocType::TraitItemMethod,
            DocType::AssocType,
            DocType::Macro,
        ],
        DocInnerData::StructDoc(..) => seq![
            DocType::StructField,
            DocType::Function,
            DocType::AssocConst,
            DocType::AssocType,
            DocType::Macro,
        ],
        DocInnerData::EnumDoc(..) => seq![DocType::Function, DocType::Variant],
        _ => seq![],
    }
}

/// The position of the first group of type `t` in `links`, or -1 where there is none.
pub open spec fn group_index(links: Seq<(DocType, Vec<DocLink>)>, t: DocType) -> int
    decreases links.len(),
{
    if links.len() == 0 {
        -1
    } else if links.last().0 == t && group_index(links.drop_last(), t) < 0 {
        links.len() - 1
    } else {
        group_index(links.drop_last(), t)
    }
}

/// The names of a list of links.
pub open spec fn link_names(v: Seq<DocLink>) -> Seq<Seq<char>> {
    v.map_values(|l: DocLink| l.name@)
}

/// The listing for category `t`: a heading and the related names, one per line; `None` where
/// there are no related items of that type.
pub open spec fn category_listing(links: Seq<(DocType, Vec<DocLink>)>, t: DocType) -> Option<
    Seq<char>,
> {
    let i = group_index(links, t);
    if i < 0 || links[i].1@.len() == 0 {
        None
    } else {
        Some("==== "@ + type_heading(t) + "\n"@ + join_seq(link_names(links[i].1@), "\n"@))
    }
}

/// The listings of the categories in `cats` that have related items, in order.
pub open spec fn present_listings(links: Seq<(DocType, Vec<DocLink>)>, cats: Seq<DocType>) -> Seq<
    Seq<char>,
>
    decreases cats.len(),
{
    if cats.len() == 0 {
        seq![]
    } else {
        let rest = present_listings(links, cats.drop_last());
        match category_listing(links, cats.last()) {
            Some(l) => rest.push(l),
            None => rest,
        }
    }
}

/// The group of related items of type `t` in `links`, if there is one.
pub fn related_group(links: &DocRelatedItems, t: DocType) -> (r: Option<&Vec<DocLink>>)
    ensures
        r is Some <==> group_index(links@, t) >= 0,
        r matches Some(v) ==> *v == links@[group_index(links@, t)].1,
{
    let mut i: usize = 0;
    while i < links.len()
        invariant
            i <= links@.len(),
            group_index(links@.take(i as int), t) < 0,
        decreases links@.len() - i,
    {
        assert(links@.take(i + 1).drop_last() =~= links@.take(i as int));
        if links[i].0 == t {
            proof {
                lemma_group_index_prefix(links@, t, i + 1);
            }
            return Some(&links[i].1);
        }
        i = i + 1;
    }
    assert(links@.take(links@.len() as int) =~= links@);
    None
}

/// The first group of type `t` found in a prefix of `links` is the first in all of `links`.
proof fn lemma_group_index_prefix(links: Seq<(DocType, Vec<DocLink>)>, t: DocType, n: int)
    requires
        0 <= n <= links.len(),
        group_index(links.take(n), t) >= 0,
    ensures
        group_index(links, t) == group_index(links.take(n), t),
    decreases links.len() - n,
{
    if n < links.len() {
        assert(links.take(n + 1).drop_last() =~= links.take(n));
        lemma_group_index_prefix(links, t, n + 1);
    } else {
        assert(links.take(n) =~= links);
    }
}

/// An enum's page lists its variants: where its links hold variants, the listings of the
/// record end with the heading `==== Variants` and the variants' names, one per line.
pub proof fn lemma_enum_lists_variants(d: NewDocTemp_)
    requires
        d.inner_data is EnumDoc,
        group_index(d.links@, DocType::Variant) >= 0,
        d.links@[group_index(d.links@, DocType::Variant)].1@.len() > 0,
    ensures
        ({
            let listing = "==== "@ + "Variants"@ + "\n"@ + join_seq(
                link_names(d.links@[group_index(d.links@, DocType::Variant)].1@),
                "\n"@,
            );
            let text = join_seq(present_listings(d.links@, subitem_categories(d.inner_data)), "\n\n"@);
            &&& text.len() >= listing.len()
            &&& text.subrange(text.len() - listing.len(), text.len() as int) == listing
        }),
{
    let cats = subitem_categories(d.inner_data);
    assert(cats.drop_last() =~= seq![DocType::Function]);
    assert(cats.last() == DocType::Variant);
    let ls = present_listings(d.links@, cats);
    assert(ls == present_listings(d.links@, cats.drop_last()).push(
        category_listing(d.links@, DocType::Variant)->0,
    ));
    crate::text::lemma_join_ends_with_last(ls, "\n\n"@);
}

/// A category among those listed shows up in the listings whenever it has related items.
proof fn lemma_listing_present(links: Seq<(DocType, Vec<DocLink>)>, cats: Seq<DocType>, t: DocType)
    requires
        cats.contains(t),
        category_listing(links, t) is Some,
    ensures
        present_listings(links, cats).contains(category_listing(links, t)->0),
    decreases cats.len(),
{
    let ls = present_listings(links, cats);
    let rest = present_listings(links, cats.drop_last());
    if cats.last() == t {
        assert(ls == rest.push(category_listing(links, t)->0));
        assert(ls[ls.len() - 1] == category_listing(links, t)->0);
    } else {
        let k = choose|k: int| 0 <= k < cats.len() && cats[k] == t;
        assert(cats.drop_last()[k] == t);
        lemma_listing_present(links, cats.drop_last(), t);
        let j = choose|j: int| 0 <= j < rest.len() && rest[j] == category_listing(links, t)->0;
        match category_listing(links, cats.last()) {
            Some(l) => {
                assert(ls == rest.push(l));
                assert(ls[j] == rest[j]);
            },
            None => {},
        }
    }
}

/// A record's page lists the related items it has of each category its kind shows: a module
/// its functions, modules, enums, structs, traits and constants; a trait its associated
/// constants, methods, associated types and macros; a struct its fields, functions,
/// associated constants, associated types and macros; an enum its functions and variants.
pub proof fn lemma_record_lists_related(d: NewDocTemp_, t: DocType)
    requires
        (d.inner_data is ModuleDoc && (t == DocType::Function || t == DocType::Module || t
            == DocType::Enum || t == DocType::Struct || t == DocType::Trait || t == DocType::Const))
            || (d.inner_data is TraitDoc && (t == DocType::AssocConst || t == DocType::TraitItemMethod
            || t == DocType::AssocType || t == DocType::Macro)) || (d.inner_data is StructDoc && (t
            == DocType::StructField || t == DocType::Function || t == DocType::AssocConst || t
            == DocType::AssocType || t == DocType::Macro)) || (d.inner_data is EnumDoc && (t
            == DocType::Function || t == DocType::Variant)),
        category_listing(d.links@, t) is Some,
    ensures
        present_listings(d.links@, subitem_categories(d.inner_data)).contains(
            category_listing(d.links@, t)->0,
        ),
{
    let cats = subitem_categories(d.inner_data);
    assert(cats.contains(t)) by {
        if d.inner_data is ModuleDoc {
            if t == DocType::Function { assert(cats[0] == t); }
            else if t == DocType::Module { assert(cats[1] == t); }
            else if t == DocType::Enum { assert(cats[2] == t); }
            else if t == DocType::Struct { assert(cats[3] == t); }
            else if t == DocType::Trait { assert(cats[4] == t); }
            else { assert(cats[5] == t); }
        } else if d.inner_data is TraitDoc {
            if t == DocType::AssocConst { assert(cats[0] == t); }
            else if t == DocType::TraitItemMethod { assert(cats[1] == t); }
            else if t == DocType::AssocType { assert(cats[2] == t); }
            else { assert(cats[3] == t); }
        } else if d.inner_data is StructDoc {
            if t == DocType::StructField { assert(cats[0] == t); }
            else if t == DocType::Function { assert(cats[1] == t); }
            else if t == DocType::AssocConst { assert(cats[2] == t); }
            else if t == DocType::AssocType { assert(cats[3] == t); }
            else { assert(cats[4] == t); }
        } else {
            if t == DocType::Function { assert(cats[0] == t); }
            else { assert(cats[1] == t); }
        }
    }
    lemma_listing_present(d.links@, cats, t);
}

impl NewDocTemp_ {
    /// The type of the documented item.
    pub fn get_type(&self) -> (r: DocType)
        ensures
            r == doc_type_of(self.inner_data),
    {
        match &self.inner_data {
            DocInnerData::FnDoc(..) => DocType::Function,
            DocInnerData::ModuleDoc(..) => DocType::Module,
            DocInnerData::EnumDoc(..) => DocType::Enum,
            DocInnerData::StructDoc(..) => DocType::Struct,
            DocInnerData::ConstDoc(..) => DocType::Const,
            DocInnerData::TraitDoc(..) => DocType::Trait,
            DocInnerData::TraitItemDoc(item) => match item.node {
                TraitItemKind::Const(..) => DocType::TraitItemConst,
                TraitItemKind::Method(..) => DocType::TraitItemMethod,
                TraitItemKind::Type(..) => DocType::TraitItemType,
                TraitItemKind::Macro(..) => DocType::TraitItemMacro,
            },
        }
    }

    /// The listing of related items of type `t`: `==== <heading>` and their names, one per
    /// line; `None` where there are none.
    fn subitems_in_category(&self, t: &DocType) -> (r: Option<String>)
        ensures
            r matches Some(s) ==> category_listing(self.links@, *t) == Some(s@),
            r is None ==> category_listing(self.links@, *t) is None,
    {
        match related_group(&self.links, *t) {
            Some(items) => {
                if items.len() > 0 {
                    let mut names: Vec<String> = Vec::new();
                    let mut i: usize = 0;
                    while i < items.len()
                        invariant
                            i <= items@.len(),
                            names@.map_values(|p: String| p@) == link_names(items@).take(i as int),
                        decreases items@.len() - i,
                    {
                        let ghost before = names@;
                        names.push(items[i].name.clone());
                        proof {
                            assert(names@.drop_last() =~= before);
                            assert(names@.map_values(|p: String| p@) =~= before.map_values(|p: String| p@).push(items@[i as int].name@));
                            assert(names@.map_values(|p: String| p@) =~= link_names(items@).take(
                                i + 1,
                            ));
                        }
                        i = i + 1;
                    }
                    assert(link_names(items@).take(items@.len() as int) =~= link_names(items@));
                    let items_str = crate::text::join_strs(&names, "\n");
                    let mut s = "==== ".to_owned();
                    let heading = t.to_string();
                    s.append(heading.as_str());
                    s.append("\n");
                    s.append(items_str.as_str());
                    Some(s)
                } else {
                    None
                }
            },
            None => None,
        }
    }

    /// The listings of related items under the categories this kind of record shows,
    /// separated by blank lines.
    pub fn subitems(&self) -> (r: String)
        ensures
            r@ == join_seq(
                present_listings(self.links@, subitem_categories(self.inner_data)),
                "\n\n"@,
            ),
    {
        let cats: Vec<DocType> = match &self.inner_data {
            DocInnerData::ModuleDoc(..) => vec![
                DocType::Function,
                DocType::Module,
                DocType::Enum,
                DocType::Struct,
                DocType::Trait,
                DocType::Const,
            ],
            DocInnerData::TraitDoc(..) => vec![
                DocType::AssocConst,
                DocType::TraitItemMethod,
                DocType::AssocType,
                DocType::Macro,
            ],
            DocInnerData::StructDoc(..) => vec![
                DocType::StructField,
                DocType::Function,
                DocType::AssocConst,
                DocType::AssocType,
                DocType::Macro,
            ],
            DocInnerData::EnumDoc(..) => vec![DocType::Function, DocType::Variant],
            _ => vec![],
        };
        let ghost cs = subitem_categories(self.inner_data);
        assert(cats@ =~= cs);
        let mut found: Vec<String> = Vec::new();
        let mut i: usize = 0;
        while i < cats.len()
            invariant
                i <= cats@.len(),
                cats@ == cs,
                found@.map_values(|p: String| p@) == present_listings(self.links@, cs.take(i as int)),
            decreases cats@.len() - i,
        {
            let listing = self.subitems_in_category(&cats[i]);
            let ghost before = found@;
            proof {
                assert(cs.take(i + 1).drop_last() =~= cs.take(i as int));
            }
            match listing {
                Some(l) => {
                    found.push(l);
                    assert(found@.drop_last() =~= before);
                    assert(found@.map_values(|p: String| p@) =~= before.map_values(|p: String| p@).push(l@));
                },
                None => {},
            }
            i = i + 1;
        }
        assert(cs.take(cats@.len() as int) =~= cs);
        crate::text::join_strs(&found, "\n\n")
    }
}

} // verus!
