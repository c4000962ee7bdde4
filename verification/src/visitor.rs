//! Walking the items of a crate's source and making a documentation record of each item that
//! is documented: public items that are not hidden, the methods of impls, and the members of
//! traits. The items come as plain values, read out of the syntax tree by the program.

use vstd::prelude::*;

use crate::doc_types::{
    doc_type_of, Abi, Constant, Constness, DocInnerData, DocLink, DocRelatedItems, DocType, Enum,
    Function, Generics, MethodSig, Module, NewDocTemp_, Struct, Trait, TraitItem, TraitItemKind,
    Unsafety, Visibility,
};
use crate::document::{Attributes, CrateInfo, FnKind, ModPath, NodeId, Ty};
use crate::related::{field_links, group_members, links_view, member_link, members_of, struct_field_links, MemberKind};

verus! {

/// A method of an impl, as written in the source.
pub struct SourceMethod {
    pub name: String,
    pub attrs: Attributes,
    pub vis: Visibility,
    pub header: String,
    pub unsafety: Unsafety,
    pub constness: Constness,
    pub abi: Abi,
}

/// A member of a trait, as written in the source.
pub struct SourceTraitItem {
    pub name: String,
    pub attrs: Attributes,
    pub kind: MemberKind,
    pub node: TraitItemKind,
}

/// What an item of the source is, with what its documentation shows.
pub enum SourceItemKind {
    /// A constant: its type and value expression.
    Const { ty: Ty, expr: String },
    /// A function: its printed signature and qualifiers.
    Fn { header: String, unsafety: Unsafety, constness: Constness, abi: Abi },
    /// A module and its items.
    Mod(Vec<SourceItem>),
    /// An enum and the text of each variant.
    Enum(Vec<String>),
    /// A struct and the name of each field (none for a tuple field).
    Struct(Vec<Option<String>>),
    /// A trait and its members.
    Trait { unsafety: Unsafety, items: Vec<SourceTraitItem> },
    /// An impl: the type it is for, printed, and its methods.
    Impl { self_ty: String, methods: Vec<SourceMethod> },
    /// Any other item (it is not documented).
    Other,
}

/// An item of the source.
pub struct SourceItem {
    pub name: String,
    pub vis: Visibility,
    /// Whether the item is marked `#[doc(hidden)]`.
    pub doc_hidden: bool,
    pub attrs: Attributes,
    pub kind: SourceItemKind,
}

/// The related-item listings of a document as plain values: each group's type and links.
pub open spec fn groups_view(r: Seq<(DocType, Vec<DocLink>)>) -> Seq<(DocType, Seq<(Seq<char>, Seq<Seq<char>>)>)> {
    r.map_values(|g: (DocType, Vec<DocLink>)| (g.0, links_view(g.1@)))
}

/// Documentation comments as plain values.
pub open spec fn attrs_view(a: Attributes) -> Seq<Seq<char>> {
    a.doc_strings@.map_values(|d: String| d@)
}

/// An optional text as a plain value.
pub open spec fn opt_text(t: Option<String>) -> Option<Seq<char>> {
    match t {
        Some(x) => Some(x@),
        None => None,
    }
}

/// A trait member's kind as plain values.
pub enum TraitItemView {
    Const(Seq<char>, Option<Seq<char>>),
    Method { unsafety: Unsafety, constness: Constness, abi: Abi, header: Seq<char> },
    Type(Option<Seq<char>>),
    Macro(Seq<char>),
}

/// A trait member's kind as plain values.
pub open spec fn trait_item_view(k: TraitItemKind) -> TraitItemView {
    match k {
        TraitItemKind::Const(ty, expr) => TraitItemView::Const(ty@, opt_text(expr)),
        TraitItemKind::Method(m) => TraitItemView::Method {
            unsafety: m.unsafety,
            constness: m.constness,
            abi: m.abi,
            header: m.header@,
        },
        TraitItemKind::Type(ty) => TraitItemView::Type(opt_text(ty)),
        TraitItemKind::Macro(m) => TraitItemView::Macro(m@),
    }
}

/// What a document shows of its item, as plain values.
pub enum InnerView {
    Function { header: Seq<char>, unsafety: Unsafety, constness: Constness, abi: Abi, kind: FnKind },
    Module { is_crate: bool },
    Enum { variants: Seq<(DocType, Seq<(Seq<char>, Seq<Seq<char>>)>)> },
    Struct { fields: Seq<(DocType, Seq<(Seq<char>, Seq<Seq<char>>)>)> },
    Const { ty_id: u32, ty_name: Seq<char>, expr: Seq<char> },
    Trait { unsafety: Unsafety },
    TraitItem { node: TraitItemView },
}

/// What a document shows of its item, as plain values.
pub open spec fn inner_view(d: DocInnerData) -> InnerView {
    match d {
        DocInnerData::FnDoc(f) => InnerView::Function {
            header: f.header@,
            unsafety: f.unsafety,
            constness: f.constness,
            abi: f.abi,
            kind: f.kind,
        },
        DocInnerData::ModuleDoc(m) => InnerView::Module { is_crate: m.is_crate },
        DocInnerData::EnumDoc(e) => InnerView::Enum { variants: groups_view(e.variants@) },
        DocInnerData::StructDoc(st) => InnerView::Struct { fields: groups_view(st.fields@) },
        DocInnerData::ConstDoc(k) => InnerView::Const { ty_id: k.ty.id.0, ty_name: k.ty.name@, expr: k.expr@ },
        DocInnerData::TraitDoc(t) => InnerView::Trait { unsafety: t.unsafety },
        DocInnerData::TraitItemDoc(t) => InnerView::TraitItem { node: trait_item_view(t.node) },
    }
}

/// A documentation record as plain values.
pub struct DocEntry {
    pub name: Seq<char>,
    pub path: Seq<Seq<char>>,
    pub doc_type: DocType,
    pub crate_name: Seq<char>,
    pub crate_version: Seq<char>,
    pub docs: Seq<Seq<char>>,
    pub visibility: Option<Visibility>,
    pub inner: InnerView,
    pub links: Seq<(DocType, Seq<(Seq<char>, Seq<Seq<char>>)>)>,
}

/// A documentation record as plain values: the item's name, its module path, its document
/// type, the name and version of its crate, its documentation comments, its visibility, what
/// it shows of the item, and its related-item listings.
pub open spec fn doc_entry(d: NewDocTemp_) -> DocEntry {
    DocEntry {
        name: d.name@,
        path: d.mod_path@,
        doc_type: doc_type_of(d.inner_data),
        crate_name: d.crate_info.name@,
        crate_version: d.crate_info.version@,
        docs: attrs_view(d.attrs),
        visibility: d.visibility,
        inner: inner_view(d.inner_data),
        links: groups_view(d.links@),
    }
}

/// A list of documentation records as plain values.
pub open spec fn doc_entries(v: Seq<NewDocTemp_>) -> Seq<DocEntry> {
    v.map_values(|d: NewDocTemp_| doc_entry(d))
}

/// The record of an item named `name` at `path` in the crate `c`, with its comments, its
/// visibility, what it shows and its listings.
pub open spec fn entry(
    name: Seq<char>,
    path: Seq<Seq<char>>,
    t: DocType,
    c: CrateInfo,
    attrs: Attributes,
    vis: Visibility,
    inner: InnerView,
    links: Seq<(DocType, Seq<(Seq<char>, Seq<Seq<char>>)>)>,
) -> DocEntry {
    DocEntry {
        name,
        path,
        doc_type: t,
        crate_name: c.name@,
        crate_version: c.version@,
        docs: attrs_view(attrs),
        visibility: Some(vis),
        inner,
        links,
    }
}

/// Whether an item gets documented: an impl always (its methods do), any other item where
/// it is public; never where it is hidden.
pub open spec fn documented(item: SourceItem) -> bool {
    (item.kind is Impl || item.vis == Visibility::Public) && !item.doc_hidden
}

/// The document type of a trait member.
pub open spec fn trait_item_type(k: TraitItemKind) -> DocType {
    match k {
        TraitItemKind::Const(..) => DocType::TraitItemConst,
        TraitItemKind::Method(..) => DocType::TraitItemMethod,
        TraitItemKind::Type(..) => DocType::TraitItemType,
        TraitItemKind::Macro(..) => DocType::TraitItemMacro,
    }
}

/// The links to the members of kind `k` of a trait at `path`, in order: each named after the
/// member, to the trait's path followed by that name.
pub open spec fn trait_links(items: Seq<SourceTraitItem>, path: Seq<Seq<char>>, k: MemberKind) -> Seq<
    (Seq<char>, Seq<Seq<char>>),
>
    decreases items.len(),
{
    if items.len() == 0 {
        seq![]
    } else {
        let r = trait_links(items.drop_last(), path, k);
        if items.last().kind == k {
            r.push((items.last().name@, path.push(items.last().name@)))
        } else {
            r
        }
    }
}

/// The listings of a trait at `path`: its associated constants, methods, types and macros.
pub open spec fn trait_groups(items: Seq<SourceTraitItem>, path: Seq<Seq<char>>) -> Seq<
    (DocType, Seq<(Seq<char>, Seq<Seq<char>>)>),
> {
    seq![
        (DocType::AssocConst, trait_links(items, path, MemberKind::Const)),
        (DocType::TraitItemMethod, trait_links(items, path, MemberKind::Method)),
        (DocType::AssocType, trait_links(items, path, MemberKind::Type)),
        (DocType::Macro, trait_links(items, path, MemberKind::Macro)),
    ]
}

/// The records of the members of a trait at `path`: each under the trait's path followed by
/// its name, with its comments and its kind, and no listings.
pub open spec fn trait_entries(items: Seq<SourceTraitItem>, path: Seq<Seq<char>>, c: CrateInfo) -> Seq<DocEntry>
    decreases items.len(),
{
    if items.len() == 0 {
        seq![]
    } else {
        let t = items.last();
        trait_entries(items.drop_last(), path, c).push(
            entry(
                t.name@,
                path.push(t.name@),
                trait_item_type(t.node),
                c,
                t.attrs,
                Visibility::Inherited,
                InnerView::TraitItem { node: trait_item_view(t.node) },
                seq![],
            ),
        )
    }
}

/// The records of the methods of an impl whose type is at `path`: each a function under
/// that path followed by its name, with its comments, visibility, signature and qualifiers.
pub open spec fn method_entries(methods: Seq<SourceMethod>, path: Seq<Seq<char>>, c: CrateInfo) -> Seq<DocEntry>
    decreases methods.len(),
{
    if methods.len() == 0 {
        seq![]
    } else {
        let m = methods.last();
        method_entries(methods.drop_last(), path, c).push(
            entry(
                m.name@,
                path.push(m.name@),
                DocType::Function,
                c,
                m.attrs,
                m.vis,
                InnerView::Function {
                    header: m.header@,
                    unsafety: m.unsafety,
                    constness: m.constness,
                    abi: m.abi,
                    kind: FnKind::MethodFromImpl,
                },
                seq![],
            ),
        )
    }
}

/// The listing of an enum's variants: each shown by its text, linking nowhere.
pub open spec fn variant_groups(variants: Seq<String>) -> Seq<(DocType, Seq<(Seq<char>, Seq<Seq<char>>)>)> {
    seq![(DocType::Variant, variants.map_values(|v: String| (v@, Seq::<Seq<char>>::empty())))]
}

/// The listing of a struct's fields at `path`.
pub open spec fn field_groups(fields: Seq<Option<String>>, path: Seq<Seq<char>>) -> Seq<
    (DocType, Seq<(Seq<char>, Seq<Seq<char>>)>),
> {
    seq![(DocType::StructField, field_links(fields, path))]
}

/// The records that the item makes in the module at `scope`, in order: none where it is not
/// documented; a constant, function, enum or struct one, under `scope` followed by its name;
/// a module those of its items (under its own path), then its own; a trait one for each
/// member, then its own; an impl one for each method, under `scope` followed by the type's
/// text. Each has the item's comments and what the item shows: a constant its type and value,
/// a function its signature and qualifiers, an enum its variants (listed), a struct its
/// fields (listed), a trait its members (listed).
pub open spec fn item_entries(item: SourceItem, scope: Seq<Seq<char>>, c: CrateInfo) -> Seq<DocEntry>
    decreases item,
{
    if !documented(item) {
        seq![]
    } else {
        let path = scope.push(item.name@);
        match item.kind {
            SourceItemKind::Const { ty, expr } => seq![
                entry(
                    item.name@,
                    path,
                    DocType::Const,
                    c,
                    item.attrs,
                    item.vis,
                    InnerView::Const { ty_id: ty.id.0, ty_name: ty.name@, expr: expr@ },
                    seq![],
                ),
            ],
            SourceItemKind::Fn { header, unsafety, constness, abi } => seq![
                entry(
                    item.name@,
                    path,
                    DocType::Function,
                    c,
                    item.attrs,
                    item.vis,
                    InnerView::Function { header: header@, unsafety, constness, abi, kind: FnKind::ItemFn },
                    seq![],
                ),
            ],
            SourceItemKind::Mod(items) => items_entries(items@, path, c).push(
                entry(
                    item.name@,
                    path,
                    DocType::Module,
                    c,
                    item.attrs,
                    item.vis,
                    InnerView::Module { is_crate: false },
                    seq![],
                ),
            ),
            SourceItemKind::Enum(variants) => seq![
                entry(
                    item.name@,
                    path,
                    DocType::Enum,
                    c,
                    item.attrs,
                    Visibility::Inherited,
                    InnerView::Enum { variants: variant_groups(variants@) },
                    variant_groups(variants@),
                ),
            ],
            SourceItemKind::Struct(fields) => seq![
                entry(
                    item.name@,
                    path,
                    DocType::Struct,
                    c,
                    item.attrs,
                    item.vis,
                    InnerView::Struct { fields: field_groups(fields@, path) },
                    field_groups(fields@, path),
                ),
            ],
            SourceItemKind::Trait { unsafety, items } => trait_entries(items@, path, c).push(
                entry(
                    item.name@,
                    path,
                    DocType::Trait,
                    c,
                    item.attrs,
                    item.vis,
                    InnerView::Trait { unsafety },
                    trait_groups(items@, path),
                ),
            ),
            SourceItemKind::Impl { self_ty, methods } => method_entries(
                methods@,
                scope.push(self_ty@),
                c,
            ),
            SourceItemKind::Other => seq![],
        }
    }
}

/// The records of a trait's members, in order, one per member: each under `path` followed by
/// the member's name.
proof fn lemma_trait_entries_paths(items: Seq<SourceTraitItem>, path: Seq<Seq<char>>, c: CrateInfo)
    ensures
        trait_entries(items, path, c).len() == items.len(),
        forall|k: int|
            0 <= k < items.len() ==> (#[trigger] trait_entries(items, path, c)[k]).path == path.push(
                items[k].name@,
            ) && trait_entries(items, path, c)[k].name == items[k].name@,
    decreases items.len(),
{
    if items.len() > 0 {
        lemma_trait_entries_paths(items.drop_last(), path, c);
        let prev = trait_entries(items.drop_last(), path, c);
        assert forall|k: int| 0 <= k < items.len() implies (#[trigger] trait_entries(items, path, c)[k]).path
            == path.push(items[k].name@) && trait_entries(items, path, c)[k].name == items[k].name@ by {
            if k < items.len() - 1 {
                assert(trait_entries(items, path, c)[k] == prev[k]);
                assert(items.drop_last()[k] == items[k]);
            }
        }
    }
}

/// The links to a trait's members of one kind point under `path`, one segment below it.
proof fn lemma_trait_links_under(items: Seq<SourceTraitItem>, path: Seq<Seq<char>>, k: MemberKind)
    ensures
        forall|j: int|
            0 <= j < trait_links(items, path, k).len() ==> (#[trigger] trait_links(items, path, k)[j]).1
                == path.push(trait_links(items, path, k)[j].0),
    decreases items.len(),
{
    if items.len() > 0 {
        lemma_trait_links_under(items.drop_last(), path, k);
        let prev = trait_links(items.drop_last(), path, k);
        let r = trait_links(items, path, k);
        assert forall|j: int| 0 <= j < r.len() implies (#[trigger] r[j]).1 == path.push(r[j].0) by {
            if j < prev.len() {
                assert(r[j] == prev[j]);
            }
        }
    }
}

/// A trait's members are filed under the trait: the records of a documented trait are one per
/// member, each at the trait record's own path followed by the member's name (so one segment
/// below the trait), then the trait's own record, whose listings link to paths one segment
/// below the trait too.
pub proof fn lemma_trait_members_under_trait(item: SourceItem, scope: Seq<Seq<char>>, c: CrateInfo)
    requires
        item.kind is Trait,
        documented(item),
    ensures
        ({
            let members = item.kind->Trait_items@;
            let e = item_entries(item, scope, c);
            let own = e[e.len() - 1];
            &&& e.len() == members.len() + 1
            &&& own.doc_type == DocType::Trait
            &&& own.path == scope.push(item.name@)
            &&& forall|k: int|
                0 <= k < members.len() ==> (#[trigger] e[k]).path == own.path.push(members[k].name@)
                    && e[k].path.drop_last() == own.path
            &&& own.links.len() == 4
            &&& forall|g: int, j: int|
                0 <= g < 4 && 0 <= j < own.links[g].1.len() ==> (#[trigger] own.links[g].1[j]).1.drop_last()
                    == own.path
        }),
{
    let members = item.kind->Trait_items@;
    let path = scope.push(item.name@);
    lemma_trait_entries_paths(members, path, c);
    let e = item_entries(item, scope, c);
    let te = trait_entries(members, path, c);
    assert(e.len() == te.len() + 1);
    assert forall|k: int| 0 <= k < members.len() implies (#[trigger] e[k]).path == e[e.len() - 1].path.push(
        members[k].name@,
    ) && e[k].path.drop_last() == e[e.len() - 1].path by {
        assert(e[k] == te[k]);
        assert(te[k].path.drop_last() =~= path);
    }
    lemma_trait_links_under(members, path, MemberKind::Const);
    lemma_trait_links_under(members, path, MemberKind::Method);
    lemma_trait_links_under(members, path, MemberKind::Type);
    lemma_trait_links_under(members, path, MemberKind::Macro);
    let own = e[e.len() - 1];
    assert forall|g: int, j: int| 0 <= g < 4 && 0 <= j < own.links[g].1.len() implies (#[trigger] own.links[g].1[j]).1.drop_last()
        == own.path by {
        let l = own.links[g].1[j];
        assert(l.1 == path.push(l.0));
        assert(l.1.drop_last() =~= path);
    }
}

/// The methods of an impl are filed under its type: the records of an impl of `self_ty` in the
/// module at `scope` are one per method, each a function from an impl at `scope`, then the
/// type's text, then the method's name.
pub proof fn lemma_impl_methods_under_type(item: SourceItem, scope: Seq<Seq<char>>, c: CrateInfo)
    requires
        item.kind is Impl,
        !item.doc_hidden,
    ensures
        ({
            let methods = item.kind->Impl_methods@;
            let e = item_entries(item, scope, c);
            &&& e.len() == methods.len()
            &&& forall|k: int|
                0 <= k < methods.len() ==> (#[trigger] e[k]).path == scope.push(item.kind->self_ty@).push(
                    methods[k].name@,
                ) && e[k].doc_type == DocType::Function && e[k].inner is Function && e[k].inner->Function_kind == FnKind::MethodFromImpl
        }),
{
    lemma_method_entries(item.kind->Impl_methods@, scope.push(item.kind->self_ty@), c);
}

proof fn lemma_method_entries(methods: Seq<SourceMethod>, path: Seq<Seq<char>>, c: CrateInfo)
    ensures
        method_entries(methods, path, c).len() == methods.len(),
        forall|k: int|
            0 <= k < methods.len() ==> (#[trigger] method_entries(methods, path, c)[k]).path == path.push(
                methods[k].name@,
            ) && method_entries(methods, path, c)[k].doc_type == DocType::Function
                && method_entries(methods, path, c)[k].inner is Function
                && method_entries(methods, path, c)[k].inner->Function_kind == FnKind::MethodFromImpl,
    decreases methods.len(),
{
    if methods.len() > 0 {
        lemma_method_entries(methods.drop_last(), path, c);
        let prev = method_entries(methods.drop_last(), path, c);
        let r = method_entries(methods, path, c);
        assert forall|k: int| 0 <= k < methods.len() implies (#[trigger] r[k]).path == path.push(methods[k].name@)
            && r[k].doc_type == DocType::Function && r[k].inner is Function
            && r[k].inner->Function_kind == FnKind::MethodFromImpl by {
            if k < methods.len() - 1 {
                assert(r[k] == prev[k]);
                assert(methods.drop_last()[k] == methods[k]);
            }
        }
    }
}

/// The records that the items make in the module at `scope`, item after item.
pub open spec fn items_entries(items: Seq<SourceItem>, scope: Seq<Seq<char>>, c: CrateInfo) -> Seq<DocEntry>
    decreases items,
{
    if items.len() == 0 {
        seq![]
    } else {
        items_entries(items.subrange(0, items.len() - 1), scope, c) + item_entries(
            items[items.len() - 1],
            scope,
            c,
        )
    }
}

/// A copy of documentation comments.
fn copy_attrs(a: &Attributes) -> (r: Attributes)
    ensures
        attrs_view(r) == attrs_view(*a),
{
    let mut doc_strings: Vec<String> = Vec::new();
    let mut i: usize = 0;
    while i < a.doc_strings.len()
        invariant
            i <= a.doc_strings@.len(),
            doc_strings@.len() == i,
            forall|j: int| 0 <= j < i ==> (#[trigger] doc_strings@[j])@ == a.doc_strings@[j]@,
        decreases a.doc_strings@.len() - i,
    {
        doc_strings.push(a.doc_strings[i].clone());
        i = i + 1;
    }
    let r = Attributes { doc_strings };
    assert(attrs_view(r) =~= attrs_view(*a));
    r
}

/// A copy of a trait member's kind.
fn copy_trait_item_kind(k: &TraitItemKind) -> (r: TraitItemKind)
    ensures
        trait_item_type(r) == trait_item_type(*k),
        trait_item_view(r) == trait_item_view(*k),
{
    match k {
        TraitItemKind::Const(ty, expr) => TraitItemKind::Const(ty.clone(), expr.clone()),
        TraitItemKind::Method(sig) => TraitItemKind::Method(
            MethodSig {
                unsafety: sig.unsafety,
                constness: sig.constness,
                abi: sig.abi,
                header: sig.header.clone(),
            },
        ),
        TraitItemKind::Type(ty) => TraitItemKind::Type(ty.clone()),
        TraitItemKind::Macro(m) => TraitItemKind::Macro(m.clone()),
    }
}

/// `path` followed by `name`.
fn joined(path: &ModPath, name: &String) -> (r: ModPath)
    ensures
        r@ == path@.push(name@),
{
    let mut p = path.clone();
    p.push_string(name.clone());
    p
}

/// The listing of an enum's variants, each shown by its text.
fn variant_links(variants: &Vec<String>) -> (r: DocRelatedItems)
    ensures
        groups_view(r@) == variant_groups(variants@),
{
    let mut links: Vec<DocLink> = Vec::new();
    let mut i: usize = 0;
    while i < variants.len()
        invariant
            i <= variants@.len(),
            links@.len() == i,
            forall|j: int| 0 <= j < i ==> (#[trigger] links@[j]).name@ == variants@[j]@,
            forall|j: int| 0 <= j < i ==> (#[trigger] links@[j]).path@ == Seq::<Seq<char>>::empty(),
        decreases variants@.len() - i,
    {
        links.push(DocLink { name: variants[i].clone(), path: ModPath::new() });
        i = i + 1;
    }
    let ghost lv = links@;
    let mut r: DocRelatedItems = Vec::new();
    r.push((DocType::Variant, links));
    proof {
        assert(links_view(lv) =~= variants@.map_values(|v: String| (v@, Seq::<Seq<char>>::empty())));
        assert(groups_view(r@) =~= variant_groups(variants@));
    }
    r
}

/// Collects the documentation records of a crate.
pub struct OxidocVisitor {
    pub crate_info: CrateInfo,
    pub current_scope: ModPath,
    pub documents: Vec<NewDocTemp_>,
}

impl OxidocVisitor {
    /// A visitor of the given crate, at its top, with no records yet.
    pub fn new(crate_info: CrateInfo) -> (r: OxidocVisitor)
        ensures
            r.crate_info == crate_info,
            r.current_scope@ == Seq::<Seq<char>>::empty(),
            r.documents@.len() == 0,
    {
        OxidocVisitor { crate_info, current_scope: ModPath::new(), documents: Vec::new() }
    }

    /// The module path of the item named `name` in the current module.
    pub fn make_modpath(&self, name: &String) -> (r: ModPath)
        ensures
            r@ == self.current_scope@.push(name@),
    {
        joined(&self.current_scope, name)
    }

    /// Adds a record of this crate.
    fn record(
        &mut self,
        name: String,
        attrs: Attributes,
        mod_path: ModPath,
        vis: Visibility,
        inner_data: DocInnerData,
        links: DocRelatedItems,
    )
        ensures
            final(self).crate_info == old(self).crate_info,
            final(self).current_scope == old(self).current_scope,
            doc_entries(final(self).documents@) == doc_entries(old(self).documents@).push(
                DocEntry {
                    name: name@,
                    path: mod_path@,
                    doc_type: doc_type_of(inner_data),
                    crate_name: old(self).crate_info.name@,
                    crate_version: old(self).crate_info.version@,
                    docs: attrs_view(attrs),
                    visibility: Some(vis),
                    inner: inner_view(inner_data),
                    links: groups_view(links@),
                },
            ),
    {
        let doc = NewDocTemp_ {
            name,
            attrs,
            crate_info: self.crate_info.clone(),
            mod_path,
            inner_data,
            visibility: Some(vis),
            links,
        };
        let ghost before = self.documents@;
        self.documents.push(doc);
        assert(doc_entries(self.documents@) =~= doc_entries(before).push(doc_entry(doc)));
    }

    /// Records the methods of an impl of the type `self_ty` in the current module.
    fn visit_impl(&mut self, self_ty: &String, methods: &Vec<SourceMethod>)
        ensures
            final(self).crate_info == old(self).crate_info,
            final(self).current_scope == old(self).current_scope,
            doc_entries(final(self).documents@) == doc_entries(old(self).documents@) + method_entries(
                methods@,
                old(self).current_scope@.push(self_ty@),
                old(self).crate_info,
            ),
    {
        let ty_path = joined(&self.current_scope, self_ty);
        let ghost start = doc_entries(self.documents@);
        let ghost c = self.crate_info;
        let mut i: usize = 0;
        assert(methods@.take(0) =~= Seq::<SourceMethod>::empty());
        assert(start + seq![] =~= start);
        while i < methods.len()
            invariant
                i <= methods@.len(),
                self.crate_info == old(self).crate_info,
                c == old(self).crate_info,
                self.current_scope == old(self).current_scope,
                ty_path@ == old(self).current_scope@.push(self_ty@),
                start == doc_entries(old(self).documents@),
                doc_entries(self.documents@) == start + method_entries(methods@.take(i as int), ty_path@, c),
            decreases methods@.len() - i,
        {
            let m = &methods[i];
            let path = joined(&ty_path, &m.name);
            let inner = DocInnerData::FnDoc(
                Function {
                    header: m.header.clone(),
                    generics: Generics {  },
                    unsafety: m.unsafety,
                    constness: m.constness,
                    abi: m.abi,
                    kind: FnKind::MethodFromImpl,
                },
            );
            self.record(m.name.clone(), copy_attrs(&m.attrs), path, m.vis, inner, Vec::new());
            proof {
                assert(methods@.take(i + 1).drop_last() =~= methods@.take(i as int));
                assert(methods@.take(i + 1).last() == methods@[i as int]);
                let prev = method_entries(methods@.take(i as int), ty_path@, c);
                let e = entry(
                    m.name@,
                    ty_path@.push(m.name@),
                    DocType::Function,
                    c,
                    m.attrs,
                    m.vis,
                    InnerView::Function {
                        header: m.header@,
                        unsafety: m.unsafety,
                        constness: m.constness,
                        abi: m.abi,
                        kind: FnKind::MethodFromImpl,
                    },
                    seq![],
                );
                assert(groups_view(Seq::<(DocType, Vec<DocLink>)>::empty()) =~= seq![]);
                assert(start + prev.push(e) =~= (start + prev).push(e));
            }
            i = i + 1;
        }
        assert(methods@.take(methods@.len() as int) =~= methods@);
    }

    /// Records the members of a trait at `path`, each under the trait's path followed by its
    /// name, and returns the listings of the trait's members.
    fn visit_trait_items(&mut self, path: &ModPath, items: &Vec<SourceTraitItem>) -> (links: DocRelatedItems)
        ensures
            final(self).crate_info == old(self).crate_info,
            final(self).current_scope == old(self).current_scope,
            doc_entries(final(self).documents@) == doc_entries(old(self).documents@) + trait_entries(
                items@,
                path@,
                old(self).crate_info,
            ),
            groups_view(links@) == trait_groups(items@, path@),
    {
        let ghost start = doc_entries(self.documents@);
        let ghost c = self.crate_info;
        let mut members: Vec<(MemberKind, DocLink)> = Vec::new();
        let mut i: usize = 0;
        assert(items@.take(0) =~= Seq::<SourceTraitItem>::empty());
        assert(start + seq![] =~= start);
        while i < items.len()
            invariant
                i <= items@.len(),
                self.crate_info == old(self).crate_info,
                c == old(self).crate_info,
                self.current_scope == old(self).current_scope,
                start == doc_entries(old(self).documents@),
                doc_entries(self.documents@) == start + trait_entries(items@.take(i as int), path@, c),
                forall|k: MemberKind| #[trigger] members_of(members@, k) == trait_links(
                    items@.take(i as int),
                    path@,
                    k,
                ),
            decreases items@.len() - i,
        {
            let t = &items[i];
            let ghost before = members@;
            members.push((t.kind, member_link(path, t.name.as_str())));
            let inner = DocInnerData::TraitItemDoc(TraitItem { node: copy_trait_item_kind(&t.node) });
            let item_path = joined(path, &t.name);
            self.record(
                t.name.clone(),
                copy_attrs(&t.attrs),
                item_path,
                Visibility::Inherited,
                inner,
                Vec::new(),
            );
            proof {
                assert(items@.take(i + 1).drop_last() =~= items@.take(i as int));
                assert(items@.take(i + 1).last() == items@[i as int]);
                assert(members@.drop_last() =~= before);
                assert forall|k: MemberKind| #[trigger] members_of(members@, k) == trait_links(
                    items@.take(i + 1),
                    path@,
                    k,
                ) by {
                    assert(members_of(before, k) == trait_links(items@.take(i as int), path@, k));
                }
                let prev = trait_entries(items@.take(i as int), path@, c);
                let e = entry(
                    t.name@,
                    path@.push(t.name@),
                    trait_item_type(t.node),
                    c,
                    t.attrs,
                    Visibility::Inherited,
                    InnerView::TraitItem { node: trait_item_view(t.node) },
                    seq![],
                );
                assert(groups_view(Seq::<(DocType, Vec<DocLink>)>::empty()) =~= seq![]);
                assert(start + prev.push(e) =~= (start + prev).push(e));
            }
            i = i + 1;
        }
        assert(items@.take(items@.len() as int) =~= items@);
        let links = group_members(&members, DocType::TraitItemMethod);
        proof {
            assert(members_of(members@, MemberKind::Const) == trait_links(items@, path@, MemberKind::Const));
            assert(members_of(members@, MemberKind::Method) == trait_links(items@, path@, MemberKind::Method));
            assert(members_of(members@, MemberKind::Type) == trait_links(items@, path@, MemberKind::Type));
            assert(members_of(members@, MemberKind::Macro) == trait_links(items@, path@, MemberKind::Macro));
            assert(groups_view(links@) =~= trait_groups(items@, path@));
        }
        links
    }

    /// Records the item, as found in the current module, and whatever it holds.
    pub fn visit_item(&mut self, item: &SourceItem)
        ensures
            final(self).crate_info == old(self).crate_info,
            final(self).current_scope@ == old(self).current_scope@,
            doc_entries(final(self).documents@) == doc_entries(old(self).documents@) + item_entries(
                *item,
                old(self).current_scope@,
                old(self).crate_info,
            ),
        decreases item,
    {
        let ghost start = doc_entries(self.documents@);
        let is_impl = match &item.kind {
            SourceItemKind::Impl { .. } => true,
            _ => false,
        };
        if (!is_impl && item.vis != Visibility::Public) || item.doc_hidden {
            assert(start + seq![] =~= start);
            return ;
        }
        let ghost scope = self.current_scope@;
        let ghost c = self.crate_info;
        let ghost path = scope.push(item.name@);
        let ghost no_links = groups_view(Seq::<(DocType, Vec<DocLink>)>::empty());
        assert(no_links =~= seq![]);
        match &item.kind {
            SourceItemKind::Const { ty, expr } => {
                let inner = DocInnerData::ConstDoc(
                    Constant { ty: Ty { id: NodeId(ty.id.0), name: ty.name.clone() }, expr: expr.clone() },
                );
                let p = self.make_modpath(&item.name);
                self.record(item.name.clone(), copy_attrs(&item.attrs), p, item.vis, inner, Vec::new());
                assert(start.push(item_entries(*item, scope, c)[0]) =~= start + item_entries(*item, scope, c));
            },
            SourceItemKind::Fn { header, unsafety, constness, abi } => {
                let inner = DocInnerData::FnDoc(
                    Function {
                        header: header.clone(),
                        generics: Generics {  },
                        unsafety: *unsafety,
                        constness: *constness,
                        abi: *abi,
                        kind: FnKind::ItemFn,
                    },
                );
                let p = self.make_modpath(&item.name);
                self.record(item.name.clone(), copy_attrs(&item.attrs), p, item.vis, inner, Vec::new());
                assert(start.push(item_entries(*item, scope, c)[0]) =~= start + item_entries(*item, scope, c));
            },
            SourceItemKind::Mod(items) => {
                let p = self.make_modpath(&item.name);
                self.visit_module(&item.attrs, items, p, item.name.clone(), item.vis, false);
            },
            SourceItemKind::Enum(variants) => {
                let related = variant_links(variants);
                let links = variant_links(variants);
                let p = self.make_modpath(&item.name);
                self.record(
                    item.name.clone(),
                    copy_attrs(&item.attrs),
                    p,
                    Visibility::Inherited,
                    DocInnerData::EnumDoc(Enum { variants: related }),
                    links,
                );
                assert(start.push(item_entries(*item, scope, c)[0]) =~= start + item_entries(*item, scope, c));
            },
            SourceItemKind::Struct(fields) => {
                let p = self.make_modpath(&item.name);
                let field_list = struct_field_links(fields, &p);
                let links = struct_field_links(fields, &p);
                proof {
                    assert(groups_view(field_list@) =~= field_groups(fields@, path));
                    assert(groups_view(links@) =~= field_groups(fields@, path));
                }
                self.record(
                    item.name.clone(),
                    copy_attrs(&item.attrs),
                    p,
                    item.vis,
                    DocInnerData::StructDoc(Struct { fields: field_list }),
                    links,
                );
                assert(start.push(item_entries(*item, scope, c)[0]) =~= start + item_entries(*item, scope, c));
            },
            SourceItemKind::Trait { unsafety, items } => {
                let p = self.make_modpath(&item.name);
                let links = self.visit_trait_items(&p, items);
                let ghost mid = doc_entries(self.documents@);
                self.record(
                    item.name.clone(),
                    copy_attrs(&item.attrs),
                    p,
                    item.vis,
                    DocInnerData::TraitDoc(Trait { unsafety: *unsafety }),
                    links,
                );
                let ghost own = entry(
                    item.name@,
                    path,
                    DocType::Trait,
                    c,
                    item.attrs,
                    item.vis,
                    InnerView::Trait { unsafety: *unsafety },
                    trait_groups(items@, path),
                );
                assert(mid.push(own) =~= start + trait_entries(items@, path, c).push(own));
            },
            SourceItemKind::Impl { self_ty, methods } => {
                self.visit_impl(self_ty, methods);
            },
            SourceItemKind::Other => {
                assert(start + seq![] =~= start);
            },
        }
    }

    /// Records the items of a module at `path` (inside it), then the module itself.
    fn visit_module(
        &mut self,
        attrs: &Attributes,
        items: &Vec<SourceItem>,
        path: ModPath,
        name: String,
        vis: Visibility,
        is_crate: bool,
    )
        ensures
            final(self).crate_info == old(self).crate_info,
            final(self).current_scope@ == old(self).current_scope@,
            doc_entries(final(self).documents@) == doc_entries(old(self).documents@) + items_entries(
                items@,
                path@,
                old(self).crate_info,
            ).push(
                entry(
                    name@,
                    path@,
                    DocType::Module,
                    old(self).crate_info,
                    *attrs,
                    vis,
                    InnerView::Module { is_crate },
                    seq![],
                ),
            ),
        decreases items@,
    {
        let ghost start = doc_entries(self.documents@);
        let outer = self.current_scope.clone();
        self.current_scope = path.clone();
        let mut i: usize = 0;
        assert(items@.subrange(0, 0) =~= Seq::<SourceItem>::empty());
        assert(start + seq![] =~= start);
        while i < items.len()
            invariant
                i <= items@.len(),
                self.crate_info == old(self).crate_info,
                self.current_scope@ == path@,
                outer@ == old(self).current_scope@,
                start == doc_entries(old(self).documents@),
                doc_entries(self.documents@) == start + items_entries(
                    items@.subrange(0, i as int),
                    path@,
                    old(self).crate_info,
                ),
            decreases items@.len() - i,
        {
            let ghost prev = items_entries(items@.subrange(0, i as int), path@, old(self).crate_info);
            self.visit_item(&items[i]);
            proof {
                let s = items@.subrange(0, i + 1);
                assert(s.subrange(0, s.len() - 1) =~= items@.subrange(0, i as int));
                assert(s[s.len() - 1] == items@[i as int]);
                let e = item_entries(items@[i as int], path@, old(self).crate_info);
                assert(start + prev + e =~= start + (prev + e));
            }
            i = i + 1;
        }
        assert(items@.subrange(0, items@.len() as int) =~= items@);
        self.current_scope = outer;
        assert(groups_view(Seq::<(DocType, Vec<DocLink>)>::empty()) =~= seq![]);
        self.record(name, copy_attrs(attrs), path, vis, DocInnerData::ModuleDoc(Module { is_crate }), Vec::new());
    }

    /// Records the crate's root module, named after the crate, and everything documented
    /// inside it.
    pub fn visit_crate(&mut self, attrs: &Attributes, items: &Vec<SourceItem>)
        ensures
            final(self).crate_info == old(self).crate_info,
            doc_entries(final(self).documents@) == doc_entries(old(self).documents@) + items_entries(
                items@,
                seq![old(self).crate_info.name@],
                old(self).crate_info,
            ).push(
                entry(
                    old(self).crate_info.name@,
                    seq![old(self).crate_info.name@],
                    DocType::Module,
                    old(self).crate_info,
                    *attrs,
                    Visibility::Public,
                    InnerView::Module { is_crate: true },
                    seq![],
                ),
            ),
    {
        let mut root = ModPath::new();
        root.push_string(self.crate_info.name.clone());
        assert(root@ =~= seq![self.crate_info.name@]);
        let name = self.crate_info.name.clone();
        self.visit_module(attrs, items, root, name, Visibility::Public, true);
    }
}

} // verus!
