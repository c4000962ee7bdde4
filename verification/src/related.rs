//! Grouping the members of traits, impls and structs into the related-item listings of a
//! document.

use vstd::prelude::*;

use crate::doc_types::{DocLink, DocRelatedItems, DocType};
use crate::document::ModPath;

verus! {

/// What a member of a trait or an impl is.
#[derive(PartialEq, Eq, Structural, Clone, Copy, Debug)]
pub enum MemberKind {
    Const,
    Method,
    Type,
    Macro,
}

/// A link as plain values: the name shown and the path linked to.
pub open spec fn link_view(l: DocLink) -> (Seq<char>, Seq<Seq<char>>) {
    (l.name@, l.path@)
}

/// A list of links as plain values.
pub open spec fn links_view(v: Seq<DocLink>) -> Seq<(Seq<char>, Seq<Seq<char>>)> {
    v.map_values(|l: DocLink| link_view(l))
}

/// The links of the members of kind `k`, in order.
pub open spec fn members_of(members: Seq<(MemberKind, DocLink)>, k: MemberKind) -> Seq<
    (Seq<char>, Seq<Seq<char>>),
>
    decreases members.len(),
{
    if members.len() == 0 {
        seq![]
    } else {
        let r = members_of(members.drop_last(), k);
        if members.last().0 == k {
            r.push(link_view(members.last().1))
        } else {
            r
        }
    }
}

/// A copy of a link.
pub fn copy_link(l: &DocLink) -> (r: DocLink)
    ensures
        link_view(r) == link_view(*l),
{
    DocLink { name: l.name.clone(), path: l.path.clone() }
}

/// The links of the members of kind `k`, in order.
fn links_of_kind(members: &Vec<(MemberKind, DocLink)>, k: MemberKind) -> (r: Vec<DocLink>)
    ensures
        links_view(r@) == members_of(members@, k),
{
    let mut r: Vec<DocLink> = Vec::new();
    let mut i: usize = 0;
    while i < members.len()
        invariant
            i <= members@.len(),
            links_view(r@) == members_of(members@.take(i as int), k),
        decreases members@.len() - i,
    {
        let ghost before = r@;
        proof {
            assert(members@.take(i + 1).drop_last() =~= members@.take(i as int));
            assert(members@.take(i + 1).last() == members@[i as int]);
        }
        if members[i].0 == k {
            r.push(copy_link(&members[i].1));
            assert(r@.drop_last() =~= before);
            assert(links_view(r@) =~= links_view(before).push(link_view(members@[i as int].1)));
        }
        i = i + 1;
    }
    assert(members@.take(members@.len() as int) =~= members@);
    r
}

/// The listings of a trait's or an impl's members: associated constants, then the methods
/// (under `method_type`), then associated types, then macros, each in the order the members
/// come.
pub fn group_members(members: &Vec<(MemberKind, DocLink)>, method_type: DocType) -> (r: DocRelatedItems)
    ensures
        r@.len() == 4,
        r@[0].0 == DocType::AssocConst,
        r@[1].0 == method_type,
        r@[2].0 == DocType::AssocType,
        r@[3].0 == DocType::Macro,
        links_view(r@[0].1@) == members_of(members@, MemberKind::Const),
        links_view(r@[1].1@) == members_of(members@, MemberKind::Method),
        links_view(r@[2].1@) == members_of(members@, MemberKind::Type),
        links_view(r@[3].1@) == members_of(members@, MemberKind::Macro),
{
    let consts = links_of_kind(members, MemberKind::Const);
    let methods = links_of_kind(members, MemberKind::Method);
    let types = links_of_kind(members, MemberKind::Type);
    let macros = links_of_kind(members, MemberKind::Macro);
    let mut links: DocRelatedItems = Vec::new();
    links.push((DocType::AssocConst, consts));
    links.push((method_type, methods));
    links.push((DocType::AssocType, types));
    links.push((DocType::Macro, macros));
    links
}

/// The links of the named fields of a struct at `path`: each field's name, linking to the
/// struct's path followed by that name; unnamed (tuple) fields are left out.
pub open spec fn field_links(fields: Seq<Option<String>>, path: Seq<Seq<char>>) -> Seq<
    (Seq<char>, Seq<Seq<char>>),
>
    decreases fields.len(),
{
    if fields.len() == 0 {
        seq![]
    } else {
        let r = field_links(fields.drop_last(), path);
        match fields.last() {
            Some(name) => r.push((name@, path.push(name@))),
            None => r,
        }
    }
}

/// The listing of a struct's fields: the named ones, each linking to its path under the
/// struct's.
pub fn struct_field_links(fields: &Vec<Option<String>>, path: &ModPath) -> (r: DocRelatedItems)
    ensures
        r@.len() == 1,
        r@[0].0 == DocType::StructField,
        links_view(r@[0].1@) == field_links(fields@, path@),
{
    let mut links: Vec<DocLink> = Vec::new();
    let mut i: usize = 0;
    while i < fields.len()
        invariant
            i <= fields@.len(),
            links_view(links@) == field_links(fields@.take(i as int), path@),
        decreases fields@.len() - i,
    {
        let ghost before = links@;
        proof {
            assert(fields@.take(i + 1).drop_last() =~= fields@.take(i as int));
            assert(fields@.take(i + 1).last() == fields@[i as int]);
        }
        match &fields[i] {
            Some(name) => {
                let mut p = path.clone();
                p.push_string(name.clone());
                links.push(DocLink { name: name.clone(), path: p });
                assert(links@.drop_last() =~= before);
                assert(links_view(links@) =~= links_view(before).push((name@, path@.push(name@))));
            },
            None => {},
        }
        i = i + 1;
    }
    assert(fields@.take(fields@.len() as int) =~= fields@);
    let mut r: DocRelatedItems = Vec::new();
    r.push((DocType::StructField, links));
    r
}

/// The link of a member named `name` of the item at `path`: the name, linking to `path`
/// followed by it.
pub fn member_link(path: &ModPath, name: &str) -> (r: DocLink)
    ensures
        link_view(r) == (name@, path@.push(name@)),
{
    let mut p = path.clone();
    p.push_string(name.to_owned());
    DocLink { name: name.to_owned(), path: p }
}

} // verus!
