//! Turning documentation records into displayable markup.

use vstd::prelude::*;

use crate::doc_types::{visibility_text, DocInnerData, NewDocTemp_, TraitItem, TraitItemKind};
use crate::document::{path_sep, Attributes, FnKind, ModPath};
use crate::text::join_seq;

verus! {

/// The escape sequence that switches the terminal to bold text.
pub open spec fn bold_on() -> Seq<char> {
    seq!['\u{1b}', '[', '1', 'm']
}

/// The escape sequence that resets all terminal styles.
pub open spec fn style_reset() -> Seq<char> {
    seq!['\u{1b}', '[', '0', 'm']
}

/// `Style::new().bold().paint(s).to_string()` from `ansi_term`: the source writes the bold
/// prefix `ESC[1m`, the text, then the reset suffix `ESC[0m`.
#[verifier::external_body]
fn paint_bold(s: String) -> (r: String)
    ensures
        r@ == bold_on() + s@ + style_reset(),
{
    ansi_term::Style::new().bold().paint(s).to_string()
}

/// One piece of displayed documentation.
#[derive(Debug)]
pub enum Markup {
    Header(String),
    Section(String),
    Block(String),
    Rule(usize),
    LineBreak,
}

/// `n` dashes.
pub open spec fn dashes(n: nat) -> Seq<char> {
    Seq::new(n, |i: int| '-')
}

/// The text a piece of markup displays as.
pub open spec fn markup_text(m: Markup) -> Seq<char> {
    match m {
        Markup::Header(t) => bold_on() + "==== "@ + t@ + style_reset(),
        Markup::Section(t) => bold_on() + "== "@ + t@ + style_reset(),
        Markup::Block(t) => t@,
        Markup::Rule(n) => dashes(n as nat),
        Markup::LineBreak => "\n"@,
    }
}

impl Markup {
    /// The text this piece displays as.
    pub fn to_string(&self) -> (r: String)
        ensures
            r@ == markup_text(*self),
    {
        match self {
            Markup::Header(text) => {
                let mut s = "==== ".to_owned();
                s.append(text.as_str());
                paint_bold(s)
            },
            Markup::Section(text) => {
                let mut s = "== ".to_owned();
                s.append(text.as_str());
                paint_bold(s)
            },
            Markup::Block(text) => text.clone(),
            Markup::Rule(count) => {
                let mut s = String::new();
                let mut i: usize = 0;
                while i < *count
                    invariant
                        i <= *count,
                        s@ == dashes(i as nat),
                    decreases *count - i,
                {
                    crate::text::push_char(&mut s, '-');
                    assert(s@ =~= dashes((i + 1) as nat));
                    i = i + 1;
                }
                s
            },
            Markup::LineBreak => "\n".to_owned(),
        }
    }
}

/// A displayable document: a list of markup pieces.
#[derive(Debug)]
pub struct MarkupDoc {
    pub parts: Vec<Markup>,
}

/// The text of a document: each piece followed by a newline.
pub open spec fn doc_text(parts: Seq<Markup>) -> Seq<char>
    decreases parts.len(),
{
    if parts.len() == 0 {
        seq![]
    } else {
        doc_text(parts.drop_last()) + markup_text(parts.last()) + "\n"@
    }
}

impl MarkupDoc {
    /// A document made of `parts`.
    pub fn new(parts: Vec<Markup>) -> (r: Self)
        ensures
            r.parts@ == parts@,
    {
        MarkupDoc { parts }
    }

    /// The text of the document: each piece followed by a newline.
    pub fn to_string(&self) -> (r: String)
        ensures
            r@ == doc_text(self.parts@),
    {
        let mut res = String::new();
        let mut i: usize = 0;
        while i < self.parts.len()
            invariant
                i <= self.parts@.len(),
                res@ == doc_text(self.parts@.take(i as int)),
            decreases self.parts@.len() - i,
        {
            let piece = self.parts[i].to_string();
            res.append(piece.as_str());
            res.append("\n");
            assert(self.parts@.take(i + 1).drop_last() =~= self.parts@.take(i as int));
            i = i + 1;
        }
        assert(self.parts@.take(self.parts@.len() as int) =~= self.parts@);
        res
    }
}

/// Something that can be shown as a markup document.
pub trait Format {
    /// Whether this value can be formatted.
    spec fn formattable(&self) -> bool;

    /// This value as a markup document.
    fn format(&self) -> MarkupDoc
        requires
            self.formattable(),
    ;
}

/// The text of a module path: its segments joined with `::`.
pub open spec fn path_text(p: Seq<Seq<char>>) -> Seq<char> {
    join_seq(p, path_sep())
}

impl Format for ModPath {
    open spec fn formattable(&self) -> bool {
        true
    }

    fn format(&self) -> (r: MarkupDoc)
        ensures
            r.parts@.len() == 1,
            r.parts@[0] matches Markup::Header(t) && t@ == path_text(self@),
    {
        MarkupDoc::new(vec![Markup::Header(self.to_string())])
    }
}

/// The documentation comments of an item, one per line.
pub open spec fn docs_text(a: Attributes) -> Seq<char> {
    join_seq(a.doc_strings@.map_values(|s: String| s@), "\n"@)
}

impl Format for Attributes {
    open spec fn formattable(&self) -> bool {
        true
    }

    fn format(&self) -> (r: MarkupDoc)
        ensures
            r.parts@.len() == 3,
            r.parts@[0] is LineBreak,
            r.parts@[1] matches Markup::Block(t) && t@ == docs_text(*self),
            r.parts@[2] is LineBreak,
    {
        let body = crate::text::join_strs(&self.doc_strings, "\n");
        MarkupDoc::new(vec![Markup::LineBreak, Markup::Block(body), Markup::LineBreak])
    }
}

/// The text of the enclosing item's path, for a record whose path has a parent.
pub open spec fn parent_text(data: NewDocTemp_) -> Seq<char> {
    path_text(data.mod_path@.drop_last())
}

/// The line that says where a record's item lives; `None` for modules, which get a blank line.
pub open spec fn inner_info_text(data: NewDocTemp_) -> Option<Seq<char>> {
    match data.inner_data {
        DocInnerData::FnDoc(func) => match func.kind {
            FnKind::MethodFromImpl => Some("Impl on type "@ + parent_text(data)),
            _ => Some("In module "@ + parent_text(data)),
        },
        DocInnerData::TraitItemDoc(..) => Some("From trait "@ + parent_text(data)),
        DocInnerData::ModuleDoc(..) => None,
        _ => Some("In module "@ + parent_text(data)),
    }
}

/// Where a documentation page says its item lives, above the signature: a method of an impl
/// on the type it belongs to ("Impl on type" and the type's path), a trait member in its trait
/// ("From trait" and the trait's path), a module nowhere (a blank line), and any other item
/// ("In module") in the module holding it. Each time the path is the record's own path less
/// its last segment.
pub proof fn lemma_location_line(data: NewDocTemp_)
    ensures
        data.inner_data matches DocInnerData::FnDoc(f) && f.kind is MethodFromImpl ==> inner_info_text(
            data,
        ) == Some("Impl on type "@ + path_text(data.mod_path@.drop_last())),
        data.inner_data matches DocInnerData::FnDoc(f) && !(f.kind is MethodFromImpl) ==> inner_info_text(
            data,
        ) == Some("In module "@ + path_text(data.mod_path@.drop_last())),
        data.inner_data is TraitItemDoc ==> inner_info_text(data) == Some(
            "From trait "@ + path_text(data.mod_path@.drop_last()),
        ),
        data.inner_data is ModuleDoc ==> inner_info_text(data) is None,
        data.inner_data is StructDoc || data.inner_data is ConstDoc || data.inner_data is EnumDoc
            || data.inner_data is TraitDoc ==> inner_info_text(data) == Some(
            "In module "@ + path_text(data.mod_path@.drop_last()),
        ),
{
}

/// Whether a record can be formatted: every record but a module's shows the path of its
/// parent, so its path needs more than one segment.
pub open spec fn record_formattable(data: NewDocTemp_) -> bool {
    data.inner_data is ModuleDoc || data.mod_path@.len() > 1
}

/// The text of the parent path of `data`'s item.
fn parent_string(data: &NewDocTemp_) -> (r: String)
    requires
        data.mod_path@.len() > 1,
    ensures
        r@ == parent_text(*data),
{
    match data.mod_path.parent() {
        Some(p) => p.to_string(),
        None => String::new(),
    }
}

fn prefixed(prefix: &str, rest: String) -> (r: String)
    ensures
        r@ == prefix@ + rest@,
{
    let mut s = prefix.to_owned();
    s.append(rest.as_str());
    s
}

/// The markup saying where the record's item lives.
fn doc_inner_info(data: &NewDocTemp_) -> (r: MarkupDoc)
    requires
        record_formattable(*data),
    ensures
        r.parts@.len() == 1,
        inner_info_text(*data) matches Some(t) ==> r.parts@[0] matches Markup::Header(h) && h@ == t,
        inner_info_text(*data) is None ==> r.parts@[0] is LineBreak,
{
    let markup = match &data.inner_data {
        DocInnerData::FnDoc(func) => match func.kind {
            FnKind::MethodFromImpl => Markup::Header(prefixed("Impl on type ", parent_string(data))),
            _ => Markup::Header(prefixed("In module ", parent_string(data))),
        },
        DocInnerData::StructDoc(..)
        | DocInnerData::ConstDoc(..)
        | DocInnerData::EnumDoc(..)
        | DocInnerData::TraitDoc(..) => Markup::Header(prefixed("In module ", parent_string(data))),
        DocInnerData::TraitItemDoc(..) => Markup::Header(prefixed("From trait ", parent_string(data))),
        DocInnerData::ModuleDoc(..) => Markup::LineBreak,
    };
    MarkupDoc::new(vec![markup])
}

/// The signature line of a trait item named `name`.
pub open spec fn trait_item_text(name: Seq<char>, item: TraitItem) -> Seq<char> {
    match item.node {
        TraitItemKind::Const(ty, expr) => "const "@ + name + ": "@ + ty@ + " = "@ + (match expr {
            Some(e) => e@,
            None => ""@,
        }),
        TraitItemKind::Method(sig) => "fn "@ + name + " "@ + sig.header@,
        TraitItemKind::Type(ty) => "type "@ + (match ty {
            Some(t) => t@,
            None => ""@,
        }),
        TraitItemKind::Macro(mac) => "macro "@ + name + " "@ + mac@,
    }
}

/// The signature line of a trait item record.
fn trait_item(data: &NewDocTemp_, item: &TraitItem) -> (r: String)
    ensures
        r@ == trait_item_text(data.name@, *item),
{
    proof {
        reveal_strlit("");
    }
    match &item.node {
        TraitItemKind::Const(ty, expr) => {
            let mut s = "const ".to_owned();
            s.append(data.name.as_str());
            s.append(": ");
            s.append(ty.as_str());
            s.append(" = ");
            match expr {
                Some(e) => s.append(e.as_str()),
                None => {},
            }
            s
        },
        TraitItemKind::Method(sig) => {
            let mut s = "fn ".to_owned();
            s.append(data.name.as_str());
            s.append(" ");
            s.append(sig.header.as_str());
            s
        },
        TraitItemKind::Type(ty) => {
            let mut s = "type ".to_owned();
            match ty {
                Some(t) => s.append(t.as_str()),
                None => {},
            }
            s
        },
        TraitItemKind::Macro(mac) => {
            let mut s = "macro ".to_owned();
            s.append(data.name.as_str());
            s.append(" ");
            s.append(mac.as_str());
            s
        },
    }
}

/// The signature text of a record, without its visibility.
pub open spec fn header_text(data: NewDocTemp_) -> Seq<char> {
    match data.inner_data {
        DocInnerData::FnDoc(func) => "fn "@ + data.name@ + " "@ + func.header@,
        DocInnerData::ModuleDoc(..) => "mod "@ + path_text(data.mod_path@),
        DocInnerData::EnumDoc(..) => "enum "@ + data.name@,
        DocInnerData::StructDoc(..) => "struct "@ + data.name@ + " { /* fields omitted */ }"@,
        DocInnerData::ConstDoc(c) => "const "@ + data.name@ + ": "@ + c.ty.name@ + " = "@ + c.expr@,
        DocInnerData::TraitDoc(..) => "trait "@ + data.name@ + " { /* fields omitted */ }"@,
        DocInnerData::TraitItemDoc(item) => trait_item_text(data.name@, item),
    }
}

/// The full signature line of a record: its visibility keyword, a space, then its signature.
pub open spec fn signature_text(data: NewDocTemp_) -> Seq<char> {
    (match data.visibility {
        Some(v) => visibility_text(v),
        None => ""@,
    }) + " "@ + header_text(data)
}

/// The signature block of a record, between two rules.
fn doc_signature(data: &NewDocTemp_) -> (r: MarkupDoc)
    ensures
        r.parts@.len() == 4,
        r.parts@[0] == Markup::Rule(10),
        r.parts@[1] matches Markup::Block(b) && b@ == signature_text(*data),
        r.parts@[2] is LineBreak,
        r.parts@[3] == Markup::Rule(10),
{
    proof {
        reveal_strlit("");
    }
    let vis_string = match &data.visibility {
        Some(v) => v.to_string(),
        None => String::new(),
    };
    let header = match &data.inner_data {
        DocInnerData::FnDoc(func) => {
            let mut s = "fn ".to_owned();
            s.append(data.name.as_str());
            s.append(" ");
            s.append(func.header.as_str());
            s
        },
        DocInnerData::ModuleDoc(..) => prefixed("mod ", data.mod_path.to_string()),
        DocInnerData::EnumDoc(..) => prefixed("enum ", data.name.clone()),
        DocInnerData::StructDoc(..) => {
            let mut s = "struct ".to_owned();
            s.append(data.name.as_str());
            s.append(" { /* fields omitted */ }");
            s
        },
        DocInnerData::ConstDoc(c) => {
            let mut s = "const ".to_owned();
            s.append(data.name.as_str());
            s.append(": ");
            s.append(c.ty.name.as_str());
            s.append(" = ");
            s.append(c.expr.as_str());
            s
        },
        DocInnerData::TraitDoc(..) => {
            let mut s = "trait ".to_owned();
            s.append(data.name.as_str());
            s.append(" { /* fields omitted */ }");
            s
        },
        DocInnerData::TraitItemDoc(item) => trait_item(data, item),
    };
    let mut line = vis_string;
    line.append(" ");
    line.append(header.as_str());
    MarkupDoc::new(vec![Markup::Rule(10), Markup::Block(line), Markup::LineBreak, Markup::Rule(10)])
}

impl Format for NewDocTemp_ {
    open spec fn formattable(&self) -> bool {
        record_formattable(*self)
    }

    fn format(&self) -> (r: MarkupDoc)
        ensures
            r.parts@.len() == 9,
            r.parts@[0] matches Markup::Header(t) && t@ == path_text(self.mod_path@),
            inner_info_text(*self) matches Some(t) ==> r.parts@[1] matches Markup::Header(h) && h@ == t,
            inner_info_text(*self) is None ==> r.parts@[1] is LineBreak,
            self.inner_data matches DocInnerData::FnDoc(f) && f.kind is MethodFromImpl
                ==> (r.parts@[1] matches Markup::Header(h) && h@ == "Impl on type "@ + path_text(
                self.mod_path@.drop_last(),
            )),
            r.parts@[2] == Markup::Rule(10),
            r.parts@[3] matches Markup::Block(b) && b@ == signature_text(*self),
            r.parts@[4] is LineBreak,
            r.parts@[5] == Markup::Rule(10),
            r.parts@[6] is LineBreak,
            r.parts@[7] matches Markup::Block(t) && t@ == docs_text(self.attrs),
            r.parts@[8] is LineBreak,
    {
        proof {
            lemma_location_line(*self);
        }
        let header = self.mod_path.format();
        let info = doc_inner_info(self);
        let signature = doc_signature(self);
        let body = self.attrs.format();
        let mut result: Vec<Markup> = Vec::new();
        let mut header_parts = header.parts;
        let mut info_parts = info.parts;
        let mut signature_parts = signature.parts;
        let mut body_parts = body.parts;
        result.append(&mut header_parts);
        result.append(&mut info_parts);
        result.append(&mut signature_parts);
        result.append(&mut body_parts);
        MarkupDoc::new(result)
    }
}

} // verus!
