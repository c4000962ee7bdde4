//! Box trees as plain values: what a box is, where and how it is drawn, and the boxes inside
//! it, with the texts as sequences of characters. The builders of `dombox` are stated over
//! these values here.

use vstd::prelude::*;

use crate::dombox::{
    appended_child, appended_inline, fresh_box, has_open_line, inline_style, is_inline, zero_size,
    BoxKind, BoxSize, DomBox, DomStyle,
};

verus! {

/// A box kind as a plain value.
pub enum KindView {
    Text(Seq<char>),
    Break,
    InlineContainer,
    Inline,
    Block,
    Header(u8),
    List(Option<u16>),
    ListBullet,
    Table,
    TableColumn,
    TableItem,
    Image,
}

/// A box as a plain value: its kind, size, style and the boxes inside it.
pub struct BoxView {
    pub kind: KindView,
    pub size: BoxSize,
    pub style: DomStyle,
    pub children: Seq<BoxView>,
}

/// The plain value of a box kind.
pub open spec fn kind_view(k: BoxKind) -> KindView {
    match k {
        BoxKind::Text(t) => KindView::Text(t@),
        BoxKind::Break => KindView::Break,
        BoxKind::InlineContainer => KindView::InlineContainer,
        BoxKind::Inline => KindView::Inline,
        BoxKind::Block => KindView::Block,
        BoxKind::Header(l) => KindView::Header(l),
        BoxKind::List(s) => KindView::List(s),
        BoxKind::ListBullet => KindView::ListBullet,
        BoxKind::Table => KindView::Table,
        BoxKind::TableColumn => KindView::TableColumn,
        BoxKind::TableItem => KindView::TableItem,
        BoxKind::Image => KindView::Image,
    }
}

/// The plain value of a box.
pub open spec fn box_view(b: DomBox) -> BoxView
    decreases b,
{
    BoxView { kind: kind_view(b.kind), size: b.size, style: b.style, children: boxes_view(b.children@) }
}

/// The plain values of a list of boxes.
pub open spec fn boxes_view(s: Seq<DomBox>) -> Seq<BoxView>
    decreases s,
{
    if s.len() == 0 {
        seq![]
    } else {
        boxes_view(s.subrange(0, s.len() - 1)).push(box_view(s[s.len() - 1]))
    }
}

/// The plain value of a box that may be there.
pub open spec fn opt_view(b: Option<DomBox>) -> Option<BoxView> {
    match b {
        Some(x) => Some(box_view(x)),
        None => None,
    }
}

/// A fresh box: the given kind and style, an empty size, no children.
pub open spec fn fresh_view(kind: KindView, style: DomStyle) -> BoxView {
    BoxView { kind, size: zero_size(), style, children: seq![] }
}

/// `p` with `c` added as its last child.
pub open spec fn push_view(p: BoxView, c: BoxView) -> BoxView {
    BoxView { children: p.children.push(c), ..p }
}

/// Whether inline content added to `p` goes into `p` itself.
pub open spec fn inline_kind(p: BoxView) -> bool {
    p.kind is Inline || p.kind is InlineContainer
}

/// Whether `p`'s last child is a line that takes inline content added to `p`.
pub open spec fn open_line(p: BoxView) -> bool {
    p.children.len() > 0 && p.children.last().kind is InlineContainer
}

/// The style inline content added to `p` takes.
pub open spec fn inline_style_view(p: BoxView) -> DomStyle {
    if inline_kind(p) {
        p.style
    } else if open_line(p) {
        p.children.last().style
    } else {
        p.style
    }
}

/// `p` with `c` added to its inline content: into `p` where it is inline, else into its last
/// line where it ends with one, else into a new line with `p`'s style.
pub open spec fn inline_view(p: BoxView, c: BoxView) -> BoxView {
    if inline_kind(p) {
        push_view(p, c)
    } else if open_line(p) {
        BoxView {
            children: p.children.update(p.children.len() - 1, push_view(p.children.last(), c)),
            ..p
        }
    } else {
        push_view(p, BoxView { kind: KindView::InlineContainer, size: zero_size(), style: p.style, children: seq![c] })
    }
}

/// The plain values of a list with one more box at the end.
pub proof fn lemma_boxes_view_push(s: Seq<DomBox>, x: DomBox)
    ensures
        boxes_view(s.push(x)) == boxes_view(s).push(box_view(x)),
        boxes_view(s).len() == s.len(),
{
    assert(s.push(x).subrange(0, s.len() as int) =~= s);
    lemma_boxes_view_len(s);
}

/// As many plain values as boxes, each the value of its box.
pub proof fn lemma_boxes_view_len(s: Seq<DomBox>)
    ensures
        boxes_view(s).len() == s.len(),
        forall|i: int| 0 <= i < s.len() ==> #[trigger] boxes_view(s)[i] == box_view(s[i]),
    decreases s.len(),
{
    if s.len() > 0 {
        let t = s.subrange(0, s.len() - 1);
        lemma_boxes_view_len(t);
        assert forall|i: int| 0 <= i < s.len() implies #[trigger] boxes_view(s)[i] == box_view(s[i]) by {
            if i < s.len() - 1 {
                assert(boxes_view(t)[i] == box_view(t[i]));
            }
        }
    }
}

/// The plain values of a list with its last box replaced.
pub proof fn lemma_boxes_view_update_last(s: Seq<DomBox>, x: DomBox)
    requires
        s.len() > 0,
    ensures
        boxes_view(s.update(s.len() - 1, x)) == boxes_view(s).update(s.len() - 1, box_view(x)),
{
    let u = s.update(s.len() - 1, x);
    assert(u.subrange(0, u.len() - 1) =~= s.subrange(0, s.len() - 1));
    lemma_boxes_view_len(s);
    lemma_boxes_view_len(s.subrange(0, s.len() - 1));
    assert(boxes_view(u) =~= boxes_view(s).update(s.len() - 1, box_view(x)));
}

/// A fresh box has the plain value of a fresh box.
pub proof fn lemma_fresh_view(b: DomBox, kind: BoxKind, style: DomStyle)
    requires
        fresh_box(b, kind, style),
    ensures
        box_view(b) == fresh_view(kind_view(kind), style),
{
    assert(boxes_view(b.children@) =~= Seq::<BoxView>::empty());
}

/// A box without children, as a plain value.
pub proof fn lemma_childless_view(b: DomBox)
    requires
        b.children@.len() == 0,
    ensures
        box_view(b) == (BoxView { kind: kind_view(b.kind), size: b.size, style: b.style, children: seq![] }),
{
    assert(boxes_view(b.children@) =~= Seq::<BoxView>::empty());
}

/// Adding a child adds its plain value.
pub proof fn lemma_appended_child_view(before: DomBox, after: DomBox, child: DomBox)
    requires
        appended_child(before, after, child),
    ensures
        box_view(after) == push_view(box_view(before), box_view(child)),
{
    lemma_boxes_view_push(before.children@, child);
}

/// The style inline content takes, over plain values.
pub proof fn lemma_inline_style_view(b: DomBox)
    ensures
        inline_style(b) == inline_style_view(box_view(b)),
        is_inline(b) == inline_kind(box_view(b)),
        has_open_line(b) == open_line(box_view(b)),
{
    lemma_boxes_view_len(b.children@);
    if b.children@.len() > 0 {
        let n = b.children@.len() - 1;
        assert(boxes_view(b.children@)[n] == box_view(b.children@[n]));
    }
}

/// Adding inline content adds its plain value to the inline content.
pub proof fn lemma_appended_inline_view(before: DomBox, after: DomBox, child: DomBox)
    requires
        appended_inline(before, after, child),
    ensures
        box_view(after) == inline_view(box_view(before), box_view(child)),
{
    lemma_inline_style_view(before);
    if is_inline(before) {
        lemma_appended_child_view(before, after, child);
    } else {
        let b = before.children@;
        let a = after.children@;
        lemma_boxes_view_len(b);
        lemma_boxes_view_len(a);
        if has_open_line(before) {
            lemma_appended_child_view(b.last(), a.last(), child);
            assert forall|i: int| 0 <= i < a.len() implies a[i] == b.update(b.len() - 1, a.last())[i] by {
                if i < a.len() - 1 {
                    assert(a[i] == a.drop_last()[i]);
                    assert(b[i] == b.drop_last()[i]);
                }
            }
            assert(a =~= b.update(b.len() - 1, a.last()));
            lemma_boxes_view_update_last(b, a.last());
            assert(boxes_view(b)[b.len() - 1] == box_view(b.last()));
        } else {
            lemma_boxes_view_push(b, a.last());
            assert(a =~= b.push(a.last()));
            let line = a.last();
            lemma_boxes_view_push(Seq::<DomBox>::empty(), child);
            assert(line.children@ =~= Seq::<DomBox>::empty().push(child));
            assert(boxes_view(Seq::<DomBox>::empty()) =~= Seq::<BoxView>::empty());
            assert(boxes_view(line.children@) =~= seq![box_view(child)]);
        }
    }
}

} // verus!
