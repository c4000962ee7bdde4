//! Laying out a box tree: giving every box its place and size, and cutting lines that do not
//! fit the width into several lines.

use vstd::prelude::*;
use vstd::utf8::{encode_utf8, is_char_boundary};

use crate::dombox::{appended_child, appended_inline, has_open_line, is_inline, split_at_in_place, BoxKind, BoxSize, DomBox, Rect};

verus! {

/// The display width of a text on a terminal, in cells (`UnicodeWidthStr::width`).
pub uninterp spec fn display_width(s: Seq<char>) -> usize;

/// `unicode_width::UnicodeWidthStr::width`: the number of terminal cells the text takes. Its
/// source folds over the characters starting from zero, so an empty text takes none; the
/// width each character adds comes from the Unicode tables (and from its neighbours) and is
/// left unstated here.
#[verifier::external_body]
pub(crate) fn text_width(s: &str) -> (r: usize)
    ensures
        r == display_width(s@),
        s@.len() == 0 ==> r == 0,
{
    unicode_width::UnicodeWidthStr::width(s)
}

/// Where the grapheme cluster at position `pos` (counted in clusters) of a text starts, in
/// bytes (`UnicodeSegmentation::grapheme_indices(s, true).nth(pos)`).
pub uninterp spec fn grapheme_start(s: Seq<char>, pos: usize) -> Option<usize>;

/// `unicode_segmentation::UnicodeSegmentation::grapheme_indices` (extended clusters), its
/// `nth(pos)` and the cluster's byte offset. The offsets that the iterator yields are where
/// its non-empty clusters start, in increasing order from 0: each is a character boundary
/// inside the text, and every cluster after the first starts after byte 0. Which offsets
/// they are comes from the Unicode segmentation rules and is left unstated here.
#[verifier::external_body]
fn nth_grapheme_start(s: &str, pos: usize) -> (r: Option<usize>)
    ensures
        r == grapheme_start(s@, pos),
        r matches Some(n) ==> n < encode_utf8(s@).len() && is_char_boundary(encode_utf8(s@), n as int),
        r matches Some(n) ==> (pos > 0 ==> n > 0),
{
    unicode_segmentation::UnicodeSegmentation::grapheme_indices(s, true).nth(pos).map(|g| g.0)
}

/// `str::len`: the number of bytes of the text's UTF-8 encoding. (A string never holds more
/// bytes than `usize` counts; Rust caps every allocation at `isize::MAX` bytes.)
#[verifier::external_body]
fn byte_len(s: &str) -> (r: usize)
    ensures
        r == encode_utf8(s@).len(),
{
    s.len()
}

/// The byte position where a text is cut so that its first `pos` grapheme clusters stay:
/// the start of cluster `pos`, or the end of the text where it has no more clusters.
fn findsplit(s: &str, pos: usize) -> (r: usize)
    ensures
        r == (match grapheme_start(s@, pos) {
            Some(n) => n,
            None => encode_utf8(s@).len() as usize,
        }),
        r as int == (match grapheme_start(s@, pos) {
            Some(n) => n as int,
            None => encode_utf8(s@).len() as int,
        }),
        is_char_boundary(encode_utf8(s@), r as int),
        pos > 0 && s@.len() > 0 ==> r > 0,
{
    proof {
        vstd::utf8::encode_utf8_valid_utf8(s@);
        vstd::utf8::is_char_boundary_start_end_of_seq(encode_utf8(s@));
        if s@.len() > 0 {
            assert(encode_utf8(s@).len() > 0) by {
                reveal_with_fuel(encode_utf8, 1);
                vstd::utf8::char_is_scalar(s@[0]);
            }
        }
    }
    match nth_grapheme_start(s, pos) {
        Some(n) => n,
        None => byte_len(s),
    }
}

/// What laying out a box asks of the box that holds it.
pub enum LayoutRes {
    /// The box fits.
    Normal,
    /// The box was cut; the given box holds the rest and goes right after it.
    CutHere(DomBox),
    /// The box cannot start where it stands; it goes on the next line.
    Reject,
}

/// Where the next box goes, inside the box holding it.
#[derive(Clone, Copy)]
pub struct BoxCursor {
    pub container: BoxSize,
    pub x: u16,
    pub y: u16,
}

/// The text held by a box kind.
pub open spec fn kind_text(k: BoxKind) -> Seq<char> {
    match k {
        BoxKind::Text(t) => t@,
        _ => seq![],
    }
}

/// The text shown by a box: a text box shows its text, a line break nothing, every other box
/// the text of its children, in order.
pub open spec fn box_text(b: DomBox) -> Seq<char>
    decreases b,
{
    match b.kind {
        BoxKind::Break => seq![],
        BoxKind::Text(t) => t@,
        _ => boxes_text(b.children@),
    }
}

/// The text shown by a list of boxes, one after the other.
pub open spec fn boxes_text(s: Seq<DomBox>) -> Seq<char>
    decreases s,
{
    if s.len() == 0 {
        seq![]
    } else {
        boxes_text(s.subrange(0, s.len() - 1)) + box_text(s[s.len() - 1])
    }
}

/// How much is left to lay out in a box: one for the box, one for each character of its
/// text, and what is left in its children.
pub open spec fn weight(b: DomBox) -> nat
    decreases b,
{
    1 + kind_text(b.kind).len() + weights(b.children@)
}

/// How much is left to lay out in a list of boxes.
pub open spec fn weights(s: Seq<DomBox>) -> nat
    decreases s,
{
    if s.len() == 0 {
        0
    } else {
        weights(s.subrange(0, s.len() - 1)) + weight(s[s.len() - 1])
    }
}

/// Text and inline boxes: laid out along a line.
pub open spec fn inline_level(k: BoxKind) -> bool {
    k is Text || k is Inline
}

/// Kinds that the layout knows how to place (line breaks are taken out by the box holding
/// them; tables and images are not laid out).
pub open spec fn placeable(k: BoxKind) -> bool {
    !(k is Break || k is Table || k is TableColumn || k is TableItem || k is Image)
}

/// Whether a box of kind `parent` can lay out the child `c` where it stands: blocks take line
/// breaks and block-level boxes, lists take bullets and blocks, lines and inline boxes take
/// line breaks and every placeable box.
pub open spec fn child_fits(parent: BoxKind, c: DomBox) -> bool {
    match parent {
        BoxKind::Block | BoxKind::ListBullet | BoxKind::Header(_) => c.kind is Break || (placeable(
            c.kind,
        ) && !inline_level(c.kind)),
        BoxKind::List(_) => c.kind is ListBullet || c.kind is Block,
        BoxKind::InlineContainer | BoxKind::Inline => c.kind is Break || placeable(c.kind),
        _ => true,
    }
}

/// Whether a box can be laid out: text and inline boxes have no left or right border, and
/// every child that is laid out fits where it stands and can be laid out itself.
pub open spec fn layoutable(b: DomBox) -> bool
    decreases b,
{
    &&& inline_level(b.kind) ==> b.size.border.left == 0 && b.size.border.right == 0
    &&& (b.kind is Text || b.kind is Break || children_layoutable(b.kind, b.children@))
}

/// Whether every box of `s` fits in a box of kind `parent` and can be laid out there.
pub open spec fn children_layoutable(parent: BoxKind, s: Seq<DomBox>) -> bool
    decreases s,
{
    if s.len() == 0 {
        true
    } else {
        &&& children_layoutable(parent, s.subrange(0, s.len() - 1))
        &&& child_fits(parent, s[s.len() - 1])
        &&& (s[s.len() - 1].kind is Break || layoutable(s[s.len() - 1]))
    }
}

/// Whether `a` and `b` are the same kind of box (text boxes may hold different texts).
pub open spec fn same_kind(a: BoxKind, b: BoxKind) -> bool {
    if a is Text {
        b is Text
    } else {
        a == b
    }
}

/// A box kind that shows the text of its children (all but texts and line breaks).
pub open spec fn shows_children(k: BoxKind) -> bool {
    !(k is Text || k is Break)
}

/// A box with no children, of a kind that shows its children, shows nothing.
pub proof fn lemma_empty_box_text(b: DomBox)
    requires
        shows_children(b.kind),
        b.children@.len() == 0,
    ensures
        box_text(b) == Seq::<char>::empty(),
{
}

/// Adding a child to a box that shows its children adds the child's text at the end.
pub proof fn lemma_text_appended_child(before: DomBox, after: DomBox, child: DomBox)
    requires
        appended_child(before, after, child),
        shows_children(before.kind),
    ensures
        box_text(after) == box_text(before) + box_text(child),
{
    let s = after.children@;
    assert(s.subrange(0, s.len() - 1) =~= before.children@);
    assert(s[s.len() - 1] == child);
}

/// Adding inline content to a box that shows its children adds its text at the end.
pub proof fn lemma_text_appended_inline(before: DomBox, after: DomBox, child: DomBox)
    requires
        appended_inline(before, after, child),
        shows_children(before.kind),
    ensures
        box_text(after) == box_text(before) + box_text(child),
{
    if is_inline(before) {
        lemma_text_appended_child(before, after, child);
    } else {
        let b = before.children@;
        let a = after.children@;
        if has_open_line(before) {
            lemma_text_appended_child(b.last(), a.last(), child);
            assert(a.subrange(0, a.len() - 1) =~= b.subrange(0, b.len() - 1));
            assert(a[a.len() - 1] == a.last());
            assert(b[b.len() - 1] == b.last());
        } else {
            assert(a.subrange(0, a.len() - 1) =~= b);
            lemma_boxes_single(BoxKind::InlineContainer, child);
            assert(box_text(a[a.len() - 1]) == boxes_text(seq![child]));
        }
    }
}

/// Text, weight and layout conditions of two lists of boxes one after the other.
pub proof fn lemma_boxes_concat(parent: BoxKind, a: Seq<DomBox>, b: Seq<DomBox>)
    ensures
        boxes_text(a + b) == boxes_text(a) + boxes_text(b),
        weights(a + b) == weights(a) + weights(b),
        children_layoutable(parent, a + b) == (children_layoutable(parent, a)
            && children_layoutable(parent, b)),
    decreases b.len(),
{
    if b.len() == 0 {
        assert(a + b =~= a);
        assert(boxes_text(a) + boxes_text(b) =~= boxes_text(a));
    } else {
        let b0 = b.subrange(0, b.len() - 1);
        lemma_boxes_concat(parent, a, b0);
        assert((a + b).subrange(0, (a + b).len() - 1) =~= a + b0);
        assert((a + b)[(a + b).len() - 1] == b[b.len() - 1]);
        assert(boxes_text(a + b) =~= boxes_text(a) + boxes_text(b));
    }
}

/// The text, weight and layout conditions of a single box as a list.
pub proof fn lemma_boxes_single(parent: BoxKind, x: DomBox)
    ensures
        boxes_text(seq![x]) == box_text(x),
        weights(seq![x]) == weight(x),
        children_layoutable(parent, seq![x]) == (child_fits(parent, x) && (x.kind is Break
            || layoutable(x))),
{
    let e = Seq::<DomBox>::empty();
    assert(seq![x].subrange(0, 0) =~= e);
    assert(boxes_text(e) == Seq::<char>::empty());
    assert(weights(e) == 0);
    assert(children_layoutable(parent, e));
    assert(seq![x][0] == x);
    assert(boxes_text(seq![x]) =~= box_text(x));
}

/// A list split at position `i`: the part before, the box at `i`, the part after.
pub proof fn lemma_boxes_split(parent: BoxKind, s: Seq<DomBox>, i: int)
    requires
        0 <= i < s.len(),
    ensures
        boxes_text(s) == boxes_text(s.subrange(0, i)) + box_text(s[i]) + boxes_text(
            s.subrange(i + 1, s.len() as int),
        ),
        weights(s) == weights(s.subrange(0, i)) + weight(s[i]) + weights(
            s.subrange(i + 1, s.len() as int),
        ),
        children_layoutable(parent, s) == (children_layoutable(parent, s.subrange(0, i)) && child_fits(
            parent,
            s[i],
        ) && (s[i].kind is Break || layoutable(s[i])) && children_layoutable(
            parent,
            s.subrange(i + 1, s.len() as int),
        )),
{
    let a = s.subrange(0, i);
    let c = s.subrange(i + 1, s.len() as int);
    assert(s =~= a + seq![s[i]] + c);
    lemma_boxes_concat(parent, a + seq![s[i]], c);
    lemma_boxes_concat(parent, a, seq![s[i]]);
    lemma_boxes_single(parent, s[i]);
}

/// Every box weighs at least one.
pub proof fn lemma_weight_positive(b: DomBox)
    ensures
        weight(b) >= 1,
{
}

/// Whether the cursor stands at the start of a line at least one cell wide.
pub open spec fn line_start(c: BoxCursor) -> bool {
    c.x == c.container.content.x && c.container.content.w >= 1
}

/// What laying out `before` (giving `after` and the result `res`) keeps: the kind, borders
/// and style; the text, which a cut shares between the box and the rest; and a rest that
/// weighs less than the box did and can be laid out in its turn.
pub open spec fn laid_out(before: DomBox, after: DomBox, res: LayoutRes) -> bool {
    &&& same_kind(before.kind, after.kind)
    &&& after.size.border == before.size.border
    &&& after.style == before.style
    &&& match res {
        LayoutRes::Normal => box_text(after) == box_text(before),
        LayoutRes::Reject => {
            &&& inline_level(before.kind)
            &&& box_text(after) == box_text(before)
            &&& weight(after) == weight(before)
            &&& layoutable(after)
        },
        LayoutRes::CutHere(next) => {
            &&& (before.kind is Text || before.kind is Inline || before.kind is InlineContainer)
            &&& box_text(after) + box_text(next) == box_text(before)
            &&& weight(next) < weight(before)
            &&& layoutable(next)
            &&& same_kind(before.kind, next.kind)
            &&& next.size.border == before.size.border
        },
    }
}

/// The child at `i` was laid out without being cut.
pub open spec fn child_stayed(before: Seq<DomBox>, after: Seq<DomBox>, i: int) -> bool {
    &&& after.len() == before.len()
    &&& after.subrange(i + 1, after.len() as int) == before.subrange(i + 1, before.len() as int)
    &&& box_text(after[i]) == box_text(before[i])
}

/// The child at `i` was cut, and the rest put right after it.
pub open spec fn child_cut(parent: BoxKind, before: Seq<DomBox>, after: Seq<DomBox>, i: int) -> bool {
    &&& after.len() == before.len() + 1
    &&& after.subrange(i + 2, after.len() as int) == before.subrange(i + 1, before.len() as int)
    &&& box_text(after[i]) + box_text(after[i + 1]) == box_text(before[i])
    &&& weight(after[i + 1]) < weight(before[i])
    &&& layoutable(after[i + 1])
    &&& child_fits(parent, after[i + 1])
    &&& before[i].kind is InlineContainer
}

/// What laying out the child at `i` of a block-level box does to its children: the ones
/// before stay, the child is laid out in place, and the rest of a cut child comes right after
/// it, ahead of the children that followed.
pub open spec fn child_laid_out(parent: BoxKind, before: Seq<DomBox>, after: Seq<DomBox>, i: int) -> bool {
    &&& 0 <= i < before.len()
    &&& after.subrange(0, i) == before.subrange(0, i)
    &&& same_kind(before[i].kind, after[i].kind)
    &&& (child_stayed(before, after, i) || child_cut(parent, before, after, i))
}

/// The height including the top and bottom borders, with `u16` arithmetic wrapping around.
pub open spec fn outer_height(size: BoxSize) -> u16 {
    size.content.h.wrapping_add(size.border.top).wrapping_add(size.border.bottom)
}

/// The width including the left and right borders, with `u16` arithmetic wrapping around.
pub open spec fn outer_width(size: BoxSize) -> u16 {
    size.content.w.wrapping_add(size.border.left).wrapping_add(size.border.right)
}

/// The outer heights of `s` added up, as boxes stacked one below the other (with `u16`
/// arithmetic wrapping around).
pub open spec fn heights_sum(s: Seq<DomBox>) -> u16
    decreases s.len(),
{
    if s.len() == 0 {
        0
    } else {
        heights_sum(s.drop_last()).wrapping_add(outer_height(s.last().size))
    }
}

/// The outer heights of the blocks among `s` added up (with `u16` arithmetic wrapping
/// around): in a list, the bullets stand beside the item blocks.
pub open spec fn block_heights_sum(s: Seq<DomBox>) -> u16
    decreases s.len(),
{
    if s.len() == 0 {
        0
    } else if s.last().kind is Block {
        block_heights_sum(s.drop_last()).wrapping_add(outer_height(s.last().size))
    } else {
        block_heights_sum(s.drop_last())
    }
}

/// Where the cursor goes on its line once a box of kind `k` with size `size` is laid out from
/// column `x` (`home` being where the lines of the box holding it start): past a text, an
/// inline box or a bullet; back to the start of the line below a block or a header; and it
/// stays for a line or a list, which move it down.
pub open spec fn advance_x(k: BoxKind, x: u16, home: u16, size: BoxSize) -> u16 {
    match k {
        BoxKind::Text(_) | BoxKind::Inline => x.wrapping_add(size.content.w),
        BoxKind::ListBullet => x.wrapping_add(outer_width(size)),
        BoxKind::Block | BoxKind::Header(_) => home,
        _ => x,
    }
}

/// The line where the cursor goes once a box of kind `k` with size `size` is laid out from
/// line `y`: the same line after a text, an inline box or a bullet, else the line below the
/// box.
pub open spec fn advance_y(k: BoxKind, y: u16, size: BoxSize) -> u16 {
    match k {
        BoxKind::Text(_) | BoxKind::Inline | BoxKind::ListBullet => y,
        _ => y.wrapping_add(outer_height(size)),
    }
}

/// The column where the cursor ends once the boxes of `s` are laid out one after the other
/// from column `start` (`home` being where the lines start).
pub open spec fn line_end(s: Seq<DomBox>, start: u16, home: u16) -> u16
    decreases s.len(),
{
    if s.len() == 0 {
        start
    } else {
        advance_x(s.last().kind, line_end(s.drop_last(), start, home), home, s.last().size)
    }
}

/// The room left on the cursor's line for a box with the given borders: from the cursor to
/// the right edge of the box holding it, less the borders (with `u16` arithmetic wrapping
/// around).
pub open spec fn line_room(c: BoxCursor, size: BoxSize) -> u16 {
    c.container.content.w.wrapping_sub(c.x.wrapping_sub(c.container.content.x)).wrapping_sub(
        size.border.left.wrapping_add(size.border.right),
    )
}

/// The size a box of each kind takes once laid out (`before` at the cursor `c`, giving
/// `after`): a block-level box is as high as its children stacked, and as wide as the widest
/// of them unless its style extends it to the room there is; a list is as high as its item
/// blocks; a line or an inline box is one cell high and reaches where its children end; a
/// text is one cell high.
pub open spec fn box_geometry(before: DomBox, after: DomBox, c: BoxCursor) -> bool {
    let x = after.size.content.x;
    match before.kind {
        BoxKind::Block | BoxKind::ListBullet | BoxKind::Header(_) => {
            &&& after.size.content.h == heights_sum(after.children@)
            &&& after.size.content.w == (if before.style.extend {
                inner(block_room(c), before.size.border.left, before.size.border.right)
            } else {
                widest(after.children@)
            })
        },
        BoxKind::List(_) => {
            &&& after.size.content.h == block_heights_sum(after.children@)
            &&& after.size.content.w == inner(
                c.container.content.w,
                before.size.border.left,
                before.size.border.right,
            )
        },
        BoxKind::InlineContainer => {
            &&& after.size.content.h == 1
            &&& after.size.content.w == line_end(after.children@, x, x).wrapping_sub(x)
        },
        _ => after.size.content.h == 1,
    }
}

/// How many bytes of the UTF-8 encoding of a text a line with `room` cells keeps: all of
/// them where the text is no wider than the room (or there is no room at all, and the text
/// moves on), else those of its first `room` grapheme clusters.
pub open spec fn kept_bytes(t: Seq<char>, room: u16) -> int {
    if room != 0 && (display_width(t) as u16) > room {
        match grapheme_start(t, room as usize) {
            Some(n) => n as int,
            None => encode_utf8(t).len() as int,
        }
    } else {
        encode_utf8(t).len() as int
    }
}

/// Where the cursor stands once the boxes of `s` are laid out one after the other from
/// `start`.
pub open spec fn cursor_after(s: Seq<DomBox>, start: BoxCursor) -> BoxCursor
    decreases s.len(),
{
    if s.len() == 0 {
        start
    } else {
        let c = cursor_after(s.drop_last(), start);
        BoxCursor {
            x: advance_x(s.last().kind, c.x, start.container.content.x, s.last().size),
            y: advance_y(s.last().kind, c.y, s.last().size),
            container: start.container,
        }
    }
}

/// The cursor at the top-left corner of a box's content, inside it.
pub open spec fn inner_start(b: DomBox) -> BoxCursor {
    BoxCursor { x: b.size.content.x, y: b.size.content.y, container: b.size }
}

/// The cursor that lays out the children of a line or an inline box `b`: at the start of
/// its content, inside the box as it stood then, `room` cells wide and one cell high.
pub open spec fn line_cursor(b: DomBox, room: u16) -> BoxCursor {
    BoxCursor {
        x: b.size.content.x,
        y: b.size.content.y,
        container: BoxSize { content: Rect { w: room, h: 1, ..b.size.content }, ..b.size },
    }
}

/// The cursor that lays out the children of a block-level box `after`, placed at `c`: at the
/// start of its content, inside it as it stood then, as wide as the room there was and not
/// yet high.
pub open spec fn block_start(after: DomBox, c: BoxCursor) -> BoxCursor {
    BoxCursor {
        x: after.size.content.x,
        y: after.size.content.y,
        container: BoxSize {
            content: Rect {
                w: inner(block_room(c), after.size.border.left, after.size.border.right),
                h: 0,
                ..after.size.content
            },
            ..after.size
        },
    }
}

/// The cursor that lays out the bullets and items of a list `after`: at the start of its
/// content, inside it as it stood then, not yet high.
pub open spec fn list_start(after: DomBox) -> BoxCursor {
    BoxCursor {
        x: after.size.content.x,
        y: after.size.content.y,
        container: BoxSize { content: Rect { h: 0, ..after.size.content }, ..after.size },
    }
}

/// How the children of a block-level box were laid out one below the other: `fin[j..]` came
/// from the boxes waiting in `queue`, in order. A line break waiting is dropped; any other
/// box is placed (`placed`) where the boxes before it in `fin` left the cursor, and where a
/// line was cut, its rest (`rest_of`) waits first in line for the next place.
pub open spec fn block_from(queue: Seq<DomBox>, fin: Seq<DomBox>, j: int, start: BoxCursor) -> bool
    decreases fin, fin.len() - j, queue.len(),
{
    if queue.len() == 0 {
        j == fin.len()
    } else if queue[0].kind is Break {
        block_from(queue.drop_first(), fin, j, start)
    } else if 0 <= j < fin.len() {
        let c = cursor_after(fin.subrange(0, j), start);
        &&& placed(queue[0], fin[j], c)
        &&& {
            ||| block_from(queue.drop_first(), fin, j + 1, start)
            ||| exists|r: DomBox|
                #[trigger] rest_of(queue[0], fin[j], c, r) && block_from(
                    seq![r] + queue.drop_first(),
                    fin,
                    j + 1,
                    start,
                )
        }
    } else {
        false
    }
}

/// How laying out `before` at the cursor `c` placed it (giving `after`): its content starts
/// at the cursor past its top and left borders, it has the size of its kind
/// (`box_geometry`), a text keeps the part of its text that fits the room left on the line
/// (`kept_bytes`), the children of a line or an inline box are placed in turn, each where
/// the ones before it left the cursor, those of a list likewise one below the other, and
/// those of any other block-level box one below the other, lines cut to its width
/// (`block_from`).
pub open spec fn placed(before: DomBox, after: DomBox, c: BoxCursor) -> bool
    decreases after, 0int, 0int,
{
    &&& after.size.content.x == c.x.wrapping_add(before.size.border.left)
    &&& after.size.content.y == c.y.wrapping_add(before.size.border.top)
    &&& box_geometry(before, after, c)
    &&& match before.kind {
        BoxKind::Text(t) => after.kind matches BoxKind::Text(k) && encode_utf8(k@) == encode_utf8(
            t@,
        ).subrange(0, kept_bytes(t@, line_room(c, before.size))),
        BoxKind::Inline => children_placed(
            before.children@,
            after.children@,
            line_cursor(after, line_room(c, before.size)),
        ),
        BoxKind::InlineContainer => children_placed(
            before.children@,
            after.children@,
            line_cursor(after, inner(c.container.content.w, before.size.border.left, before.size.border.right)),
        ),
        BoxKind::Block | BoxKind::ListBullet | BoxKind::Header(_) => block_from(
            before.children@,
            after.children@,
            0,
            block_start(after, c),
        ),
        BoxKind::List(_) => children_placed(before.children@, after.children@, list_start(after)),
        _ => true,
    }
}

/// Whether each of the boxes of `after` was placed (`placed`) from the box of `before` at
/// the same position, where the cursor stood after the ones before it, starting at `start`.
pub open spec fn children_placed(before: Seq<DomBox>, after: Seq<DomBox>, start: BoxCursor) -> bool
    decreases after, 0int, 0int,
{
    if after.len() == 0 {
        true
    } else {
        &&& after.len() <= before.len()
        &&& children_placed(before, after.subrange(0, after.len() - 1), start)
        &&& placed(
            before[after.len() - 1],
            after[after.len() - 1],
            cursor_after(after.subrange(0, after.len() - 1), start),
        )
    }
}

/// The room a line or an inline box `before`, laid out at `c`, gives its children.
pub open spec fn inner_room(before: DomBox, c: BoxCursor) -> u16 {
    if before.kind is Inline {
        line_room(c, before.size)
    } else {
        inner(c.container.content.w, before.size.border.left, before.size.border.right)
    }
}

/// Whether `a` is the box `b` that could not start where it stood: the same kind, style,
/// borders and text.
pub open spec fn rejected(b: DomBox, a: DomBox) -> bool {
    &&& same_kind(b.kind, a.kind)
    &&& a.style == b.style
    &&& a.size.border == b.size.border
    &&& box_text(a) == box_text(b)
}

/// The rest that laying out `before` at `c` (giving `after`) cut off and handed back: a box
/// of the same kind, style and borders holding, for a text, the bytes past those it kept
/// (`kept_bytes`), and for a line or an inline box, what its children left over
/// (`line_rest`).
pub open spec fn rest_of(before: DomBox, after: DomBox, c: BoxCursor, rest: DomBox) -> bool
    decreases before, 0int,
{
    &&& rest.style == before.style
    &&& rest.size.border == before.size.border
    &&& match before.kind {
        BoxKind::Text(t) => {
            &&& rest.kind matches BoxKind::Text(r) && encode_utf8(r@) == encode_utf8(t@).subrange(
                kept_bytes(t@, line_room(c, before.size)),
                encode_utf8(t@).len() as int,
            )
            &&& rest.children@.len() == 0
        },
        BoxKind::Inline | BoxKind::InlineContainer => {
            &&& rest.kind == before.kind
            &&& line_rest(
                before.children@,
                after.children@,
                rest.children@,
                line_cursor(after, inner_room(before, c)),
            )
        },
        _ => false,
    }
}

/// What a line whose children were `orig`, laid out from `start` into `fin`, hands on to the
/// next line (`next`): the children after a line break (which is dropped); or the rest of the
/// last child, which was cut (`rest_of`), then the children after it; or the first child that
/// could not start (`rejected`), then the children after it.
pub open spec fn line_rest(orig: Seq<DomBox>, fin: Seq<DomBox>, next: Seq<DomBox>, start: BoxCursor) -> bool
    decreases orig, 1int,
{
    let k = fin.len() as int;
    let n = orig.len() as int;
    ||| (k < n && orig[k].kind is Break && next == orig.subrange(k + 1, n))
    ||| (1 <= k <= n && next.len() >= 1 && rest_of(
        orig[k - 1],
        fin[k - 1],
        cursor_after(fin.subrange(0, k - 1), start),
        next[0],
    ) && next.subrange(1, next.len() as int) == orig.subrange(k, n))
    ||| (k < n && next.len() >= 1 && rejected(orig[k], next[0]) && next.subrange(
        1,
        next.len() as int,
    ) == orig.subrange(k + 1, n))
}

/// The cursor's column after a run of boxes is where the run ends on its line.
pub proof fn lemma_cursor_after_x(s: Seq<DomBox>, start: BoxCursor)
    ensures
        cursor_after(s, start).x == line_end(s, start.x, start.container.content.x),
        cursor_after(s, start).container == start.container,
    decreases s.len(),
{
    if s.len() > 0 {
        lemma_cursor_after_x(s.drop_last(), start);
    }
}

/// The largest outer width among `s`, zero where there is none.
pub open spec fn widest(s: Seq<DomBox>) -> u16
    decreases s.len(),
{
    if s.len() == 0 {
        0
    } else {
        let m = widest(s.drop_last());
        let w = outer_width(s.last().size);
        if w > m {
            w
        } else {
            m
        }
    }
}

/// The room a block-level box placed at the cursor has: from the cursor to the right edge of
/// the box holding it (with `u16` arithmetic wrapping around).
pub open spec fn block_room(c: BoxCursor) -> u16 {
    c.container.content.w.wrapping_sub(c.x).wrapping_add(c.container.content.x)
}

/// The width left inside `avail` cells once `left` and `right` borders are taken off, one
/// cell where nothing is left.
pub open spec fn inner(avail: u16, left: u16, right: u16) -> u16 {
    if avail > left.wrapping_add(right) {
        avail.wrapping_sub(left).wrapping_sub(right)
    } else {
        1
    }
}

fn wrapped_height(size: &BoxSize) -> (r: u16)
    ensures
        r == outer_height(*size),
{
    size.content.h.wrapping_add(size.border.top).wrapping_add(size.border.bottom)
}

fn wrapped_width(size: &BoxSize) -> (r: u16)
    ensures
        r == outer_width(*size),
{
    size.content.w.wrapping_add(size.border.left).wrapping_add(size.border.right)
}

/// The width a box takes inside `avail` cells once `left` and `right` borders are taken off,
/// one cell where nothing is left.
fn inner_width(avail: u16, left: u16, right: u16) -> (r: u16)
    ensures
        r == inner(avail, left, right),
        r >= 1,
{
    if avail > left.wrapping_add(right) {
        avail.wrapping_sub(left).wrapping_sub(right)
    } else {
        1
    }
}

/// Whether a box of kind `parent` can lay out `c` where it stands (`child_fits`), checked.
fn fits_in(parent: &BoxKind, c: &DomBox) -> (r: bool)
    ensures
        r == child_fits(*parent, *c),
{
    let is_break = match &c.kind {
        BoxKind::Break => true,
        _ => false,
    };
    let is_placeable = match &c.kind {
        BoxKind::Break | BoxKind::Table | BoxKind::TableColumn | BoxKind::TableItem | BoxKind::Image => false,
        _ => true,
    };
    let is_inline = match &c.kind {
        BoxKind::Text(_) | BoxKind::Inline => true,
        _ => false,
    };
    match parent {
        BoxKind::Block | BoxKind::ListBullet | BoxKind::Header(_) => is_break || (is_placeable
            && !is_inline),
        BoxKind::List(_) => match &c.kind {
            BoxKind::ListBullet | BoxKind::Block => true,
            _ => false,
        },
        BoxKind::InlineContainer | BoxKind::Inline => is_break || is_placeable,
        _ => true,
    }
}

/// Whether the box tree can be laid out (`layoutable`), checked.
pub fn is_layoutable(b: &DomBox) -> (r: bool)
    ensures
        r == layoutable(*b),
    decreases b,
{
    let inline = match &b.kind {
        BoxKind::Text(_) | BoxKind::Inline => true,
        _ => false,
    };
    if inline && !(b.size.border.left == 0 && b.size.border.right == 0) {
        return false;
    }
    let leaf = match &b.kind {
        BoxKind::Text(_) | BoxKind::Break => true,
        _ => false,
    };
    if leaf {
        return true;
    }
    let ghost s = b.children@;
    let mut k: usize = 0;
    assert(s.subrange(0, 0) =~= Seq::<DomBox>::empty());
    while k < b.children.len()
        invariant
            k <= s.len(),
            s == b.children@,
            children_layoutable(b.kind, s.subrange(0, k as int)),
            !(b.kind is Text || b.kind is Break),
            !inline_level(b.kind) || (b.size.border.left == 0 && b.size.border.right == 0),
        decreases s.len() - k,
    {
        let c = &b.children[k];
        proof {
            assert(s.subrange(0, k + 1).subrange(0, k as int) =~= s.subrange(0, k as int));
            assert(s.subrange(0, k + 1)[k as int] == s[k as int]);
        }
        if !fits_in(&b.kind, c) {
            proof {
                lemma_boxes_split(b.kind, s, k as int);
                lemma_boxes_concat(b.kind, s.subrange(0, k + 1), s.subrange(k + 1, s.len() as int));
                assert(s =~= s.subrange(0, k + 1) + s.subrange(k + 1, s.len() as int));
            }
            return false;
        }
        let is_break = match &c.kind {
            BoxKind::Break => true,
            _ => false,
        };
        if !is_break && !is_layoutable(c) {
            proof {
                assert(*c == s[k as int]);
                assert(!(s[k as int].kind is Break));
                assert(!layoutable(s[k as int]));
                lemma_boxes_split(b.kind, s, k as int);
                assert(!children_layoutable(b.kind, s));
                assert(!(b.kind is Text || b.kind is Break));
                assert(!layoutable(*b));
            }
            return false;
        }
        k = k + 1;
    }
    assert(s.subrange(0, s.len() as int) =~= s);
    true
}

/// Text, weight and layout conditions of a list made of a prefix, one box and a suffix.
pub proof fn lemma_boxes_three(parent: BoxKind, pre: Seq<DomBox>, x: DomBox, post: Seq<DomBox>)
    ensures
        boxes_text(pre + seq![x] + post) == boxes_text(pre) + box_text(x) + boxes_text(post),
        weights(pre + seq![x] + post) == weights(pre) + weight(x) + weights(post),
        children_layoutable(parent, pre + seq![x] + post) == (children_layoutable(parent, pre)
            && child_fits(parent, x) && (x.kind is Break || layoutable(x)) && children_layoutable(
            parent,
            post,
        )),
{
    lemma_boxes_concat(parent, pre + seq![x], post);
    lemma_boxes_concat(parent, pre, seq![x]);
    lemma_boxes_single(parent, x);
}

/// Text, weight and layout conditions of a list made of one box and a suffix.
pub proof fn lemma_boxes_cons(parent: BoxKind, x: DomBox, post: Seq<DomBox>)
    ensures
        boxes_text(seq![x] + post) == box_text(x) + boxes_text(post),
        weights(seq![x] + post) == weight(x) + weights(post),
        children_layoutable(parent, seq![x] + post) == (child_fits(parent, x) && (x.kind is Break
            || layoutable(x)) && children_layoutable(parent, post)),
{
    lemma_boxes_concat(parent, seq![x], post);
    lemma_boxes_single(parent, x);
}

/// A list that is not empty weighs at least one.
pub proof fn lemma_weights_positive(s: Seq<DomBox>)
    requires
        s.len() > 0,
    ensures
        weights(s) >= 1,
{
    lemma_weight_positive(s[s.len() - 1]);
}

/// The child at `i` of a list: where it stands in the list, and what the list's conditions
/// say of it.
pub proof fn lemma_loop_child(parent: BoxKind, cur: Seq<DomBox>, orig: Seq<DomBox>, i: int)
    requires
        0 <= i < orig.len(),
        cur.len() == orig.len(),
        cur.subrange(i, orig.len() as int) == orig.subrange(i, orig.len() as int),
        children_layoutable(parent, orig),
    ensures
        cur[i] == orig[i],
        cur == cur.subrange(0, i) + seq![orig[i]] + orig.subrange(i + 1, orig.len() as int),
        child_fits(parent, orig[i]),
        orig[i].kind is Break || layoutable(orig[i]),
        weight(orig[i]) <= weights(orig),
        children_layoutable(parent, orig.subrange(i + 1, orig.len() as int)),
{
    let n = orig.len() as int;
    assert(cur.subrange(i, n)[0] == orig.subrange(i, n)[0]);
    assert(cur.subrange(i + 1, n) =~= cur.subrange(i, n).subrange(1, n - i));
    assert(orig.subrange(i + 1, n) =~= orig.subrange(i, n).subrange(1, n - i));
    assert(cur =~= cur.subrange(0, i) + seq![orig[i]] + orig.subrange(i + 1, n));
    lemma_boxes_split(parent, orig, i);
}

/// A line break at `i` ends the line there: the children before it and those after it show
/// all the text, and those after weigh less than all of them.
pub proof fn lemma_break_exit(parent: BoxKind, orig: Seq<DomBox>, pre: Seq<DomBox>, i: int)
    requires
        0 <= i < orig.len(),
        orig[i].kind is Break,
        boxes_text(pre) == boxes_text(orig.subrange(0, i)),
        children_layoutable(parent, orig),
    ensures
        boxes_text(pre) + boxes_text(orig.subrange(i + 1, orig.len() as int)) == boxes_text(orig),
        weights(orig.subrange(i + 1, orig.len() as int)) < weights(orig),
        children_layoutable(parent, orig.subrange(i + 1, orig.len() as int)),
{
    lemma_boxes_split(parent, orig, i);
    lemma_weight_positive(orig[i]);
    assert(box_text(orig[i]) =~= Seq::<char>::empty());
    assert(boxes_text(orig) =~= boxes_text(pre) + boxes_text(orig.subrange(i + 1, orig.len() as int)));
}

/// A child at `i` laid out in place, the children before it laid out already.
pub proof fn lemma_normal_step(
    parent: BoxKind,
    orig: Seq<DomBox>,
    pre: Seq<DomBox>,
    i: int,
    child: DomBox,
)
    requires
        0 <= i < orig.len(),
        boxes_text(pre) == boxes_text(orig.subrange(0, i)),
        box_text(child) == box_text(orig[i]),
    ensures
        boxes_text(pre + seq![child]) == boxes_text(orig.subrange(0, i + 1)),
{
    lemma_boxes_concat(parent, pre, seq![child]);
    lemma_boxes_single(parent, child);
    assert(orig.subrange(0, i + 1) =~= orig.subrange(0, i) + seq![orig[i]]);
    lemma_boxes_concat(parent, orig.subrange(0, i), seq![orig[i]]);
    lemma_boxes_single(parent, orig[i]);
}

/// A child at `i` cut in two: the line keeps the children up to it, the rest of the child and
/// the children after it go to the next line.
pub proof fn lemma_cut_exit(
    parent: BoxKind,
    orig: Seq<DomBox>,
    pre: Seq<DomBox>,
    i: int,
    child: DomBox,
    next: DomBox,
)
    requires
        0 <= i < orig.len(),
        boxes_text(pre) == boxes_text(orig.subrange(0, i)),
        box_text(child) + box_text(next) == box_text(orig[i]),
        weight(next) < weight(orig[i]),
        layoutable(next),
        child_fits(parent, next),
        children_layoutable(parent, orig),
    ensures
        boxes_text(pre + seq![child]) + boxes_text(seq![next] + orig.subrange(i + 1, orig.len() as int))
            == boxes_text(orig),
        weights(seq![next] + orig.subrange(i + 1, orig.len() as int)) < weights(orig),
        children_layoutable(parent, seq![next] + orig.subrange(i + 1, orig.len() as int)),
{
    let post = orig.subrange(i + 1, orig.len() as int);
    lemma_boxes_split(parent, orig, i);
    lemma_boxes_concat(parent, pre, seq![child]);
    lemma_boxes_single(parent, child);
    lemma_boxes_cons(parent, next, post);
    assert(boxes_text(pre + seq![child]) + boxes_text(seq![next] + post) =~= boxes_text(orig));
}

/// A child at `i` (not the first) that cannot start here ends the line before it: it and the
/// children after it go to the next line.
pub proof fn lemma_reject_exit(
    parent: BoxKind,
    orig: Seq<DomBox>,
    pre: Seq<DomBox>,
    i: int,
    child: DomBox,
)
    requires
        0 < i < orig.len(),
        boxes_text(pre) == boxes_text(orig.subrange(0, i)),
        box_text(child) == box_text(orig[i]),
        weight(child) == weight(orig[i]),
        layoutable(child),
        child_fits(parent, child),
        children_layoutable(parent, orig),
    ensures
        boxes_text(pre) + boxes_text(seq![child] + orig.subrange(i + 1, orig.len() as int))
            == boxes_text(orig),
        weights(seq![child] + orig.subrange(i + 1, orig.len() as int)) < weights(orig),
        children_layoutable(parent, seq![child] + orig.subrange(i + 1, orig.len() as int)),
{
    let post = orig.subrange(i + 1, orig.len() as int);
    lemma_boxes_split(parent, orig, i);
    lemma_boxes_cons(parent, child, post);
    lemma_weights_positive(orig.subrange(0, i));
    assert(boxes_text(pre) + boxes_text(seq![child] + post) =~= boxes_text(orig));
}

/// The first child that cannot start here keeps the whole line where it is.
pub proof fn lemma_reject_first(parent: BoxKind, orig: Seq<DomBox>, child: DomBox)
    requires
        0 < orig.len(),
        box_text(child) == box_text(orig[0]),
        weight(child) == weight(orig[0]),
        layoutable(child),
        child_fits(parent, child),
        children_layoutable(parent, orig),
    ensures
        boxes_text(seq![child] + orig.subrange(1, orig.len() as int)) == boxes_text(orig),
        weights(seq![child] + orig.subrange(1, orig.len() as int)) == weights(orig),
        children_layoutable(parent, seq![child] + orig.subrange(1, orig.len() as int)),
{
    let post = orig.subrange(1, orig.len() as int);
    lemma_boxes_split(parent, orig, 0);
    lemma_boxes_cons(parent, child, post);
    assert(orig.subrange(0, 0) =~= Seq::<DomBox>::empty());
    assert(boxes_text(orig.subrange(0, 0)) =~= Seq::<char>::empty());
    assert(boxes_text(seq![child] + post) =~= boxes_text(orig));
}

/// One step of laying out the children of a block-level box: the box waiting first in `q`
/// was placed at `i`, and what waits next (`q2`) is the rest of `q`, or the rest cut off that
/// box and then the rest of `q`.
pub proof fn lemma_block_step(q: Seq<DomBox>, q2: Seq<DomBox>, fin: Seq<DomBox>, i: int, start: BoxCursor)
    requires
        q.len() > 0,
        !(q[0].kind is Break),
        0 <= i < fin.len(),
        placed(q[0], fin[i], cursor_after(fin.subrange(0, i), start)),
        q2 == q.drop_first() || (q2.len() >= 1 && rest_of(
            q[0],
            fin[i],
            cursor_after(fin.subrange(0, i), start),
            q2[0],
        ) && q2.drop_first() == q.drop_first()),
        block_from(q2, fin, i + 1, start),
    ensures
        block_from(q, fin, i, start),
{
    if q2 != q.drop_first() {
        assert(seq![q2[0]] + q.drop_first() =~= q2);
    }
}

impl DomBox {
    /// Lays out the box tree: places every box inside this one, from its top-left corner,
    /// cutting the lines that are wider than the boxes holding them. Nothing that the tree
    /// shows is lost or moved: the text of a block-level root reads the same afterwards.
    pub fn layout(&mut self)
        requires
            layoutable(*old(self)),
            placeable(old(self).kind),
        ensures
            !inline_level(old(self).kind) && !(old(self).kind is InlineContainer) ==> box_text(
                *final(self),
            ) == box_text(*old(self)),
            final(self).style == old(self).style,
            same_kind(old(self).kind, final(self).kind),
            final(self).size.content.x == old(self).size.border.left,
            final(self).size.content.y == old(self).size.border.top,
            box_geometry(*old(self), *final(self), (BoxCursor { x: 0, y: 0, container: old(self).size })),
            !inline_level(old(self).kind) ==> placed(
                *old(self),
                *final(self),
                (BoxCursor { x: 0, y: 0, container: old(self).size }),
            ),
    {
        let mut cursor = BoxCursor { x: 0, y: 0, container: self.size };
        let _ = self.layout_generic(&mut cursor);
    }

    /// Lays out this box at the cursor, by its kind.
    fn layout_generic(&mut self, cursor: &mut BoxCursor) -> (res: LayoutRes)
        requires
            layoutable(*old(self)),
            placeable(old(self).kind),
        ensures
            final(cursor).container == old(cursor).container,
            laid_out(*old(self), *final(self), res),
            line_start(*old(cursor)) ==> !(res is Reject),
            final(self).size.content.x == old(cursor).x.wrapping_add(old(self).size.border.left),
            final(self).size.content.y == old(cursor).y.wrapping_add(old(self).size.border.top),
            final(cursor).x == advance_x(
                final(self).kind,
                old(cursor).x,
                old(cursor).container.content.x,
                final(self).size,
            ),
            final(cursor).y == advance_y(final(self).kind, old(cursor).y, final(self).size),
            res is Reject ==> final(self).size.content.w == 0,
            box_geometry(*old(self), *final(self), *old(cursor)),
            !(res is Reject) ==> placed(*old(self), *final(self), *old(cursor)),
            res matches LayoutRes::CutHere(next) ==> rest_of(*old(self), *final(self), *old(cursor), next),
        decreases weight(*old(self)), 3nat,
    {
        let which: u8 = match &self.kind {
            BoxKind::Block | BoxKind::ListBullet | BoxKind::Header(_) => 0,
            BoxKind::InlineContainer => 1,
            BoxKind::List(_) => 2,
            BoxKind::Text(_) | BoxKind::Inline => 3,
            _ => 4,
        };
        if which == 0 {
            self.layout_block(cursor)
        } else if which == 1 {
            self.layout_inline_container(cursor)
        } else if which == 2 {
            self.layout_list(cursor)
        } else if which == 3 {
            self.layout_inline(cursor)
        } else {
            proof {
                assert(false);
            }
            LayoutRes::Normal
        }
    }

    /// Lays out the children of an inline box or a line, one after the other along the line.
    /// A line break among them, a child that was cut, or one that cannot start where it
    /// stands (after the first) ends the line: this box is cut there and the rest returned.
    /// Where the first child cannot start, an inline box (`dorej`) cannot either.
    #[verifier::spinoff_prover]
    #[verifier::rlimit(80)]
    fn inline_children_loop(&mut self, res: LayoutRes, dorej: bool) -> (r: LayoutRes)
        requires
            old(self).kind is Inline || old(self).kind is InlineContainer,
            dorej ==> old(self).kind is Inline,
            layoutable(*old(self)),
            res is Normal,
            !dorej ==> old(self).size.content.w >= 1,
        ensures
            laid_out(*old(self), *final(self), r),
            r is Reject ==> dorej,
            old(self).size.content.w >= 1 ==> !(r is Reject),
            final(self).kind == old(self).kind,
            final(self).size.content.x == old(self).size.content.x,
            final(self).size.content.y == old(self).size.content.y,
            final(self).size.content.h == old(self).size.content.h,
            !(r is Reject) ==> final(self).size.content.w == line_end(
                final(self).children@,
                old(self).size.content.x,
                old(self).size.content.x,
            ).wrapping_sub(old(self).size.content.x),
            r is Reject ==> final(self).size.content.w == 0,
            !(r is Reject) ==> children_placed(
                old(self).children@,
                final(self).children@,
                inner_start(*old(self)),
            ),
            r matches LayoutRes::CutHere(next) ==> {
                &&& next.kind == old(self).kind
                &&& next.style == old(self).style
                &&& next.size.border == old(self).size.border
                &&& line_rest(old(self).children@, final(self).children@, next.children@, inner_start(*old(self)))
            },
        decreases weight(*old(self)), 1nat,
    {
        let mut res = res;
        let mut subcursor = BoxCursor {
            x: self.size.content.x,
            y: self.size.content.y,
            container: self.size,
        };
        let ghost orig = self.children@;
        let ghost kind = self.kind;
        let ghost n = orig.len() as int;
        let mut i: usize = 0;
        assert(self.children@.subrange(0, 0) =~= Seq::<DomBox>::empty());
        while i < self.children.len()
            invariant
                i <= self.children@.len(),
                self.children@.len() == n,
                n == orig.len(),
                orig == old(self).children@,
                kind == old(self).kind,
                self.kind == old(self).kind,
                self.size == old(self).size,
                self.style == old(self).style,
                kind is Inline || kind is InlineContainer,
                dorej ==> kind is Inline,
                layoutable(*old(self)),
                children_layoutable(kind, orig),
                self.children@.subrange(i as int, n) == orig.subrange(i as int, n),
                boxes_text(self.children@.subrange(0, i as int)) == boxes_text(orig.subrange(0, i as int)),
                res is Normal,
                subcursor.container == self.size,
                subcursor.x == line_end(
                    self.children@.subrange(0, i as int),
                    self.size.content.x,
                    self.size.content.x,
                ),
                !dorej ==> old(self).size.content.w >= 1,
                weights(orig) < weight(*old(self)),
                subcursor == cursor_after(self.children@.subrange(0, i as int), inner_start(*old(self))),
                children_placed(orig, self.children@.subrange(0, i as int), inner_start(*old(self))),
            decreases n - i,
        {
            let ghost cur = self.children@;
            let ghost pre = cur.subrange(0, i as int);
            let ghost post = orig.subrange(i + 1, n);
            let ghost cur0 = subcursor;
            proof {
                lemma_loop_child(kind, cur, orig, i as int);
            }
            let is_break = match &self.children[i].kind {
                BoxKind::Break => true,
                _ => false,
            };
            if is_break {
                let _ = self.children.remove(i);
                assert(self.children@ =~= pre + post);
                let rest = self.children.split_off(i);
                assert(self.children@ =~= pre);
                assert(rest@ =~= post);
                let next = DomBox { kind: self.kind.clone(), size: self.size, style: self.style, children: rest };
                proof {
                    lemma_break_exit(kind, orig, pre, i as int);
                    assert(orig[i as int].kind is Break);
                    assert(self.children@.len() == i);
                    assert(next.children@ == orig.subrange(i + 1, n));
                }
                res = LayoutRes::CutHere(next);
                self.size.content.w = subcursor.x.wrapping_sub(self.size.content.x);
                return res;
            }
            let mut child = self.children.remove(i);
            let child_res = child.layout_generic(&mut subcursor);
            self.children.insert(i, child);
            let ghost child_after = child;
            assert(self.children@ =~= pre + seq![child_after] + post);
            assert((pre + seq![child_after]).drop_last() =~= pre);
            proof {
                let pc = pre + seq![child_after];
                assert(pc.subrange(0, i as int) =~= pre);
                assert(pc[i as int] == child_after);
                assert(orig[i as int] == cur[i as int]);
                if !(child_res is Reject) {
                    assert(children_placed(orig, pc, inner_start(*old(self))));
                }
                assert(subcursor == cursor_after(pc, inner_start(*old(self))));
            }
            match child_res {
                LayoutRes::Normal => {
                    proof {
                        lemma_normal_step(kind, orig, pre, i as int, child_after);
                        assert(self.children@.subrange(0, i + 1) =~= pre + seq![child_after]);
                        assert(self.children@.subrange(i + 1, n) =~= post);
                        assert(orig.subrange(i + 1, n) =~= post);
                    }
                },
                LayoutRes::CutHere(next) => {
                    let ghost nx = next;
                    self.children.insert(i + 1, next);
                    assert(self.children@ =~= pre + seq![child_after] + (seq![next] + post));
                    let rest = self.children.split_off(i + 1);
                    assert(self.children@ =~= pre + seq![child_after]);
                    assert(rest@ =~= seq![next] + post);
                    proof {
                        lemma_cut_exit(kind, orig, pre, i as int, child_after, next);
                    }
                    let cut = DomBox { kind: self.kind.clone(), size: self.size, style: self.style, children: rest };
                    proof {
                        let fin = self.children@;
                        assert(fin.len() == i + 1);
                        assert(fin.subrange(0, i as int) =~= pre);
                        assert(fin[i as int] == child_after);
                        assert(cut.children@[0] == nx);
                        assert(cut.children@.subrange(1, cut.children@.len() as int) =~= post);
                        assert(rest_of(orig[i as int], fin[i as int], cursor_after(fin.subrange(0, i as int), inner_start(*old(self))), cut.children@[0]));
                        assert(line_rest(orig, fin, cut.children@, inner_start(*old(self))));
                    }
                    res = LayoutRes::CutHere(cut);
                    self.size.content.w = subcursor.x.wrapping_sub(self.size.content.x);
                    return res;
                },
                LayoutRes::Reject => {
                    if i == 0 {
                        if dorej {
                            proof {
                                assert(pre =~= Seq::<DomBox>::empty());
                                assert(self.children@ =~= seq![child_after] + post);
                                lemma_reject_first(kind, orig, child_after);
                            }
                            res = LayoutRes::Reject;
                        } else {
                            proof {
                                assert(false);
                            }
                        }
                    } else {
                        let rest = self.children.split_off(i);
                        assert(self.children@ =~= pre);
                        assert(rest@ =~= seq![child_after] + post);
                        proof {
                            lemma_reject_exit(kind, orig, pre, i as int, child_after);
                        }
                        let cut = DomBox { kind: self.kind.clone(), size: self.size, style: self.style, children: rest };
                        proof {
                            assert(orig[i as int] == cur[i as int]);
                            assert(rejected(orig[i as int], child_after));
                            assert(cut.children@[0] == child_after);
                            assert(cut.children@.subrange(1, cut.children@.len() as int) =~= orig.subrange(i + 1, n));
                            assert(line_rest(orig, self.children@, cut.children@, inner_start(*old(self))));
                        }
                        res = LayoutRes::CutHere(cut);
                    }
                    self.size.content.w = subcursor.x.wrapping_sub(self.size.content.x);
                    return res;
                },
            }
            i = i + 1;
        }
        proof {
            assert(self.children@.subrange(0, n) =~= self.children@);
            assert(orig.subrange(0, n) =~= orig);
        }
        self.size.content.w = subcursor.x.wrapping_sub(self.size.content.x);
        res
    }

    /// Lays out a text or an inline box on the current line, with the room left on it. A
    /// text wider than that is cut after the grapheme clusters that fit; a text with no room
    /// at all cannot start here.
    fn layout_inline(&mut self, cursor: &mut BoxCursor) -> (res: LayoutRes)
        requires
            old(self).kind is Text || old(self).kind is Inline,
            layoutable(*old(self)),
        ensures
            final(cursor).container == old(cursor).container,
            laid_out(*old(self), *final(self), res),
            line_start(*old(cursor)) ==> !(res is Reject),
            final(self).size.content.x == old(cursor).x.wrapping_add(old(self).size.border.left),
            final(self).size.content.y == old(cursor).y.wrapping_add(old(self).size.border.top),
            final(self).size.content.h == 1,
            final(cursor).x == old(cursor).x.wrapping_add(final(self).size.content.w),
            final(cursor).y == old(cursor).y,
            res is Reject ==> final(self).size.content.w == 0,
            old(self).kind matches BoxKind::Text(t) ==> {
                let room = line_room(*old(cursor), old(self).size);
                let width = display_width(t@) as u16;
                &&& (res is Reject <==> room == 0)
                &&& (res is CutHere <==> room != 0 && width > room)
                &&& final(self).size.content.w == (if room != 0 && width <= room {
                    width
                } else {
                    room
                })
                &&& final(self).kind matches BoxKind::Text(k) && encode_utf8(k@) == encode_utf8(
                    t@,
                ).subrange(0, kept_bytes(t@, room))
                &&& res matches LayoutRes::CutHere(next) ==> next.kind matches BoxKind::Text(r)
                    && encode_utf8(r@) == encode_utf8(t@).subrange(
                    kept_bytes(t@, room),
                    encode_utf8(t@).len() as int,
                )
            },
            old(self).kind is Inline && !(res is Reject) ==> final(self).size.content.w == line_end(
                final(self).children@,
                final(self).size.content.x,
                final(self).size.content.x,
            ).wrapping_sub(final(self).size.content.x),
            old(self).kind is Inline && !(res is Reject) ==> children_placed(
                old(self).children@,
                final(self).children@,
                line_cursor(*final(self), line_room(*old(cursor), old(self).size)),
            ),
            res matches LayoutRes::CutHere(next) ==> rest_of(*old(self), *final(self), *old(cursor), next),
        decreases weight(*old(self)), 2nat,
    {
        let mut res = LayoutRes::Normal;
        self.size.content.h = 1;
        self.size.content.x = cursor.x.wrapping_add(self.size.border.left);
        self.size.content.y = cursor.y.wrapping_add(self.size.border.top);
        self.size.content.w = cursor.container.content.w.wrapping_sub(
            cursor.x.wrapping_sub(cursor.container.content.x),
        ).wrapping_sub(self.size.border.left.wrapping_add(self.size.border.right));
        let is_text = match &self.kind {
            BoxKind::Text(_) => true,
            _ => false,
        };
        proof {
            if let BoxKind::Text(t) = &self.kind {
                let e = encode_utf8(t@);
                assert(e.subrange(0, e.len() as int) =~= e);
            }
        }
        if is_text {
            let width: u16 = match &self.kind {
                BoxKind::Text(text) => #[verifier::truncate] (text_width(text.as_str()) as u16),
                _ => 0,
            };
            if self.size.content.w == 0 {
                res = LayoutRes::Reject;
            } else if width > self.size.content.w {
                let w = self.size.content.w;
                let remains = match &mut self.kind {
                    BoxKind::Text(text) => {
                        let pos = findsplit(text.as_str(), w as usize);
                        split_at_in_place(text, pos)
                    },
                    _ => String::new(),
                };
                res = LayoutRes::CutHere(
                    DomBox { kind: BoxKind::Text(remains), size: self.size, style: self.style, children: Vec::new() },
                );
            } else {
                self.size.content.w = width;
            }
        } else {
            res = self.inline_children_loop(res, true);
        }
        cursor.x = cursor.x.wrapping_add(self.size.content.w);
        res
    }

    /// Lays out a line: as wide as the box holding it (less its own borders), one cell high.
    fn layout_inline_container(&mut self, cursor: &mut BoxCursor) -> (res: LayoutRes)
        requires
            old(self).kind is InlineContainer,
            layoutable(*old(self)),
        ensures
            final(cursor).container == old(cursor).container,
            laid_out(*old(self), *final(self), res),
            !(res is Reject),
            final(self).size.content.x == old(cursor).x.wrapping_add(old(self).size.border.left),
            final(self).size.content.y == old(cursor).y.wrapping_add(old(self).size.border.top),
            final(self).size.content.h == 1,
            final(self).size.content.w == line_end(
                final(self).children@,
                final(self).size.content.x,
                final(self).size.content.x,
            ).wrapping_sub(final(self).size.content.x),
            final(cursor).x == old(cursor).x,
            final(cursor).y == old(cursor).y.wrapping_add(outer_height(final(self).size)),
            children_placed(
                old(self).children@,
                final(self).children@,
                line_cursor(
                    *final(self),
                    inner(
                        old(cursor).container.content.w,
                        old(self).size.border.left,
                        old(self).size.border.right,
                    ),
                ),
            ),
            res matches LayoutRes::CutHere(next) ==> rest_of(*old(self), *final(self), *old(cursor), next),
        decreases weight(*old(self)), 2nat,
    {
        let res = LayoutRes::Normal;
        self.size.content.w = inner_width(
            cursor.container.content.w,
            self.size.border.left,
            self.size.border.right,
        );
        self.size.content.h = 1;
        self.size.content.x = cursor.x.wrapping_add(self.size.border.left);
        self.size.content.y = cursor.y.wrapping_add(self.size.border.top);
        let res = self.inline_children_loop(res, false);
        cursor.y = cursor.y.wrapping_add(wrapped_height(&self.size));
        res
    }

    /// Lays out a block-level box: its children one below the other (line breaks among them
    /// are dropped), as wide as the widest of them unless the style extends it to the room
    /// available. A bullet then moves the cursor right past it, any other block to the start
    /// of the next line.
    fn layout_block(&mut self, cursor: &mut BoxCursor) -> (res: LayoutRes)
        requires
            old(self).kind is Block || old(self).kind is ListBullet || old(self).kind is Header,
            layoutable(*old(self)),
        ensures
            final(cursor).container == old(cursor).container,
            laid_out(*old(self), *final(self), res),
            res is Normal,
            final(self).kind == old(self).kind,
            final(self).size.content.x == old(cursor).x.wrapping_add(old(self).size.border.left),
            final(self).size.content.y == old(cursor).y.wrapping_add(old(self).size.border.top),
            final(self).size.content.h == heights_sum(final(self).children@),
            final(self).size.content.w == (if old(self).style.extend {
                inner(block_room(*old(cursor)), old(self).size.border.left, old(self).size.border.right)
            } else {
                widest(final(self).children@)
            }),
            forall|j: int|
                0 <= j < final(self).children@.len() ==> !(#[trigger] final(self).children@[j].kind is Break),
            block_from(old(self).children@, final(self).children@, 0, block_start(*final(self), *old(cursor))),
            old(self).kind is ListBullet ==> final(cursor).x == old(cursor).x.wrapping_add(
                outer_width(final(self).size),
            ) && final(cursor).y == old(cursor).y,
            !(old(self).kind is ListBullet) ==> final(cursor).x == old(cursor).container.content.x
                && final(cursor).y == old(cursor).y.wrapping_add(outer_height(final(self).size)),
        decreases weight(*old(self)), 2nat,
    {
        let res = LayoutRes::Normal;
        self.size.content.x = cursor.x.wrapping_add(self.size.border.left);
        self.size.content.y = cursor.y.wrapping_add(self.size.border.top);
        self.size.content.h = 0;
        let avail = cursor.container.content.w.wrapping_sub(cursor.x).wrapping_add(
            cursor.container.content.x,
        );
        self.size.content.w = inner_width(avail, self.size.border.left, self.size.border.right);
        let mut subcursor = BoxCursor {
            x: self.size.content.x,
            y: self.size.content.y,
            container: self.size,
        };
        let mut max_width: u16 = 0;
        let ghost orig = self.children@;
        let ghost kind = self.kind;
        let ghost start = subcursor;
        let mut i: usize = 0;
        assert(orig.subrange(0, orig.len() as int) =~= orig);
        assert(self.children@.subrange(0, 0) =~= Seq::<DomBox>::empty());
        while i < self.children.len()
            invariant
                i <= self.children@.len(),
                orig == old(self).children@,
                kind == old(self).kind,
                self.kind == kind,
                self.size.border == old(self).size.border,
                self.style == old(self).style,
                kind is Block || kind is ListBullet || kind is Header,
                boxes_text(self.children@) == boxes_text(orig),
                children_layoutable(kind, self.children@.subrange(i as int, self.children@.len() as int)),
                weights(self.children@.subrange(i as int, self.children@.len() as int)) <= weights(orig),
                weights(orig) < weight(*old(self)),
                self.size.content.x == old(cursor).x.wrapping_add(old(self).size.border.left),
                self.size.content.y == old(cursor).y.wrapping_add(old(self).size.border.top),
                self.size.content.w == inner(
                    block_room(*old(cursor)),
                    old(self).size.border.left,
                    old(self).size.border.right,
                ),
                self.size.content.h == heights_sum(self.children@.subrange(0, i as int)),
                max_width == widest(self.children@.subrange(0, i as int)),
                forall|j: int| 0 <= j < i ==> !(#[trigger] self.children@[j].kind is Break),
                *cursor == *old(cursor),
                start.x == self.size.content.x,
                start.y == self.size.content.y,
                start.container.content.x == self.size.content.x,
                start.container.content.y == self.size.content.y,
                start.container.content.w == self.size.content.w,
                start.container.content.h == 0,
                start.container.border == self.size.border,
                subcursor == cursor_after(self.children@.subrange(0, i as int), start),
                forall|f: Seq<DomBox>|
                    i <= f.len() && f.subrange(0, i as int) == self.children@.subrange(0, i as int) && #[trigger] block_from(
                        self.children@.subrange(i as int, self.children@.len() as int),
                        f,
                        i as int,
                        start,
                    ) ==> block_from(orig, f, 0, start),
            decreases weights(self.children@.subrange(i as int, self.children@.len() as int)),
        {
            let ghost cur = self.children@;
            let ghost len = cur.len() as int;
            let ghost tail = cur.subrange(i as int, len);
            let ghost c0 = subcursor;
            proof {
                assert(tail[0] == cur[i as int]);
                lemma_boxes_split(kind, cur, i as int);
                assert(tail =~= seq![cur[i as int]] + cur.subrange(i + 1, len));
                lemma_boxes_cons(kind, cur[i as int], cur.subrange(i + 1, len));
                lemma_weight_positive(cur[i as int]);
            }
            let is_break = match &self.children[i].kind {
                BoxKind::Break => true,
                _ => false,
            };
            if is_break {
                let _ = self.children.remove(i);
                proof {
                    assert(self.children@ =~= cur.subrange(0, i as int) + cur.subrange(i + 1, len));
                    lemma_boxes_concat(kind, cur.subrange(0, i as int), cur.subrange(i + 1, len));
                    assert(self.children@.subrange(i as int, self.children@.len() as int) =~= cur.subrange(
                        i + 1,
                        len,
                    ));
                    assert(self.children@.subrange(0, i as int) =~= cur.subrange(0, i as int));
                    assert forall|f: Seq<DomBox>|
                        i <= f.len() && f.subrange(0, i as int) == self.children@.subrange(0, i as int) && #[trigger] block_from(
                            self.children@.subrange(i as int, self.children@.len() as int),
                            f,
                            i as int,
                            start,
                        ) implies block_from(orig, f, 0, start) by {
                        assert(tail.drop_first() =~= self.children@.subrange(i as int, self.children@.len() as int));
                        assert(block_from(tail, f, i as int, start));
                    }
                }
            } else {
                self.layout_child(&mut subcursor, i);
                let h = wrapped_height(&self.children[i].size);
                self.size.content.h = self.size.content.h.wrapping_add(h);
                let wb = wrapped_width(&self.children[i].size);
                if wb > max_width {
                    max_width = wb;
                }
                proof {
                    let after = self.children@;
                    let alen = after.len() as int;
                    assert(after.subrange(0, i + 1).drop_last() =~= cur.subrange(0, i as int));
                    assert(after.subrange(0, i + 1).last() == after[i as int]);
                    if child_stayed(cur, after, i as int) {
                        assert(after =~= after.subrange(0, i as int) + seq![after[i as int]] + after.subrange(i + 1, alen));
                        lemma_boxes_three(kind, after.subrange(0, i as int), after[i as int], after.subrange(i + 1, alen));
                        assert(after.subrange(i + 1, alen) =~= cur.subrange(i + 1, len));
                    } else {
                        assert(child_cut(kind, cur, after, i as int));
                        assert(after =~= after.subrange(0, i as int) + seq![after[i as int]] + (seq![after[i + 1]] + after.subrange(i + 2, alen)));
                        lemma_boxes_three(kind, after.subrange(0, i as int), after[i as int], seq![after[i + 1]] + after.subrange(i + 2, alen));
                        lemma_boxes_cons(kind, after[i + 1], after.subrange(i + 2, alen));
                        assert(after.subrange(i + 1, alen) =~= seq![after[i + 1]] + after.subrange(i + 2, alen));
                        assert(after.subrange(i + 2, alen) =~= cur.subrange(i + 1, len));
                        lemma_weight_positive(after[i + 1]);
                    }
                    assert(after.subrange(0, i + 1).drop_last() =~= after.subrange(0, i as int));
                    assert(after.subrange(0, i as int) =~= cur.subrange(0, i as int));
                    assert(tail.drop_first() =~= cur.subrange(i + 1, len));
                    assert forall|f: Seq<DomBox>|
                        i + 1 <= f.len() && f.subrange(0, i + 1) == after.subrange(0, i + 1) && #[trigger] block_from(
                            after.subrange(i + 1, alen),
                            f,
                            i + 1,
                            start,
                        ) implies block_from(orig, f, 0, start) by {
                        assert(f.subrange(0, i as int) =~= f.subrange(0, i + 1).subrange(0, i as int));
                        assert(f.subrange(0, i as int) =~= cur.subrange(0, i as int));
                        assert(f[i as int] == f.subrange(0, i + 1)[i as int]);
                        assert(f[i as int] == after[i as int]);
                        assert(c0 == cursor_after(f.subrange(0, i as int), start));
                        assert(tail[0] == cur[i as int]);
                        if alen == len + 1 {
                            let q2 = after.subrange(i + 1, alen);
                            assert(q2 =~= seq![after[i + 1]] + cur.subrange(i + 1, len));
                            assert(q2[0] == after[i + 1]);
                            assert(q2.drop_first() =~= tail.drop_first());
                            assert(rest_of(tail[0], f[i as int], c0, q2[0]));
                        } else {
                            assert(after.subrange(i + 1, alen) =~= cur.subrange(i + 1, len));
                        }
                        lemma_block_step(tail, after.subrange(i + 1, alen), f, i as int, start);
                    }
                }
                i = i + 1;
            }
        }
        assert(self.children@.subrange(0, self.children@.len() as int) =~= self.children@);
        proof {
            let fin = self.children@;
            assert(fin.subrange(fin.len() as int, fin.len() as int) =~= Seq::<DomBox>::empty());
            assert(block_from(fin.subrange(fin.len() as int, fin.len() as int), fin, fin.len() as int, start));
        }
        if !self.style.extend {
            self.size.content.w = max_width;
        }
        let is_bullet = match &self.kind {
            BoxKind::ListBullet => true,
            _ => false,
        };
        if is_bullet {
            cursor.x = cursor.x.wrapping_add(wrapped_width(&self.size));
        } else {
            cursor.x = cursor.container.content.x;
            cursor.y = cursor.y.wrapping_add(wrapped_height(&self.size));
        }
        res
    }

    /// Lays out the child at `i` of a block-level box; a line that was cut gets the rest of
    /// it put right after it.
    fn layout_child(&mut self, cursor: &mut BoxCursor, i: usize)
        requires
            i < old(self).children@.len(),
            old(self).kind is Block || old(self).kind is ListBullet || old(self).kind is Header
                || old(self).kind is List,
            child_fits(old(self).kind, old(self).children@[i as int]),
            !(old(self).children@[i as int].kind is Break),
            layoutable(old(self).children@[i as int]),
        ensures
            final(cursor).container == old(cursor).container,
            final(self).kind == old(self).kind,
            final(self).size == old(self).size,
            final(self).style == old(self).style,
            child_laid_out(old(self).kind, old(self).children@, final(self).children@, i as int),
            !(old(self).children@[i as int].kind is InlineContainer) ==> child_stayed(
                old(self).children@,
                final(self).children@,
                i as int,
            ),
            final(self).children@[i as int].size.content.x == old(cursor).x.wrapping_add(
                old(self).children@[i as int].size.border.left,
            ),
            final(self).children@[i as int].size.content.y == old(cursor).y.wrapping_add(
                old(self).children@[i as int].size.border.top,
            ),
            box_geometry(old(self).children@[i as int], final(self).children@[i as int], *old(cursor)),
            placed(old(self).children@[i as int], final(self).children@[i as int], *old(cursor)),
            final(self).children@.len() == old(self).children@.len() + 1 ==> rest_of(
                old(self).children@[i as int],
                final(self).children@[i as int],
                *old(cursor),
                final(self).children@[i + 1],
            ),
            final(cursor).x == advance_x(
                final(self).children@[i as int].kind,
                old(cursor).x,
                old(cursor).container.content.x,
                final(self).children@[i as int].size,
            ),
            final(cursor).y == advance_y(
                final(self).children@[i as int].kind,
                old(cursor).y,
                final(self).children@[i as int].size,
            ),
        decreases weight(old(self).children@[i as int]), 4nat,
    {
        let ghost cur = self.children@;
        let ghost len = cur.len() as int;
        let count = self.children.len();
        assert(i + 1 <= count);
        let mut child = self.children.remove(i);
        let child_res = child.layout_generic(cursor);
        self.children.insert(i, child);
        proof {
            assert(self.children@.subrange(0, i as int) =~= cur.subrange(0, i as int));
        }
        match child_res {
            LayoutRes::Normal => {
                assert(self.children@.subrange(i + 1, len) =~= cur.subrange(i + 1, len));
            },
            LayoutRes::CutHere(next) => {
                self.children.insert(i + 1, next);
                assert(self.children@.subrange(0, i as int) =~= cur.subrange(0, i as int));
                assert(self.children@.subrange(i + 2, len + 1) =~= cur.subrange(i + 1, len));
            },
            LayoutRes::Reject => {
                proof {
                    assert(false);
                }
            },
        }
    }

    /// Lays out a list: its bullets and items, each item block below the one before.
    fn layout_list(&mut self, cursor: &mut BoxCursor) -> (res: LayoutRes)
        requires
            old(self).kind is List,
            layoutable(*old(self)),
        ensures
            final(cursor).container == old(cursor).container,
            laid_out(*old(self), *final(self), res),
            res is Normal,
            final(self).kind == old(self).kind,
            final(self).size.content.x == old(cursor).x.wrapping_add(old(self).size.border.left),
            final(self).size.content.y == old(cursor).y.wrapping_add(old(self).size.border.top),
            final(self).size.content.w == inner(
                old(cursor).container.content.w,
                old(self).size.border.left,
                old(self).size.border.right,
            ),
            final(self).size.content.h == block_heights_sum(final(self).children@),
            final(cursor).x == old(cursor).x,
            final(cursor).y == old(cursor).y.wrapping_add(outer_height(final(self).size)),
            children_placed(old(self).children@, final(self).children@, list_start(*final(self))),
        decreases weight(*old(self)), 2nat,
    {
        let res = LayoutRes::Normal;
        self.size.content.w = inner_width(
            cursor.container.content.w,
            self.size.border.left,
            self.size.border.right,
        );
        self.size.content.h = 0;
        self.size.content.x = cursor.x.wrapping_add(self.size.border.left);
        self.size.content.y = cursor.y.wrapping_add(self.size.border.top);
        let mut subcursor = BoxCursor {
            x: self.size.content.x,
            y: self.size.content.y,
            container: self.size,
        };
        let ghost orig = self.children@;
        let ghost kind = self.kind;
        let ghost n = orig.len() as int;
        let ghost start = subcursor;
        let mut i: usize = 0;
        assert(self.children@.subrange(0, 0) =~= Seq::<DomBox>::empty());
        while i < self.children.len()
            invariant
                i <= self.children@.len(),
                self.children@.len() == n,
                n == orig.len(),
                orig == old(self).children@,
                kind == old(self).kind,
                self.kind == kind,
                kind is List,
                start == list_start(*self),
                subcursor == cursor_after(self.children@.subrange(0, i as int), start),
                children_placed(orig, self.children@.subrange(0, i as int), start),
                self.size.border == old(self).size.border,
                self.style == old(self).style,
                children_layoutable(kind, orig),
                self.children@.subrange(i as int, n) == orig.subrange(i as int, n),
                boxes_text(self.children@.subrange(0, i as int)) == boxes_text(orig.subrange(0, i as int)),
                weights(orig) < weight(*old(self)),
                self.size.content.x == old(cursor).x.wrapping_add(old(self).size.border.left),
                self.size.content.y == old(cursor).y.wrapping_add(old(self).size.border.top),
                self.size.content.w == inner(
                    old(cursor).container.content.w,
                    old(self).size.border.left,
                    old(self).size.border.right,
                ),
                self.size.content.h == block_heights_sum(self.children@.subrange(0, i as int)),
                *cursor == *old(cursor),
            decreases n - i,
        {
            let ghost cur = self.children@;
            proof {
                assert(cur[i as int] == orig[i as int]) by {
                    assert(cur.subrange(i as int, n)[0] == orig.subrange(i as int, n)[0]);
                }
                lemma_boxes_split(kind, orig, i as int);
                lemma_boxes_split(kind, cur, i as int);
            }
            self.layout_child(&mut subcursor, i);
            let is_block = match &self.children[i].kind {
                BoxKind::ListBullet => 0u8,
                BoxKind::Block => 1u8,
                _ => 2u8,
            };
            if is_block == 1 {
                let h = wrapped_height(&self.children[i].size);
                self.size.content.h = self.size.content.h.wrapping_add(h);
            } else if is_block == 2 {
                proof {
                    assert(false);
                }
            }
            proof {
                let after = self.children@;
                assert(child_stayed(cur, after, i as int));
                assert(after.subrange(0, i + 1).drop_last() =~= cur.subrange(0, i as int));
                assert(after.subrange(0, i + 1).last() == after[i as int]);
                assert(after.subrange(0, i + 1) =~= after.subrange(0, i as int) + seq![after[i as int]]);
                assert(orig.subrange(0, i + 1) =~= orig.subrange(0, i as int) + seq![orig[i as int]]);
                lemma_boxes_concat(kind, after.subrange(0, i as int), seq![after[i as int]]);
                lemma_boxes_concat(kind, orig.subrange(0, i as int), seq![orig[i as int]]);
                lemma_boxes_single(kind, after[i as int]);
                lemma_boxes_single(kind, orig[i as int]);
                let pc = after.subrange(0, i + 1);
                assert(pc.subrange(0, i as int) =~= cur.subrange(0, i as int));
                assert(pc[i as int] == after[i as int]);
                assert(pc.drop_last() =~= cur.subrange(0, i as int));
                assert(children_placed(orig, pc, start));
                assert(after.subrange(i + 1, n) =~= orig.subrange(i + 1, n)) by {
                    assert(cur.subrange(i + 1, n) =~= cur.subrange(i as int, n).subrange(1, n - i));
                    assert(orig.subrange(i + 1, n) =~= orig.subrange(i as int, n).subrange(1, n - i));
                }
            }
            i = i + 1;
        }
        proof {
            assert(self.children@.subrange(0, n) =~= self.children@);
            assert(orig.subrange(0, n) =~= orig);
        }
        cursor.y = cursor.y.wrapping_add(wrapped_height(&self.size));
        res
    }
}

} // verus!
