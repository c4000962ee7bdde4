//! A box tree for laying out documentation text on an ANSI terminal.

use vstd::prelude::*;
use vstd::utf8::{encode_utf8, encode_utf8_decode_utf8, encode_utf8_valid_utf8, is_char_boundary};

verus! {

/// Encoding two texts one after the other gives the two encodings one after the other.
proof fn lemma_encode_utf8_concat(a: Seq<char>, b: Seq<char>)
    ensures
        encode_utf8(a + b) == encode_utf8(a) + encode_utf8(b),
    decreases a.len(),
{
    if a.len() > 0 {
        assert((a + b).drop_first() =~= a.drop_first() + b);
        lemma_encode_utf8_concat(a.drop_first(), b);
        assert(encode_utf8(a + b) =~= encode_utf8(a) + encode_utf8(b));
    } else {
        assert(a + b =~= b);
        assert(encode_utf8(a) =~= Seq::<u8>::empty());
        assert(encode_utf8(a) + encode_utf8(b) =~= encode_utf8(b));
    }
}

/// Splits `s` at byte position `mid`: `s` keeps the bytes before it and the rest is returned.
pub fn split_at_in_place(s: &mut String, mid: usize) -> (rest: String)
    requires
        is_char_boundary(encode_utf8(old(s)@), mid as int),
    ensures
        encode_utf8(final(s)@) == encode_utf8(old(s)@).subrange(0, mid as int),
        encode_utf8(rest@) == encode_utf8(old(s)@).subrange(mid as int, encode_utf8(old(s)@).len() as int),
        final(s)@ + rest@ == old(s)@,
        mid > 0 ==> final(s)@.len() > 0,
        encode_utf8(rest@).len() <= encode_utf8(old(s)@).len(),
{
    let (head, tail) = s.as_str().split_at(mid);
    let rest = tail.to_owned();
    let first = head.to_owned();
    let ghost before = s@;
    *s = first;
    proof {
        let bytes = encode_utf8(before);
        encode_utf8_valid_utf8(before);
        assert(mid <= bytes.len());
        assert(encode_utf8(s@) == bytes.subrange(0, mid as int));
        assert(encode_utf8(rest@) == bytes.subrange(mid as int, bytes.len() as int));
        lemma_encode_utf8_concat(s@, rest@);
        assert(bytes.subrange(0, mid as int) + bytes.subrange(mid as int, bytes.len() as int) =~= bytes);
        assert(encode_utf8(s@ + rest@) =~= bytes);
        encode_utf8_decode_utf8(s@ + rest@);
        encode_utf8_decode_utf8(before);
        if mid > 0 && s@.len() == 0 {
            assert(encode_utf8(s@) =~= Seq::<u8>::empty());
            assert(bytes.subrange(0, mid as int).len() == mid);
        }
    }
    rest
}

/// The eight basic terminal colours.
#[derive(PartialEq, Eq, Structural, Clone, Copy, Debug)]
pub enum TermColor {
    Black,
    Red,
    Green,
    Yellow,
    Blue,
    Purple,
    Cyan,
    White,
}

/// The palette number of a basic terminal colour.
pub open spec fn color_number(c: TermColor) -> u8 {
    match c {
        TermColor::Black => 0,
        TermColor::Red => 1,
        TermColor::Green => 2,
        TermColor::Yellow => 3,
        TermColor::Blue => 4,
        TermColor::Purple => 5,
        TermColor::Cyan => 6,
        TermColor::White => 7,
    }
}

fn term_color_number(c: TermColor) -> (r: u8)
    ensures
        r == color_number(c),
{
    match c {
        TermColor::Black => 0,
        TermColor::Red => 1,
        TermColor::Green => 2,
        TermColor::Yellow => 3,
        TermColor::Blue => 4,
        TermColor::Purple => 5,
        TermColor::Cyan => 6,
        TermColor::White => 7,
    }
}

/// A colour of the 256-colour terminal palette, or none (the terminal's default).
#[derive(PartialEq, Eq, Structural, Clone, Copy, Debug)]
pub struct DomColor(pub Option<u8>);

/// The palette entry of a grey level: the 24-step grey ramp (232..=255 is reached from
/// 231 + level), with black and white at the ends of the colour cube.
pub open spec fn grey_index(level: u8) -> u8 {
    let l = level / 16;
    if l == 0 {
        16
    } else if l == 15 {
        231
    } else {
        (231 + l) as u8
    }
}

/// The palette entry nearest to an RGB colour: the grey ramp when the three channels share
/// their top four bits, else the 6x6x6 colour cube.
pub open spec fn rgb_index(red: u8, green: u8, blue: u8) -> u8 {
    if red / 16 == green / 16 && green / 16 == blue / 16 {
        grey_index(red)
    } else {
        (16 + (red * 6 / 256) * 36 + (green * 6 / 256) * 6 + blue * 6 / 256) as u8
    }
}

impl DomColor {
    /// No colour: the terminal's default.
    pub fn default() -> (r: DomColor)
        ensures
            r.0 is None,
    {
        DomColor(None)
    }

    /// The dark variant of a basic colour (palette 0..=7).
    pub fn from_dark(color: TermColor) -> (r: DomColor)
        ensures
            r.0 == Some(color_number(color)),
    {
        DomColor(Some(term_color_number(color)))
    }

    /// The light variant of a basic colour (palette 8..=15).
    pub fn from_light(color: TermColor) -> (r: DomColor)
        ensures
            r.0 == Some((color_number(color) + 8) as u8),
    {
        DomColor(Some(term_color_number(color) + 8))
    }

    /// The palette grey nearest to `level`.
    pub fn from_grey(level: u8) -> (r: DomColor)
        ensures
            r.0 == Some(grey_index(level)),
    {
        assert(level >> 4 == level / 16) by (bit_vector);
        let mut level = level >> 4;
        level = match level {
            0 => 16,
            15 => 231,
            grey => 231 + grey,
        };
        DomColor(Some(level))
    }

    /// The palette colour nearest to the RGB colour.
    pub fn from_color(red: u8, green: u8, blue: u8) -> (r: DomColor)
        ensures
            r.0 == Some(rgb_index(red, green, blue)),
    {
        assert(red >> 4 == red / 16 && green >> 4 == green / 16 && blue >> 4 == blue / 16) by (bit_vector);
        if (red >> 4) == (green >> 4) && (green >> 4) == (blue >> 4) {
            return DomColor::from_grey(red);
        }
        let red = (red as u32 * 6 / 256) as u8;
        let green = (green as u32 * 6 / 256) as u8;
        let blue = (blue as u32 * 6 / 256) as u8;
        DomColor(Some(16 + red * 36 + green * 6 + blue))
    }

    /// The palette number, if a colour is set.
    pub fn index(&self) -> (r: Option<u8>)
        ensures
            r == self.0,
    {
        self.0
    }
}

/// How text is aligned in a box.
#[derive(PartialEq, Eq, Structural, Clone, Copy, Debug)]
pub enum TextAlign {
    Left,
    Center,
    Right,
}

/// The line style of a box's border.
#[derive(PartialEq, Eq, Structural, Clone, Copy, Debug)]
pub enum BorderType {
    Empty,
    Dash,
    Thin,
    Double,
    Bold,
}

/// How a box and its text are drawn.
#[derive(PartialEq, Eq, Structural, Clone, Copy, Debug)]
pub struct DomStyle {
    pub bg: DomColor,
    pub fg: DomColor,
    pub bold: bool,
    pub underline: bool,
    pub strikethrough: bool,
    pub italic: bool,
    pub extend: bool,
    pub indent: u16,
    pub align: TextAlign,
    pub border_type: BorderType,
    pub top_nb_type: BorderType,
    pub bottom_nb_type: BorderType,
    pub left_nb_type: BorderType,
    pub right_nb_type: BorderType,
}

/// The default style: no colours, no emphasis, no indent, left-aligned, no borders.
pub open spec fn plain_style() -> DomStyle {
    DomStyle {
        bg: DomColor(None),
        fg: DomColor(None),
        bold: false,
        underline: false,
        strikethrough: false,
        italic: false,
        extend: false,
        indent: 0,
        align: TextAlign::Left,
        border_type: BorderType::Empty,
        top_nb_type: BorderType::Empty,
        bottom_nb_type: BorderType::Empty,
        left_nb_type: BorderType::Empty,
        right_nb_type: BorderType::Empty,
    }
}

impl Default for DomStyle {
    fn default() -> (r: DomStyle)
        ensures
            r == plain_style(),
    {
        DomStyle {
            bg: DomColor(None),
            fg: DomColor(None),
            bold: false,
            underline: false,
            strikethrough: false,
            italic: false,
            extend: false,
            indent: 0,
            align: TextAlign::Left,
            border_type: BorderType::Empty,
            top_nb_type: BorderType::Empty,
            bottom_nb_type: BorderType::Empty,
            left_nb_type: BorderType::Empty,
            right_nb_type: BorderType::Empty,
        }
    }
}

/// What a box holds and how it is laid out.
#[derive(Debug)]
pub enum BoxKind {
    Text(String),
    Break,
    InlineContainer,
    Inline,
    Block,
    Header(u8),
    List(Option<u16>),
    ListBullet,
    Table,
    TableColumn,
    TableItem,
    Image,
}

impl Clone for BoxKind {
    fn clone(&self) -> (r: Self)
        ensures
            r == *self,
    {
        match self {
            BoxKind::Text(t) => BoxKind::Text(t.clone()),
            BoxKind::Break => BoxKind::Break,
            BoxKind::InlineContainer => BoxKind::InlineContainer,
            BoxKind::Inline => BoxKind::Inline,
            BoxKind::Block => BoxKind::Block,
            BoxKind::Header(l) => BoxKind::Header(*l),
            BoxKind::List(s) => BoxKind::List(*s),
            BoxKind::ListBullet => BoxKind::ListBullet,
            BoxKind::Table => BoxKind::Table,
            BoxKind::TableColumn => BoxKind::TableColumn,
            BoxKind::TableItem => BoxKind::TableItem,
            BoxKind::Image => BoxKind::Image,
        }
    }
}

/// A rectangle: position and extent, in terminal cells.
#[derive(PartialEq, Eq, Structural, Clone, Copy, Debug)]
pub struct Rect {
    pub x: u16,
    pub y: u16,
    pub w: u16,
    pub h: u16,
}

/// The border widths on the four sides of a box.
#[derive(PartialEq, Eq, Structural, Clone, Copy, Debug)]
pub struct Edges {
    pub top: u16,
    pub bottom: u16,
    pub left: u16,
    pub right: u16,
}

/// The content rectangle of a box and its borders.
#[derive(PartialEq, Eq, Structural, Clone, Copy, Debug)]
pub struct BoxSize {
    pub content: Rect,
    pub border: Edges,
}

/// An empty box size at the origin.
pub open spec fn zero_size() -> BoxSize {
    BoxSize { content: Rect { x: 0, y: 0, w: 0, h: 0 }, border: Edges { top: 0, bottom: 0, left: 0, right: 0 } }
}

impl BoxSize {
    /// An empty box size at the origin.
    pub fn zero() -> (r: BoxSize)
        ensures
            r == zero_size(),
    {
        BoxSize { content: Rect { x: 0, y: 0, w: 0, h: 0 }, border: Edges { top: 0, bottom: 0, left: 0, right: 0 } }
    }

    /// The width including the left and right borders.
    pub fn width_plus_border(&self) -> (r: u16)
        requires
            self.content.w + self.border.left + self.border.right <= u16::MAX,
        ensures
            r == self.content.w + self.border.left + self.border.right,
    {
        self.content.w + self.border.left + self.border.right
    }

    /// The height including the top and bottom borders.
    pub fn height_plus_border(&self) -> (r: u16)
        requires
            self.content.h + self.border.top + self.border.bottom <= u16::MAX,
        ensures
            r == self.content.h + self.border.top + self.border.bottom,
    {
        self.content.h + self.border.top + self.border.bottom
    }

    /// The column just right of the content.
    pub fn right(&self) -> (r: u16)
        requires
            self.content.x + self.content.w <= u16::MAX,
        ensures
            r == self.content.x + self.content.w,
    {
        self.content.x + self.content.w
    }

    /// The line just below the content.
    pub fn bottom(&self) -> (r: u16)
        requires
            self.content.y + self.content.h <= u16::MAX,
        ensures
            r == self.content.y + self.content.h,
    {
        self.content.y + self.content.h
    }
}

/// A box of the layout tree.
#[derive(Debug)]
pub struct DomBox {
    pub kind: BoxKind,
    pub size: BoxSize,
    pub style: DomStyle,
    pub children: Vec<DomBox>,
}

/// Whether `b` is a fresh box: the given kind and style, an empty size and no children.
pub open spec fn fresh_box(b: DomBox, kind: BoxKind, style: DomStyle) -> bool {
    &&& b.kind == kind
    &&& b.size == zero_size()
    &&& b.style == style
    &&& b.children@.len() == 0
}

/// `after` is `before` with `child` added as its last child.
pub open spec fn appended_child(before: DomBox, after: DomBox, child: DomBox) -> bool {
    &&& after.kind == before.kind
    &&& after.size == before.size
    &&& after.style == before.style
    &&& after.children@ == before.children@.push(child)
}

/// Whether inline content added to `b` goes into `b` itself.
pub open spec fn is_inline(b: DomBox) -> bool {
    b.kind is Inline || b.kind is InlineContainer
}

/// Whether `b`'s last child is an inline container that takes inline content added to `b`.
pub open spec fn has_open_line(b: DomBox) -> bool {
    b.children@.len() > 0 && b.children@.last().kind is InlineContainer
}

/// The style inline content added to `b` takes: that of the box it goes into.
pub open spec fn inline_style(b: DomBox) -> DomStyle {
    if is_inline(b) {
        b.style
    } else if has_open_line(b) {
        b.children@.last().style
    } else {
        b.style
    }
}

/// `after` is `before` with `child` added to the inline content: into `before` itself when it
/// is inline, else into its last child when that is an inline container, else into a new
/// inline container (with `before`'s style) appended to its children.
pub open spec fn appended_inline(before: DomBox, after: DomBox, child: DomBox) -> bool {
    if is_inline(before) {
        appended_child(before, after, child)
    } else {
        &&& after.kind == before.kind
        &&& after.size == before.size
        &&& after.style == before.style
        &&& if has_open_line(before) {
            &&& after.children@.len() == before.children@.len()
            &&& after.children@.drop_last() == before.children@.drop_last()
            &&& appended_child(before.children@.last(), after.children@.last(), child)
        } else {
            &&& after.children@.len() == before.children@.len() + 1
            &&& after.children@.drop_last() == before.children@
            &&& after.children@.last().kind is InlineContainer
            &&& after.children@.last().size == zero_size()
            &&& after.children@.last().style == before.style
            &&& after.children@.last().children@ == seq![child]
        }
    }
}

/// Replacing the element just pushed is pushing the replacement instead.
proof fn lemma_update_last(s: Seq<DomBox>, x: DomBox)
    ensures
        forall|y: DomBox| #[trigger] s.push(x).update(s.len() as int, y) == s.push(y),
{
    assert forall|y: DomBox| #[trigger] s.push(x).update(s.len() as int, y) == s.push(y) by {
        assert(s.push(x).update(s.len() as int, y) =~= s.push(y));
    }
}

/// Replacing the last element keeps the others and puts the replacement last.
proof fn lemma_update_last_facts(s: Seq<DomBox>)
    ensures
        s.len() > 0 ==> forall|y: DomBox|
            #![trigger s.update(s.len() - 1, y)]
            s.update(s.len() - 1, y).drop_last() == s.drop_last() && s.update(s.len() - 1, y).last() == y
                && s.update(s.len() - 1, y).len() == s.len(),
{
    if s.len() > 0 {
        assert forall|y: DomBox| #![trigger s.update(s.len() - 1, y)]
            s.update(s.len() - 1, y).drop_last() == s.drop_last() && s.update(s.len() - 1, y).last() == y
                && s.update(s.len() - 1, y).len() == s.len() by {
            assert(s.update(s.len() - 1, y).drop_last() =~= s.drop_last());
        }
    }
}

/// Dropping the last element of a push gives back the sequence.
proof fn lemma_push_drop_last(s: Seq<DomBox>)
    ensures
        forall|y: DomBox| #[trigger] s.push(y).drop_last() == s,
{
    assert forall|y: DomBox| #[trigger] s.push(y).drop_last() == s by {
        assert(s.push(y).drop_last() =~= s);
    }
}

/// Pushing onto an empty sequence gives the one-element sequence.
proof fn lemma_push_empty()
    ensures
        forall|s: Seq<DomBox>, y: DomBox| s.len() == 0 ==> #[trigger] s.push(y) == seq![y],
{
    assert forall|s: Seq<DomBox>, y: DomBox| s.len() == 0 implies #[trigger] s.push(y) == seq![y] by {
        assert(s.push(y) =~= seq![y]);
    }
}

impl DomBox {
    /// The root block of a document laid out `width` cells wide.
    pub fn new_root(width: u16) -> (r: DomBox)
        ensures
            r.kind is Block,
            r.size == (BoxSize { content: Rect { w: width, ..zero_size().content }, ..zero_size() }),
            r.style == plain_style(),
            r.children@.len() == 0,
    {
        let mut dombox = DomBox::new_block();
        dombox.size.content.w = width;
        dombox
    }

    /// An empty block.
    pub fn new_block() -> (r: DomBox)
        ensures
            fresh_box(r, BoxKind::Block, plain_style()),
    {
        DomBox { size: BoxSize::zero(), kind: BoxKind::Block, style: DomStyle::default(), children: Vec::new() }
    }

    /// Adds `existing` as the last child.
    pub fn swallow(&mut self, existing: DomBox)
        ensures
            appended_child(*old(self), *final(self), existing),
    {
        self.children.push(existing);
    }

    /// Adds a fresh child of the given kind, with this box's style, and returns it.
    fn add_child(&mut self, kind: BoxKind) -> (r: &mut DomBox)
        ensures
            fresh_box(*r, kind, old(self).style),
            appended_child(*old(self), *final(self), *final(r)),
    {
        let style = self.style;
        let ghost before = self.children@;
        self.children.push(DomBox { size: BoxSize::zero(), kind, style, children: Vec::new() });
        let n = self.children.len();
        proof {
            lemma_update_last(before, self.children@.last());
        }
        &mut self.children[n - 1]
    }

    /// The box that takes inline content added to this one: this box when it is inline, else
    /// its last child when that is an inline container, else a new inline container (with this
    /// box's style) appended to its children.
    pub fn get_inline_container(&mut self) -> (r: &mut DomBox)
        ensures
            is_inline(*old(self)) ==> *r == *old(self) && *final(self) == *final(r),
            !is_inline(*old(self)) && has_open_line(*old(self)) ==> {
                &&& *r == old(self).children@.last()
                &&& final(self).kind == old(self).kind
                &&& final(self).size == old(self).size
                &&& final(self).style == old(self).style
                &&& final(self).children@ == old(self).children@.update(
                    old(self).children@.len() - 1,
                    *final(r),
                )
            },
            !is_inline(*old(self)) && !has_open_line(*old(self)) ==> {
                &&& fresh_box(*r, BoxKind::InlineContainer, old(self).style)
                &&& final(self).kind == old(self).kind
                &&& final(self).size == old(self).size
                &&& final(self).style == old(self).style
                &&& final(self).children@ == old(self).children@.push(*final(r))
            },
    {
        match self.kind {
            BoxKind::Inline | BoxKind::InlineContainer => self,
            _ => {
                let n = self.children.len();
                let open = n > 0 && match self.children[n - 1].kind {
                    BoxKind::InlineContainer => true,
                    _ => false,
                };
                if open {
                    &mut self.children[n - 1]
                } else {
                    self.add_child(BoxKind::InlineContainer)
                }
            },
        }
    }

    /// Adds a box of the given kind to the inline content and returns it.
    fn add_inline_child(&mut self, kind: BoxKind) -> (r: &mut DomBox)
        ensures
            fresh_box(*r, kind, inline_style(*old(self))),
            appended_inline(*old(self), *final(self), *final(r)),
    {
        proof {
            lemma_update_last_facts(old(self).children@);
            lemma_push_empty();
            lemma_push_drop_last(old(self).children@);
        }
        let inline = match self.kind {
            BoxKind::Inline => true,
            BoxKind::InlineContainer => true,
            _ => false,
        };
        if inline {
            self.add_child(kind)
        } else {
            {
                let n = self.children.len();
                let open = n > 0 && match self.children[n - 1].kind {
                    BoxKind::InlineContainer => true,
                    _ => false,
                };
                if open {
                    let line = &mut self.children[n - 1];
                    line.add_child(kind)
                } else {
                    let line = self.add_child(BoxKind::InlineContainer);
                    line.add_child(kind)
                }
            }
        }
    }

    /// Adds a text box to the inline content and returns it.
    pub fn add_text(&mut self, text: String) -> (r: &mut DomBox)
        ensures
            fresh_box(*r, BoxKind::Text(text), inline_style(*old(self))),
            appended_inline(*old(self), *final(self), *final(r)),
    {
        self.add_inline_child(BoxKind::Text(text))
    }

    /// Adds an inline box (for emphasis, links, code) to the inline content and returns it.
    pub fn add_inline(&mut self) -> (r: &mut DomBox)
        ensures
            fresh_box(*r, BoxKind::Inline, inline_style(*old(self))),
            appended_inline(*old(self), *final(self), *final(r)),
    {
        self.add_inline_child(BoxKind::Inline)
    }

    /// Adds a block child and returns it.
    pub fn add_block(&mut self) -> (r: &mut DomBox)
        ensures
            fresh_box(*r, BoxKind::Block, old(self).style),
            appended_child(*old(self), *final(self), *final(r)),
    {
        self.add_child(BoxKind::Block)
    }

    /// Adds a header child of the given level and returns it.
    pub fn add_header(&mut self, level: u8) -> (r: &mut DomBox)
        ensures
            fresh_box(*r, BoxKind::Header(level), old(self).style),
            appended_child(*old(self), *final(self), *final(r)),
    {
        self.add_child(BoxKind::Header(level))
    }

    /// Adds a list child (numbered from `start` when given) and returns it.
    pub fn add_list(&mut self, start: Option<u16>) -> (r: &mut DomBox)
        ensures
            fresh_box(*r, BoxKind::List(start), old(self).style),
            appended_child(*old(self), *final(self), *final(r)),
    {
        self.add_child(BoxKind::List(start))
    }

    /// Adds a list bullet child and returns it.
    pub fn add_bullet(&mut self) -> (r: &mut DomBox)
        ensures
            fresh_box(*r, BoxKind::ListBullet, old(self).style),
            appended_child(*old(self), *final(self), *final(r)),
    {
        self.add_child(BoxKind::ListBullet)
    }

    /// Adds a line break child and returns it.
    pub fn add_break(&mut self) -> (r: &mut DomBox)
        ensures
            fresh_box(*r, BoxKind::Break, old(self).style),
            appended_child(*old(self), *final(self), *final(r)),
    {
        self.add_child(BoxKind::Break)
    }
}

} // verus!
