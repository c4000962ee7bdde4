//! Drawing a laid-out box tree line by line, as runs of styled text.

use vstd::prelude::*;

use crate::dombox::{plain_style, BorderType, BoxKind, BoxSize, DomBox, DomStyle};
use crate::layout::{display_width, outer_width, text_width};
use crate::text::push_char;

verus! {

/// A run of text drawn in one style.
pub struct Piece {
    pub style: DomStyle,
    pub text: String,
}

/// The first line of a box's top border (with `u16` arithmetic wrapping around).
pub open spec fn top_line(size: BoxSize) -> u16 {
    size.content.y.wrapping_sub(size.border.top)
}

/// The line just below the content (with `u16` arithmetic wrapping around).
pub open spec fn content_bottom(size: BoxSize) -> u16 {
    size.content.y.wrapping_add(size.content.h)
}

/// The column just right of the content (with `u16` arithmetic wrapping around).
pub open spec fn content_right(size: BoxSize) -> u16 {
    size.content.x.wrapping_add(size.content.w)
}

/// Whether `line` misses the box, borders included.
pub open spec fn outside(size: BoxSize, line: u16) -> bool {
    line < top_line(size) || line >= content_bottom(size).wrapping_add(size.border.bottom)
}

/// Whether `line` crosses the box's top or bottom border.
pub open spec fn on_border(size: BoxSize, line: u16) -> bool {
    !outside(size, line) && (line < size.content.y || line >= content_bottom(size))
}

/// Where a box starts on `line` and how wide it is there: nothing where the line misses it.
pub open spec fn span(size: BoxSize, line: u16) -> (u16, u16) {
    if outside(size, line) {
        (0, 0)
    } else {
        (size.content.x.wrapping_sub(size.border.left), outer_width(size))
    }
}

/// Whether a box can be drawn on `line`: a text fits in its content, and the children that
/// the line crosses stand left to right inside the content, without overlapping.
pub open spec fn renderable(b: DomBox, line: u16) -> bool
    decreases b,
{
    if outside(b.size, line) || on_border(b.size, line) {
        true
    } else {
        match b.kind {
            BoxKind::Text(t) => b.size.content.x.wrapping_add(display_width(t@) as u16) <= content_right(
                b.size,
            ),
            _ => children_renderable(b.children@, line, b.size.content.x, content_right(b.size)),
        }
    }
}

/// Whether the boxes of `s` can each be drawn on `line`, and those it crosses stand left to
/// right from column `pos` up to column `right`.
pub open spec fn children_renderable(s: Seq<DomBox>, line: u16, pos: u16, right: u16) -> bool
    decreases s,
{
    if s.len() == 0 {
        pos <= right
    } else {
        let sp = span(s[0].size, line);
        let start = sp.0;
        let len = sp.1;
        &&& renderable(s[0], line)
        &&& if len == 0 {
            children_renderable(s.subrange(1, s.len() as int), line, pos, right)
        } else {
            &&& start >= pos
            &&& start.wrapping_add(len) <= right
            &&& children_renderable(s.subrange(1, s.len() as int), line, start.wrapping_add(len), right)
        }
    }
}

/// `n` copies of `c`.
pub open spec fn repeat(c: char, n: nat) -> Seq<char>
    decreases n,
{
    if n == 0 {
        seq![]
    } else {
        repeat(c, (n - 1) as nat).push(c)
    }
}

/// The character drawing a vertical border of the given type.
pub open spec fn side_char(t: BorderType) -> char {
    match t {
        BorderType::Empty => ' ',
        BorderType::Dash => '╎',
        BorderType::Thin => '│',
        BorderType::Double => '║',
        BorderType::Bold => '┃',
    }
}

/// The character drawing a horizontal border of the given type.
pub open spec fn rule_char(t: BorderType) -> char {
    match t {
        BorderType::Empty => ' ',
        BorderType::Dash => '╌',
        BorderType::Thin => '─',
        BorderType::Double => '═',
        BorderType::Bold => '━',
    }
}

/// The text of a top (or bottom) border line: corners over the side borders, the rule over
/// the content.
pub open spec fn border_line_text(size: BoxSize, t: BorderType, is_top: bool) -> Seq<char> {
    repeat(if is_top { '┌' } else { '└' }, size.border.left as nat) + repeat(rule_char(t), size.content.w as nat)
        + repeat(if is_top { '┐' } else { '┘' }, size.border.right as nat)
}

/// What a list of pieces shows: the style and the text of each, in order.
pub open spec fn pieces_view(v: Seq<Piece>) -> Seq<(DomStyle, Seq<char>)> {
    v.map_values(|p: Piece| (p.style, p.text@))
}

/// A single run of `text` in `style`.
pub open spec fn run(style: DomStyle, text: Seq<char>) -> Seq<(DomStyle, Seq<char>)> {
    seq![(style, text)]
}

/// The runs that draw a box's part of `line`: none where the line misses the box, its border
/// line where the line crosses the top or bottom border, else the left border, the content
/// (the text, or the children with spaces before each child that starts further right),
/// spaces up to the content's right edge and the right border.
pub open spec fn line_pieces(b: DomBox, line: u16) -> Seq<(DomStyle, Seq<char>)>
    decreases b,
{
    if outside(b.size, line) {
        seq![]
    } else if on_border(b.size, line) {
        run(b.style, border_line_text(b.size, b.style.border_type, line < b.size.content.y))
    } else {
        let side = side_char(b.style.border_type);
        let inner = match b.kind {
            BoxKind::Text(t) => (
                run(b.style, t@),
                b.size.content.x.wrapping_add(display_width(t@) as u16),
            ),
            _ => children_pieces(b.children@, line, b.size.content.x, b.style),
        };
        let right = content_right(b.size);
        let fill = if inner.1 < right {
            run(b.style, repeat(' ', (right - inner.1) as nat))
        } else {
            seq![]
        };
        run(b.style, repeat(side, b.size.border.left as nat)) + inner.0 + fill + run(
            b.style,
            repeat(side, b.size.border.right as nat),
        )
    }
}

/// The runs that draw the boxes of `s` on `line` from column `pos`, with spaces in `style`
/// before each box that starts further right, and the column where they end.
pub open spec fn children_pieces(s: Seq<DomBox>, line: u16, pos: u16, style: DomStyle) -> (
    Seq<(DomStyle, Seq<char>)>,
    u16,
)
    decreases s,
{
    if s.len() == 0 {
        (seq![], pos)
    } else {
        let sp = span(s[0].size, line);
        let start = sp.0;
        let len = sp.1;
        let first = line_pieces(s[0], line);
        if len == 0 {
            let rest = children_pieces(s.subrange(1, s.len() as int), line, pos, style);
            (first + rest.0, rest.1)
        } else {
            let pad = if start > pos {
                run(style, repeat(' ', (start - pos) as nat))
            } else {
                seq![]
            };
            let rest = children_pieces(
                s.subrange(1, s.len() as int),
                line,
                start.wrapping_add(len),
                style,
            );
            (pad + first + rest.0, rest.1)
        }
    }
}

/// The runs that draw the first `n` lines of a box, each ended by a newline in the plain
/// style.
pub open spec fn drawing(b: DomBox, n: nat) -> Seq<(DomStyle, Seq<char>)>
    decreases n,
{
    if n == 0 {
        seq![]
    } else {
        drawing(b, (n - 1) as nat) + line_pieces(b, (n - 1) as u16) + run(plain_style(), seq!['\n'])
    }
}

/// Putting a piece at the end of `before`, in a list that then got the pieces `cp` after
/// them, shows `before`, then that piece, then `cp`.
proof fn lemma_insert_piece(
    before: Seq<Piece>,
    mid: Seq<Piece>,
    after: Seq<Piece>,
    i: int,
    cp: Seq<(DomStyle, Seq<char>)>,
    pad: Seq<(DomStyle, Seq<char>)>,
)
    requires
        i == before.len(),
        i <= mid.len(),
        pieces_view(mid) == pieces_view(before) + cp,
        after == mid.insert(i, after[i]),
        pad == seq![(after[i].style, after[i].text@)],
    ensures
        pieces_view(after) == pieces_view(before) + pad + cp,
{
    let pv_mid = pieces_view(mid);
    let want = pieces_view(before) + pad + cp;
    mid.insert_ensures(i, after[i]);
    assert(pv_mid.len() == before.len() + cp.len());
    assert forall|j: int| 0 <= j < after.len() implies pieces_view(after)[j] == want[j] by {
        if j < i {
            assert(pv_mid[j] == pieces_view(before)[j]);
        } else if j > i {
            assert(after[j] == mid[j - 1]);
            assert(pv_mid[j - 1] == cp[j - 1 - i]);
        }
    }
    assert(pieces_view(after) =~= want);
}

/// A string of `n` copies of `c`.
fn repeat_char(c: char, n: u16) -> (s: String)
    ensures
        s@ == repeat(c, n as nat),
{
    let mut s = String::new();
    let mut k: u16 = 0;
    while k < n
        invariant
            k <= n,
            s@ == repeat(c, k as nat),
        decreases n - k,
    {
        push_char(&mut s, c);
        k = k + 1;
    }
    s
}

fn side_char_of(t: BorderType) -> (c: char)
    ensures
        c == side_char(t),
{
    match t {
        BorderType::Empty => ' ',
        BorderType::Dash => '╎',
        BorderType::Thin => '│',
        BorderType::Double => '║',
        BorderType::Bold => '┃',
    }
}

fn rule_char_of(t: BorderType) -> (c: char)
    ensures
        c == rule_char(t),
{
    match t {
        BorderType::Empty => ' ',
        BorderType::Dash => '╌',
        BorderType::Thin => '─',
        BorderType::Double => '═',
        BorderType::Bold => '━',
    }
}

/// Whether `line` misses the box (`outside`), computed.
fn is_outside(size: &BoxSize, line: u16) -> (r: bool)
    ensures
        r == outside(*size, line),
{
    line < size.content.y.wrapping_sub(size.border.top) || line >= size.content.y.wrapping_add(
        size.content.h,
    ).wrapping_add(size.border.bottom)
}

/// Whether the box can be drawn on `line` (`renderable`), checked.
pub fn renderable_at(b: &DomBox, line: u16) -> (r: bool)
    ensures
        r == renderable(*b, line),
    decreases b,
{
    if is_outside(&b.size, line) {
        return true;
    }
    let bottom = b.size.content.y.wrapping_add(b.size.content.h);
    if line < b.size.content.y || line >= bottom {
        return true;
    }
    let right = b.size.content.x.wrapping_add(b.size.content.w);
    match &b.kind {
        BoxKind::Text(t) => {
            let w = #[verifier::truncate] (text_width(t.as_str()) as u16);
            b.size.content.x.wrapping_add(w) <= right
        },
        _ => {
            let ghost s = b.children@;
            let ghost n = s.len() as int;
            let mut pos = b.size.content.x;
            let mut k: usize = 0;
            assert(s.subrange(0, n) =~= s);
            while k < b.children.len()
                invariant
                    k <= n,
                    n == s.len(),
                    s == b.children@,
                    right == content_right(b.size),
                    renderable(*b, line) == children_renderable(s.subrange(k as int, n), line, pos, right),
                    !outside(b.size, line) && !on_border(b.size, line) && !(b.kind is Text),
                decreases n - k,
            {
                let ghost rest = s.subrange(k as int, n);
                assert(rest[0] == s[k as int]);
                assert(rest.subrange(1, rest.len() as int) =~= s.subrange(k + 1, n));
                let c = &b.children[k];
                if !renderable_at(c, line) {
                    return false;
                }
                let start = c.size.content.x.wrapping_sub(c.size.border.left);
                let len = c.size.content.w.wrapping_add(c.size.border.left).wrapping_add(
                    c.size.border.right,
                );
                let sp_len = if is_outside(&c.size, line) {
                    0
                } else {
                    len
                };
                if sp_len != 0 {
                    if !(start >= pos && start.wrapping_add(len) <= right) {
                        return false;
                    }
                    pos = start.wrapping_add(len);
                }
                k = k + 1;
            }
            assert(s.subrange(n, n) =~= Seq::<DomBox>::empty());
            pos <= right
        },
    }
}

/// Whether every line of the box can be drawn, as `render` asks.
pub fn can_render(b: &DomBox) -> (r: bool)
    ensures
        r == (forall|line: u16| line < outer_height_of(b.size) ==> renderable(*b, line)),
{
    let height = b.size.content.h.wrapping_add(b.size.border.top).wrapping_add(b.size.border.bottom);
    let mut line: u16 = 0;
    while line < height
        invariant
            height == outer_height_of(b.size),
            line <= height,
            forall|l: u16| l < line ==> renderable(*b, l),
        decreases height - line,
    {
        if !renderable_at(b, line) {
            return false;
        }
        line = line + 1;
    }
    true
}

impl DomBox {
    /// Draws the whole box, line by line, each line ended by a newline in the plain style.
    pub fn render(&mut self) -> (strings: Vec<Piece>)
        requires
            forall|line: u16| line < outer_height_of(old(self).size) ==> renderable(*old(self), line),
        ensures
            *final(self) == *old(self),
            strings@.len() >= outer_height_of(old(self).size),
            strings@.len() <= u16::MAX ==> pieces_view(strings@) == drawing(
                *old(self),
                outer_height_of(old(self).size) as nat,
            ),
    {
        let mut strings: Vec<Piece> = Vec::new();
        let height = self.size.content.h.wrapping_add(self.size.border.top).wrapping_add(
            self.size.border.bottom,
        );
        let mut line: u16 = 0;
        assert(pieces_view(strings@) =~= drawing(*self, 0));
        while line < height
            invariant
                height == outer_height_of(self.size),
                line <= height,
                forall|l: u16| l < height ==> renderable(*self, l),
                strings@.len() >= line,
                strings@.len() <= u16::MAX ==> pieces_view(strings@) == drawing(*self, line as nat),
            decreases height - line,
        {
            let _ = self.render_line(line, &mut strings);
            let ghost mid = strings@;
            let mut nl = String::new();
            push_char(&mut nl, '\n');
            strings.push(Piece { style: DomStyle::default(), text: nl });
            proof {
                if strings@.len() <= u16::MAX {
                    assert(nl@ =~= seq!['\n']);
                    assert(pieces_view(strings@) =~= pieces_view(mid) + run(plain_style(), seq!['\n']));
                    assert(drawing(*self, (line + 1) as nat) == drawing(*self, line as nat) + line_pieces(
                        *self,
                        line,
                    ) + run(plain_style(), seq!['\n']));
                }
            }
            line = line + 1;
        }
        strings
    }

    /// Draws this box's part of `line`: nothing where the line misses it, a border line where
    /// it crosses the top or bottom border, else the left border, the content (the text, or
    /// the children with spaces between and after them) and the right border. Returns where
    /// the box starts on the line and how wide it is there.
    fn render_line(&self, line: u16, strings: &mut Vec<Piece>) -> (r: (u16, u16))
        requires
            renderable(*self, line),
        ensures
            r == span(self.size, line),
            final(strings)@.len() >= old(strings)@.len(),
            final(strings)@.len() <= u16::MAX ==> pieces_view(final(strings)@) == pieces_view(
                old(strings)@,
            ) + line_pieces(*self, line),
        decreases *self,
    {
        let top = self.size.content.y.wrapping_sub(self.size.border.top);
        let bottom = self.size.content.y.wrapping_add(self.size.content.h);
        if line < top || line >= bottom.wrapping_add(self.size.border.bottom) {
            assert(pieces_view(strings@) + line_pieces(*self, line) =~= pieces_view(strings@));
            return (0, 0);
        }
        if line < self.size.content.y || line >= bottom {
            let r = self.render_borderline(line, strings);
            assert(pieces_view(strings@) =~= pieces_view(old(strings)@) + line_pieces(*self, line));
            return r;
        }
        let ghost style = self.style;
        let ghost side = side_char(self.style.border_type);
        self.render_borderside(true, strings);
        let ghost start_view = pieces_view(old(strings)@) + run(
            style,
            repeat(side, self.size.border.left as nat),
        );
        assert(pieces_view(strings@) =~= start_view);
        let right = self.size.content.x.wrapping_add(self.size.content.w);
        let mut pos = self.size.content.x;
        let ghost all = self.children@;
        let ghost n = all.len() as int;
        assert(all.subrange(0, n) =~= all);
        let ghost mut acc: Seq<(DomStyle, Seq<char>)> = seq![];
        match &self.kind {
            BoxKind::Text(text) => {
                let s = Piece { style: self.style, text: text.clone() };
                strings.push(s);
                let w = #[verifier::truncate] (text_width(text.as_str()) as u16);
                pos = pos.wrapping_add(w);
                proof {
                    acc = run(style, text@);
                    assert(pieces_view(strings@) =~= start_view + acc);
                }
            },
            _ => {
                let mut k: usize = 0;
                while k < self.children.len()
                    invariant
                        k <= n,
                        n == self.children@.len(),
                        all == self.children@,
                        style == self.style,
                        !(self.kind is Text),
                        right == content_right(self.size),
                        children_renderable(all.subrange(k as int, n), line, pos, right),
                        children_pieces(all, line, self.size.content.x, style).0 == acc
                            + children_pieces(all.subrange(k as int, n), line, pos, style).0,
                        children_pieces(all, line, self.size.content.x, style).1 == children_pieces(
                            all.subrange(k as int, n),
                            line,
                            pos,
                            style,
                        ).1,
                        strings@.len() >= old(strings)@.len() + 1,
                        strings@.len() <= u16::MAX ==> pieces_view(strings@) == start_view + acc,
                    decreases n - k,
                {
                    let ghost rest = all.subrange(k as int, n);
                    assert(rest[0] == all[k as int]);
                    assert(rest.subrange(1, rest.len() as int) =~= all.subrange(k + 1, n));
                    let child = &self.children[k];
                    let count = strings.len();
                    let insert_point = #[verifier::truncate] (count as u16);
                    assert(count as u16 <= count) by (bit_vector);
                    assert(count <= u16::MAX ==> count as u16 == count) by (bit_vector);
                    let ghost before = strings@;
                    let (start, len) = child.render_line(line, strings);
                    let ghost cp = line_pieces(all[k as int], line);
                    let ghost pos0 = pos;
                    if len != 0 {
                        if start > pos {
                            let ghost mid = strings@;
                            self.render_charline(' ', start - pos, Some(insert_point), strings);
                            proof {
                                if strings@.len() <= u16::MAX {
                                    let pad = run(style, repeat(' ', (start - pos0) as nat));
                                    assert(insert_point == count);
                                    lemma_insert_piece(before, mid, strings@, count as int, cp, pad);
                                    assert(pieces_view(strings@) =~= start_view + (acc + pad + cp));
                                }
                                acc = acc + run(style, repeat(' ', (start - pos0) as nat)) + cp;
                            }
                        } else {
                            proof {
                                assert(acc + seq![] + cp =~= acc + cp);
                                acc = acc + cp;
                            }
                        }
                        pos = start.wrapping_add(len);
                    } else {
                        proof {
                            acc = acc + cp;
                        }
                    }
                    proof {
                        let tail = all.subrange(k + 1, n);
                        assert(acc + children_pieces(tail, line, pos, style).0 =~= (acc
                            + children_pieces(tail, line, pos, style).0));
                    }
                    k = k + 1;
                }
                assert(all.subrange(n, n) =~= Seq::<DomBox>::empty());
                proof {
                    assert(children_pieces(all, line, self.size.content.x, style).0 =~= acc);
                }
            },
        }
        let ghost fill = if pos < right {
            run(style, repeat(' ', (right - pos) as nat))
        } else {
            seq![]
        };
        if pos < right {
            self.render_charline(' ', right - pos, None, strings);
        }
        proof {
            if strings@.len() <= u16::MAX {
                assert(pieces_view(strings@) =~= start_view + acc + fill);
            }
            let inner = match &self.kind {
                BoxKind::Text(t) => (
                    run(style, t@),
                    self.size.content.x.wrapping_add(display_width(t@) as u16),
                ),
                _ => children_pieces(self.children@, line, self.size.content.x, style),
            };
            assert(inner.0 == acc);
            assert(inner.1 == pos);
            assert(line_pieces(*self, line) == run(style, repeat(side, self.size.border.left as nat))
                + acc + fill + run(style, repeat(side, self.size.border.right as nat)));
        }
        let ghost before_right = strings@;
        self.render_borderside(false, strings);
        proof {
            if strings@.len() <= u16::MAX {
                let last = run(style, repeat(side, self.size.border.right as nat));
                assert(strings@ =~= before_right.push(strings@.last()));
                assert(pieces_view(strings@) =~= pieces_view(before_right) + last);
                assert(pieces_view(strings@) =~= pieces_view(old(strings)@) + line_pieces(
                    *self,
                    line,
                ));
            }
        }
        (
            self.size.content.x.wrapping_sub(self.size.border.left),
            self.size.content.w.wrapping_add(self.size.border.left).wrapping_add(self.size.border.right),
        )
    }

    /// Draws the box's top border on a line above its content, else its bottom border.
    fn render_borderline(&self, line: u16, strings: &mut Vec<Piece>) -> (r: (u16, u16))
        requires
            !outside(self.size, line),
        ensures
            r == span(self.size, line),
            final(strings)@.len() == old(strings)@.len() + 1,
            final(strings)@.drop_last() == old(strings)@,
            final(strings)@.last().style == self.style,
            final(strings)@.last().text@ == border_line_text(
                self.size,
                self.style.border_type,
                line < self.size.content.y,
            ),
    {
        let is_top = line < self.size.content.y;
        let mut s = repeat_char(if is_top { '┌' } else { '└' }, self.size.border.left);
        let middle = repeat_char(rule_char_of(self.style.border_type), self.size.content.w);
        let end = repeat_char(if is_top { '┐' } else { '┘' }, self.size.border.right);
        s.append(middle.as_str());
        s.append(end.as_str());
        strings.push(Piece { style: self.style, text: s });
        assert(strings@.drop_last() =~= old(strings)@);
        (
            self.size.content.x.wrapping_sub(self.size.border.left),
            self.size.content.w.wrapping_add(self.size.border.left).wrapping_add(self.size.border.right),
        )
    }

    /// Draws the box's left (or right) border on a line of its content.
    fn render_borderside(&self, is_left: bool, strings: &mut Vec<Piece>)
        ensures
            final(strings)@.len() == old(strings)@.len() + 1,
            final(strings)@.drop_last() == old(strings)@,
            final(strings)@.last().style == self.style,
            final(strings)@.last().text@ == repeat(
                side_char(self.style.border_type),
                (if is_left {
                    self.size.border.left
                } else {
                    self.size.border.right
                }) as nat,
            ),
    {
        let width = if is_left {
            self.size.border.left
        } else {
            self.size.border.right
        };
        let s = repeat_char(side_char_of(self.style.border_type), width);
        strings.push(Piece { style: self.style, text: s });
        assert(strings@.drop_last() =~= old(strings)@);
    }

    /// Draws `n` copies of `c` in the box's style, at position `insert` of the pieces where
    /// one is given, else after them.
    fn render_charline(&self, c: char, n: u16, insert: Option<u16>, strings: &mut Vec<Piece>)
        requires
            insert matches Some(i) ==> i <= old(strings)@.len(),
        ensures
            insert is None ==> final(strings)@.len() == old(strings)@.len() + 1
                && final(strings)@.drop_last() == old(strings)@ && final(strings)@.last().style
                == self.style && final(strings)@.last().text@ == repeat(c, n as nat),
            insert matches Some(i) ==> final(strings)@ == old(strings)@.insert(
                i as int,
                final(strings)@[i as int],
            ) && final(strings)@[i as int].style == self.style && final(strings)@[i as int].text@
                == repeat(c, n as nat),
    {
        let s = repeat_char(c, n);
        let p = Piece { style: self.style, text: s };
        match insert {
            Some(i) => strings.insert(i as usize, p),
            None => {
                strings.push(p);
                assert(strings@.drop_last() =~= old(strings)@);
            },
        }
    }
}

/// The height of a box including its top and bottom borders (with `u16` arithmetic wrapping
/// around).
pub open spec fn outer_height_of(size: BoxSize) -> u16 {
    size.content.h.wrapping_add(size.border.top).wrapping_add(size.border.bottom)
}

} // verus!
