//! Building a box tree from the events of a Markdown parser, for drawing documentation text
//! on a terminal. Code blocks are coloured with `syntect`.

use vstd::prelude::*;

use crate::box_view::{
    boxes_view, box_view, fresh_view, lemma_appended_child_view, lemma_appended_inline_view,
    lemma_boxes_view_len, lemma_childless_view, lemma_fresh_view, lemma_inline_style_view, inline_kind, inline_style_view, inline_view, opt_view, push_view, BoxView, KindView,
};
use crate::dombox::{color_number, plain_style, zero_size, Rect, BorderType, BoxKind, BoxSize, DomBox, DomColor, DomStyle, Edges, TermColor};
use crate::layout::{
    box_text, lemma_empty_box_text, lemma_text_appended_child, lemma_text_appended_inline,
    shows_children,
};
use crate::text::{chars_of, push_char, string_from_chars};

use pulldown_cmark::{Event as ParserEvent, Tag as ParserTag};
use syntect::easy::HighlightLines;
use syntect::highlighting::{FontStyle, Theme, ThemeSet};
use syntect::parsing::{SyntaxReference, SyntaxSet};

verus! {

#[verifier::external_type_specification]
#[verifier::external_body]
pub struct ExSyntaxSet(SyntaxSet);

#[verifier::external_type_specification]
#[verifier::external_body]
pub struct ExSyntaxReference(SyntaxReference);

#[verifier::external_type_specification]
#[verifier::external_body]
pub struct ExThemeSet(ThemeSet);

#[verifier::external_type_specification]
#[verifier::external_body]
pub struct ExTheme(Theme);

#[verifier::external_type_specification]
#[verifier::external_body]
pub struct ExHighlightLines<'a>(HighlightLines<'a>);

/// The kinds of Markdown elements that start and end around their contents.
pub enum Tag {
    Paragraph,
    Rule,
    Header(i32),
    BlockQuote,
    CodeBlock(String),
    List(Option<usize>),
    Item,
    FootnoteDefinition(String),
    Table,
    TableHead,
    TableRow,
    TableCell,
    Emphasis,
    Strong,
    Code,
    Link(String, String),
    Image(String, String),
}

/// One event of a Markdown parse. `Html` and `InlineHtml` carry HTML as the parser gives
/// it, or the plain text that it reads as where the caller has turned it into text.
pub enum Event {
    Start(Tag),
    End(Tag),
    Text(String),
    Html(String),
    InlineHtml(String),
    SoftBreak,
    HardBreak,
    FootnoteReference(String),
}

impl Clone for Tag {
    fn clone(&self) -> (r: Self)
        ensures
            r == *self,
    {
        match self {
            Tag::Paragraph => Tag::Paragraph,
            Tag::Rule => Tag::Rule,
            Tag::Header(l) => Tag::Header(*l),
            Tag::BlockQuote => Tag::BlockQuote,
            Tag::CodeBlock(s) => Tag::CodeBlock(s.clone()),
            Tag::List(s) => Tag::List(*s),
            Tag::Item => Tag::Item,
            Tag::FootnoteDefinition(s) => Tag::FootnoteDefinition(s.clone()),
            Tag::Table => Tag::Table,
            Tag::TableHead => Tag::TableHead,
            Tag::TableRow => Tag::TableRow,
            Tag::TableCell => Tag::TableCell,
            Tag::Emphasis => Tag::Emphasis,
            Tag::Strong => Tag::Strong,
            Tag::Code => Tag::Code,
            Tag::Link(a, b) => Tag::Link(a.clone(), b.clone()),
            Tag::Image(a, b) => Tag::Image(a.clone(), b.clone()),
        }
    }
}

impl Clone for Event {
    fn clone(&self) -> (r: Self)
        ensures
            r == *self,
    {
        match self {
            Event::Start(t) => Event::Start(t.clone()),
            Event::End(t) => Event::End(t.clone()),
            Event::Text(s) => Event::Text(s.clone()),
            Event::Html(s) => Event::Html(s.clone()),
            Event::InlineHtml(s) => Event::InlineHtml(s.clone()),
            Event::SoftBreak => Event::SoftBreak,
            Event::HardBreak => Event::HardBreak,
            Event::FootnoteReference(s) => Event::FootnoteReference(s.clone()),
        }
    }
}

#[verifier::external_type_specification]
#[verifier::external_body]
pub struct ExParserTag<'a>(ParserTag<'a>);

#[verifier::external_type_specification]
#[verifier::external_body]
pub struct ExParserEvent<'a>(ParserEvent<'a>);

/// The events that pulldown-cmark's parser (`Parser::new_ext`, with tables and footnotes
/// enabled) gives for a text, in the library's form. The parse depends on the text alone.
pub uninterp spec fn markdown_events(text: Seq<char>) -> Seq<Event>;

/// The library's form of a parser tag that carries no text, variant by variant (a table's
/// column alignments dropped); `None` for a tag that carries text.
#[verifier::external_body]
fn plain_tag_from_parser(tag: &ParserTag) -> Option<Tag> {
    match tag {
        ParserTag::Paragraph => Some(Tag::Paragraph),
        ParserTag::Rule => Some(Tag::Rule),
        ParserTag::BlockQuote => Some(Tag::BlockQuote),
        ParserTag::Item => Some(Tag::Item),
        ParserTag::Table(_) => Some(Tag::Table),
        ParserTag::TableHead => Some(Tag::TableHead),
        ParserTag::TableRow => Some(Tag::TableRow),
        ParserTag::TableCell => Some(Tag::TableCell),
        ParserTag::Emphasis => Some(Tag::Emphasis),
        ParserTag::Strong => Some(Tag::Strong),
        ParserTag::Code => Some(Tag::Code),
        _ => None,
    }
}

/// The library's form of a parser tag, variant by variant (texts copied).
#[verifier::external_body]
fn tag_from_parser(tag: ParserTag) -> Tag {
    if let Some(t) = plain_tag_from_parser(&tag) {
        return t;
    }
    match tag {
        ParserTag::Header(level) => Tag::Header(level),
        ParserTag::CodeBlock(info) => Tag::CodeBlock(info.into_owned()),
        ParserTag::List(start) => Tag::List(start),
        ParserTag::FootnoteDefinition(name) => Tag::FootnoteDefinition(name.into_owned()),
        ParserTag::Link(dest, title) => Tag::Link(dest.into_owned(), title.into_owned()),
        ParserTag::Image(dest, title) => Tag::Image(dest.into_owned(), title.into_owned()),
        // Every other variant carries no text and was converted above.
        _ => Tag::Paragraph,
    }
}

/// The library's form of a parser event, variant by variant (texts copied; HTML kept as
/// the parser gives it).
#[verifier::external_body]
fn event_from_parser(event: ParserEvent) -> Event {
    match event {
        ParserEvent::Start(tag) => Event::Start(tag_from_parser(tag)),
        ParserEvent::End(tag) => Event::End(tag_from_parser(tag)),
        ParserEvent::Text(text) => Event::Text(text.into_owned()),
        ParserEvent::Html(html) => Event::Html(html.into_owned()),
        ParserEvent::InlineHtml(html) => Event::InlineHtml(html.into_owned()),
        ParserEvent::SoftBreak => Event::SoftBreak,
        ParserEvent::HardBreak => Event::HardBreak,
        ParserEvent::FootnoteReference(name) => Event::FootnoteReference(name.into_owned()),
    }
}

/// `pulldown_cmark::Parser::new_ext` with tables and footnotes enabled, run to its end: the
/// events of the text, in the library's form. What they are is named, not stated.
#[verifier::external_body]
fn parse_events(text: &str) -> (r: Vec<Event>)
    ensures
        r@ == markdown_events(text@),
{
    let mut opts = pulldown_cmark::Options::empty();
    opts.insert(pulldown_cmark::OPTION_ENABLE_TABLES);
    opts.insert(pulldown_cmark::OPTION_ENABLE_FOOTNOTES);
    pulldown_cmark::Parser::new_ext(text, opts).map(|e| event_from_parser(e)).collect()
}

/// The Markdown events of a text, with tables and footnotes read; HTML stays as written.
pub fn parse_markdown(text: &str) -> (r: Vec<Event>)
    ensures
        r@ == markdown_events(text@),
{
    parse_events(text)
}

/// A run of highlighted code: the colour of its text, its font flags and the text.
pub struct HighlightedRange {
    pub red: u8,
    pub green: u8,
    pub blue: u8,
    pub bold: bool,
    pub italic: bool,
    pub underline: bool,
    pub text: String,
}

/// The texts of highlighted runs, one after the other.
pub open spec fn ranges_text(v: Seq<HighlightedRange>) -> Seq<char>
    decreases v.len(),
{
    if v.len() == 0 {
        seq![]
    } else {
        ranges_text(v.drop_last()) + v.last().text@
    }
}

/// The texts of highlighted runs, one after the other, each without its final newline.
pub open spec fn shown_runs(v: Seq<HighlightedRange>) -> Seq<char>
    decreases v.len(),
{
    if v.len() == 0 {
        seq![]
    } else {
        shown_runs(v.drop_last()) + without_newline(v.last().text@)
    }
}

/// Whether a text holds no newline but, maybe, as its last character.
pub open spec fn one_line(t: Seq<char>) -> bool {
    forall|k: int| 0 <= k < t.len() - 1 ==> #[trigger] t[k] != '\n'
}

/// Whether each text among the events holds at most one line.
pub open spec fn one_line_texts(evs: Seq<Event>) -> bool {
    forall|k: int| 0 <= k < evs.len() ==> (#[trigger] evs[k] matches Event::Text(t) ==> one_line(t@))
}

/// Runs whose texts hold no newline show all of their text.
proof fn lemma_shown_runs_plain(v: Seq<HighlightedRange>)
    requires
        forall|k: int| 0 <= k < ranges_text(v).len() ==> #[trigger] ranges_text(v)[k] != '\n',
    ensures
        shown_runs(v) == ranges_text(v),
    decreases v.len(),
{
    if v.len() > 0 {
        let a = ranges_text(v.drop_last());
        let t = v.last().text@;
        assert(ranges_text(v) == a + t);
        assert forall|k: int| 0 <= k < a.len() implies #[trigger] a[k] != '\n' by {
            assert(ranges_text(v)[k] == a[k]);
        }
        lemma_shown_runs_plain(v.drop_last());
        if t.len() > 0 {
            assert(ranges_text(v)[a.len() + t.len() - 1] == t.last());
        }
    }
}

/// Runs that make up one line show that line without its final newline.
proof fn lemma_shown_runs(v: Seq<HighlightedRange>, t: Seq<char>)
    requires
        ranges_text(v) == t,
        one_line(t),
    ensures
        shown_runs(v) == without_newline(t),
    decreases v.len(),
{
    if v.len() > 0 {
        let a = ranges_text(v.drop_last());
        let r = v.last().text@;
        assert(t == a + r);
        if r.len() == 0 {
            assert(t =~= a);
            lemma_shown_runs(v.drop_last(), t);
            assert(without_newline(r) =~= r);
            assert(shown_runs(v) =~= shown_runs(v.drop_last()));
        } else {
            assert forall|k: int| 0 <= k < a.len() implies #[trigger] a[k] != '\n' by {
                assert(t[k] == a[k]);
            }
            lemma_shown_runs_plain(v.drop_last());
            assert forall|k: int| 0 <= k < r.len() - 1 implies #[trigger] r[k] != '\n' by {
                assert(t[a.len() + k] == r[k]);
            }
            assert(t.last() == r.last());
            if r.last() == '\n' {
                assert(without_newline(t) =~= a + r.drop_last());
            } else {
                assert(without_newline(t) =~= a + r);
            }
        }
    }
}

/// `SyntaxSet::find_syntax_by_token`: the syntax whose file extension, or else whose name
/// (ignoring ASCII case), is `token`. Which syntaxes the set holds is not modelled here.
#[verifier::external_body]
fn find_syntax_by_token<'a>(syntaxes: &'a SyntaxSet, token: &str) -> Option<&'a SyntaxReference> {
    syntaxes.find_syntax_by_token(token)
}

/// The theme of the given name in the set (`ThemeSet::themes`, a `BTreeMap`, and its `get`).
#[verifier::external_body]
fn theme_named<'a>(themes: &'a ThemeSet, name: &str) -> Option<&'a Theme> {
    themes.themes.get(name)
}

/// `HighlightLines::new`: a highlighter for the syntax with the theme's colours.
#[verifier::external_body]
fn new_highlighter<'a>(syntax: &SyntaxReference, theme: &'a Theme) -> HighlightLines<'a> {
    HighlightLines::new(syntax, theme)
}

/// `HighlightLines::highlight_line`: the line cut into runs with the colour and font flags
/// the theme gives them, or `None` where the syntax's parser fails. The crate documents that
/// the runs, one after the other, make up the line; the colours depend on what the
/// highlighter has seen so far and are left unstated here.
#[verifier::external_body]
fn highlight_line(h: &mut HighlightLines<'_>, line: &str, syntaxes: &SyntaxSet) -> (r: Option<
    Vec<HighlightedRange>,
>)
    ensures
        r matches Some(v) ==> ranges_text(v@) == line@,
{
    match h.highlight_line(line, syntaxes) {
        Ok(v) => Some(v.into_iter().map(|(s, t)| HighlightedRange {
            red: s.foreground.r, green: s.foreground.g, blue: s.foreground.b,
            bold: s.font_style.intersects(FontStyle::BOLD),
            italic: s.font_style.intersects(FontStyle::ITALIC),
            underline: s.font_style.intersects(FontStyle::UNDERLINE),
            text: t.to_string(),
        }).collect()),
        Err(_) => None,
    }
}

/// The decimal digit for `d` (below ten).
pub open spec fn digit_char(d: nat) -> char {
    (('0' as u32) + d) as char
}

/// The decimal numeral of `n`.
pub open spec fn decimal(n: nat) -> Seq<char>
    decreases n,
{
    if n < 10 {
        seq![digit_char(n)]
    } else {
        decimal(n / 10).push(digit_char(n % 10))
    }
}

/// The decimal numeral of `n`, as `usize::to_string` writes it.
pub fn decimal_string(n: usize) -> (s: String)
    ensures
        s@ == decimal(n as nat),
    decreases n,
{
    let d: u8 = (n % 10) as u8;
    let c = (48u8 + d) as char;
    if n < 10 {
        let mut s = String::new();
        push_char(&mut s, c);
        assert(s@ =~= seq![digit_char(n as nat)]);
        s
    } else {
        let mut s = decimal_string(n / 10);
        push_char(&mut s, c);
        s
    }
}

/// The `k`-th number counting from `start` (with `usize` arithmetic wrapping around).
pub open spec fn count_from(start: usize, k: nat) -> usize
    decreases k,
{
    if k == 0 {
        start
    } else {
        count_from(start, (k - 1) as nat).wrapping_add(1)
    }
}

/// The label of the `k`-th bullet of a list: a star where the list is not numbered, else its
/// number counting from the list's start.
pub open spec fn bullet_label(start: Option<usize>, k: nat) -> Seq<char> {
    match start {
        None => seq!['*'],
        Some(s) => decimal(count_from(s, k) as nat),
    }
}

/// How many of the first `j` boxes of `s` are bullets.
pub open spec fn bullets_before(s: Seq<DomBox>, j: int) -> nat
    decreases j,
{
    if j <= 0 {
        0
    } else {
        bullets_before(s, j - 1) + if s[j - 1].kind is ListBullet {
            1nat
        } else {
            0nat
        }
    }
}

/// `after` is `before` showing `label` after what it showed, as it stood otherwise.
pub open spec fn labelled(before: DomBox, after: DomBox, label: Seq<char>) -> bool {
    &&& after.kind == before.kind
    &&& after.size == before.size
    &&& after.style == before.style
    &&& box_text(after) == box_text(before) + label
}

/// The children of a list once it ends: each bullet shows its label, the other children
/// stand as they were.
pub open spec fn bullets_labelled(start: Option<usize>, before: Seq<DomBox>, after: Seq<DomBox>, upto: int) -> bool {
    forall|j: int|
        0 <= j < upto ==> if before[j].kind is ListBullet {
            labelled(before[j], #[trigger] after[j], bullet_label(start, bullets_before(before, j)))
        } else {
            after[j] == before[j]
        }
}

/// The dark variant of a basic colour.
pub open spec fn dark(c: TermColor) -> DomColor {
    DomColor(Some(color_number(c)))
}

/// The light variant of a basic colour.
pub open spec fn light(c: TermColor) -> DomColor {
    DomColor(Some((color_number(c) + 8) as u8))
}

/// A fresh text box.
pub open spec fn text_view(t: Seq<char>, style: DomStyle) -> BoxView {
    fresh_view(KindView::Text(t), style)
}

/// `b` with the given border widths.
pub open spec fn with_border(b: BoxView, border: Edges) -> BoxView {
    BoxView { size: BoxSize { border, ..b.size }, ..b }
}

/// `b` with a bottom border one cell high.
pub open spec fn with_bottom_line(b: BoxView) -> BoxView {
    with_border(b, Edges { bottom: 1, ..b.size.border })
}

/// `b` with another style.
pub open spec fn with_style(b: BoxView, style: DomStyle) -> BoxView {
    BoxView { style, ..b }
}

/// The box of a heading of the given level, in the style of the box it goes into: a border
/// below it, a thin frame around a level-one heading, a bold, double, thin or dashed rule
/// below one of level two to five, purple text.
pub open spec fn header_view(level: i32, style: DomStyle) -> BoxView {
    let e = zero_size().border;
    let border = if level == 1 {
        Edges { top: 1, bottom: 1, left: 1, right: 1 }
    } else {
        Edges { bottom: 1, ..e }
    };
    let t = if level == 1 {
        BorderType::Thin
    } else if level == 2 {
        BorderType::Bold
    } else if level == 3 {
        BorderType::Double
    } else if level == 4 {
        BorderType::Thin
    } else if level == 5 {
        BorderType::Dash
    } else {
        style.border_type
    };
    with_border(
        fresh_view(
            KindView::Header(level as u8),
            DomStyle { border_type: t, fg: dark(TermColor::Purple), ..style },
        ),
        border,
    )
}

/// The boxes of a run of events, as the builder makes them: read from `pos`, filling the box
/// `p`, with the links box `links` and the footnotes box `notes`, until the end of the element
/// `p` stands for (or of the events).
pub struct Filled {
    pub parent: BoxView,
    pub pos: int,
    pub links: Option<BoxView>,
    pub notes: Option<BoxView>,
}

/// What filling the box `p` from the event at `pos` gives: every event adds its boxes to `p`
/// (an element's, through `start_view`), until an event that ends the box (`closes`).
#[verifier::opaque]
pub open spec fn fill(evs: Seq<Event>, pos: int, p: BoxView, links: Option<BoxView>, notes: Option<BoxView>) -> Filled
    decreases evs.len() - pos, 0int,
{
    if pos < 0 || pos >= evs.len() {
        Filled { parent: p, pos, links, notes }
    } else {
        match evs[pos] {
            Event::Start(tag) => {
                let r = start_view(evs, pos + 1, tag, p, links, notes);
                if pos < r.pos <= evs.len() {
                    fill(evs, r.pos, r.parent, r.links, r.notes)
                } else {
                    r
                }
            },
            Event::End(tag) => {
                let q = end_view(tag, p);
                if closes(tag) {
                    Filled { parent: q, pos: pos + 1, links, notes }
                } else {
                    fill(evs, pos + 1, q, links, notes)
                }
            },
            _ => fill(evs, pos + 1, simple_effect(evs[pos], p), links, notes),
        }
    }
}

/// What an event that neither starts nor ends an element adds to the box `p`: a text's
/// boxes (`text_event_view`), the text of HTML in light red, a line break, a footnote
/// reference's name, underlined, in green.
pub open spec fn simple_effect(e: Event, p: BoxView) -> BoxView {
    match e {
        Event::Text(t) => text_event_view(p, t@),
        Event::Html(h) => inline_view(p, text_view(h@, DomStyle { fg: light(TermColor::Red), ..inline_style_view(p) })),
        Event::InlineHtml(h) => inline_view(
            p,
            text_view(h@, DomStyle { fg: light(TermColor::Red), ..inline_style_view(p) }),
        ),
        Event::SoftBreak => push_view(p, fresh_view(KindView::Break, p.style)),
        Event::HardBreak => push_view(p, fresh_view(KindView::Break, p.style)),
        Event::FootnoteReference(n) => inline_view(
            p,
            text_view(n@, DomStyle { fg: dark(TermColor::Green), underline: true, ..inline_style_view(p) }),
        ),
        _ => p,
    }
}

/// Filling from past the end of the events reads nothing.
proof fn lemma_fill_done(evs: Seq<Event>, pos: int, p: BoxView, links: Option<BoxView>, notes: Option<BoxView>)
    requires
        pos >= evs.len(),
    ensures
        fill(evs, pos, p, links, notes) == (Filled { parent: p, pos, links, notes }),
{
    reveal(fill);
}

/// Filling from an event that neither starts nor ends an element adds its boxes and goes on.
proof fn lemma_fill_simple(evs: Seq<Event>, pos: int, p: BoxView, links: Option<BoxView>, notes: Option<BoxView>)
    requires
        0 <= pos < evs.len(),
        !(evs[pos] is Start),
        !(evs[pos] is End),
    ensures
        fill(evs, pos, p, links, notes) == fill(evs, pos + 1, simple_effect(evs[pos], p), links, notes),
{
    reveal(fill);
}

/// Filling from the start of an element adds the element's boxes and goes on after it.
proof fn lemma_fill_start(
    evs: Seq<Event>,
    pos: int,
    tag: Tag,
    p: BoxView,
    links: Option<BoxView>,
    notes: Option<BoxView>,
    r: Filled,
)
    requires
        0 <= pos < evs.len(),
        evs[pos] == Event::Start(tag),
        r == start_view(evs, pos + 1, tag, p, links, notes),
        pos < r.pos <= evs.len(),
    ensures
        fill(evs, pos, p, links, notes) == fill(evs, r.pos, r.parent, r.links, r.notes),
{
    reveal(fill);
    reveal(start_view);
}

/// Filling from the end of an element applies what the end does, and stops where the end
/// closes the box.
proof fn lemma_fill_end(evs: Seq<Event>, pos: int, tag: Tag, p: BoxView, links: Option<BoxView>, notes: Option<BoxView>)
    requires
        0 <= pos < evs.len(),
        evs[pos] == Event::End(tag),
    ensures
        closes(tag) ==> fill(evs, pos, p, links, notes) == (Filled {
            parent: end_view(tag, p),
            pos: pos + 1,
            links,
            notes,
        }),
        !closes(tag) ==> fill(evs, pos, p, links, notes) == fill(evs, pos + 1, end_view(tag, p), links, notes),
{
    reveal(fill);
}

/// What an element that starts just before `pos` adds: the boxes it opens, filled with the
/// events that follow up to its end. A paragraph is a block with a line below; a rule an
/// extended block drawn as a thin yellow line; a heading a `header_view` box; a quote a cyan
/// block with a thin line on its left, then an empty line; a list a list box (numbered from
/// its start) with a line below; an item a yellow bullet with a space on its right, then a
/// block; emphasis, strong text and code inline boxes in italics, bold, and white on black;
/// a link an underlined blue inline box, its target (underlined, blue) and a line break added
/// to the links box; an image its title (light black on yellow), its target (underlined blue
/// on yellow) and an italic inline box; a footnote definition its name (underlined, green) and
/// contents in the footnotes box. Tables add nothing of their own. Code blocks, whose boxes
/// depend on the highlighter, are not described here.
#[verifier::opaque]
pub open spec fn start_view(
    evs: Seq<Event>,
    pos: int,
    tag: Tag,
    p: BoxView,
    links: Option<BoxView>,
    notes: Option<BoxView>,
) -> Filled
    decreases evs.len() - pos, 1int,
{
    if pos < 0 || pos > evs.len() {
        Filled { parent: p, pos, links, notes }
    } else {
        let same = Filled { parent: p, pos, links, notes };
        match tag {
            Tag::Paragraph => {
                let r = fill(evs, pos, fresh_view(KindView::Block, p.style), links, notes);
                Filled { parent: push_view(p, with_bottom_line(r.parent)), ..r }
            },
            Tag::Rule => {
                let b = fresh_view(
                    KindView::Block,
                    DomStyle {
                        extend: true,
                        border_type: BorderType::Thin,
                        fg: dark(TermColor::Yellow),
                        ..p.style
                    },
                );
                Filled { parent: push_view(p, with_bottom_line(b)), ..same }
            },
            Tag::Header(level) => {
                let r = fill(evs, pos, header_view(level, p.style), links, notes);
                Filled { parent: push_view(p, r.parent), ..r }
            },
            Tag::BlockQuote => {
                let r = fill(evs, pos, fresh_view(KindView::Block, p.style), links, notes);
                let quote = with_style(
                    with_border(r.parent, Edges { left: 1, ..r.parent.size.border }),
                    DomStyle { border_type: BorderType::Thin, fg: dark(TermColor::Cyan), ..r.parent.style },
                );
                let p1 = push_view(p, quote);
                let nl = fresh_view(KindView::Block, p1.style);
                let line = inline_view(nl, text_view(seq![], inline_style_view(nl)));
                Filled { parent: push_view(p1, line), ..r }
            },
            Tag::CodeBlock(_) => same,
            Tag::List(start) => {
                let first = match start {
                    Some(s) => Some(s as u16),
                    None => None,
                };
                let r = fill(evs, pos, fresh_view(KindView::List(first), p.style), links, notes);
                Filled { parent: push_view(p, with_bottom_line(r.parent)), ..r }
            },
            Tag::Item => {
                let bullet = with_border(
                    fresh_view(KindView::ListBullet, DomStyle { fg: light(TermColor::Yellow), ..p.style }),
                    Edges { right: 1, ..zero_size().border },
                );
                let p1 = push_view(p, bullet);
                let r = fill(evs, pos, fresh_view(KindView::Block, p1.style), links, notes);
                Filled { parent: push_view(p1, r.parent), ..r }
            },
            Tag::Emphasis => {
                let c = fresh_view(KindView::Inline, DomStyle { italic: true, ..inline_style_view(p) });
                let r = fill(evs, pos, c, links, notes);
                Filled { parent: inline_view(p, r.parent), ..r }
            },
            Tag::Strong => {
                let c = fresh_view(KindView::Inline, DomStyle { bold: true, ..inline_style_view(p) });
                let r = fill(evs, pos, c, links, notes);
                Filled { parent: inline_view(p, r.parent), ..r }
            },
            Tag::Code => {
                let c = fresh_view(
                    KindView::Inline,
                    DomStyle { fg: dark(TermColor::White), bg: dark(TermColor::Black), ..inline_style_view(p) },
                );
                let r = fill(evs, pos, c, links, notes);
                Filled { parent: inline_view(p, r.parent), ..r }
            },
            Tag::Link(dest, _) => {
                let links1 = match links {
                    Some(l) => {
                        let l1 = inline_view(
                            l,
                            text_view(
                                dest@,
                                DomStyle { fg: dark(TermColor::Blue), underline: true, ..inline_style_view(l) },
                            ),
                        );
                        Some(push_view(l1, fresh_view(KindView::Break, l1.style)))
                    },
                    None => None,
                };
                let c = fresh_view(
                    KindView::Inline,
                    DomStyle { underline: true, fg: dark(TermColor::Blue), ..inline_style_view(p) },
                );
                let r = fill(evs, pos, c, links1, notes);
                Filled { parent: inline_view(p, r.parent), ..r }
            },
            Tag::Image(dest, title) => {
                let p1 = inline_view(
                    p,
                    text_view(
                        title@,
                        DomStyle { fg: light(TermColor::Black), bg: dark(TermColor::Yellow), ..inline_style_view(p) },
                    ),
                );
                let p2 = inline_view(
                    p1,
                    text_view(
                        dest@,
                        DomStyle {
                            fg: dark(TermColor::Blue),
                            bg: dark(TermColor::Yellow),
                            underline: true,
                            ..inline_style_view(p1)
                        },
                    ),
                );
                let c = fresh_view(KindView::Inline, DomStyle { italic: true, ..inline_style_view(p2) });
                let r = fill(evs, pos, c, links, notes);
                Filled { parent: inline_view(p2, r.parent), ..r }
            },
            Tag::FootnoteDefinition(name) => match notes {
                Some(f) => {
                    let f1 = inline_view(
                        f,
                        text_view(
                            name@,
                            DomStyle { fg: dark(TermColor::Green), underline: true, ..inline_style_view(f) },
                        ),
                    );
                    let r = fill(evs, pos, f1, links, None);
                    Filled { parent: p, pos: r.pos, links: r.links, notes: Some(r.parent) }
                },
                None => same,
            },
            _ => same,
        }
    }
}

/// The box that inline content added last to `p` went into: the last child of `p` where `p`
/// is inline, else the last child of its last line.
pub open spec fn last_inline_view(p: BoxView) -> BoxView {
    if inline_kind(p) {
        p.children.last()
    } else {
        p.children.last().children.last()
    }
}

/// Adding inline content keeps the box's kind and style, and makes the content the last inline
/// box.
proof fn lemma_inline_view_last(p: BoxView, c: BoxView)
    ensures
        inline_view(p, c).kind == p.kind,
        inline_view(p, c).style == p.style,
        last_inline_view(inline_view(p, c)) == c,
{
}

/// Filling a box, or starting an element in it, keeps the box's kind and style: only its
/// children, the links and the footnotes grow.
proof fn lemma_fill_keeps(evs: Seq<Event>, pos: int, p: BoxView, links: Option<BoxView>, notes: Option<BoxView>)
    ensures
        fill(evs, pos, p, links, notes).parent.kind == p.kind,
        fill(evs, pos, p, links, notes).parent.style == p.style,
    decreases evs.len() - pos, 0int,
{
    if pos < 0 || pos >= evs.len() {
        lemma_fill_done_or_before(evs, pos, p, links, notes);
    } else {
        match evs[pos] {
            Event::Start(tag) => {
                lemma_start_keeps(evs, pos + 1, tag, p, links, notes);
                let r = start_view(evs, pos + 1, tag, p, links, notes);
                if pos < r.pos <= evs.len() {
                    lemma_fill_start(evs, pos, tag, p, links, notes, r);
                    lemma_fill_keeps(evs, r.pos, r.parent, r.links, r.notes);
                } else {
                    assert(fill(evs, pos, p, links, notes) == r) by {
                        reveal(fill);
                        reveal(start_view);
                    }
                }
            },
            Event::End(tag) => {
                lemma_fill_end(evs, pos, tag, p, links, notes);
                let q = end_view(tag, p);
                assert(q.kind == p.kind && q.style == p.style);
                if !closes(tag) {
                    lemma_fill_keeps(evs, pos + 1, q, links, notes);
                }
            },
            _ => {
                lemma_fill_simple(evs, pos, p, links, notes);
                let q = simple_effect(evs[pos], p);
                assert(q.kind == p.kind && q.style == p.style);
                lemma_fill_keeps(evs, pos + 1, q, links, notes);
            },
        }
    }
}

/// Filling from outside the events reads nothing.
proof fn lemma_fill_done_or_before(evs: Seq<Event>, pos: int, p: BoxView, links: Option<BoxView>, notes: Option<BoxView>)
    requires
        pos < 0 || pos >= evs.len(),
    ensures
        fill(evs, pos, p, links, notes) == (Filled { parent: p, pos, links, notes }),
{
    reveal(fill);
}

/// What an emphasis element does: it opens an italic inline box, fills it, and adds it to the
/// inline content of `p`.
proof fn lemma_start_emphasis(evs: Seq<Event>, pos: int, p: BoxView, links: Option<BoxView>, notes: Option<BoxView>)
    requires
        0 <= pos <= evs.len(),
    ensures
        start_view(evs, pos, Tag::Emphasis, p, links, notes).parent == inline_view(
            p,
            fill(
                evs,
                pos,
                fresh_view(KindView::Inline, DomStyle { italic: true, ..inline_style_view(p) }),
                links,
                notes,
            ).parent,
        ),
{
    reveal(fill);
    reveal(start_view);
}

/// What a strong element does: it opens a bold inline box, fills it, and adds it to the inline
/// content of `p`.
proof fn lemma_start_strong(evs: Seq<Event>, pos: int, p: BoxView, links: Option<BoxView>, notes: Option<BoxView>)
    requires
        0 <= pos <= evs.len(),
    ensures
        start_view(evs, pos, Tag::Strong, p, links, notes).parent == inline_view(
            p,
            fill(
                evs,
                pos,
                fresh_view(KindView::Inline, DomStyle { bold: true, ..inline_style_view(p) }),
                links,
                notes,
            ).parent,
        ),
{
    reveal(fill);
    reveal(start_view);
}

/// Starting an element in a box keeps the box's kind and style.
proof fn lemma_start_keeps(
    evs: Seq<Event>,
    pos: int,
    tag: Tag,
    p: BoxView,
    links: Option<BoxView>,
    notes: Option<BoxView>,
)
    ensures
        start_view(evs, pos, tag, p, links, notes).parent.kind == p.kind,
        start_view(evs, pos, tag, p, links, notes).parent.style == p.style,
    decreases evs.len() - pos, 1int,
{
    reveal(start_view);
}

/// Emphasis adds italics and nothing else: the inline box that an emphasis element opens in
/// `p` is in italics, and bold exactly where the inline content of `p` is.
pub proof fn lemma_emphasis_is_italic(
    evs: Seq<Event>,
    pos: int,
    p: BoxView,
    links: Option<BoxView>,
    notes: Option<BoxView>,
)
    requires
        0 <= pos <= evs.len(),
    ensures
        ({
            let e = last_inline_view(start_view(evs, pos, Tag::Emphasis, p, links, notes).parent);
            &&& e.kind == KindView::Inline
            &&& e.style.italic
            &&& e.style.bold == inline_style_view(p).bold
            &&& e.style.underline == inline_style_view(p).underline
        }),
{
    lemma_start_emphasis(evs, pos, p, links, notes);
    let c = fresh_view(KindView::Inline, DomStyle { italic: true, ..inline_style_view(p) });
    lemma_fill_keeps(evs, pos, c, links, notes);
    lemma_inline_view_last(p, fill(evs, pos, c, links, notes).parent);
}

/// Strong text adds bold and nothing else: the inline box that a strong element opens in `p`
/// is bold, and in italics exactly where the inline content of `p` is.
pub proof fn lemma_strong_is_bold(
    evs: Seq<Event>,
    pos: int,
    p: BoxView,
    links: Option<BoxView>,
    notes: Option<BoxView>,
)
    requires
        0 <= pos <= evs.len(),
    ensures
        ({
            let e = last_inline_view(start_view(evs, pos, Tag::Strong, p, links, notes).parent);
            &&& e.kind == KindView::Inline
            &&& e.style.bold
            &&& e.style.italic == inline_style_view(p).italic
            &&& e.style.underline == inline_style_view(p).underline
        }),
{
    lemma_start_strong(evs, pos, p, links, notes);
    let c = fresh_view(KindView::Inline, DomStyle { bold: true, ..inline_style_view(p) });
    lemma_fill_keeps(evs, pos, c, links, notes);
    lemma_inline_view_last(p, fill(evs, pos, c, links, notes).parent);
}

/// The boxes of a text event outside code: the text less its final newline, in the inline
/// content, then a line break where it ended with a newline.
pub open spec fn text_event_view(p: BoxView, t: Seq<char>) -> BoxView {
    let p1 = inline_view(p, text_view(without_newline(t), inline_style_view(p)));
    if t.len() > 0 && t.last() == '\n' {
        push_view(p1, fresh_view(KindView::Break, p1.style))
    } else {
        p1
    }
}

/// How many of the first `j` boxes of `s` are bullets.
pub open spec fn bullets_before_view(s: Seq<BoxView>, j: int) -> nat
    decreases j,
{
    if j <= 0 {
        0
    } else {
        bullets_before_view(s, j - 1) + if s[j - 1].kind is ListBullet {
            1nat
        } else {
            0nat
        }
    }
}

/// A child of a list once the list ends: a bullet gets its label, in its inline content.
pub open spec fn labelled_view(c: BoxView, start: Option<usize>, k: nat) -> BoxView {
    if c.kind is ListBullet {
        inline_view(c, text_view(bullet_label(start, k), inline_style_view(c)))
    } else {
        c
    }
}

/// What the end of an element does to the box it fills: a list's bullets get their labels,
/// counted in order.
pub open spec fn end_view(tag: Tag, p: BoxView) -> BoxView {
    match tag {
        Tag::List(start) => BoxView {
            children: Seq::new(
                p.children.len(),
                |j: int| labelled_view(p.children[j], start, bullets_before_view(p.children, j)),
            ),
            ..p
        },
        _ => p,
    }
}

/// The box tree that building a document `width` cells wide gives, reading the events from
/// `pos`: a root block holding the boxes of the events (`fill`), then the links box, then the
/// footnotes box.
pub open spec fn built_view(evs: Seq<Event>, pos: int, width: u16) -> BoxView {
    let root = BoxView {
        kind: KindView::Block,
        size: BoxSize { content: Rect { w: width, ..zero_size().content }, ..zero_size() },
        style: plain_style(),
        children: seq![],
    };
    let block = fresh_view(KindView::Block, plain_style());
    let r = fill(evs, pos, root, Some(block), Some(block));
    let links = match r.links {
        Some(l) => l,
        None => block,
    };
    let notes = match r.notes {
        Some(f) => f,
        None => block,
    };
    push_view(push_view(r.parent, links), notes)
}

/// Where building a document stops reading, from `pos` (`fill`).
pub open spec fn built_end(evs: Seq<Event>, pos: int, width: u16) -> int {
    let root = BoxView {
        kind: KindView::Block,
        size: BoxSize { content: Rect { w: width, ..zero_size().content }, ..zero_size() },
        style: plain_style(),
        children: seq![],
    };
    let block = fresh_view(KindView::Block, plain_style());
    fill(evs, pos, root, Some(block), Some(block)).pos
}

/// Whether the events hold no code block.
pub open spec fn code_free(evs: Seq<Event>) -> bool {
    forall|k: int| 0 <= k < evs.len() ==> !(#[trigger] evs[k] matches Event::Start(Tag::CodeBlock(_)))
}

/// Whether the first `k` children of a list (`now`, from `orig`) got their labels.
pub open spec fn labels_done(start: Option<usize>, orig: Seq<DomBox>, now: Seq<DomBox>, k: int) -> bool {
    forall|j: int|
        0 <= j < k ==> box_view(#[trigger] now[j]) == labelled_view(
            box_view(orig[j]),
            start,
            bullets_before(orig, j),
        )
}

/// Counting bullets over plain values counts the same.
proof fn lemma_bullets_before_view(s: Seq<DomBox>, j: int)
    requires
        0 <= j <= s.len(),
    ensures
        bullets_before_view(boxes_view(s), j) == bullets_before(s, j),
    decreases j,
{
    lemma_boxes_view_len(s);
    if j > 0 {
        lemma_bullets_before_view(s, j - 1);
        assert(boxes_view(s)[j - 1] == box_view(s[j - 1]));
    }
}

/// A list whose children all got their labels is what the end of the list makes of it.
proof fn lemma_end_view(start: Option<usize>, before: DomBox, after: DomBox)
    requires
        after.kind == before.kind,
        after.size == before.size,
        after.style == before.style,
        after.children@.len() == before.children@.len(),
        labels_done(start, before.children@, after.children@, before.children@.len() as int),
    ensures
        box_view(after) == end_view(Tag::List(start), box_view(before)),
{
    let b = before.children@;
    let a = after.children@;
    lemma_boxes_view_len(b);
    lemma_boxes_view_len(a);
    let want = end_view(Tag::List(start), box_view(before));
    assert forall|j: int| 0 <= j < a.len() implies boxes_view(a)[j] == want.children[j] by {
        lemma_bullets_before_view(b, j);
        assert(box_view(a[j]) == labelled_view(box_view(b[j]), start, bullets_before(b, j)));
    }
    assert(boxes_view(a) =~= want.children);
}

/// Whether every heading in the events has a level the renderer draws (1 to 6).
pub open spec fn headings_drawable(events: Seq<Event>) -> bool {
    forall|k: int| 0 <= k < events.len() ==> (#[trigger] events[k] matches Event::Start(
        Tag::Header(l),
    ) ==> 1 <= l <= 6)
}

/// A text without its final newline, where it ends with one.
pub open spec fn without_newline(t: Seq<char>) -> Seq<char> {
    if t.len() > 0 && t.last() == '\n' {
        t.drop_last()
    } else {
        t
    }
}

/// The text an event adds to the document: a text (less its final newline), the text of
/// HTML, a footnote reference's name, and an image's title then target.
pub open spec fn event_text(e: Event) -> Seq<char> {
    match e {
        Event::Text(t) => without_newline(t@),
        Event::Html(h) => h@,
        Event::InlineHtml(h) => h@,
        Event::FootnoteReference(n) => n@,
        Event::Start(Tag::Image(dest, title)) => title@ + dest@,
        _ => seq![],
    }
}

/// The text that a run of events adds to the document, in order.
pub open spec fn doc_text(s: Seq<Event>) -> Seq<char>
    decreases s.len(),
{
    if s.len() == 0 {
        seq![]
    } else {
        doc_text(s.drop_last()) + event_text(s.last())
    }
}

/// The target that an event adds to the list of links: that of a link.
pub open spec fn event_link(e: Event) -> Seq<char> {
    match e {
        Event::Start(Tag::Link(dest, _)) => dest@,
        _ => seq![],
    }
}

/// The targets of the links among a run of events, in order.
pub open spec fn link_text(s: Seq<Event>) -> Seq<char>
    decreases s.len(),
{
    if s.len() == 0 {
        seq![]
    } else {
        link_text(s.drop_last()) + event_link(s.last())
    }
}

/// An event that puts its text where it stands: neither a list (whose bullets get numbers),
/// nor a footnote definition (whose contents go to the footnotes).
pub open spec fn plain_event(e: Event) -> bool {
    match e {
        Event::Start(Tag::List(_)) => false,
        Event::Start(Tag::Item) => false,
        Event::Start(Tag::FootnoteDefinition(_)) => false,
        Event::End(Tag::List(_)) => false,
        _ => true,
    }
}

/// Whether every event of `s` is plain.
pub open spec fn plain_events(s: Seq<Event>) -> bool {
    forall|k: int| 0 <= k < s.len() ==> plain_event(#[trigger] s[k])
}

/// One more event read: the text and link targets it adds come last.
proof fn lemma_read_one(s: Seq<Event>, a: int, b: int)
    requires
        0 <= a <= b < s.len(),
    ensures
        doc_text(s.subrange(a, b + 1)) == doc_text(s.subrange(a, b)) + event_text(s[b]),
        link_text(s.subrange(a, b + 1)) == link_text(s.subrange(a, b)) + event_link(s[b]),
{
    assert(s.subrange(a, b + 1).drop_last() =~= s.subrange(a, b));
    assert(s.subrange(a, b + 1).last() == s[b]);
}

/// A run of events split in two: the text and link targets of the first part come first.
proof fn lemma_read_split(s: Seq<Event>, a: int, b: int, c: int)
    requires
        0 <= a <= b <= c <= s.len(),
    ensures
        doc_text(s.subrange(a, c)) == doc_text(s.subrange(a, b)) + doc_text(s.subrange(b, c)),
        link_text(s.subrange(a, c)) == link_text(s.subrange(a, b)) + link_text(s.subrange(b, c)),
    decreases c - b,
{
    if c == b {
        assert(s.subrange(b, c) =~= Seq::<Event>::empty());
        assert(doc_text(s.subrange(a, b)) + doc_text(s.subrange(b, c)) =~= doc_text(s.subrange(a, b)));
        assert(link_text(s.subrange(a, b)) + link_text(s.subrange(b, c)) =~= link_text(s.subrange(a, b)));
    } else {
        lemma_read_split(s, a, b, c - 1);
        lemma_read_one(s, a, c - 1);
        lemma_read_one(s, b, c - 1);
        assert(doc_text(s.subrange(a, b)) + doc_text(s.subrange(b, c - 1)) + event_text(s[c - 1]) =~= doc_text(s.subrange(a, b)) + (doc_text(s.subrange(b, c - 1)) + event_text(s[c - 1])));
        assert(link_text(s.subrange(a, b)) + link_text(s.subrange(b, c - 1)) + event_link(s[c - 1]) =~= link_text(s.subrange(a, b)) + (link_text(s.subrange(b, c - 1)) + event_link(s[c - 1])));
    }
}

/// Turns Markdown events into a box tree: the document, then its links and its footnotes.
pub struct Ctx<'b> {
    events: Vec<Event>,
    pos: usize,
    links: Option<DomBox>,
    footnotes: Option<DomBox>,
    syntaxes: &'b SyntaxSet,
    themes: &'b ThemeSet,
    syntax: Option<&'b SyntaxReference>,
    theme: String,
    highline: Option<HighlightLines<'b>>,
}

/// Whether the end of an element of this kind ends the box being filled: every end but
/// those of a rule and of the parts of a table, whose contents go into the box around them.
pub open spec fn closes(tag: Tag) -> bool {
    !(tag is Rule || tag is Table || tag is TableHead || tag is TableRow || tag is TableCell)
}

/// Whether an event ends the box being filled.
pub open spec fn closing(e: Event) -> bool {
    match e {
        Event::End(t) => closes(t),
        _ => false,
    }
}

impl<'b> Ctx<'b> {
    /// The events not read yet.
    pub closed spec fn remaining(&self) -> Seq<Event> {
        self.events@.subrange(self.pos as int, self.events@.len() as int)
    }

    /// Whether the context is consistent: it has not read past its events.
    pub closed spec fn well_formed(&self) -> bool {
        self.pos <= self.events@.len()
    }

    /// The events the context was made with.
    pub closed spec fn events(&self) -> Seq<Event> {
        self.events@
    }

    /// Whether this context fills `parent` with plain events only, whose texts hold one line
    /// each: then the boxes it adds show the events' text (code coloured or not) and the links
    /// box their link targets.
    pub closed spec fn plain_fill(&self, parent: DomBox) -> bool {
        &&& one_line_texts(self.events@)
        &&& plain_events(self.events@)
        &&& shows_children(parent.kind)
        &&& self.links matches Some(l) && shows_children(l.kind)
    }

    /// Whether code is being coloured (inside a code block).
    pub closed spec fn highlighting(&self) -> bool {
        self.highline is Some
    }

    /// How many events have been read.
    pub closed spec fn position(&self) -> nat {
        self.pos as nat
    }

    /// Where the builder stands, filling `parent`, as plain values: the box, how many events
    /// have been read, the links box and the footnotes box.
    pub closed spec fn state(&self, parent: DomBox) -> Filled {
        Filled {
            parent: box_view(parent),
            pos: self.pos as int,
            links: opt_view(self.links),
            notes: opt_view(self.footnotes),
        }
    }

    /// The events read since the context was `before`.
    pub closed spec fn read_since(&self, before: Self) -> Seq<Event> {
        self.events@.subrange(before.pos as int, self.pos as int)
    }

    /// The text shown by the links box, none where there is none.
    pub closed spec fn links_text(&self) -> Seq<char> {
        match self.links {
            Some(l) => box_text(l),
            None => seq![],
        }
    }

    /// The name of the theme code is coloured with.
    pub closed spec fn theme_name(&self) -> Seq<char> {
        self.theme@
    }

    /// A context over `events`, colouring code with the given syntaxes and the
    /// `base16-eighties.dark` theme.
    pub fn new(events: Vec<Event>, syntaxes: &'b SyntaxSet, themes: &'b ThemeSet) -> (r: Self)
        ensures
            r.well_formed(),
            r.remaining() == events@,
            r.events() == events@,
            r.theme_name() == "base16-eighties.dark"@,
            r.position() == 0,
            !r.highlighting(),
    {
        let r = Ctx {
            events,
            pos: 0,
            links: None,
            footnotes: None,
            syntaxes,
            themes,
            syntax: None,
            theme: "base16-eighties.dark".to_owned(),
            highline: None,
        };
        assert(r.remaining() =~= r.events@);
        r
    }

    /// Builds the box tree of a document `width` cells wide: a root block holding the boxes
    /// of the events, then a block listing the link targets, then one holding the footnotes.
    pub fn build(&mut self, width: u16) -> (root: DomBox)
        requires
            old(self).well_formed(),
            headings_drawable(old(self).events()),
        ensures
            final(self).well_formed(),
            final(self).events() == old(self).events(),
            root.kind is Block,
            root.size.content.w == width,
            root.children@.len() >= 2,
            root.children@[root.children@.len() - 2].kind is Block,
            root.children@[root.children@.len() - 1].kind is Block,
            final(self).position() == final(self).events().len() || (final(self).position()
                > old(self).position() && closing(
                final(self).events()[final(self).position() - 1],
            )),
            plain_events(old(self).events()) && one_line_texts(old(self).events()) ==> {
                &&& box_text(root) == doc_text(final(self).read_since(*old(self))) + link_text(
                    final(self).read_since(*old(self)),
                )
                &&& box_text(root.children@[root.children@.len() - 2]) == link_text(
                    final(self).read_since(*old(self)),
                )
                &&& box_text(root.children@[root.children@.len() - 1]) == Seq::<char>::empty()
            },
            code_free(old(self).events()) && !old(self).highlighting() ==> {
                &&& box_view(root) == built_view(old(self).events(), old(self).position() as int, width)
                &&& final(self).position() == built_end(
                    old(self).events(),
                    old(self).position() as int,
                    width,
                )
            },
    {
        let ghost plain = plain_events(old(self).events()) && one_line_texts(old(self).events());
        self.links = Some(DomBox::new_block());
        self.footnotes = Some(DomBox::new_block());
        let mut root = DomBox::new_root(width);
        proof {
            lemma_empty_box_text(root);
            lemma_empty_box_text(self.links->0);
            lemma_empty_box_text(self.footnotes->0);
            lemma_childless_view(root);
            lemma_fresh_view(self.links->0, BoxKind::Block, plain_style());
            lemma_fresh_view(self.footnotes->0, BoxKind::Block, plain_style());
        }
        let ghost before = *self;
        let ghost footnotes0 = self.footnotes->0;
        self.build_dom(&mut root);
        let ghost r0 = root;
        let links = match self.links.take() {
            Some(l) => l,
            None => DomBox::new_block(),
        };
        root.swallow(links);
        let ghost r1 = root;
        let footnotes = match self.footnotes.take() {
            Some(f) => f,
            None => DomBox::new_block(),
        };
        proof {
            lemma_appended_child_view(r0, r1, links);
        }
        proof {
            if plain {
                assert(footnotes == footnotes0);
            }
        }
        root.swallow(footnotes);
        proof {
            lemma_appended_child_view(r1, root, footnotes);
            if plain {
                assert(before.read_since(*old(self)) =~= Seq::<Event>::empty());
                lemma_text_appended_child(r0, r1, links);
                lemma_text_appended_child(r1, root, footnotes);
                assert(self.read_since(before) == self.read_since(*old(self)));
                assert(box_text(root) =~= doc_text(self.read_since(*old(self))) + link_text(
                    self.read_since(*old(self)),
                ));
            }
        }
        root
    }

    /// Reads events and adds their boxes to `parent`, until the end of the element `parent`
    /// stands for (or of the events).
    #[verifier::spinoff_prover]
    #[verifier::rlimit(100)]
    fn build_dom(&mut self, parent: &mut DomBox)
        requires
            old(self).well_formed(),
            headings_drawable(old(self).events()),
        ensures
            final(self).well_formed(),
            final(self).events() == old(self).events(),
            final(self).pos >= old(self).pos,
            final(self).links is Some == old(self).links is Some,
            final(self).links matches Some(l) ==> l.kind == old(self).links->0.kind,
            final(self).footnotes is Some == old(self).footnotes is Some,
            final(self).footnotes matches Some(f) ==> f.kind == old(self).footnotes->0.kind,
            final(parent).kind == old(parent).kind,
            final(parent).size == old(parent).size,
            final(parent).style == old(parent).style,
            final(parent).children@.len() >= old(parent).children@.len(),
            final(self).pos == final(self).events@.len() || (final(self).pos > old(self).pos
                && closing(final(self).events@[final(self).pos - 1])),
            old(self).plain_fill(*old(parent)) ==> {
                &&& final(self).footnotes == old(self).footnotes
                &&& box_text(*final(parent)) == box_text(*old(parent)) + doc_text(
                    final(self).read_since(*old(self)),
                )
                &&& final(self).links_text() == old(self).links_text() + link_text(
                    final(self).read_since(*old(self)),
                )
            },
            old(self).highline is None && code_free(old(self).events@) ==> {
                &&& final(self).highline is None
                &&& final(self).state(*final(parent)) == fill(
                    old(self).events@,
                    old(self).pos as int,
                    box_view(*old(parent)),
                    opt_view(old(self).links),
                    opt_view(old(self).footnotes),
                )
            },
        decreases old(self).events@.len() - old(self).pos, 1nat,
    {
        let ghost plain = old(self).plain_fill(*old(parent));
        let ghost o = old(self).pos as int;
        let ghost vw = old(self).highline is None && code_free(old(self).events@);
        let ghost whole = fill(
            old(self).events@,
            old(self).pos as int,
            box_view(*old(parent)),
            opt_view(old(self).links),
            opt_view(old(self).footnotes),
        );
        proof {
            assert(self.events@.subrange(o, o) =~= Seq::<Event>::empty());
            assert(box_text(*parent) + doc_text(Seq::<Event>::empty()) =~= box_text(*parent));
            assert(self.links_text() + link_text(Seq::<Event>::empty()) =~= self.links_text());
        }
        loop
            invariant_except_break
                vw ==> self.highline is None && whole == fill(
                    self.events@,
                    self.pos as int,
                    box_view(*parent),
                    opt_view(self.links),
                    opt_view(self.footnotes),
                ),
            invariant
                self.well_formed(),
                self.events@ == old(self).events@,
                self.pos >= old(self).pos,
                headings_drawable(self.events@),
                self.links is Some == old(self).links is Some,
                self.links matches Some(l) ==> l.kind == old(self).links->0.kind,
                self.footnotes is Some == old(self).footnotes is Some,
                self.footnotes matches Some(f) ==> f.kind == old(self).footnotes->0.kind,
                parent.kind == old(parent).kind,
                parent.size == old(parent).size,
                parent.style == old(parent).style,
                parent.children@.len() >= old(parent).children@.len(),
                plain == old(self).plain_fill(*old(parent)),
                o == old(self).pos,
                plain ==> {
                    &&& self.footnotes == old(self).footnotes
                    &&& box_text(*parent) == box_text(*old(parent)) + doc_text(
                        self.events@.subrange(o, self.pos as int),
                    )
                    &&& self.links_text() == old(self).links_text() + link_text(
                        self.events@.subrange(o, self.pos as int),
                    )
                },
                vw == (old(self).highline is None && code_free(old(self).events@)),
                whole == fill(
                    old(self).events@,
                    old(self).pos as int,
                    box_view(*old(parent)),
                    opt_view(old(self).links),
                    opt_view(old(self).footnotes),
                ),
            ensures
                vw ==> self.highline is None && whole == self.state(*parent),
                self.pos == self.events@.len() || (self.pos > old(self).pos
                    && closing(self.events@[self.pos - 1])),
                plain == old(self).plain_fill(*old(parent)),
                plain ==> {
                    &&& self.footnotes == old(self).footnotes
                    &&& box_text(*parent) == box_text(*old(parent)) + doc_text(
                        self.events@.subrange(o, self.pos as int),
                    )
                    &&& self.links_text() == old(self).links_text() + link_text(
                        self.events@.subrange(o, self.pos as int),
                    )
                },
            decreases self.events@.len() - self.pos,
        {
            if self.pos >= self.events.len() {
                proof {
                    lemma_fill_done(
                        self.events@,
                        self.pos as int,
                        box_view(*parent),
                        opt_view(self.links),
                        opt_view(self.footnotes),
                    );
                }
                break;
            }
            let ghost p = self.pos as int;
            let ghost p0 = *parent;
            let ghost links0 = self.links_text();
            let ghost s0 = *self;
            let ghost lv = opt_view(self.links);
            let ghost nv = opt_view(self.footnotes);
            proof {
                lemma_inline_style_view(p0);
                if vw {
                    assert(!(self.events@[p] matches Event::Start(Tag::CodeBlock(_))));
                }
            }
            let event = self.events[self.pos].clone();
            assert(self.events@[self.pos as int] matches Event::Start(Tag::Header(l)) ==> 1 <= l <= 6);
            self.pos = self.pos + 1;
            proof {
                lemma_read_one(self.events@, o, p);
                if plain {
                    assert(plain_event(self.events@[p]));
                    assert(shows_children(p0.kind));
                }
            }
            let ghost before_text = doc_text(self.events@.subrange(o, p));
            let ghost before_links = link_text(self.events@.subrange(o, p));
            match event {
                Event::Start(tag) => {
                    let ghost c0 = *self;
                    let ghost t0 = tag;
                    self.start_tag(tag, parent);
                    proof {
                        if vw {
                            lemma_fill_start(self.events@, p, t0, box_view(p0), lv, nv, self.state(*parent));
                        }
                        if plain {
                            let q = self.pos as int;
                            let e = self.events@[p];
                            lemma_read_split(self.events@, o, p + 1, q);
                            assert(self.read_since(c0) == self.events@.subrange(p + 1, q));
                            assert(box_text(*parent) =~= box_text(*old(parent)) + (before_text
                                + event_text(e) + doc_text(self.events@.subrange(p + 1, q))));
                            assert(self.links_text() =~= old(self).links_text() + (before_links
                                + event_link(e) + link_text(self.events@.subrange(p + 1, q))));
                        }
                    }
                },
                Event::End(tag) => {
                    let ghost t0 = tag;
                    let done = self.end_tag(tag, parent);
                    proof {
                        if vw {
                            lemma_fill_end(self.events@, p, t0, box_view(p0), lv, nv);
                        }
                        if plain {
                            assert(box_text(*parent) =~= box_text(*old(parent)) + (before_text
                                + event_text(self.events@[p])));
                            assert(self.links_text() =~= old(self).links_text() + (before_links
                                + event_link(self.events@[p])));
                        }
                    }
                    if done {
                        break;
                    }
                },
                Event::Text(text) => {
                    proof {
                        if plain {
                            assert(self.events@[p] matches Event::Text(t) ==> one_line(t@));
                            assert(one_line(text@));
                        }
                    }
                    self.add_text_event(text, parent);
                    proof {
                        if vw {
                            lemma_fill_simple(self.events@, p, box_view(p0), lv, nv);
                        }
                        if plain {
                            assert(box_text(*parent) =~= box_text(*old(parent)) + (before_text
                                + event_text(self.events@[p])));
                            assert(self.links_text() =~= old(self).links_text() + (before_links
                                + event_link(self.events@[p])));
                        }
                    }
                },
                Event::Html(html) => {
                    let child = parent.add_text(html);
                    child.style.fg = DomColor::from_light(TermColor::Red);
                    proof {
                        if vw {
                            lemma_fill_simple(self.events@, p, box_view(p0), lv, nv);
                        }
                        lemma_childless_view(*child);
                        lemma_appended_inline_view(p0, *parent, *child);
                        if plain {
                            lemma_text_appended_inline(p0, *parent, *child);
                            assert(box_text(*parent) =~= box_text(*old(parent)) + (before_text
                                + event_text(self.events@[p])));
                            assert(self.links_text() =~= old(self).links_text() + (before_links
                                + event_link(self.events@[p])));
                        }
                    }
                },
                Event::InlineHtml(html) => {
                    let child = parent.add_text(html);
                    child.style.fg = DomColor::from_light(TermColor::Red);
                    proof {
                        if vw {
                            lemma_fill_simple(self.events@, p, box_view(p0), lv, nv);
                        }
                        lemma_childless_view(*child);
                        lemma_appended_inline_view(p0, *parent, *child);
                        if plain {
                            lemma_text_appended_inline(p0, *parent, *child);
                            assert(box_text(*parent) =~= box_text(*old(parent)) + (before_text
                                + event_text(self.events@[p])));
                            assert(self.links_text() =~= old(self).links_text() + (before_links
                                + event_link(self.events@[p])));
                        }
                    }
                },
                Event::SoftBreak => {
                    let b = parent.add_break();
                    proof {
                        if vw {
                            lemma_fill_simple(self.events@, p, box_view(p0), lv, nv);
                        }
                        lemma_childless_view(*b);
                        lemma_appended_child_view(p0, *parent, *b);
                        if plain {
                            lemma_text_appended_child(p0, *parent, *b);
                            assert(box_text(*parent) =~= box_text(*old(parent)) + (before_text
                                + event_text(self.events@[p])));
                            assert(self.links_text() =~= old(self).links_text() + (before_links
                                + event_link(self.events@[p])));
                        }
                    }
                },
                Event::HardBreak => {
                    let b = parent.add_break();
                    proof {
                        if vw {
                            lemma_fill_simple(self.events@, p, box_view(p0), lv, nv);
                        }
                        lemma_childless_view(*b);
                        lemma_appended_child_view(p0, *parent, *b);
                        if plain {
                            lemma_text_appended_child(p0, *parent, *b);
                            assert(box_text(*parent) =~= box_text(*old(parent)) + (before_text
                                + event_text(self.events@[p])));
                            assert(self.links_text() =~= old(self).links_text() + (before_links
                                + event_link(self.events@[p])));
                        }
                    }
                },
                Event::FootnoteReference(name) => {
                    let child = parent.add_text(name);
                    child.style.fg = DomColor::from_dark(TermColor::Green);
                    child.style.underline = true;
                    proof {
                        if vw {
                            lemma_fill_simple(self.events@, p, box_view(p0), lv, nv);
                        }
                        lemma_childless_view(*child);
                        lemma_appended_inline_view(p0, *parent, *child);
                        if plain {
                            lemma_text_appended_inline(p0, *parent, *child);
                            assert(box_text(*parent) =~= box_text(*old(parent)) + (before_text
                                + event_text(self.events@[p])));
                            assert(self.links_text() =~= old(self).links_text() + (before_links
                                + event_link(self.events@[p])));
                        }
                    }
                },
            }
        }
    }

    /// Adds the boxes an element starts with, and those of its contents.
    #[verifier::spinoff_prover]
    #[verifier::rlimit(100)]
    fn start_tag(&mut self, tag: Tag, parent: &mut DomBox)
        requires
            old(self).well_formed(),
            headings_drawable(old(self).events()),
            tag matches Tag::Header(l) ==> 1 <= l <= 6,
        ensures
            final(self).well_formed(),
            final(self).events() == old(self).events(),
            final(self).pos >= old(self).pos,
            final(self).links is Some == old(self).links is Some,
            final(self).links matches Some(l) ==> l.kind == old(self).links->0.kind,
            final(self).footnotes is Some == old(self).footnotes is Some,
            final(self).footnotes matches Some(f) ==> f.kind == old(self).footnotes->0.kind,
            final(parent).kind == old(parent).kind,
            final(parent).size == old(parent).size,
            final(parent).style == old(parent).style,
            final(parent).children@.len() >= old(parent).children@.len(),
            old(self).plain_fill(*old(parent)) && plain_event(Event::Start(tag)) ==> {
                &&& final(self).footnotes == old(self).footnotes
                &&& box_text(*final(parent)) == box_text(*old(parent)) + event_text(Event::Start(tag))
                    + doc_text(final(self).read_since(*old(self)))
                &&& final(self).links_text() == old(self).links_text() + event_link(
                    Event::Start(tag),
                ) + link_text(final(self).read_since(*old(self)))
            },
            old(self).highline is None && code_free(old(self).events@) && !(tag is CodeBlock) ==> {
                &&& final(self).highline is None
                &&& final(self).state(*final(parent)) == start_view(
                    old(self).events@,
                    old(self).pos as int,
                    tag,
                    box_view(*old(parent)),
                    opt_view(old(self).links),
                    opt_view(old(self).footnotes),
                )
            },
        decreases old(self).events@.len() - old(self).pos, 3nat,
    {
        let is_block = match &tag {
            Tag::Paragraph | Tag::Rule | Tag::Table | Tag::TableHead | Tag::TableRow | Tag::TableCell => true,
            _ => false,
        };
        let is_heading = match &tag {
            Tag::Header(_) => true,
            _ => false,
        };
        let is_list = match &tag {
            Tag::List(_) => true,
            _ => false,
        };
        let is_nested = match &tag {
            Tag::BlockQuote | Tag::CodeBlock(_) | Tag::Item => true,
            _ => false,
        };
        if is_block {
            self.start_block_tag(tag, parent);
        } else if is_heading {
            self.start_heading(tag, parent);
        } else if is_list {
            self.start_list(tag, parent);
        } else if is_nested {
            self.start_nested_tag(tag, parent);
        } else {
            self.start_inline_tag(tag, parent);
        }
    }

    /// Adds the boxes of a paragraph, rule or table part, and those of its contents.
    #[verifier::spinoff_prover]
    #[verifier::rlimit(100)]
    fn start_block_tag(&mut self, tag: Tag, parent: &mut DomBox)
        requires
            old(self).well_formed(),
            headings_drawable(old(self).events()),
            tag matches Tag::Header(l) ==> 1 <= l <= 6,
            tag is Paragraph || tag is Rule || tag is Table || tag is TableHead || tag is TableRow
                || tag is TableCell,
        ensures
            final(self).well_formed(),
            final(self).events() == old(self).events(),
            final(self).pos >= old(self).pos,
            final(self).links is Some == old(self).links is Some,
            final(self).links matches Some(l) ==> l.kind == old(self).links->0.kind,
            final(self).footnotes is Some == old(self).footnotes is Some,
            final(self).footnotes matches Some(f) ==> f.kind == old(self).footnotes->0.kind,
            final(parent).kind == old(parent).kind,
            final(parent).size == old(parent).size,
            final(parent).style == old(parent).style,
            final(parent).children@.len() >= old(parent).children@.len(),
            old(self).plain_fill(*old(parent)) && plain_event(Event::Start(tag)) ==> {
                &&& final(self).footnotes == old(self).footnotes
                &&& box_text(*final(parent)) == box_text(*old(parent)) + event_text(Event::Start(tag))
                    + doc_text(final(self).read_since(*old(self)))
                &&& final(self).links_text() == old(self).links_text() + event_link(
                    Event::Start(tag),
                ) + link_text(final(self).read_since(*old(self)))
            },
            old(self).highline is None && code_free(old(self).events@) && !(tag is CodeBlock) ==> {
                &&& final(self).highline is None
                &&& final(self).state(*final(parent)) == start_view(
                    old(self).events@,
                    old(self).pos as int,
                    tag,
                    box_view(*old(parent)),
                    opt_view(old(self).links),
                    opt_view(old(self).footnotes),
                )
            },
        decreases old(self).events@.len() - old(self).pos, 2nat,
    {
        let ghost plain = old(self).plain_fill(*old(parent)) && plain_event(Event::Start(tag));
        let ghost p0 = *parent;
        let ghost vw = old(self).highline is None && code_free(old(self).events@) && !(tag is CodeBlock);
        let ghost sv = start_view(
            self.events@,
            self.pos as int,
            tag,
            box_view(*parent),
            opt_view(self.links),
            opt_view(self.footnotes),
        );
        proof {
            lemma_inline_style_view(p0);
        }
        let ghost at = self.pos as int;
        proof {
            assert(self.events@.subrange(at, at) =~= Seq::<Event>::empty());
        }
        match tag {
            Tag::Paragraph => {
                let child = parent.add_block();
                let ghost c0 = *child;
                proof {
                    lemma_fresh_view(c0, BoxKind::Block, p0.style);
                }
                self.build_dom(child);
                let ghost c1 = *child;
                child.size.border.bottom = 1;
                proof {
                    if plain {
                        lemma_empty_box_text(c0);
                        lemma_text_appended_child(p0, *parent, *child);
                    }
                    lemma_appended_child_view(p0, *parent, *child);
                    assert(box_view(*child) == with_bottom_line(box_view(c1)));
                }
                proof {
                    if vw {
                        assert(self.highline is None);
                        assert(self.state(*parent) == sv) by {
                            reveal(start_view);
                        }
                    }
                }
            },
            Tag::Rule => {
                let child = parent.add_block();
                child.style.extend = true;
                child.size.border.bottom = 1;
                child.style.border_type = BorderType::Thin;
                child.style.fg = DomColor::from_dark(TermColor::Yellow);
                proof {
                    if plain {
                        lemma_empty_box_text(*child);
                        lemma_text_appended_child(p0, *parent, *child);
                    }
                    lemma_childless_view(*child);
                    lemma_appended_child_view(p0, *parent, *child);
                }
                proof {
                    if vw {
                        assert(self.highline is None);
                        assert(self.state(*parent) == sv) by {
                            reveal(start_view);
                        }
                    }
                }
            },
            Tag::Table => {
                proof {
                    if plain {
                    }
                }
                proof {
                    if vw {
                        assert(self.highline is None);
                        assert(self.state(*parent) == sv) by {
                            reveal(start_view);
                        }
                    }
                }
            },
            Tag::TableHead => {
                proof {
                    if plain {
                    }
                }
                proof {
                    if vw {
                        assert(self.highline is None);
                        assert(self.state(*parent) == sv) by {
                            reveal(start_view);
                        }
                    }
                }
            },
            Tag::TableRow => {
                proof {
                    if plain {
                    }
                }
                proof {
                    if vw {
                        assert(self.highline is None);
                        assert(self.state(*parent) == sv) by {
                            reveal(start_view);
                        }
                    }
                }
            },
            Tag::TableCell => {
                proof {
                    if plain {
                    }
                }
                proof {
                    if vw {
                        assert(self.highline is None);
                        assert(self.state(*parent) == sv) by {
                            reveal(start_view);
                        }
                    }
                }
            },
            _ => {},
        }
    }

    /// Adds the box of a heading, and those of its contents.
    #[verifier::spinoff_prover]
    #[verifier::rlimit(100)]
    fn start_heading(&mut self, tag: Tag, parent: &mut DomBox)
        requires
            old(self).well_formed(),
            headings_drawable(old(self).events()),
            tag matches Tag::Header(l) ==> 1 <= l <= 6,
            tag is Header,
        ensures
            final(self).well_formed(),
            final(self).events() == old(self).events(),
            final(self).pos >= old(self).pos,
            final(self).links is Some == old(self).links is Some,
            final(self).links matches Some(l) ==> l.kind == old(self).links->0.kind,
            final(self).footnotes is Some == old(self).footnotes is Some,
            final(self).footnotes matches Some(f) ==> f.kind == old(self).footnotes->0.kind,
            final(parent).kind == old(parent).kind,
            final(parent).size == old(parent).size,
            final(parent).style == old(parent).style,
            final(parent).children@.len() >= old(parent).children@.len(),
            old(self).plain_fill(*old(parent)) && plain_event(Event::Start(tag)) ==> {
                &&& final(self).footnotes == old(self).footnotes
                &&& box_text(*final(parent)) == box_text(*old(parent)) + event_text(Event::Start(tag))
                    + doc_text(final(self).read_since(*old(self)))
                &&& final(self).links_text() == old(self).links_text() + event_link(
                    Event::Start(tag),
                ) + link_text(final(self).read_since(*old(self)))
            },
            old(self).highline is None && code_free(old(self).events@) && !(tag is CodeBlock) ==> {
                &&& final(self).highline is None
                &&& final(self).state(*final(parent)) == start_view(
                    old(self).events@,
                    old(self).pos as int,
                    tag,
                    box_view(*old(parent)),
                    opt_view(old(self).links),
                    opt_view(old(self).footnotes),
                )
            },
        decreases old(self).events@.len() - old(self).pos, 2nat,
    {
        let ghost plain = old(self).plain_fill(*old(parent)) && plain_event(Event::Start(tag));
        let ghost p0 = *parent;
        let ghost vw = old(self).highline is None && code_free(old(self).events@) && !(tag is CodeBlock);
        let ghost sv = start_view(
            self.events@,
            self.pos as int,
            tag,
            box_view(*parent),
            opt_view(self.links),
            opt_view(self.footnotes),
        );
        proof {
            lemma_inline_style_view(p0);
        }
        let ghost at = self.pos as int;
        proof {
            assert(self.events@.subrange(at, at) =~= Seq::<Event>::empty());
        }
        match tag {
            Tag::Header(level) => {
                let lv = #[verifier::truncate] (level as u8);
                let child = parent.add_header(lv);
                let ghost c0 = *child;
                style_heading(child, level);
                let ghost c1 = *child;
                proof {
                    lemma_empty_box_text(c0);
                    lemma_empty_box_text(c1);
                }
                let ghost s1 = *self;
                self.build_dom(child);
                proof {
                    if plain {
                        assert(s1.plain_fill(c1));
                        lemma_text_appended_child(p0, *parent, *child);
                        assert(box_text(*parent) == box_text(p0) + doc_text(self.read_since(*old(self))));
                    }
                    lemma_appended_child_view(p0, *parent, *child);
                }
                proof {
                    if vw {
                        assert(self.highline is None);
                        assert(self.state(*parent) == sv) by {
                            reveal(start_view);
                        }
                    }
                }
            },
            _ => {},
        }
    }

    /// Adds the box of a list, and those of its contents.
    #[verifier::spinoff_prover]
    #[verifier::rlimit(100)]
    fn start_list(&mut self, tag: Tag, parent: &mut DomBox)
        requires
            old(self).well_formed(),
            headings_drawable(old(self).events()),
            tag matches Tag::Header(l) ==> 1 <= l <= 6,
            tag is List,
        ensures
            final(self).well_formed(),
            final(self).events() == old(self).events(),
            final(self).pos >= old(self).pos,
            final(self).links is Some == old(self).links is Some,
            final(self).links matches Some(l) ==> l.kind == old(self).links->0.kind,
            final(self).footnotes is Some == old(self).footnotes is Some,
            final(self).footnotes matches Some(f) ==> f.kind == old(self).footnotes->0.kind,
            final(parent).kind == old(parent).kind,
            final(parent).size == old(parent).size,
            final(parent).style == old(parent).style,
            final(parent).children@.len() >= old(parent).children@.len(),
            old(self).plain_fill(*old(parent)) && plain_event(Event::Start(tag)) ==> {
                &&& final(self).footnotes == old(self).footnotes
                &&& box_text(*final(parent)) == box_text(*old(parent)) + event_text(Event::Start(tag))
                    + doc_text(final(self).read_since(*old(self)))
                &&& final(self).links_text() == old(self).links_text() + event_link(
                    Event::Start(tag),
                ) + link_text(final(self).read_since(*old(self)))
            },
            old(self).highline is None && code_free(old(self).events@) && !(tag is CodeBlock) ==> {
                &&& final(self).highline is None
                &&& final(self).state(*final(parent)) == start_view(
                    old(self).events@,
                    old(self).pos as int,
                    tag,
                    box_view(*old(parent)),
                    opt_view(old(self).links),
                    opt_view(old(self).footnotes),
                )
            },
        decreases old(self).events@.len() - old(self).pos, 2nat,
    {
        let ghost plain = old(self).plain_fill(*old(parent)) && plain_event(Event::Start(tag));
        let ghost p0 = *parent;
        let ghost vw = old(self).highline is None && code_free(old(self).events@) && !(tag is CodeBlock);
        let ghost sv = start_view(
            self.events@,
            self.pos as int,
            tag,
            box_view(*parent),
            opt_view(self.links),
            opt_view(self.footnotes),
        );
        proof {
            lemma_inline_style_view(p0);
        }
        let ghost at = self.pos as int;
        proof {
            assert(self.events@.subrange(at, at) =~= Seq::<Event>::empty());
        }
        match tag {
            Tag::List(Some(start)) => {
                let first = #[verifier::truncate] (start as u16);
                let child = parent.add_list(Some(first));
                proof {
                    lemma_fresh_view(*child, BoxKind::List(Some(first)), p0.style);
                }
                self.build_dom(child);
                let ghost c1 = *child;
                child.size.border.bottom = 1;
                proof {
                    lemma_appended_child_view(p0, *parent, *child);
                    assert(box_view(*child) == with_bottom_line(box_view(c1)));
                }
                proof {
                    if vw {
                        assert(self.highline is None);
                        assert(self.state(*parent) == sv) by {
                            reveal(start_view);
                        }
                    }
                }
            },
            Tag::List(None) => {
                let child = parent.add_list(None);
                proof {
                    lemma_fresh_view(*child, BoxKind::List(None), p0.style);
                }
                self.build_dom(child);
                let ghost c1 = *child;
                child.size.border.bottom = 1;
                proof {
                    lemma_appended_child_view(p0, *parent, *child);
                    assert(box_view(*child) == with_bottom_line(box_view(c1)));
                }
                proof {
                    if vw {
                        assert(self.highline is None);
                        assert(self.state(*parent) == sv) by {
                            reveal(start_view);
                        }
                    }
                }
            },


            _ => {},
        }
    }

    /// Adds the boxes of a quote, code block or list item, and those of its contents.
    #[verifier::spinoff_prover]
    #[verifier::rlimit(100)]
    fn start_nested_tag(&mut self, tag: Tag, parent: &mut DomBox)
        requires
            old(self).well_formed(),
            headings_drawable(old(self).events()),
            tag matches Tag::Header(l) ==> 1 <= l <= 6,
            tag is BlockQuote || tag is CodeBlock || tag is Item,
        ensures
            final(self).well_formed(),
            final(self).events() == old(self).events(),
            final(self).pos >= old(self).pos,
            final(self).links is Some == old(self).links is Some,
            final(self).links matches Some(l) ==> l.kind == old(self).links->0.kind,
            final(self).footnotes is Some == old(self).footnotes is Some,
            final(self).footnotes matches Some(f) ==> f.kind == old(self).footnotes->0.kind,
            final(parent).kind == old(parent).kind,
            final(parent).size == old(parent).size,
            final(parent).style == old(parent).style,
            final(parent).children@.len() >= old(parent).children@.len(),
            old(self).plain_fill(*old(parent)) && plain_event(Event::Start(tag)) ==> {
                &&& final(self).footnotes == old(self).footnotes
                &&& box_text(*final(parent)) == box_text(*old(parent)) + event_text(Event::Start(tag))
                    + doc_text(final(self).read_since(*old(self)))
                &&& final(self).links_text() == old(self).links_text() + event_link(
                    Event::Start(tag),
                ) + link_text(final(self).read_since(*old(self)))
            },
            old(self).highline is None && code_free(old(self).events@) && !(tag is CodeBlock) ==> {
                &&& final(self).highline is None
                &&& final(self).state(*final(parent)) == start_view(
                    old(self).events@,
                    old(self).pos as int,
                    tag,
                    box_view(*old(parent)),
                    opt_view(old(self).links),
                    opt_view(old(self).footnotes),
                )
            },
        decreases old(self).events@.len() - old(self).pos, 2nat,
    {
        let ghost plain = old(self).plain_fill(*old(parent)) && plain_event(Event::Start(tag));
        let ghost p0 = *parent;
        let ghost vw = old(self).highline is None && code_free(old(self).events@) && !(tag is CodeBlock);
        let ghost sv = start_view(
            self.events@,
            self.pos as int,
            tag,
            box_view(*parent),
            opt_view(self.links),
            opt_view(self.footnotes),
        );
        proof {
            lemma_inline_style_view(p0);
        }
        let ghost at = self.pos as int;
        proof {
            assert(self.events@.subrange(at, at) =~= Seq::<Event>::empty());
        }
        match tag {
            Tag::BlockQuote => {
                let ghost shown: Seq<char> = seq![];
                {
                    let child = parent.add_block();
                    let ghost c0 = *child;
                    proof {
                        lemma_fresh_view(c0, BoxKind::Block, p0.style);
                    }
                    self.build_dom(child);
                    let ghost c1 = *child;
                    child.size.border.left = 1;
                    child.style.border_type = BorderType::Thin;
                    child.style.fg = DomColor::from_dark(TermColor::Cyan);
                    proof {
                        if plain {
                            lemma_empty_box_text(c0);
                            lemma_text_appended_child(p0, *parent, *child);
                            shown = box_text(*child);
                        }
                        lemma_appended_child_view(p0, *parent, *child);
                        assert(box_view(*child) == with_style(
                            with_border(box_view(c1), Edges { left: 1, ..c1.size.border }),
                            DomStyle { border_type: BorderType::Thin, fg: dark(TermColor::Cyan), ..c1.style },
                        ));
                    }
                }
                let ghost p1 = *parent;
                let newline = parent.add_block();
                let ghost n0 = *newline;
                let t = newline.add_text(String::new());
                proof {
                    if plain {
                        lemma_empty_box_text(n0);
                        lemma_text_appended_inline(n0, *newline, *t);
                        lemma_text_appended_child(p1, *parent, *newline);
                        assert(box_text(*parent) =~= box_text(p0) + shown);
                    }
                    lemma_fresh_view(n0, BoxKind::Block, p1.style);
                    lemma_inline_style_view(n0);
                    lemma_fresh_view(*t, t.kind, t.style);
                    lemma_appended_inline_view(n0, *newline, *t);
                    lemma_appended_child_view(p1, *parent, *newline);
                }
                proof {
                    if vw {
                        assert(self.highline is None);
                        assert(self.state(*parent) == sv) by {
                            reveal(start_view);
                        }
                    }
                }
            },
            Tag::CodeBlock(info) => {
                let ghost shown: Seq<char> = seq![];
                {
                    let indent = parent.style.indent;
                    let child = parent.add_block();
                    child.style.fg = DomColor::from_dark(TermColor::White);
                    child.style.bg = DomColor::from_dark(TermColor::Black);
                    child.style.indent = indent.wrapping_add(2);
                    let ghost c0 = *child;
                    let ghost s0 = *self;
                    proof {
                        lemma_empty_box_text(c0);
                        assert(self.events@.subrange(at, at) =~= Seq::<Event>::empty());
                    }
                    // A code block without a language is taken to be Rust, as many docs omit
                    // the tag.
                    self.syntax = match find_syntax_by_token(self.syntaxes, info.as_str()) {
                        Some(syn) => Some(syn),
                        None => find_syntax_by_token(self.syntaxes, "rust"),
                    };
                    if let Some(syn) = self.syntax {
                        if let Some(theme) = theme_named(self.themes, self.theme.as_str()) {
                            self.highline = Some(new_highlighter(syn, theme));
                            self.build_dom(child);
                        }
                    }
                    proof {
                        if plain {
                            lemma_text_appended_child(p0, *parent, *child);
                            shown = box_text(*child);
                            assert(shown == doc_text(self.read_since(*old(self))));
                        }
                    }
                }
                let ghost p1 = *parent;
                let newline = parent.add_block();
                let ghost n0 = *newline;
                let t = newline.add_text(String::new());
                proof {
                    if plain {
                        lemma_empty_box_text(n0);
                        lemma_text_appended_inline(n0, *newline, *t);
                        lemma_text_appended_child(p1, *parent, *newline);
                        assert(box_text(*parent) =~= box_text(p0) + shown);
                    }
                }
                proof {
                    if vw {
                        assert(self.highline is None);
                        assert(self.state(*parent) == sv) by {
                            reveal(start_view);
                        }
                    }
                }
            },
            Tag::Item => {
                {
                    let bullet = parent.add_bullet();
                    bullet.style.fg = DomColor::from_light(TermColor::Yellow);
                    bullet.size.border.right = 1;
                    proof {
                        lemma_childless_view(*bullet);
                        lemma_appended_child_view(p0, *parent, *bullet);
                    }
                }
                let ghost p1 = *parent;
                let child = parent.add_block();
                proof {
                    lemma_fresh_view(*child, BoxKind::Block, p1.style);
                }
                self.build_dom(child);
                proof {
                    lemma_appended_child_view(p1, *parent, *child);
                }
                proof {
                    if vw {
                        assert(self.highline is None);
                        assert(self.state(*parent) == sv) by {
                            reveal(start_view);
                        }
                    }
                }
            },
            _ => {},
        }
    }

    /// Adds the boxes of emphasis, strong text, inline code, a link, an image or a footnote
    /// definition, and those of its contents.
    #[verifier::spinoff_prover]
    #[verifier::rlimit(100)]
    fn start_inline_tag(&mut self, tag: Tag, parent: &mut DomBox)
        requires
            old(self).well_formed(),
            headings_drawable(old(self).events()),
            tag matches Tag::Header(l) ==> 1 <= l <= 6,
            tag is Emphasis || tag is Strong || tag is Code || tag is Link || tag is Image
                || tag is FootnoteDefinition,
        ensures
            final(self).well_formed(),
            final(self).events() == old(self).events(),
            final(self).pos >= old(self).pos,
            final(self).links is Some == old(self).links is Some,
            final(self).links matches Some(l) ==> l.kind == old(self).links->0.kind,
            final(self).footnotes is Some == old(self).footnotes is Some,
            final(self).footnotes matches Some(f) ==> f.kind == old(self).footnotes->0.kind,
            final(parent).kind == old(parent).kind,
            final(parent).size == old(parent).size,
            final(parent).style == old(parent).style,
            final(parent).children@.len() >= old(parent).children@.len(),
            old(self).plain_fill(*old(parent)) && plain_event(Event::Start(tag)) ==> {
                &&& final(self).footnotes == old(self).footnotes
                &&& box_text(*final(parent)) == box_text(*old(parent)) + event_text(Event::Start(tag))
                    + doc_text(final(self).read_since(*old(self)))
                &&& final(self).links_text() == old(self).links_text() + event_link(
                    Event::Start(tag),
                ) + link_text(final(self).read_since(*old(self)))
            },
            old(self).highline is None && code_free(old(self).events@) && !(tag is CodeBlock) ==> {
                &&& final(self).highline is None
                &&& final(self).state(*final(parent)) == start_view(
                    old(self).events@,
                    old(self).pos as int,
                    tag,
                    box_view(*old(parent)),
                    opt_view(old(self).links),
                    opt_view(old(self).footnotes),
                )
            },
        decreases old(self).events@.len() - old(self).pos, 2nat,
    {
        let ghost plain = old(self).plain_fill(*old(parent)) && plain_event(Event::Start(tag));
        let ghost p0 = *parent;
        let ghost vw = old(self).highline is None && code_free(old(self).events@) && !(tag is CodeBlock);
        let ghost sv = start_view(
            self.events@,
            self.pos as int,
            tag,
            box_view(*parent),
            opt_view(self.links),
            opt_view(self.footnotes),
        );
        proof {
            lemma_inline_style_view(p0);
        }
        let ghost at = self.pos as int;
        proof {
            assert(self.events@.subrange(at, at) =~= Seq::<Event>::empty());
        }
        match tag {
            Tag::Emphasis => {
                let child = parent.add_inline();
                child.style.italic = true;
                let ghost c0 = *child;
                proof {
                    lemma_empty_box_text(c0);
                    lemma_childless_view(c0);
                }
                self.build_dom(child);
                proof {
                    if plain {
                        lemma_text_appended_inline(p0, *parent, *child);
                    }
                    lemma_appended_inline_view(p0, *parent, *child);
                }
                proof {
                    if vw {
                        assert(self.highline is None);
                        assert(self.state(*parent) == sv) by {
                            reveal(start_view);
                        }
                    }
                }
            },
            Tag::Strong => {
                let child = parent.add_inline();
                child.style.bold = true;
                let ghost c0 = *child;
                proof {
                    lemma_empty_box_text(c0);
                    lemma_childless_view(c0);
                }
                self.build_dom(child);
                proof {
                    if plain {
                        lemma_text_appended_inline(p0, *parent, *child);
                    }
                    lemma_appended_inline_view(p0, *parent, *child);
                }
                proof {
                    if vw {
                        assert(self.highline is None);
                        assert(self.state(*parent) == sv) by {
                            reveal(start_view);
                        }
                    }
                }
            },
            Tag::Code => {
                let child = parent.add_inline();
                child.style.fg = DomColor::from_dark(TermColor::White);
                child.style.bg = DomColor::from_dark(TermColor::Black);
                let ghost c0 = *child;
                proof {
                    lemma_empty_box_text(c0);
                    lemma_childless_view(c0);
                }
                self.build_dom(child);
                proof {
                    if plain {
                        lemma_text_appended_inline(p0, *parent, *child);
                    }
                    lemma_appended_inline_view(p0, *parent, *child);
                }
                proof {
                    if vw {
                        assert(self.highline is None);
                        assert(self.state(*parent) == sv) by {
                            reveal(start_view);
                        }
                    }
                }
            },
            Tag::Link(dest, _) => {
                let ghost dest_text = dest@;
                if let Some(mut links) = self.links.take() {
                    let ghost l0 = links;
                    {
                        let child = links.add_text(dest);
                        child.style.fg = DomColor::from_dark(TermColor::Blue);
                        child.style.underline = true;
                        proof {
                            if plain {
                                lemma_text_appended_inline(l0, links, *child);
                            }
                            lemma_inline_style_view(l0);
                            lemma_childless_view(*child);
                            lemma_appended_inline_view(l0, links, *child);
                        }
                    }
                    let ghost l1 = links;
                    let b = links.add_break();
                    proof {
                        if plain {
                            lemma_text_appended_child(l1, links, *b);
                            assert(box_text(links) =~= box_text(l0) + dest_text);
                        }
                        lemma_childless_view(*b);
                        lemma_appended_child_view(l1, links, *b);
                    }
                    self.links = Some(links);
                }
                let ghost self1 = *self;
                let child = parent.add_inline();
                child.style.underline = true;
                child.style.fg = DomColor::from_dark(TermColor::Blue);
                let ghost c0 = *child;
                proof {
                    lemma_empty_box_text(c0);
                    lemma_childless_view(c0);
                }
                self.build_dom(child);
                proof {
                    if plain {
                        lemma_text_appended_inline(p0, *parent, *child);
                        assert(self1.links_text() == old(self).links_text() + dest_text);
                    }
                    lemma_appended_inline_view(p0, *parent, *child);
                }
                proof {
                    if vw {
                        assert(self.highline is None);
                        assert(self.state(*parent) == sv) by {
                            reveal(start_view);
                        }
                    }
                }
            },
            Tag::Image(dest, title) => {
                let ghost shown = title@ + dest@;
                {
                    let child = parent.add_text(title);
                    child.style.fg = DomColor::from_light(TermColor::Black);
                    child.style.bg = DomColor::from_dark(TermColor::Yellow);
                    proof {
                        if plain {
                            lemma_text_appended_inline(p0, *parent, *child);
                        }
                        lemma_childless_view(*child);
                        lemma_appended_inline_view(p0, *parent, *child);
                    }
                }
                let ghost p1 = *parent;
                {
                    let child = parent.add_text(dest);
                    child.style.fg = DomColor::from_dark(TermColor::Blue);
                    child.style.bg = DomColor::from_dark(TermColor::Yellow);
                    child.style.underline = true;
                    proof {
                        if plain {
                            lemma_text_appended_inline(p1, *parent, *child);
                        }
                        lemma_inline_style_view(p1);
                        lemma_childless_view(*child);
                        lemma_appended_inline_view(p1, *parent, *child);
                    }
                }
                let ghost p2 = *parent;
                let child = parent.add_inline();
                child.style.italic = true;
                let ghost c0 = *child;
                proof {
                    lemma_empty_box_text(c0);
                    lemma_inline_style_view(p2);
                    lemma_childless_view(c0);
                }
                self.build_dom(child);
                proof {
                    lemma_appended_inline_view(p2, *parent, *child);
                    if plain {
                        lemma_text_appended_inline(p2, *parent, *child);
                        assert(box_text(*parent) =~= box_text(p0) + shown + box_text(*child));
                    }
                }
                proof {
                    if vw {
                        assert(self.highline is None);
                        assert(self.state(*parent) == sv) by {
                            reveal(start_view);
                        }
                    }
                }
            },
            Tag::FootnoteDefinition(name) => {
                if let Some(mut footnotes) = self.footnotes.take() {
                    let ghost f0 = footnotes;
                    {
                        let child = footnotes.add_text(name);
                        child.style.fg = DomColor::from_dark(TermColor::Green);
                        child.style.underline = true;
                        proof {
                            lemma_inline_style_view(f0);
                            lemma_childless_view(*child);
                            lemma_appended_inline_view(f0, footnotes, *child);
                        }
                    }
                    self.build_dom(&mut footnotes);
                    self.footnotes = Some(footnotes);
                }
                proof {
                    if vw {
                        assert(self.highline is None);
                        assert(self.state(*parent) == sv) by {
                            reveal(start_view);
                        }
                    }
                }
            },

            _ => {},
        }
    }

    /// Handles the end of an element: a code block stops colouring; a list numbers (or
    /// stars) its bullets. Returns whether the element `parent` stands for is over.
    fn end_tag(&mut self, tag: Tag, parent: &mut DomBox) -> (done: bool)
        ensures
            final(self).pos == old(self).pos,
            final(self).events == old(self).events,
            final(self).links == old(self).links,
            final(self).footnotes == old(self).footnotes,
            final(parent).kind == old(parent).kind,
            final(parent).size == old(parent).size,
            final(parent).style == old(parent).style,
            final(parent).children@.len() == old(parent).children@.len(),
            done == closes(tag),
            !(tag is List) ==> *final(parent) == *old(parent),
            tag matches Tag::List(start) ==> bullets_labelled(
                start,
                old(parent).children@,
                final(parent).children@,
                old(parent).children@.len() as int,
            ),
            old(self).highline is None ==> final(self).highline is None,
            box_view(*final(parent)) == end_view(tag, box_view(*old(parent))),
    {
        match tag {
            Tag::Rule | Tag::Table | Tag::TableHead | Tag::TableRow | Tag::TableCell => false,
            Tag::CodeBlock(_) => {
                self.highline = None;
                self.syntax = None;
                true
            },
            Tag::List(None) => {
                let ghost orig = parent.children@;
                let mut k: usize = 0;
                while k < parent.children.len()
                    invariant
                        parent.kind == old(parent).kind,
                        parent.size == old(parent).size,
                        parent.style == old(parent).style,
                        parent.children@.len() == old(parent).children@.len(),
                        orig == old(parent).children@,
                        k <= orig.len(),
                        bullets_labelled(None, orig, parent.children@, k as int),
                        labels_done(None, orig, parent.children@, k as int),
                        forall|j: int| k <= j < orig.len() ==> #[trigger] parent.children@[j] == orig[j],
                    decreases parent.children@.len() - k,
                {
                    let ghost before = parent.children@;
                    let is_bullet = match &parent.children[k].kind {
                        BoxKind::ListBullet => true,
                        _ => false,
                    };
                    if is_bullet {
                        let child = &mut parent.children[k];
                        let ghost c0 = *child;
                        let mut star = String::new();
                        push_char(&mut star, '*');
                        assert(star@ =~= seq!['*']);
                        let t = child.add_text(star);
                        proof {
                            lemma_text_appended_inline(c0, *child, *t);
                            lemma_appended_inline_view(c0, *child, *t);
                            lemma_fresh_view(*t, t.kind, t.style);
                            lemma_inline_style_view(c0);
                        }
                    }
                    proof {
                        assert forall|j: int| 0 <= j < k + 1 implies if orig[j].kind is ListBullet {
                            labelled(
                                orig[j],
                                #[trigger] parent.children@[j],
                                bullet_label(None, bullets_before(orig, j)),
                            )
                        } else {
                            parent.children@[j] == orig[j]
                        } by {
                            if j < k {
                                assert(parent.children@[j] == before[j]);
                            }
                        }
                        assert forall|j: int| 0 <= j < k + 1 implies box_view(#[trigger] parent.children@[j])
                            == labelled_view(box_view(orig[j]), None, bullets_before(orig, j)) by {
                            if j < k {
                                assert(parent.children@[j] == before[j]);
                            }
                        }
                    }
                    k = k + 1;
                }
                proof {
                    lemma_end_view(None, *old(parent), *parent);
                }
                true
            },
            Tag::List(Some(start)) => {
                let ghost orig = parent.children@;
                let mut i = start;
                let mut k: usize = 0;
                while k < parent.children.len()
                    invariant
                        parent.kind == old(parent).kind,
                        parent.size == old(parent).size,
                        parent.style == old(parent).style,
                        parent.children@.len() == old(parent).children@.len(),
                        orig == old(parent).children@,
                        k <= orig.len(),
                        bullets_labelled(Some(start), orig, parent.children@, k as int),
                        labels_done(Some(start), orig, parent.children@, k as int),
                        forall|j: int| k <= j < orig.len() ==> #[trigger] parent.children@[j] == orig[j],
                        i == count_from(start, bullets_before(orig, k as int)),
                    decreases parent.children@.len() - k,
                {
                    let ghost before = parent.children@;
                    let is_bullet = match &parent.children[k].kind {
                        BoxKind::ListBullet => true,
                        _ => false,
                    };
                    if is_bullet {
                        let child = &mut parent.children[k];
                        let ghost c0 = *child;
                        let t = child.add_text(decimal_string(i));
                        proof {
                            lemma_text_appended_inline(c0, *child, *t);
                            lemma_appended_inline_view(c0, *child, *t);
                            lemma_fresh_view(*t, t.kind, t.style);
                            lemma_inline_style_view(c0);
                        }
                        i = i.wrapping_add(1);
                    }
                    proof {
                        assert forall|j: int| 0 <= j < k + 1 implies if orig[j].kind is ListBullet {
                            labelled(
                                orig[j],
                                #[trigger] parent.children@[j],
                                bullet_label(Some(start), bullets_before(orig, j)),
                            )
                        } else {
                            parent.children@[j] == orig[j]
                        } by {
                            if j < k {
                                assert(parent.children@[j] == before[j]);
                            }
                        }
                        assert forall|j: int| 0 <= j < k + 1 implies box_view(#[trigger] parent.children@[j])
                            == labelled_view(box_view(orig[j]), Some(start), bullets_before(orig, j)) by {
                            if j < k {
                                assert(parent.children@[j] == before[j]);
                            }
                        }
                    }
                    k = k + 1;
                }
                proof {
                    lemma_end_view(Some(start), *old(parent), *parent);
                }
                true
            },
            _ => true,
        }
    }

    /// Adds the boxes of a text: inside a code block, one coloured run per highlighted piece
    /// (a piece ending a line is followed by a line break); elsewhere the text, and a line
    /// break where it ends a line.
    fn add_text_event(&mut self, text: String, parent: &mut DomBox)
        ensures
            final(self).pos == old(self).pos,
            final(self).events == old(self).events,
            final(self).links == old(self).links,
            final(self).footnotes == old(self).footnotes,
            final(parent).kind == old(parent).kind,
            final(parent).size == old(parent).size,
            final(parent).style == old(parent).style,
            final(parent).children@.len() >= old(parent).children@.len(),
            old(self).highline is None ==> final(self).highline is None,
            shows_children(old(parent).kind) ==> exists|v: Seq<HighlightedRange>|
                ranges_text(v) == text@ && box_text(*final(parent)) == box_text(*old(parent))
                    + #[trigger] shown_runs(v),
            shows_children(old(parent).kind) && (old(self).highline is None || one_line(text@))
                ==> box_text(*final(parent)) == box_text(*old(parent)) + without_newline(text@),
            old(self).highline is None ==> box_view(*final(parent)) == text_event_view(
                box_view(*old(parent)),
                text@,
            ),
    {
        let ranges = match &mut self.highline {
            Some(h) => highlight_line(h, text.as_str(), self.syntaxes),
            None => None,
        };
        match ranges {
            Some(ranges) => {
                let ghost shows = shows_children(old(parent).kind);
                let mut k: usize = 0;
                assert(ranges@.take(0) =~= Seq::<HighlightedRange>::empty());
                assert(box_text(*parent) + seq![] =~= box_text(*parent));
                while k < ranges.len()
                    invariant
                        k <= ranges@.len(),
                        parent.kind == old(parent).kind,
                        parent.size == old(parent).size,
                        parent.style == old(parent).style,
                        parent.children@.len() >= old(parent).children@.len(),
                        shows == shows_children(old(parent).kind),
                        shows ==> box_text(*parent) == box_text(*old(parent)) + shown_runs(ranges@.take(k as int)),
                    decreases ranges@.len() - k,
                {
                    let range = &ranges[k];
                    let (piece, add_break) = strip_newline(range.text.as_str());
                    let ghost p0 = *parent;
                    let ghost shown = piece@;
                    let ghost cfin: DomBox;
                    {
                        let child = parent.add_text(piece);
                        child.style.fg = DomColor::from_color(range.red, range.green, range.blue);
                        child.style.bold = child.style.bold || range.bold;
                        child.style.italic = child.style.italic || range.italic;
                        child.style.underline = child.style.underline || range.underline;
                        proof {
                            cfin = *child;
                        }
                    }
                    proof {
                        if shows {
                            lemma_text_appended_inline(p0, *parent, cfin);
                            assert(box_text(cfin) == shown);
                        }
                    }
                    let ghost p1 = *parent;
                    if add_break {
                        let b = parent.add_break();
                        proof {
                            if shows {
                                lemma_text_appended_child(p1, *parent, *b);
                                assert(box_text(p1) + box_text(*b) =~= box_text(p1));
                            }
                        }
                    }
                    proof {
                        assert(ranges@.take(k + 1).drop_last() =~= ranges@.take(k as int));
                        assert(ranges@.take(k + 1).last() == ranges@[k as int]);
                        assert(shown == without_newline(ranges@[k as int].text@));
                        if shows {
                            assert(box_text(*parent) =~= box_text(*old(parent)) + shown_runs(ranges@.take(k + 1)));
                        }
                    }
                    k = k + 1;
                }
                proof {
                    assert(ranges@.take(ranges@.len() as int) =~= ranges@);
                    if shows {
                        assert(ranges_text(ranges@) == text@);
                        assert(box_text(*parent) == box_text(*old(parent)) + shown_runs(ranges@));
                        if one_line(text@) {
                            lemma_shown_runs(ranges@, text@);
                        }
                    }
                }
            },
            None => {
                let (piece, add_break) = strip_newline(text.as_str());
                let ghost p0 = *parent;
                let ghost shown = piece@;
                let t = parent.add_text(piece);
                let ghost t_box = *t;
                proof {
                    if shows_children(p0.kind) {
                        lemma_text_appended_inline(p0, *parent, t_box);
                    }
                    lemma_appended_inline_view(p0, *parent, t_box);
                    lemma_fresh_view(t_box, t_box.kind, t_box.style);
                    lemma_inline_style_view(p0);
                }
                let ghost p1 = *parent;
                if add_break {
                    let b = parent.add_break();
                    let ghost b_box = *b;
                    proof {
                        if shows_children(p1.kind) {
                            lemma_text_appended_child(p1, *parent, b_box);
                            assert(box_text(p1) + box_text(b_box) =~= box_text(p1));
                        }
                        lemma_appended_child_view(p1, *parent, b_box);
                        lemma_fresh_view(b_box, b_box.kind, b_box.style);
                    }
                }
                proof {
                    assert(shown == without_newline(text@));
                    let whole = HighlightedRange {
                        red: 0,
                        green: 0,
                        blue: 0,
                        bold: false,
                        italic: false,
                        underline: false,
                        text: text,
                    };
                    let v = seq![whole];
                    assert(v.drop_last() =~= Seq::<HighlightedRange>::empty());
                    assert(ranges_text(v.drop_last()) == Seq::<char>::empty());
                    assert(shown_runs(v.drop_last()) == Seq::<char>::empty());
                    assert(v.last() == whole);
                    assert(ranges_text(v) =~= text@);
                    assert(shown_runs(v) =~= without_newline(text@));
                }
            },
        }
    }
}

/// Gives a new heading box of the given level its borders and colours: a first-level one a
/// thin frame, the others a line below, bold, double, thin or dashed by level.
#[verifier::spinoff_prover]
#[verifier::rlimit(100)]
fn style_heading(child: &mut DomBox, level: i32)
    requires
        old(child).kind == BoxKind::Header(level as u8),
        old(child).size == zero_size(),
        old(child).children@.len() == 0,
    ensures
        final(child).kind == old(child).kind,
        final(child).children@.len() == 0,
        box_view(*final(child)) == header_view(level, old(child).style),
{
    child.size.border.bottom = 1;
    if level == 1 {
        child.size.border.top = 1;
        child.size.border.left = 1;
        child.size.border.right = 1;
        child.style.border_type = BorderType::Thin;
    } else if level == 2 {
        child.style.border_type = BorderType::Bold;
    } else if level == 3 {
        child.style.border_type = BorderType::Double;
    } else if level == 4 {
        child.style.border_type = BorderType::Thin;
    } else if level == 5 {
        child.style.border_type = BorderType::Dash;
    }
    child.style.fg = DomColor::from_dark(TermColor::Purple);
    proof {
        lemma_childless_view(*child);
        let want = header_view(level, old(child).style);
        assert(box_view(*child).children =~= want.children);
        assert(box_view(*child).size == want.size);
        assert(box_view(*child).style == want.style);
        assert(box_view(*child).kind == want.kind);
    }
}

/// `text` without its final newline, and whether it had one.
pub fn strip_newline(text: &str) -> (r: (String, bool))
    ensures
        r.1 == (text@.len() > 0 && text@.last() == '\n'),
        r.1 ==> r.0@ == text@.drop_last(),
        !r.1 ==> r.0@ == text@,
{
    let chars = chars_of(text);
    let n = chars.len();
    if n > 0 && chars[n - 1] == '\n' {
        let mut kept: Vec<char> = Vec::new();
        let mut k: usize = 0;
        while k < n - 1
            invariant
                n == chars@.len(),
                n > 0,
                k <= n - 1,
                kept@ == chars@.subrange(0, k as int),
            decreases n - 1 - k,
        {
            kept.push(chars[k]);
            k = k + 1;
            assert(kept@ =~= chars@.subrange(0, k as int));
        }
        assert(chars@.subrange(0, n - 1) =~= text@.drop_last());
        (string_from_chars(kept.as_slice()), true)
    } else {
        (string_from_chars(chars.as_slice()), false)
    }
}

} // verus!
