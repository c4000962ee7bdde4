use oxidoc::dombox::{BoxKind, DomBox};
use oxidoc::layout::is_layoutable;
use oxidoc::markdown::{decimal_string, parse_markdown, strip_newline, Ctx, Event, Tag};
use oxidoc::render::{can_render, renderable_at};
use syntect::highlighting::ThemeSet;
use syntect::parsing::SyntaxSet;

fn texts(b: &DomBox) -> Vec<String> {
    match &b.kind {
        BoxKind::Text(t) => vec![t.clone()],
        _ => b.children.iter().flat_map(texts).collect(),
    }
}

fn build(events: Vec<Event>, width: u16) -> DomBox {
    let syntaxes = SyntaxSet::load_defaults_newlines();
    let themes = ThemeSet::load_defaults();
    let mut ctx = Ctx::new(events, &syntaxes, &themes);
    ctx.build(width)
}

#[test]
fn paragraph_becomes_a_block_with_its_text() {
    let root = build(
        vec![Event::Start(Tag::Paragraph), Event::Text("Hello".to_string()), Event::End(Tag::Paragraph)],
        40,
    );
    // the paragraph, then the links and footnotes blocks
    assert_eq!(root.children.len(), 3);
    assert!(matches!(root.children[0].kind, BoxKind::Block));
    assert_eq!(root.children[0].size.border.bottom, 1);
    assert_eq!(texts(&root), vec!["Hello"]);
    assert!(is_layoutable(&root));
}

#[test]
fn lists_number_their_bullets() {
    let root = build(
        vec![
            Event::Start(Tag::List(Some(3))),
            Event::Start(Tag::Item),
            Event::Text("a".to_string()),
            Event::End(Tag::Item),
            Event::Start(Tag::Item),
            Event::Text("b".to_string()),
            Event::End(Tag::Item),
            Event::End(Tag::List(Some(3))),
        ],
        40,
    );
    assert_eq!(texts(&root), vec!["3", "a", "4", "b"]);
    let starred = build(
        vec![
            Event::Start(Tag::List(None)),
            Event::Start(Tag::Item),
            Event::Text("x".to_string()),
            Event::End(Tag::Item),
            Event::End(Tag::List(None)),
        ],
        40,
    );
    assert_eq!(texts(&starred), vec!["*", "x"]);
}

#[test]
fn links_are_listed_after_the_document() {
    let root = build(
        vec![
            Event::Start(Tag::Paragraph),
            Event::Start(Tag::Link("https://example.org".to_string(), String::new())),
            Event::Text("site".to_string()),
            Event::End(Tag::Link("https://example.org".to_string(), String::new())),
            Event::End(Tag::Paragraph),
        ],
        40,
    );
    assert_eq!(texts(&root), vec!["site", "https://example.org"]);
    let links = &root.children[root.children.len() - 2];
    assert_eq!(texts(links), vec!["https://example.org"]);
}

#[test]
fn text_ending_a_line_adds_a_break() {
    let root = build(vec![Event::Text("line\n".to_string())], 40);
    let line = &root.children[0];
    assert_eq!(texts(line), vec!["line"]);
    assert!(matches!(root.children[1].kind, BoxKind::Break));
}

#[test]
fn code_blocks_are_coloured_and_keep_their_text() {
    let root = build(
        vec![
            Event::Start(Tag::CodeBlock("rust".to_string())),
            Event::Text("fn main() {}\n".to_string()),
            Event::End(Tag::CodeBlock("rust".to_string())),
        ],
        40,
    );
    let code = &root.children[0];
    assert_eq!(texts(code).concat(), "fn main() {}");
    assert!(texts(code).len() > 1);
    assert_eq!(code.style.indent, 2);
}

#[test]
fn a_built_document_can_be_laid_out_and_drawn() {
    let mut root = build(
        vec![
            Event::Start(Tag::Header(1)),
            Event::Text("Title".to_string()),
            Event::End(Tag::Header(1)),
            Event::Start(Tag::Paragraph),
            Event::Text("Some words that will not fit on one line.".to_string()),
            Event::End(Tag::Paragraph),
        ],
        20,
    );
    assert!(is_layoutable(&root));
    root.layout();
    assert!(can_render(&root));
    assert!(renderable_at(&root, 0));
    let pieces = root.render();
    let text: String = pieces.iter().map(|p| p.text.clone()).collect();
    assert!(text.contains("Title"));
    assert!(text.contains("Some words that will"));
    assert!(text.lines().all(|l| l.chars().count() <= 20), "{}", text);
}

#[test]
fn numerals_and_newlines() {
    assert_eq!(decimal_string(0), "0");
    assert_eq!(decimal_string(7), "7");
    assert_eq!(decimal_string(1234), "1234");
    assert_eq!(decimal_string(usize::MAX), usize::MAX.to_string());
    assert_eq!(strip_newline("abc\n"), ("abc".to_string(), true));
    assert_eq!(strip_newline("abc"), ("abc".to_string(), false));
    assert_eq!(strip_newline(""), ("".to_string(), false));
    assert_eq!(strip_newline("\n"), ("".to_string(), true));
}

#[test]
fn plain_document_text_is_shown_in_order() {
    let root = build(
        vec![
            Event::Start(Tag::Header(1)),
            Event::Text("Title\n".to_string()),
            Event::End(Tag::Header(1)),
            Event::Start(Tag::BlockQuote),
            Event::Start(Tag::Paragraph),
            Event::Text("quoted".to_string()),
            Event::End(Tag::Paragraph),
            Event::End(Tag::BlockQuote),
            Event::Start(Tag::Paragraph),
            Event::Start(Tag::Image("img.png".to_string(), "pic".to_string())),
            Event::Text("alt".to_string()),
            Event::End(Tag::Image("img.png".to_string(), "pic".to_string())),
            Event::InlineHtml("x".to_string()),
            Event::SoftBreak,
            Event::FootnoteReference("1".to_string()),
            Event::End(Tag::Paragraph),
        ],
        40,
    );
    assert_eq!(texts(&root).concat(), "Titlequotedpicimg.pngaltx1");
    assert_eq!(texts(&root.children[root.children.len() - 2]).concat(), "");
    assert_eq!(texts(&root.children[root.children.len() - 1]).concat(), "");
}

#[test]
fn markdown_text_is_parsed_into_events() {
    let events = parse_markdown("# Title\n\nsome **bold** <b>x</b>\n");
    assert!(matches!(events[0], Event::Start(Tag::Header(1))));
    assert!(matches!(&events[1], Event::Text(t) if t == "Title"));
    assert!(matches!(events[2], Event::End(Tag::Header(1))));
    assert!(matches!(events[3], Event::Start(Tag::Paragraph)));
    assert!(events.iter().any(|e| matches!(e, Event::Start(Tag::Strong))));
    assert!(events.iter().any(|e| matches!(e, Event::InlineHtml(h) if h == "<b>")));
    let root = build(events, 40);
    assert!(texts(&root).concat().starts_with("Title"));
}

#[test]
fn list_boxes_and_their_bullets() {
    let root = build(
        vec![
            Event::Start(Tag::List(Some(3))),
            Event::Start(Tag::Item),
            Event::Text("a".to_string()),
            Event::End(Tag::Item),
            Event::Start(Tag::Item),
            Event::Text("b".to_string()),
            Event::End(Tag::Item),
            Event::End(Tag::List(Some(3))),
        ],
        80,
    );
    let list = &root.children[0];
    assert!(matches!(list.kind, BoxKind::List(Some(3))));
    assert_eq!(list.size.border.bottom, 1);
    assert_eq!(list.children.len(), 4);
    assert!(matches!(list.children[0].kind, BoxKind::ListBullet));
    assert!(matches!(list.children[1].kind, BoxKind::Block));
    assert!(matches!(list.children[2].kind, BoxKind::ListBullet));
    assert!(matches!(list.children[3].kind, BoxKind::Block));
    assert!(matches!(&list.children[0].children[0].children[0].kind, BoxKind::Text(t) if t == "3"));
    assert!(matches!(&list.children[2].children[0].children[0].kind, BoxKind::Text(t) if t == "4"));
}

#[test]
fn strong_text_is_bold() {
    let root = build(
        vec![
            Event::Start(Tag::Paragraph),
            Event::Start(Tag::Strong),
            Event::Text("x".to_string()),
            Event::End(Tag::Strong),
            Event::End(Tag::Paragraph),
        ],
        80,
    );
    let line = &root.children[0].children[0];
    assert!(matches!(line.kind, BoxKind::InlineContainer));
    assert!(matches!(line.children[0].kind, BoxKind::Inline));
    assert!(line.children[0].style.bold);
    assert!(!line.children[0].style.italic);
}

#[test]
fn coloured_code_keeps_every_line() {
    let root = build(
        vec![
            Event::Start(Tag::CodeBlock("rust".to_string())),
            Event::Text("let a = 1;\n".to_string()),
            Event::Text("let b = a + 2;\n".to_string()),
            Event::End(Tag::CodeBlock("rust".to_string())),
            Event::Text("after".to_string()),
        ],
        40,
    );
    let shown: String = texts(&root).concat();
    assert_eq!(shown, "let a = 1;let b = a + 2;after");
}
