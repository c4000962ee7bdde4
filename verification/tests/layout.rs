use oxidoc::dombox::{split_at_in_place, BorderType, BoxKind, DomBox, DomColor, TermColor};
use oxidoc::layout::is_layoutable;
use oxidoc::render::Piece;

fn shown_text(b: &DomBox) -> String {
    match &b.kind {
        BoxKind::Break => String::new(),
        BoxKind::Text(t) => t.clone(),
        _ => b.children.iter().map(shown_text).collect(),
    }
}

fn texts(b: &DomBox) -> Vec<String> {
    match &b.kind {
        BoxKind::Text(t) => vec![t.clone()],
        _ => b.children.iter().flat_map(texts).collect(),
    }
}

fn paragraph(root: &mut DomBox, words: &str) {
    let block = root.add_block();
    block.add_text(words.to_string());
}

fn line_texts(pieces: &[Piece]) -> Vec<String> {
    let all: String = pieces.iter().map(|p| p.text.clone()).collect();
    all.split('\n').map(|s| s.to_string()).collect()
}

#[test]
fn layout_keeps_the_text_and_cuts_long_lines() {
    let mut root = DomBox::new_root(10);
    paragraph(&mut root, "hello wonderful world");
    let before = shown_text(&root);
    root.layout();
    assert_eq!(shown_text(&root), before);
    // the paragraph's line was cut into pieces at most 10 cells wide
    assert_eq!(texts(&root), vec!["hello wond", "erful worl", "d"]);
    let block = &root.children[0];
    assert_eq!(block.children.len(), 3);
    assert_eq!(block.size.content.h, 3);
}

#[test]
fn layout_drops_line_breaks_and_starts_new_lines() {
    let mut root = DomBox::new_root(20);
    {
        let block = root.add_block();
        block.add_text("one".to_string());
        block.add_break();
        block.add_text("two".to_string());
    }
    let before = shown_text(&root);
    root.layout();
    assert_eq!(shown_text(&root), before);
    assert_eq!(root.children[0].children.len(), 2);
    assert_eq!(root.size.content.h, 2);
}

#[test]
fn layout_places_inline_runs_side_by_side() {
    let mut root = DomBox::new_root(20);
    {
        let block = root.add_block();
        block.add_text("ab".to_string());
        let em = block.add_inline();
        em.style.italic = true;
        em.add_text("cd".to_string());
    }
    root.layout();
    let line = &root.children[0].children[0];
    assert_eq!(line.children[0].size.content.x, 0);
    assert_eq!(line.children[0].size.content.w, 2);
    assert_eq!(line.children[1].size.content.x, 2);
    assert_eq!(line.children[1].size.content.w, 2);
    assert_eq!(line.size.content.w, 4);
}

#[test]
fn render_draws_borders_and_pads_lines() {
    let mut root = DomBox::new_root(6);
    {
        let block = root.add_block();
        block.style.border_type = BorderType::Thin;
        block.size.border.bottom = 1;
        block.style.extend = true;
        block.add_text("hi".to_string());
    }
    root.layout();
    let pieces = root.render();
    assert_eq!(line_texts(&pieces), vec!["hi    ", "──────", ""]);
}

#[test]
fn colors() {
    assert_eq!(DomColor::from_dark(TermColor::Red).index(), Some(1));
    assert_eq!(DomColor::from_light(TermColor::Red).index(), Some(9));
    assert_eq!(DomColor::from_grey(0).index(), Some(16));
    assert_eq!(DomColor::from_grey(255).index(), Some(231));
    assert_eq!(DomColor::from_grey(128).index(), Some(239));
    assert_eq!(DomColor::from_color(255, 0, 0).index(), Some(196));
    assert_eq!(DomColor::from_color(10, 10, 10).index(), Some(16));
    assert_eq!(DomColor::default().index(), None);
}

#[test]
fn split_in_place() {
    let mut s = "héllo".to_string();
    let rest = split_at_in_place(&mut s, 3);
    assert_eq!(s, "hé");
    assert_eq!(rest, "llo");
}

#[test]
fn inline_container_is_reused() {
    let mut root = DomBox::new_root(20);
    root.add_text("a".to_string());
    root.add_text("b".to_string());
    assert_eq!(root.children.len(), 1);
    assert!(matches!(root.children[0].kind, BoxKind::InlineContainer));
    assert_eq!(root.children[0].children.len(), 2);
    root.add_block();
    root.add_text("c".to_string());
    assert_eq!(root.children.len(), 3);
}

#[test]
fn layoutability_is_checked() {
    let mut root = DomBox::new_root(10);
    paragraph(&mut root, "fits");
    assert!(is_layoutable(&root));
    // a text box with a side border cannot be placed on a line
    let mut bordered = DomBox::new_root(10);
    {
        let t = bordered.add_text("x".to_string());
        t.size.border.left = 1;
    }
    assert!(!is_layoutable(&bordered));
    // a list takes only bullets and blocks
    let mut list = DomBox::new_root(10);
    {
        let l = list.add_list(None);
        l.add_text("loose".to_string());
    }
    assert!(!is_layoutable(&list));
}

#[test]
fn wide_text_with_fewer_clusters_than_cells_is_cut_at_its_end() {
    // three double-width characters in a four-cell line: the cut falls after the fourth
    // grapheme cluster, which does not exist, so the whole text stays on the line
    let mut root = DomBox::new_root(4);
    paragraph(&mut root, "中中中");
    root.layout();
    assert_eq!(texts(&root), vec!["中中中", ""]);
}

#[test]
fn cut_falls_on_grapheme_clusters() {
    // "e" with a combining acute accent is one cluster and one cell
    let mut root = DomBox::new_root(2);
    paragraph(&mut root, "e\u{301}ab");
    root.layout();
    assert_eq!(texts(&root), vec!["e\u{301}a", "b"]);
}

#[test]
fn root_text_is_cut_into_lines_of_the_width() {
    let mut root = DomBox::new_root(5);
    root.add_text("hello world".to_string());
    root.layout();
    assert_eq!(root.children.len(), 3);
    let lines: Vec<String> = root.children.iter().map(shown_text).collect();
    assert_eq!(lines, vec!["hello", " worl", "d"]);
    for (k, line) in root.children.iter().enumerate() {
        assert!(matches!(line.kind, BoxKind::InlineContainer));
        assert_eq!(line.children.len(), 1);
        assert_eq!(line.size.content.y, k as u16);
    }
    assert_eq!(root.size.content.h, 3);
    assert_eq!(root.size.content.w, 5);
}
