use ansi_renderer::color::{DomColor, TermColor};
use ansi_renderer::dom::{BoxKind, BoxSize, DomBox, Edges, Rect};
use ansi_renderer::style::{BorderType, DomStyle, TextAlign};

fn zero() -> BoxSize {
    BoxSize {
        content: Rect { x: 0, y: 0, w: 0, h: 0 },
        border: Edges { top: 0, bottom: 0, left: 0, right: 0 },
    }
}

#[test]
fn fresh_block_is_plain() {
    let block = DomBox::new_block();
    assert_eq!(block.kind, BoxKind::Block);
    assert_eq!(block.size, zero());
    assert_eq!(block.style, DomStyle::default());
    assert!(block.children.is_empty());
}

#[test]
fn default_style_has_nothing_set() {
    let style = DomStyle::default();
    assert_eq!(style.fg, DomColor::default());
    assert_eq!(style.bg, DomColor::default());
    assert!(!style.bold && !style.underline && !style.strikethrough && !style.italic);
    assert!(!style.code && !style.extend);
    assert_eq!(style.align, TextAlign::Left);
    assert_eq!(style.border_type, BorderType::Empty);
    assert_eq!(TextAlign::default(), TextAlign::Left);
    assert_eq!(BorderType::default(), BorderType::Empty);
    assert_eq!(BoxSize::default(), zero());
}

#[test]
fn root_has_the_column_budget() {
    let root = DomBox::new_root(10);
    assert_eq!(root.kind, BoxKind::Block);
    assert_eq!(root.size.content, Rect { x: 0, y: 0, w: 10, h: 0 });
    assert!(root.children.is_empty());
}

#[test]
fn swallow_appends() {
    let mut root = DomBox::new_root(10);
    let mut child = DomBox::new_block();
    child.size.border.bottom = 1;
    root.swallow(child);
    root.swallow(DomBox::new_block());
    assert_eq!(root.children.len(), 2);
    assert_eq!(root.children[0].size.border.bottom, 1);
    assert_eq!(root.children[1].size.border.bottom, 0);
}

#[test]
fn children_inherit_the_style() {
    let mut root = DomBox::new_root(10);
    root.style.bold = true;
    root.style.fg = DomColor::from_dark(TermColor::Cyan);
    let style = root.style;
    assert_eq!(root.add_block().style, style);
    assert_eq!(root.add_header(2).style, style);
    assert_eq!(root.add_list(Some(3)).style, style);
    assert_eq!(root.add_bullet().style, style);
    assert_eq!(root.add_break().style, style);
    let kinds: Vec<&BoxKind> = root.children.iter().map(|child| &child.kind).collect();
    assert_eq!(
        kinds,
        vec![
            &BoxKind::Block,
            &BoxKind::Header(2),
            &BoxKind::List(Some(3)),
            &BoxKind::ListBullet,
            &BoxKind::Break
        ]
    );
    for child in &root.children {
        assert_eq!(child.size, zero());
        assert!(child.children.is_empty());
    }
}

#[test]
fn text_in_a_block_starts_a_line() {
    let mut block = DomBox::new_block();
    block.style.italic = true;
    {
        let text = block.add_text(String::from("one"));
        assert_eq!(text.kind, BoxKind::Text(String::from("one")));
        assert!(text.style.italic);
    }
    assert_eq!(block.children.len(), 1);
    assert_eq!(block.children[0].kind, BoxKind::InlineContainer);
    assert!(block.children[0].style.italic);
    assert_eq!(block.children[0].children.len(), 1);
    // the next text joins the line
    block.add_text(String::from("two"));
    assert_eq!(block.children.len(), 1);
    assert_eq!(block.children[0].children.len(), 2);
    assert_eq!(block.children[0].children[1].kind, BoxKind::Text(String::from("two")));
}

#[test]
fn text_after_a_break_starts_a_new_line() {
    let mut block = DomBox::new_block();
    block.add_text(String::from("one"));
    block.add_break();
    block.add_text(String::from("two"));
    assert_eq!(block.children.len(), 3);
    assert_eq!(block.children[0].kind, BoxKind::InlineContainer);
    assert_eq!(block.children[1].kind, BoxKind::Break);
    assert_eq!(block.children[2].kind, BoxKind::InlineContainer);
    assert_eq!(block.children[2].children[0].kind, BoxKind::Text(String::from("two")));
}

#[test]
fn inline_content_of_a_span_goes_into_the_span() {
    let mut block = DomBox::new_block();
    {
        let span = block.add_inline();
        assert_eq!(span.kind, BoxKind::Inline);
        span.style.bold = true;
        span.add_text(String::from("in"));
        span.add_inline();
        assert_eq!(span.children.len(), 2);
        assert_eq!(span.children[0].kind, BoxKind::Text(String::from("in")));
        assert!(span.children[0].style.bold);
        assert_eq!(span.children[1].kind, BoxKind::Inline);
    }
    assert_eq!(block.children.len(), 1);
    assert_eq!(block.children[0].kind, BoxKind::InlineContainer);
    assert!(!block.children[0].style.bold);
}

#[test]
fn the_line_of_a_line_is_itself() {
    let mut block = DomBox::new_block();
    block.add_text(String::from("x"));
    let line = &mut block.children[0];
    {
        let same = line.get_inline_container();
        assert_eq!(same.kind, BoxKind::InlineContainer);
        assert_eq!(same.children.len(), 1);
        same.style.underline = true;
    }
    assert!(line.style.underline);
    assert!(line.children.len() == 1);
}

#[test]
fn the_line_of_a_block_is_its_last_line_or_a_new_one() {
    let mut block = DomBox::new_block();
    assert_eq!(block.line_style(), block.style);
    block.get_inline_container().style.bold = true;
    assert_eq!(block.children.len(), 1);
    assert!(block.line_style().bold);
    block.get_inline_container();
    assert_eq!(block.children.len(), 1);
    block.add_block();
    assert!(!block.line_style().bold);
    block.get_inline_container();
    assert_eq!(block.children.len(), 3);
}

#[test]
fn swallowed_inline_content_joins_the_line() {
    let mut block = DomBox::new_block();
    block.add_text(String::from("x"));
    let mut span = DomBox::new_block();
    span.kind = BoxKind::Inline;
    block.swallow_inline(span);
    assert_eq!(block.children.len(), 1);
    assert_eq!(block.children[0].children.len(), 2);
    assert_eq!(block.children[0].children[1].kind, BoxKind::Inline);
}
