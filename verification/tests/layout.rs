use ansi_renderer::dom::{BoxCursor, BoxKind, BoxSize, DomBox, Edges, LayoutRes, Rect};
use unicode_width::UnicodeWidthStr;

fn rect(x: u16, y: u16, w: u16, h: u16) -> Rect {
    Rect { x, y, w, h }
}

fn text_of(b: &DomBox) -> &str {
    match &b.kind {
        BoxKind::Text(text) => text,
        _ => panic!("not a text"),
    }
}

fn paragraph(text: &str) -> DomBox {
    let mut block = DomBox::new_block();
    block.add_text(String::from(text));
    block.size.border.bottom = 1;
    block
}

fn outer_height(b: &DomBox) -> u32 {
    b.size.content.h as u32 + b.size.border.top as u32 + b.size.border.bottom as u32
}

/// Checks the accounting of heights and widths in a laid-out tree.
fn check_accounts(b: &DomBox) {
    match &b.kind {
        BoxKind::Text(text) => {
            assert!(b.size.content.h == 1);
            // a text is as wide as it displays
            assert_eq!(b.size.content.w as usize, UnicodeWidthStr::width(text.as_str()));
            return;
        }
        BoxKind::Block | BoxKind::Header(_) | BoxKind::ListBullet => {
            let sum: u32 = b.children.iter().map(outer_height).sum();
            assert_eq!(b.size.content.h as u32, sum);
        }
        BoxKind::List(_) => {
            let sum: u32 = b
                .children
                .iter()
                .filter(|child| child.kind == BoxKind::Block)
                .map(outer_height)
                .sum();
            assert_eq!(b.size.content.h as u32, sum);
        }
        BoxKind::Break => panic!("a break is left"),
        _ => {}
    }
    for child in &b.children {
        check_accounts(child);
    }
}

#[test]
fn long_text_is_cut_after_as_many_clusters_as_columns() {
    let mut root = DomBox::new_root(10);
    root.swallow(paragraph("hello world"));
    assert!(root.has_layout());
    assert!(root.layout());
    assert_eq!(root.size.content, rect(0, 0, 10, 3));
    let par = &root.children[0];
    assert_eq!(par.size.content, rect(0, 0, 10, 2));
    assert_eq!(par.children.len(), 2);
    let first = &par.children[0];
    assert_eq!(first.kind, BoxKind::InlineContainer);
    assert_eq!(first.size.content, rect(0, 0, 10, 1));
    assert_eq!(first.children.len(), 1);
    assert_eq!(text_of(&first.children[0]), "hello worl");
    assert_eq!(first.children[0].size.content, rect(0, 0, 10, 1));
    let second = &par.children[1];
    assert_eq!(second.kind, BoxKind::InlineContainer);
    assert_eq!(second.size.content, rect(0, 1, 1, 1));
    assert_eq!(text_of(&second.children[0]), "d");
    assert_eq!(second.children[0].size.content, rect(0, 1, 1, 1));
    check_accounts(&root);
}

#[test]
fn text_that_fits_is_as_wide_as_it_displays() {
    let mut root = DomBox::new_root(10);
    root.swallow(paragraph("hello"));
    assert!(root.layout());
    let line = &root.children[0].children[0];
    assert_eq!(line.size.content, rect(0, 0, 5, 1));
    assert_eq!(line.children[0].size.content, rect(0, 0, 5, 1));
    assert_eq!(root.children[0].size.content, rect(0, 0, 5, 1));
    assert_eq!(root.size.content, rect(0, 0, 5, 2));
    check_accounts(&root);
}

#[test]
fn text_of_exactly_the_width_is_not_cut() {
    let mut root = DomBox::new_root(5);
    root.swallow(paragraph("hello"));
    assert!(root.layout());
    assert_eq!(root.children[0].children.len(), 1);
    assert_eq!(text_of(&root.children[0].children[0].children[0]), "hello");
}

#[test]
fn very_long_text_wraps_over_many_lines() {
    let mut root = DomBox::new_root(4);
    root.swallow(paragraph("abcdefghijklmnopqrstuvwxyz"));
    assert!(root.layout());
    let par = &root.children[0];
    let lines: Vec<&str> = par.children.iter().map(|line| text_of(&line.children[0])).collect();
    assert_eq!(lines, vec!["abcd", "efgh", "ijkl", "mnop", "qrst", "uvwx", "yz"]);
    for (row, line) in par.children.iter().enumerate() {
        assert_eq!(line.size.content.y as usize, row);
        assert_eq!(line.size.content.h, 1);
    }
    assert_eq!(par.size.content.h, 7);
    assert_eq!(root.size.content.h, 8);
    check_accounts(&root);
}

#[test]
fn a_cut_text_keeps_the_clusters_that_display_no_wider_than_the_room() {
    // each of the three characters displays two columns wide
    for room in [2u16, 3] {
        let mut root = DomBox::new_root(room);
        root.swallow(paragraph("日本語"));
        assert!(root.layout());
        let par = &root.children[0];
        let lines: Vec<&str> = par.children.iter().map(|l| text_of(&l.children[0])).collect();
        assert_eq!(lines, vec!["日", "本", "語"]);
        for line in &par.children {
            assert_eq!(line.children[0].size.content.w, 2);
            assert_eq!(line.size.content.w, 2);
        }
        check_accounts(&root);
    }
    let mut root = DomBox::new_root(5);
    root.swallow(paragraph("日本語"));
    assert!(root.layout());
    let par = &root.children[0];
    assert_eq!(text_of(&par.children[0].children[0]), "日本");
    assert_eq!(par.children[0].children[0].size.content.w, 4);
    assert_eq!(text_of(&par.children[1].children[0]), "語");
    assert_eq!(par.children[1].children[0].size.content.w, 2);
    check_accounts(&root);
    // narrow and wide characters in one text
    let mut root = DomBox::new_root(4);
    root.swallow(paragraph("a日本b語"));
    assert!(root.layout());
    let par = &root.children[0];
    let lines: Vec<&str> = par.children.iter().map(|l| text_of(&l.children[0])).collect();
    assert_eq!(lines, vec!["a日", "本b", "語"]);
    let widths: Vec<u16> = par.children.iter().map(|l| l.children[0].size.content.w).collect();
    assert_eq!(widths, vec![3, 3, 2]);
    check_accounts(&root);
}

#[test]
fn a_cut_text_keeps_combining_marks_with_their_base() {
    let mut root = DomBox::new_root(2);
    root.swallow(paragraph("e\u{301}e\u{301}e\u{301}"));
    assert!(root.layout());
    let par = &root.children[0];
    let lines: Vec<&str> = par.children.iter().map(|l| text_of(&l.children[0])).collect();
    assert_eq!(lines, vec!["e\u{301}e\u{301}", "e\u{301}"]);
    assert_eq!(par.children[0].children[0].size.content.w, 2);
    assert_eq!(par.children[1].children[0].size.content.w, 1);
    check_accounts(&root);
}

#[test]
fn a_first_cluster_wider_than_the_room_is_kept_alone() {
    let mut root = DomBox::new_root(1);
    root.swallow(paragraph("日本"));
    assert!(root.layout());
    let par = &root.children[0];
    let lines: Vec<&str> = par.children.iter().map(|l| text_of(&l.children[0])).collect();
    // the last line holds what is left behind the last cluster: nothing
    assert_eq!(lines, vec!["日", "本", ""]);
    let widths: Vec<u16> = par.children.iter().map(|l| l.children[0].size.content.w).collect();
    assert_eq!(widths, vec![2, 2, 0]);
    check_accounts(&root);
}

#[test]
fn no_width_collapses_to_one_column() {
    let mut root = DomBox::new_root(0);
    root.swallow(paragraph("ab"));
    assert!(root.has_layout());
    assert!(root.layout());
    let par = &root.children[0];
    assert_eq!(par.children.len(), 2);
    assert_eq!(text_of(&par.children[0].children[0]), "a");
    assert_eq!(text_of(&par.children[1].children[0]), "b");
    assert_eq!(par.size.content.w, 1);
}

#[test]
fn empty_boxes_take_no_room() {
    let mut root = DomBox::new_root(10);
    root.add_block();
    root.add_list(None);
    root.add_block().add_text(String::new());
    assert!(root.layout());
    assert_eq!(root.children[0].size.content, rect(0, 0, 0, 0));
    assert_eq!(root.children[1].size.content, rect(0, 0, 10, 0));
    // a line with an empty text is one row high and no column wide
    assert_eq!(root.children[2].size.content, rect(0, 0, 0, 1));
    assert_eq!(root.size.content, rect(0, 0, 10, 1));
    let mut empty = DomBox::new_root(10);
    assert!(empty.layout());
    assert_eq!(empty.size.content, rect(0, 0, 0, 0));
}

#[test]
fn block_level_breaks_are_dropped() {
    let mut root = DomBox::new_root(10);
    {
        let block = root.add_block();
        block.add_text(String::from("hello"));
        block.add_break();
        block.add_text(String::from("world"));
        block.add_break();
    }
    assert!(root.layout());
    let block = &root.children[0];
    assert_eq!(block.children.len(), 2);
    assert_eq!(text_of(&block.children[0].children[0]), "hello");
    assert_eq!(text_of(&block.children[1].children[0]), "world");
    assert_eq!(block.children[1].size.content, rect(0, 1, 5, 1));
    assert!(root.can_render());
    check_accounts(&root);
}

#[test]
fn a_break_in_a_line_moves_the_rest_to_the_next_line() {
    let mut root = DomBox::new_root(20);
    {
        let block = root.add_block();
        let span = block.add_inline();
        span.add_text(String::from("one"));
        span.add_break();
        span.add_text(String::from("two"));
        span.add_text(String::from("three"));
    }
    assert!(root.has_layout());
    assert!(root.layout());
    let block = &root.children[0];
    assert_eq!(block.children.len(), 2);
    let first = &block.children[0].children[0];
    assert_eq!(first.kind, BoxKind::Inline);
    assert_eq!(first.children.len(), 1);
    assert_eq!(text_of(&first.children[0]), "one");
    assert_eq!(first.size.content, rect(0, 0, 3, 1));
    let second = &block.children[1].children[0];
    assert_eq!(second.kind, BoxKind::Inline);
    assert_eq!(second.children.len(), 2);
    assert_eq!(text_of(&second.children[0]), "two");
    assert_eq!(text_of(&second.children[1]), "three");
    assert_eq!(second.children[1].size.content, rect(3, 1, 5, 1));
    assert_eq!(second.size.content, rect(0, 1, 8, 1));
    assert!(root.can_render());
    check_accounts(&root);
}

#[test]
fn a_text_that_finds_no_room_starts_the_next_line() {
    let mut root = DomBox::new_root(5);
    {
        let block = root.add_block();
        block.add_text(String::from("hello"));
        block.add_text(String::from("you"));
    }
    assert!(root.layout());
    let block = &root.children[0];
    assert_eq!(block.children.len(), 2);
    assert_eq!(block.children[0].children.len(), 1);
    assert_eq!(text_of(&block.children[0].children[0]), "hello");
    assert_eq!(text_of(&block.children[1].children[0]), "you");
    assert_eq!(block.children[1].children[0].size.content, rect(0, 1, 3, 1));
}

#[test]
fn a_cut_in_the_middle_of_a_line() {
    let mut root = DomBox::new_root(8);
    {
        let block = root.add_block();
        block.add_text(String::from("hello"));
        block.add_text(String::from("world"));
        block.add_text(String::from("!"));
    }
    assert!(root.layout());
    let block = &root.children[0];
    assert_eq!(block.children.len(), 2);
    let first: Vec<&str> = block.children[0].children.iter().map(text_of).collect();
    let second: Vec<&str> = block.children[1].children.iter().map(text_of).collect();
    assert_eq!(first, vec!["hello", "wor"]);
    assert_eq!(second, vec!["ld", "!"]);
    assert_eq!(block.children[0].children[1].size.content, rect(5, 0, 3, 1));
    assert_eq!(block.children[1].children[1].size.content, rect(2, 1, 1, 1));
}

#[test]
fn bullets_stand_beside_their_items() {
    let mut root = DomBox::new_root(10);
    {
        let list = root.add_list(None);
        for item in ["one", "two"] {
            {
                let bullet = list.add_bullet();
                bullet.size.border.right = 1;
                bullet.add_text(String::from("*"));
            }
            list.add_block().add_text(String::from(item));
        }
        list.size.border.bottom = 1;
    }
    assert!(root.has_layout());
    assert!(root.layout());
    let list = &root.children[0];
    assert_eq!(list.size.content, rect(0, 0, 10, 2));
    assert_eq!(list.children.len(), 4);
    assert_eq!(list.children[0].size.content, rect(0, 0, 1, 1));
    assert_eq!(list.children[1].size.content, rect(2, 0, 3, 1));
    assert_eq!(list.children[2].size.content, rect(0, 1, 1, 1));
    assert_eq!(list.children[3].size.content, rect(2, 1, 3, 1));
    assert_eq!(root.size.content, rect(0, 0, 10, 3));
    check_accounts(&root);
}

#[test]
fn a_block_keeps_its_width_when_its_style_says_so() {
    let mut root = DomBox::new_root(10);
    {
        let rule = root.add_block();
        rule.style.extend = true;
        rule.size.border.bottom = 1;
    }
    assert!(root.layout());
    assert_eq!(root.children[0].size.content, rect(0, 0, 10, 0));
    assert_eq!(root.size.content, rect(0, 0, 10, 1));
}

#[test]
fn borders_move_the_content() {
    let mut root = DomBox::new_root(10);
    {
        let header = root.add_header(1);
        header.size.border = Edges { top: 1, bottom: 1, left: 1, right: 1 };
        header.add_text(String::from("Hi"));
    }
    assert!(root.layout());
    let header = &root.children[0];
    assert_eq!(header.size.content, rect(1, 1, 2, 1));
    assert_eq!(header.children[0].size.content, rect(1, 1, 2, 1));
    assert_eq!(header.children[0].children[0].size.content, rect(1, 1, 2, 1));
    assert_eq!(root.size.content, rect(0, 0, 4, 3));
    check_accounts(&root);
}

#[test]
fn nested_blocks_narrower_than_their_borders_get_one_column() {
    let mut root = DomBox::new_root(2);
    {
        let outer = root.add_block();
        outer.size.border.left = 1;
        let inner = outer.add_block();
        inner.size.border.left = 1;
        let innermost = inner.add_block();
        innermost.size.border.left = 1;
        innermost.add_text(String::from("x"));
    }
    assert!(root.has_layout());
    assert!(root.layout());
    let outer = &root.children[0];
    let inner = &outer.children[0];
    let innermost = &inner.children[0];
    assert_eq!(innermost.size.content.w, 1);
    assert_eq!(innermost.size.content.x, 3);
    check_accounts(&root);
}

#[test]
fn coordinates_stop_at_the_end_of_their_range() {
    let mut root = DomBox::new_root(10);
    {
        let block = root.add_block();
        block.size.border.top = 65535;
        block.size.border.bottom = 65535;
        block.add_text(String::from("x"));
    }
    root.add_block().add_text(String::from("y"));
    assert!(root.layout());
    assert_eq!(root.children[0].size.content.y, 65535);
    assert_eq!(root.children[1].size.content.y, 65535);
    assert_eq!(root.size.content.h, 65535);
}

#[test]
fn layout_of_a_text_at_a_cursor() {
    let container = BoxSize {
        content: rect(2, 3, 6, 1),
        border: Edges { top: 0, bottom: 0, left: 0, right: 0 },
    };
    // it fits
    let mut text = DomBox::new_block();
    text.kind = BoxKind::Text(String::from("abc"));
    let mut cursor = BoxCursor { container, x: 4, y: 3 };
    assert_eq!(text.layout_generic(&mut cursor), Some(LayoutRes::Normal));
    assert_eq!(text.size.content, rect(4, 3, 3, 1));
    assert_eq!(cursor, BoxCursor { container, x: 7, y: 3 });
    // it is cut: what stays is as wide as it displays, what goes on is as
    // wide as the room was
    let mut text = DomBox::new_block();
    text.kind = BoxKind::Text(String::from("abcdef"));
    text.style.bold = true;
    let mut cursor = BoxCursor { container, x: 4, y: 3 };
    match text.layout_inline(&mut cursor) {
        Some(LayoutRes::CutHere(rest)) => {
            assert_eq!(rest.kind, BoxKind::Text(String::from("ef")));
            assert_eq!(rest.size.content, rect(4, 3, 4, 1));
            assert!(rest.style.bold);
            assert!(rest.children.is_empty());
        }
        _ => panic!("not cut"),
    }
    assert_eq!(text.kind, BoxKind::Text(String::from("abcd")));
    assert_eq!(text.size.content, rect(4, 3, 4, 1));
    assert_eq!(cursor, BoxCursor { container, x: 8, y: 3 });
    // it is rejected
    let mut text = DomBox::new_block();
    text.kind = BoxKind::Text(String::from("abc"));
    let mut cursor = BoxCursor { container, x: 8, y: 3 };
    assert_eq!(text.layout_inline(&mut cursor), Some(LayoutRes::Reject));
    assert_eq!(text.kind, BoxKind::Text(String::from("abc")));
    assert_eq!(text.size.content, rect(8, 3, 0, 1));
    assert_eq!(cursor, BoxCursor { container, x: 8, y: 3 });
}

#[test]
fn layout_of_a_span_that_finds_no_room() {
    let container = BoxSize {
        content: rect(0, 0, 4, 1),
        border: Edges { top: 0, bottom: 0, left: 0, right: 0 },
    };
    let mut span = DomBox::new_block();
    span.kind = BoxKind::Inline;
    span.add_text(String::from("ab"));
    span.add_text(String::from("cd"));
    let mut cursor = BoxCursor { container, x: 4, y: 0 };
    assert_eq!(span.layout_generic(&mut cursor), Some(LayoutRes::Reject));
    assert_eq!(span.children.len(), 2);
    assert_eq!(span.size.content, rect(4, 0, 0, 1));
}

#[test]
fn layout_of_a_line_at_a_cursor() {
    let container = BoxSize {
        content: rect(1, 1, 4, 0),
        border: Edges { top: 0, bottom: 0, left: 0, right: 0 },
    };
    let mut block = DomBox::new_block();
    block.add_text(String::from("abcdef"));
    let mut line = block.children.pop().unwrap();
    let mut cursor = BoxCursor { container, x: 1, y: 5 };
    match line.layout_inline_container(&mut cursor) {
        Some(LayoutRes::CutHere(next)) => {
            assert_eq!(next.kind, BoxKind::InlineContainer);
            assert_eq!(next.children.len(), 1);
            assert_eq!(next.children[0].kind, BoxKind::Text(String::from("ef")));
            assert_eq!(next.size.content, rect(1, 5, 4, 1));
        }
        _ => panic!("not cut"),
    }
    assert_eq!(line.size.content, rect(1, 5, 4, 1));
    assert_eq!(line.children.len(), 1);
    assert_eq!(cursor, BoxCursor { container, x: 1, y: 6 });
}

#[test]
fn lining_up_hands_back_the_given_outcome_when_all_fits() {
    let mut line = DomBox::new_block();
    line.kind = BoxKind::InlineContainer;
    line.size.content = rect(0, 0, 10, 1);
    line.add_text(String::from("ab"));
    line.add_text(String::from("cd"));
    assert_eq!(line.inline_children_loop(LayoutRes::Normal, false), Some(LayoutRes::Normal));
    assert_eq!(line.size.content, rect(0, 0, 4, 1));
    assert_eq!(line.children[1].size.content, rect(2, 0, 2, 1));
    let mut line = DomBox::new_block();
    line.kind = BoxKind::Inline;
    line.size.content = rect(0, 0, 10, 1);
    assert_eq!(line.inline_children_loop(LayoutRes::Reject, true), Some(LayoutRes::Reject));
}

#[test]
fn layout_of_a_block_and_of_a_list_at_a_cursor() {
    let container = BoxSize {
        content: rect(0, 0, 10, 0),
        border: Edges { top: 0, bottom: 0, left: 0, right: 0 },
    };
    let mut block = paragraph("abc");
    let mut cursor = BoxCursor { container, x: 3, y: 2 };
    assert_eq!(block.layout_block(&mut cursor), Some(LayoutRes::Normal));
    assert_eq!(block.size.content, rect(3, 2, 3, 1));
    assert_eq!(cursor, BoxCursor { container, x: 0, y: 4 });
    let mut bullet = paragraph("*");
    bullet.kind = BoxKind::ListBullet;
    let mut cursor = BoxCursor { container, x: 3, y: 2 };
    assert_eq!(bullet.layout_block(&mut cursor), Some(LayoutRes::Normal));
    assert_eq!(cursor, BoxCursor { container, x: 4, y: 2 });
    let mut list = DomBox::new_block();
    list.kind = BoxKind::List(None);
    list.add_block().add_text(String::from("abc"));
    let mut cursor = BoxCursor { container, x: 3, y: 2 };
    assert_eq!(list.layout_list(&mut cursor), Some(LayoutRes::Normal));
    assert_eq!(list.size.content, rect(3, 2, 10, 1));
    assert_eq!(cursor, BoxCursor { container, x: 3, y: 3 });
}

#[test]
fn trees_without_a_layout_are_told() {
    for kind in [
        BoxKind::Break,
        BoxKind::Table,
        BoxKind::TableColumn,
        BoxKind::TableItem,
        BoxKind::Image,
    ] {
        let mut root = DomBox::new_root(10);
        root.add_block().kind = kind;
        // a break is dropped by the block around it, the others have no layout
        assert_eq!(root.has_layout(), root.children[0].kind == BoxKind::Break);
        assert!(!root.children[0].has_layout());
    }
    // a list holds bullets and blocks only
    let mut root = DomBox::new_root(10);
    root.add_list(None).add_text(String::from("x"));
    assert!(!root.has_layout());
    let mut root = DomBox::new_root(10);
    root.add_list(None).add_break();
    assert!(!root.has_layout());
    // bare inline content in a block
    let mut root = DomBox::new_root(10);
    root.add_block().kind = BoxKind::Text(String::from("x"));
    assert!(!root.has_layout());
    // a text with a side border
    let mut root = DomBox::new_root(10);
    root.add_text(String::from("x")).size.border.left = 1;
    assert!(!root.has_layout());
    let mut root = DomBox::new_root(10);
    root.add_text(String::from("x")).size.border.top = 1;
    assert!(root.has_layout());
}

#[test]
fn a_span_that_finds_no_room_starts_the_next_line() {
    let mut root = DomBox::new_root(5);
    {
        let block = root.add_block();
        block.add_text(String::from("hello"));
        let span = block.add_inline();
        span.style.bold = true;
        span.add_text(String::from("you"));
    }
    assert!(root.has_layout());
    assert!(root.layout());
    let block = &root.children[0];
    assert_eq!(block.children.len(), 2);
    assert_eq!(block.children[0].children.len(), 1);
    assert_eq!(text_of(&block.children[0].children[0]), "hello");
    let span = &block.children[1].children[0];
    assert_eq!(span.kind, BoxKind::Inline);
    assert_eq!(span.size.content, rect(0, 1, 3, 1));
    assert_eq!(text_of(&span.children[0]), "you");
    assert_eq!(block.size.content, rect(0, 0, 5, 2));
    check_accounts(&root);
}

#[test]
fn a_cut_inside_a_span_cuts_the_span_and_the_line() {
    let mut root = DomBox::new_root(6);
    {
        let block = root.add_block();
        block.add_text(String::from("ab"));
        let span = block.add_inline();
        span.style.italic = true;
        span.add_text(String::from("cdefgh"));
        span.add_text(String::from("i"));
        block.add_text(String::from("j"));
    }
    assert!(root.layout());
    let block = &root.children[0];
    assert_eq!(block.children.len(), 2);
    let first = &block.children[0];
    assert_eq!(first.children.len(), 2);
    assert_eq!(text_of(&first.children[0]), "ab");
    assert_eq!(first.children[1].kind, BoxKind::Inline);
    assert_eq!(first.children[1].children.len(), 1);
    assert_eq!(text_of(&first.children[1].children[0]), "cdef");
    assert_eq!(first.children[1].size.content, rect(2, 0, 4, 1));
    let second = &block.children[1];
    assert_eq!(second.children.len(), 2);
    let span = &second.children[0];
    assert_eq!(span.kind, BoxKind::Inline);
    assert!(span.style.italic);
    let rest: Vec<&str> = span.children.iter().map(text_of).collect();
    assert_eq!(rest, vec!["gh", "i"]);
    assert_eq!(span.size.content, rect(0, 1, 3, 1));
    assert_eq!(text_of(&second.children[1]), "j");
    assert_eq!(second.children[1].size.content, rect(3, 1, 1, 1));
    check_accounts(&root);
}

#[test]
fn a_laid_out_tree_can_be_laid_out_again() {
    let mut root = DomBox::new_root(4);
    root.swallow(paragraph("abcdefghij"));
    assert!(root.layout());
    let lines = root.children[0].children.len();
    let height = root.size.content.h;
    assert!(root.has_layout());
    root.size.content.w = 4;
    assert!(root.layout());
    assert_eq!(root.children[0].children.len(), lines);
    assert_eq!(root.size.content.h, height);
    check_accounts(&root);
}

#[test]
fn a_layout_gets_through_as_long_as_nothing_is_rejected_in_a_stack() {
    // a text bare in a block has a layout while it fits
    let mut root = DomBox::new_root(10);
    root.add_block().kind = BoxKind::Text(String::from("bare"));
    assert!(!root.has_layout());
    assert!(root.layout());
    assert_eq!(root.children[0].size.content, rect(0, 0, 4, 1));
    assert_eq!(root.size.content, rect(0, 0, 4, 1));
    // cut, its continuation finds no room beside it
    let mut root = DomBox::new_root(3);
    root.add_block().kind = BoxKind::Text(String::from("bare"));
    assert!(!root.layout());
    // two texts bare in a block stand side by side while there is room
    let mut root = DomBox::new_root(10);
    root.add_block().kind = BoxKind::Text(String::from("one"));
    root.add_block().kind = BoxKind::Text(String::from("two"));
    assert!(root.layout());
    assert_eq!(root.children[1].size.content, rect(3, 0, 3, 1));
    let mut root = DomBox::new_root(3);
    root.add_block().kind = BoxKind::Text(String::from("one"));
    root.add_block().kind = BoxKind::Text(String::from("two"));
    assert!(!root.layout());
}

#[test]
fn a_text_with_a_side_border_is_laid_out_where_it_finds_room() {
    let mut root = DomBox::new_root(10);
    root.add_text(String::from("abc")).size.border = Edges { top: 0, bottom: 0, left: 1, right: 2 };
    assert!(!root.has_layout());
    assert!(root.layout());
    let text = &root.children[0].children[0];
    assert_eq!(text.size.content, rect(1, 0, 3, 1));
    assert_eq!(text_of(text), "abc");
    // the room is what the borders leave
    let mut root = DomBox::new_root(5);
    root.add_text(String::from("abc")).size.border = Edges { top: 0, bottom: 0, left: 1, right: 2 };
    assert!(root.layout());
    let line = &root.children[0];
    assert_eq!(text_of(&line.children[0]), "ab");
    assert_eq!(line.children[0].size.content, rect(1, 0, 2, 1));
    // where the borders leave none to the first of a line, the layout fails
    let mut root = DomBox::new_root(3);
    root.add_text(String::from("abc")).size.border = Edges { top: 0, bottom: 0, left: 1, right: 2 };
    assert!(!root.layout());
}

#[test]
fn a_layout_fails_where_it_has_no_rule() {
    for kind in [BoxKind::Table, BoxKind::TableColumn, BoxKind::TableItem, BoxKind::Image] {
        let mut root = DomBox::new_root(10);
        root.add_block().kind = kind;
        assert!(!root.layout());
    }
    // a line-break marker is dropped inside a block, and is no root
    let mut root = DomBox::new_root(10);
    root.add_break();
    assert!(root.layout());
    let mut root = DomBox::new_root(10);
    root.kind = BoxKind::Break;
    assert!(!root.layout());
    let mut cursor = BoxCursor { container: root.size, x: 0, y: 0 };
    assert_eq!(root.layout_generic(&mut cursor), None);
    // a list holds bullets and blocks only, markers neither
    let mut root = DomBox::new_root(10);
    root.add_list(None).add_text(String::from("x"));
    assert!(!root.layout());
    let mut list = DomBox::new_block();
    list.kind = BoxKind::List(None);
    list.add_block();
    list.add_break();
    assert_eq!(list.layout_list(&mut cursor), None);
    // a block is no text and no inline span
    let mut block = DomBox::new_block();
    assert_eq!(block.layout_inline(&mut cursor), None);
    // what is not reached does no harm
    let mut text = DomBox::new_block();
    text.kind = BoxKind::Text(String::from("x"));
    text.children.push(DomBox::new_block());
    text.children[0].kind = BoxKind::Table;
    let mut root = DomBox::new_root(10);
    root.get_inline_container().children.push(text);
    assert!(root.layout());
}

#[test]
fn the_first_of_a_line_may_be_rejected_only_where_it_is_let() {
    let mut line = DomBox::new_block();
    line.kind = BoxKind::InlineContainer;
    line.size.content = rect(0, 0, 0, 1);
    line.add_text(String::from("ab"));
    assert_eq!(line.inline_children_loop(LayoutRes::Normal, false), None);
    let mut line = DomBox::new_block();
    line.kind = BoxKind::Inline;
    line.size.content = rect(0, 0, 0, 1);
    line.add_text(String::from("ab"));
    assert_eq!(line.inline_children_loop(LayoutRes::Normal, true), Some(LayoutRes::Reject));
}

fn texts(b: &DomBox, out: &mut String) {
    match &b.kind {
        BoxKind::Text(text) => out.push_str(text),
        BoxKind::Break => {}
        _ => {
            for child in &b.children {
                texts(child, out);
            }
        }
    }
}

#[test]
fn a_layout_keeps_every_text_in_order() {
    for width in [1u16, 2, 3, 7, 20, 80] {
        let mut root = DomBox::new_root(width);
        {
            let block = root.add_block();
            block.add_text(String::from("The quick brown fox "));
            let span = block.add_inline();
            span.add_text(String::from("jumps over 日本語 and e\u{301}e\u{301} "));
            span.add_break();
            span.add_inline().add_text(String::from("the lazy"));
            block.add_text(String::from(" dog."));
            block.add_break();
            block.add_text(String::from("Next line"));
        }
        {
            let list = root.add_list(Some(1));
            list.add_bullet().add_text(String::from("1"));
            list.add_block().add_text(String::from("an item of the list"));
        }
        let mut before = String::new();
        texts(&root, &mut before);
        let ok = root.layout();
        assert!(ok);
        let mut after = String::new();
        texts(&root, &mut after);
        assert_eq!(before, after);
        assert!(root.can_render());
        check_accounts(&root);
    }
}
