use ansi_renderer::color::{DomColor, TermColor};
use ansi_renderer::dom::{BoxKind, DomBox, Edges, Rect};
use ansi_renderer::render::Span;
use ansi_renderer::style::{BorderType, DomStyle};
use ansi_term::{ANSIString, ANSIStrings, Colour, Style};

fn plain(text: &str) -> String {
    let mut out = String::new();
    let mut chars = text.chars();
    while let Some(c) = chars.next() {
        if c == '\u{1b}' {
            for d in chars.by_ref() {
                if d == 'm' {
                    break;
                }
            }
        } else {
            out.push(c);
        }
    }
    out
}

fn texts(spans: &[Span]) -> Vec<&str> {
    spans.iter().map(|span| span.text.as_str()).collect()
}

fn text_box(text: &str, x: u16, y: u16, w: u16) -> DomBox {
    let mut b = DomBox::new_block();
    b.kind = BoxKind::Text(String::from(text));
    b.size.content = Rect { x, y, w, h: 1 };
    b
}

fn header_tree() -> DomBox {
    let mut root = DomBox::new_root(10);
    {
        let header = root.add_header(1);
        header.size.border = Edges { top: 1, bottom: 1, left: 1, right: 1 };
        header.style.border_type = BorderType::Thin;
        header.style.fg = DomColor::from_dark(TermColor::Purple);
        header.add_text(String::from("Hi"));
    }
    assert!(root.layout());
    root
}

#[test]
fn style_as_terminal_attributes() {
    assert_eq!(DomStyle::default().to_ansi(), Style::new());
    let mut style = DomStyle::default();
    style.fg = DomColor::from_dark(TermColor::Purple);
    assert_eq!(style.to_ansi(), Style::new().fg(Colour::Fixed(5)));
    style.bg = DomColor::from_grey(255);
    style.bold = true;
    style.italic = true;
    assert_eq!(
        style.to_ansi(),
        Style::new().fg(Colour::Fixed(5)).on(Colour::Fixed(231)).bold().italic()
    );
    let mut style = DomStyle::default();
    style.underline = true;
    style.strikethrough = true;
    // what is not an attribute of the terminal leaves no trace
    style.code = true;
    style.extend = true;
    style.border_type = BorderType::Double;
    assert_eq!(style.to_ansi(), Style::new().underline().strikethrough());
    assert!(!style.to_ansi().is_bold && !style.to_ansi().is_dimmed);
    assert!(!style.to_ansi().is_blink && !style.to_ansi().is_reverse && !style.to_ansi().is_hidden);
}

#[test]
fn border_glyphs() {
    assert_eq!(BorderType::Empty.horizontal_glyph(), ' ');
    assert_eq!(BorderType::Dash.horizontal_glyph(), '╌');
    assert_eq!(BorderType::Thin.horizontal_glyph(), '─');
    assert_eq!(BorderType::Double.horizontal_glyph(), '═');
    assert_eq!(BorderType::Bold.horizontal_glyph(), '━');
    assert_eq!(BorderType::Empty.vertical_glyph(), ' ');
    assert_eq!(BorderType::Dash.vertical_glyph(), '╎');
    assert_eq!(BorderType::Thin.vertical_glyph(), '│');
    assert_eq!(BorderType::Double.vertical_glyph(), '║');
    assert_eq!(BorderType::Bold.vertical_glyph(), '┃');
}

#[test]
fn a_cut_paragraph_renders_on_two_lines_and_a_border_row() {
    let mut root = DomBox::new_root(10);
    {
        let par = root.add_block();
        par.add_text(String::from("hello world"));
        par.size.border.bottom = 1;
    }
    assert!(root.layout());
    assert!(root.can_render());
    assert_eq!(root.render().unwrap(), "hello worl\nd         \n          \n");
}

#[test]
fn two_lines_of_a_paragraph_are_padded_to_its_width() {
    let mut root = DomBox::new_root(10);
    {
        let par = root.add_block();
        par.add_text(String::from("hello"));
        par.add_break();
        par.add_text(String::from("world!"));
        par.size.border.bottom = 1;
    }
    assert!(root.layout());
    assert_eq!(root.render().unwrap(), "hello \nworld!\n      \n");
}

#[test]
fn rendering_twice_gives_the_same_text() {
    let root = header_tree();
    let first = root.render().unwrap();
    let second = root.render().unwrap();
    assert_eq!(first, second);
    assert_eq!(first.as_bytes(), second.as_bytes());
}

#[test]
fn a_header_is_a_box_of_three_rows() {
    let root = header_tree();
    let out = root.render().unwrap();
    assert_eq!(plain(&out), "┌──┐\n│Hi│\n└──┘\n");
    let purple = Style::new().fg(Colour::Fixed(5));
    let none = Style::new();
    let expected: Vec<ANSIString<'static>> = vec![
        none.paint(""),
        purple.paint("┌──┐"),
        none.paint(""),
        none.paint("\n"),
        none.paint(""),
        purple.paint("│"),
        purple.paint(""),
        purple.paint(""),
        purple.paint("Hi"),
        purple.paint(""),
        purple.paint(""),
        purple.paint("│"),
        none.paint(""),
        none.paint("\n"),
        none.paint(""),
        purple.paint("└──┘"),
        none.paint(""),
        none.paint("\n"),
    ];
    assert_eq!(out, format!("{}", ANSIStrings(&expected)));
    assert!(out.contains("\u{1b}[38;5;5m"));
}

#[test]
fn rows_outside_a_box_show_nothing() {
    let root = header_tree();
    let mut spans = Vec::new();
    assert_eq!(root.render_line(3, &mut spans), Some((0, 0)));
    assert_eq!(root.render_line(70000, &mut spans), Some((0, 0)));
    assert!(spans.is_empty());
    let header = &root.children[0];
    assert_eq!(header.render_line(1, &mut spans), Some((0, 4)));
    assert_eq!(texts(&spans), vec!["│", "", "", "Hi", "", "", "│"]);
}

#[test]
fn border_lines_by_type() {
    let mut b = DomBox::new_block();
    b.size.content = Rect { x: 2, y: 1, w: 3, h: 1 };
    b.size.border = Edges { top: 1, bottom: 1, left: 2, right: 1 };
    for (kind, line) in [
        (BorderType::Empty, "   "),
        (BorderType::Dash, "╌╌╌"),
        (BorderType::Thin, "───"),
        (BorderType::Double, "═══"),
        (BorderType::Bold, "━━━"),
    ] {
        b.style.border_type = kind;
        let mut spans = Vec::new();
        assert_eq!(b.render_borderline(0, &mut spans), (0, 6));
        assert_eq!(b.render_borderline(2, &mut spans), (0, 6));
        assert_eq!(texts(&spans), vec![format!("┌┌{}┐", line), format!("└└{}┘", line)]);
        assert_eq!(spans[0].style, b.style.to_ansi());
    }
}

#[test]
fn border_sides_by_type() {
    let mut b = DomBox::new_block();
    b.size.border = Edges { top: 0, bottom: 0, left: 2, right: 1 };
    b.style.bold = true;
    for (kind, left, right) in [
        (BorderType::Empty, "  ", " "),
        (BorderType::Dash, "╎╎", "╎"),
        (BorderType::Thin, "││", "│"),
        (BorderType::Double, "║║", "║"),
        (BorderType::Bold, "┃┃", "┃"),
    ] {
        b.style.border_type = kind;
        let mut spans = Vec::new();
        b.render_borderside(true, &mut spans);
        b.render_borderside(false, &mut spans);
        assert_eq!(texts(&spans), vec![left, right]);
        assert_eq!(spans[1].style, Style::new().bold());
    }
}

#[test]
fn runs_of_glyphs_are_pushed_or_inserted() {
    let mut b = DomBox::new_block();
    b.style.underline = true;
    let mut spans = Vec::new();
    b.render_charline('a', 3, None, &mut spans);
    b.render_charline('b', 2, None, &mut spans);
    b.render_charline('c', 1, Some(1), &mut spans);
    b.render_charline('d', 0, Some(0), &mut spans);
    assert_eq!(texts(&spans), vec!["", "aaa", "c", "bb"]);
    assert_eq!(spans[2].style, Style::new().underline());
}

#[test]
fn gaps_between_children_are_filled_with_blanks() {
    let mut row = DomBox::new_block();
    row.size.content = Rect { x: 0, y: 0, w: 10, h: 1 };
    row.style.bg = DomColor::from_dark(TermColor::Blue);
    row.children.push(text_box("ab", 3, 0, 2));
    row.children.push(text_box("c", 5, 0, 1));
    row.children.push(text_box("d", 7, 0, 1));
    let mut spans = Vec::new();
    assert_eq!(row.render_line(0, &mut spans), Some((0, 10)));
    assert_eq!(
        texts(&spans),
        vec!["", "   ", "", "ab", "", "", "c", "", " ", "", "d", "", "  ", ""]
    );
    let blue = Style::new().on(Colour::Fixed(4));
    assert_eq!(spans[1].style, blue);
    assert_eq!(spans[3].style, Style::new());
    assert_eq!(spans[8].style, blue);
    assert_eq!(spans[12].style, blue);
}

#[test]
fn a_text_narrower_than_its_box_is_padded() {
    let b = text_box("ab", 1, 0, 4);
    let mut spans = Vec::new();
    assert_eq!(b.render_line(0, &mut spans), Some((1, 4)));
    assert_eq!(texts(&spans), vec!["", "ab", "  ", ""]);
    // a wide text takes two columns a character
    let b = text_box("日本", 0, 0, 5);
    let mut spans = Vec::new();
    b.render_line(0, &mut spans);
    assert_eq!(texts(&spans), vec!["", "日本", " ", ""]);
}

#[test]
fn a_list_renders_bullets_beside_items() {
    let mut root = DomBox::new_root(10);
    {
        let list = root.add_list(None);
        for item in ["one", "two"] {
            {
                let bullet = list.add_bullet();
                bullet.size.border.right = 1;
                bullet.add_text(String::from("*"));
            }
            list.add_block().add_text(String::from(item));
        }
        list.size.border.bottom = 1;
    }
    assert!(root.layout());
    assert_eq!(root.render().unwrap(), "* one     \n* two     \n          \n");
}

#[test]
fn an_empty_tree_renders_nothing() {
    let mut root = DomBox::new_root(10);
    assert!(root.layout());
    assert_eq!(root.render().unwrap(), "");
    let mut root = DomBox::new_root(10);
    root.add_block();
    root.add_list(None);
    assert!(root.layout());
    assert_eq!(root.render().unwrap(), "");
}

#[test]
fn a_tree_with_a_break_left_is_told() {
    let mut root = DomBox::new_root(10);
    root.add_text(String::from("x"));
    assert!(root.can_render());
    root.add_break();
    assert!(!root.can_render());
    assert!(root.layout());
    assert!(root.can_render());
}

#[test]
fn a_text_wider_than_its_box_is_refused() {
    let b = text_box("abc", 0, 0, 2);
    let mut spans = Vec::new();
    assert_eq!(b.render_line(0, &mut spans), None);
    assert_eq!(b.render(), None);
    let b = text_box("日本", 0, 0, 3);
    assert_eq!(b.render(), None);
    let b = text_box("日本", 0, 0, 4);
    assert_eq!(b.render(), Some(String::from("日本\n")));
    // outside its rows the box shows nothing and nothing is wrong
    let b = text_box("abc", 0, 0, 2);
    let mut spans = Vec::new();
    assert_eq!(b.render_line(1, &mut spans), Some((0, 0)));
}

#[test]
fn children_that_overlap_or_leave_the_box_are_refused() {
    let row_of = |children: Vec<DomBox>| {
        let mut row = DomBox::new_block();
        row.size.content = Rect { x: 0, y: 0, w: 6, h: 1 };
        row.children = children;
        row
    };
    // in order and inside
    let row = row_of(vec![text_box("ab", 0, 0, 2), text_box("cd", 3, 0, 2)]);
    assert_eq!(row.render(), Some(String::from("ab cd \n")));
    // the second starts before the first ends
    let row = row_of(vec![text_box("ab", 0, 0, 2), text_box("cd", 1, 0, 2)]);
    assert_eq!(row.render(), None);
    // the second ends behind the content
    let row = row_of(vec![text_box("ab", 0, 0, 2), text_box("cd", 5, 0, 2)]);
    assert_eq!(row.render(), None);
    // a child that is refused itself
    let row = row_of(vec![text_box("abc", 0, 0, 2)]);
    assert_eq!(row.render(), None);
    // a child with no width is let pass wherever it stands
    let row = row_of(vec![text_box("ab", 0, 0, 2), text_box("", 1, 0, 0)]);
    assert_eq!(row.render(), Some(String::from("ab    \n")));
    // on another row the children do not meet
    let row = row_of(vec![text_box("ab", 0, 0, 2), text_box("cd", 1, 1, 2)]);
    assert_eq!(row.render(), Some(String::from("ab    \n")));
}
