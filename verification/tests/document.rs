use ansi_renderer::builder::Ctx;
use ansi_renderer::event::{Event, HeaderLevel, Tag};
use ansi_renderer::highlight::StyledRange;
use ansi_renderer::push_ansi;
use ansi_term::{Colour, Style};
use syntect::highlighting::ThemeSet;
use syntect::parsing::SyntaxSet;

fn plain(text: &str) -> String {
    let mut out = String::new();
    let mut chars = text.chars();
    while let Some(c) = chars.next() {
        if c == '\u{1b}' {
            for d in chars.by_ref() {
                if d == 'm' {
                    break;
                }
            }
        } else {
            out.push(c);
        }
    }
    out
}

fn text(s: &str) -> Event {
    Event::Text(String::from(s))
}

fn render(events: Vec<Event>, width: u16) -> String {
    let syntaxes = SyntaxSet::load_defaults_newlines();
    let themes = ThemeSet::load_defaults();
    let mut ctx = Ctx::new(events.clone(), &syntaxes, &themes);
    let mut root = ctx.build(width);
    assert!(root.has_layout());
    assert!(root.layout());
    assert!(root.can_render());
    let out = root.render().unwrap();
    // the steps one by one come to what the build renders at once
    let mut ctx = Ctx::new(events, &syntaxes, &themes);
    assert_eq!(ctx.render(width), Some(out.clone()));
    out
}

#[test]
fn a_paragraph_of_one_text_wider_than_the_budget() {
    let out = render(
        vec![Event::Start(Tag::Paragraph), text("hello world"), Event::End(Tag::Paragraph)],
        10,
    );
    assert_eq!(out, "hello worl\nd         \n          \n");
}

#[test]
fn a_paragraph_of_two_words_on_two_lines() {
    let out = render(
        vec![
            Event::Start(Tag::Paragraph),
            text("hello"),
            Event::SoftBreak,
            text("world"),
            Event::End(Tag::Paragraph),
        ],
        10,
    );
    assert_eq!(out, "hello\nworld\n     \n");
    let lines: Vec<&str> = out.lines().collect();
    assert_eq!(lines, vec!["hello", "world", "     "]);
}

#[test]
fn a_first_level_header_in_its_box() {
    let out = render(
        vec![
            Event::Start(Tag::Header(HeaderLevel::H1)),
            text("Hi"),
            Event::End(Tag::Header(HeaderLevel::H1)),
        ],
        10,
    );
    assert_eq!(plain(&out), "┌──┐\n│Hi│\n└──┘\n");
    let accent = Style::new().fg(Colour::Fixed(5)).prefix().to_string();
    assert_eq!(accent, "\u{1b}[38;5;5m");
    assert!(out.contains(&format!("{}┌──┐", accent)));
    assert!(out.contains("Hi"));
    assert_eq!(out.lines().count(), 3);
}

#[test]
fn a_second_level_header_is_underlined_in_bold() {
    let out = render(
        vec![
            Event::Start(Tag::Header(HeaderLevel::H2)),
            text("Hello"),
            Event::End(Tag::Header(HeaderLevel::H2)),
        ],
        10,
    );
    assert_eq!(plain(&out), "Hello\n━━━━━\n");
}

#[test]
fn a_rule_spans_the_budget() {
    let out = render(vec![Event::Start(Tag::Rule), Event::End(Tag::Rule)], 10);
    assert_eq!(plain(&out), "──────────\n");
    assert!(out.contains("\u{1b}[38;5;3m"));
}

#[test]
fn a_numbered_list() {
    let mut events = vec![Event::Start(Tag::List(Some(1)))];
    for item in ["one", "two", "three"] {
        events.push(Event::Start(Tag::Item));
        events.push(text(item));
        events.push(Event::End(Tag::Item));
    }
    events.push(Event::End(Tag::List(Some(1))));
    let out = render(events, 10);
    assert_eq!(plain(&out), "1 one     \n2 two     \n3 three   \n          \n");
}

#[test]
fn a_block_quote() {
    let out = render(
        vec![
            Event::Start(Tag::BlockQuote),
            Event::Start(Tag::Paragraph),
            text("quoted"),
            Event::End(Tag::Paragraph),
            Event::End(Tag::BlockQuote),
        ],
        10,
    );
    assert_eq!(plain(&out), "│quoted\n│      \n       \n");
}

#[test]
fn a_link_is_rendered_in_place_and_its_destination_at_the_end() {
    let dest = String::from("http://example.com");
    let out = render(
        vec![
            Event::Start(Tag::Paragraph),
            Event::Start(Tag::Link(dest.clone(), String::new())),
            text("here"),
            Event::End(Tag::Link(dest.clone(), String::new())),
            Event::End(Tag::Paragraph),
        ],
        80,
    );
    assert_eq!(
        plain(&out),
        "here              \n                  \nhttp://example.com\n"
    );
    let link = Style::new().fg(Colour::Fixed(4)).underline().prefix().to_string();
    assert!(out.contains(&format!("{}here", link)));
    assert!(out.contains(&format!("{}http://example.com", link)));
    assert_eq!(out.matches("http://example.com").count(), 1);
}

#[test]
fn the_whole_pipeline_at_the_default_width() {
    let out = push_ansi(vec![
        Event::Start(Tag::Paragraph),
        text("hello world"),
        Event::End(Tag::Paragraph),
    ]);
    assert_eq!(out, Some(String::from("hello world\n           \n")));
    let long = "x".repeat(100);
    let out = push_ansi(vec![text(&long)]).unwrap();
    assert_eq!(out, format!("{}\n{}{}\n", "x".repeat(80), "x".repeat(20), " ".repeat(60)));
    assert_eq!(push_ansi(vec![]), Some(String::new()));
}

#[test]
fn the_pipeline_highlights_code() {
    let rust = String::from("rust");
    let out = push_ansi(vec![
        Event::Start(Tag::CodeBlock(rust.clone())),
        text("fn main() {}\n"),
        Event::End(Tag::CodeBlock(rust)),
    ])
    .unwrap();
    assert_eq!(plain(&out), "fn main() {}\n            \n");
    // the code is painted on dark black in colours of the palette
    assert!(out.contains("48;5;0"));
    assert!(out.contains("\u{1b}[38;5;"));
}

#[test]
fn a_stream_that_builds_no_tree_with_a_layout_renders_nothing() {
    // a text right inside a list
    let out = push_ansi(vec![
        Event::Start(Tag::List(None)),
        text("stray"),
        Event::End(Tag::List(None)),
    ]);
    assert_eq!(out, None);
}

#[test]
fn rendering_with_given_answers() {
    let rust = String::from("rust");
    let events = vec![
        Event::Start(Tag::CodeBlock(rust.clone())),
        text("ab\n"),
        Event::End(Tag::CodeBlock(rust)),
    ];
    let answers = vec![
        None,
        Some(vec![
            StyledRange {
                red: 255,
                green: 0,
                blue: 0,
                bold: true,
                italic: false,
                underline: false,
                text: String::from("a"),
            },
            StyledRange {
                red: 0,
                green: 0,
                blue: 255,
                bold: false,
                italic: false,
                underline: false,
                text: String::from("b\n"),
            },
        ]),
        None,
    ];
    let out = Ctx::with_answers(events.clone(), answers).render(10).unwrap();
    assert_eq!(plain(&out), "ab\n  \n");
    // each range is painted in its own colour, the first in bold
    assert!(out.contains("\u{1b}[1;38;5;196ma"));
    assert!(out.contains("38;5;21"));
    assert!(out.contains("48;5;0"));
    // without answers the text is in the colours of the block
    let out = Ctx::with_answers(events, vec![]).render(10).unwrap();
    assert_eq!(plain(&out), "ab\n  \n");
    assert!(out.contains("38;5;7") && out.contains("48;5;0") && !out.contains("38;5;196"));
}

#[test]
fn rendering_a_tree_without_a_layout_gives_nothing() {
    let events = vec![Event::Start(Tag::List(None)), text("stray"), Event::End(Tag::List(None))];
    assert_eq!(Ctx::with_answers(events, vec![]).render(10), None);
}

#[test]
fn every_row_of_a_document_is_as_wide_as_the_document() {
    let rust = String::from("rust");
    let dest = String::from("http://example.com");
    let mut events = vec![
        Event::Start(Tag::Header(HeaderLevel::H1)),
        text("A title that is longer than the budget"),
        Event::End(Tag::Header(HeaderLevel::H1)),
        Event::Start(Tag::Paragraph),
        text("Some text with "),
        Event::Start(Tag::Emphasis),
        text("emphasis that goes on and on"),
        Event::End(Tag::Emphasis),
        text(" and a "),
        Event::Start(Tag::Link(dest.clone(), String::new())),
        text("link"),
        Event::End(Tag::Link(dest, String::new())),
        Event::FootnoteReference(String::from("1")),
        Event::End(Tag::Paragraph),
        Event::Start(Tag::Rule),
        Event::End(Tag::Rule),
        Event::Start(Tag::BlockQuote),
        Event::Start(Tag::Paragraph),
        text("quoted words, quite a few of them"),
        Event::End(Tag::Paragraph),
        Event::End(Tag::BlockQuote),
        Event::Start(Tag::CodeBlock(rust.clone())),
        text("fn main() {\n"),
        text("    println!(\"a rather long line of code\");\n"),
        text("}\n"),
        Event::End(Tag::CodeBlock(rust)),
    ];
    events.push(Event::Start(Tag::List(Some(9))));
    for item in ["first", "second item, a long one", "third"] {
        events.push(Event::Start(Tag::Item));
        events.push(text(item));
        events.push(Event::End(Tag::Item));
    }
    events.push(Event::End(Tag::List(Some(9))));
    events.push(Event::Start(Tag::FootnoteDefinition(String::from("1"))));
    events.push(Event::Start(Tag::Paragraph));
    events.push(text("the footnote"));
    events.push(Event::End(Tag::Paragraph));
    events.push(Event::End(Tag::FootnoteDefinition(String::from("1"))));
    for width in [20u16, 33, 80] {
        let out = render(events.clone(), width);
        let rows: Vec<String> = plain(&out).lines().map(String::from).collect();
        assert!(rows.len() > 10);
        for row in &rows {
            assert_eq!(row.chars().count(), width as usize, "{:?}", row);
        }
        assert!(rows.iter().any(|row| row.starts_with("9 first")));
        assert!(rows.iter().any(|row| row.starts_with("10 second")));
        assert!(rows.iter().any(|row| row.starts_with("http://example.com")));
        assert!(rows.iter().any(|row| row.contains("the footnote")));
    }
}

#[test]
fn a_list_in_a_budget_too_narrow_for_its_bullets_renders_nothing() {
    let events = vec![
        Event::Start(Tag::List(None)),
        Event::Start(Tag::Item),
        text("item"),
        Event::End(Tag::Item),
        Event::End(Tag::List(None)),
    ];
    assert_eq!(Ctx::with_answers(events.clone(), vec![]).render(1), None);
    let out = Ctx::with_answers(events, vec![]).render(6).unwrap();
    assert_eq!(plain(&out), "* item\n      \n");
}

#[test]
fn wide_characters_wrap_by_their_display_width() {
    let events = vec![Event::Start(Tag::Paragraph), text("日本語のテキスト"), Event::End(Tag::Paragraph)];
    let out = Ctx::with_answers(events.clone(), vec![]).render(6).unwrap();
    assert_eq!(plain(&out), "日本語\nのテキ\nスト  \n      \n");
    let out = Ctx::with_answers(events, vec![]).render(5).unwrap();
    assert_eq!(plain(&out), "日本\n語の\nテキ\nスト\n    \n");
}
