//! Syntax highlighting of code blocks: which texts of an event stream the
//! highlighter colours, and into which ranges.

use vstd::prelude::*;
use vstd::string::StringExecFns;
use syntect::easy::HighlightLines;
use syntect::highlighting::{FontStyle, Theme, ThemeSet};
use syntect::parsing::{SyntaxReference, SyntaxSet};
use crate::event::{Event, Tag};

verus! {

/// The syntax definitions of `syntect`.
#[verifier::external_type_specification]
#[verifier::external_body]
pub struct ExSyntaxSet(SyntaxSet);

/// One syntax definition of `syntect`.
#[verifier::external_type_specification]
#[verifier::external_body]
pub struct ExSyntaxReference(SyntaxReference);

/// The colour themes of `syntect`.
#[verifier::external_type_specification]
#[verifier::external_body]
pub struct ExThemeSet(ThemeSet);

/// One colour theme of `syntect`.
#[verifier::external_type_specification]
#[verifier::external_body]
pub struct ExTheme(Theme);

/// The line highlighter of `syntect`, which carries its parse state from one
/// line to the next.
#[verifier::external_type_specification]
#[verifier::external_body]
pub struct ExHighlightLines<'a>(HighlightLines<'a>);

/// The error type of `syntect`.
#[verifier::external_type_specification]
#[verifier::external_body]
pub struct ExSyntectError(syntect::Error);

/// `SyntaxSet::load_defaults_newlines` unpacks the syntax definitions that
/// `syntect` ships with. Nothing is claimed of them.
pub assume_specification[ SyntaxSet::load_defaults_newlines ]() -> SyntaxSet
;

/// `ThemeSet::load_defaults` unpacks the themes that `syntect` ships with.
/// Nothing is claimed of them.
pub assume_specification[ ThemeSet::load_defaults ]() -> ThemeSet
;

/// `SyntaxSet::find_syntax_by_token` looks a syntax up by a file extension or
/// a name. Nothing is claimed of what it finds.
pub assume_specification<'a>[ SyntaxSet::find_syntax_by_token ](
    this: &'a SyntaxSet,
    s: &str,
) -> Option<&'a SyntaxReference>
;

/// `HighlightLines::new` makes a highlighter for one syntax and one theme.
pub assume_specification<'a>[ HighlightLines::<'a>::new ](
    syntax: &SyntaxReference,
    theme: &'a Theme,
) -> HighlightLines<'a>
;

/// The theme of that name in the map of a `ThemeSet`, if it has one. Nothing
/// is claimed of what is found.
#[verifier::external_body]
fn find_theme<'a>(themes: &'a ThemeSet, name: &str) -> Option<&'a Theme> {
    themes.themes.get(name)
}

/// A piece of a highlighted line: a text with a 24-bit foreground colour and
/// three emphasis flags.
#[derive(Debug, PartialEq, Eq)]
pub struct StyledRange {
    pub red: u8,
    pub green: u8,
    pub blue: u8,
    pub bold: bool,
    pub italic: bool,
    pub underline: bool,
    pub text: String,
}

/// A line highlighter together with the syntaxes it was made from, which are
/// the ones it has to be asked with.
struct Highlighter<'b> {
    lines: HighlightLines<'b>,
    syntaxes: &'b SyntaxSet,
}

/// `HighlightLines::highlight_line`, asked with the syntaxes the highlighter
/// was made from, splits a line into styled pieces, or fails. Each piece is
/// handed on as a `StyledRange`: the channels of its foreground colour, the
/// three flags of its font style, and its text. Nothing is claimed of the
/// pieces.
#[verifier::external_body]
fn highlight_line(highlighter: &mut Highlighter<'_>, line: &str) -> Result<
    Vec<StyledRange>,
    syntect::Error,
> {
    let pieces = highlighter.lines.highlight_line(line, highlighter.syntaxes)?;
    Ok(
        pieces.into_iter().map(
            |(style, text)|
                StyledRange {
                    red: style.foreground.r,
                    green: style.foreground.g,
                    blue: style.foreground.b,
                    bold: style.font_style.intersects(FontStyle::BOLD),
                    italic: style.font_style.intersects(FontStyle::ITALIC),
                    underline: style.font_style.intersects(FontStyle::UNDERLINE),
                    text: text.to_string(),
                },
        ).collect(),
    )
}

/// The texts of some ranges one after the other.
pub open spec fn joined(ranges: Seq<StyledRange>) -> Seq<char>
    decreases ranges.len(),
{
    if ranges.len() == 0 {
        Seq::empty()
    } else {
        joined(ranges.drop_last()) + ranges.last().text@
    }
}

/// Whether the texts of the ranges one after the other are the line.
pub fn ranges_make(ranges: &Vec<StyledRange>, line: &str) -> (yes: bool)
    ensures
        yes == (joined(ranges@) == line@),
{
    let mut whole = String::new();
    let mut i: usize = 0;
    assert(ranges@.take(0) =~= Seq::<StyledRange>::empty());
    while i < ranges.len()
        invariant
            0 <= i <= ranges@.len(),
            whole@ == joined(ranges@.take(i as int)),
        decreases ranges@.len() - i,
    {
        whole.append(ranges[i].text.as_str());
        proof {
            assert(ranges@.take(i as int + 1).drop_last() =~= ranges@.take(i as int));
            assert(ranges@.take(i as int + 1).last() == ranges@[i as int]);
        }
        i += 1;
    }
    assert(ranges@.take(i as int) =~= ranges@);
    let line = line.to_owned();
    whole == line
}

/// Whether an event opens a block of code.
pub open spec fn opens_code(event: Event) -> bool {
    match event {
        Event::Start(Tag::CodeBlock(_)) => true,
        _ => false,
    }
}

/// Whether an event closes a block of code.
pub open spec fn closes_code(event: Event) -> bool {
    match event {
        Event::End(Tag::CodeBlock(_)) => true,
        _ => false,
    }
}

/// Whether a block of code is open at a position of the stream: one was
/// opened before it and none was closed since.
pub open spec fn inside_code(events: Seq<Event>, at: int) -> bool {
    exists|open: int|
        0 <= open < at && opens_code(#[trigger] events[open]) && forall|close: int|
            open < close < at ==> !closes_code(#[trigger] events[close])
}

/// Whether ranges answer for an event: the event is a text, and the texts of
/// the ranges one after the other are that text.
pub open spec fn answers_for(event: Event, ranges: Seq<StyledRange>) -> bool {
    match event {
        Event::Text(text) => joined(ranges) == text@,
        _ => false,
    }
}

/// Whether answers are such as highlighting gives for a stream: one for each
/// event, and ranges only for a text inside a block of code, which they
/// make up.
pub open spec fn answers_fit(events: Seq<Event>, answers: Seq<Option<Vec<StyledRange>>>) -> bool {
    &&& answers.len() == events.len()
    &&& forall|at: int|
        0 <= at < events.len() && (#[trigger] answers[at]) is Some ==> inside_code(events, at)
            && answers_for(events[at], answers[at]->Some_0@)
}

/// Highlights the code of a stream. From the opening of a block of code
/// whose language hint names a known syntax until a block of code closes,
/// each text is handed to the highlighter of `theme`, line after line, and
/// the ranges it makes of the text are the answer for that event. Every
/// other event has no answer, nor has a text that the highlighter fails on
/// or gives ranges for that do not make it up.
pub fn highlight_events<'b>(
    events: &Vec<Event>,
    syntaxes: &'b SyntaxSet,
    themes: &'b ThemeSet,
    theme: &str,
) -> (answers: Vec<Option<Vec<StyledRange>>>)
    ensures
        answers_fit(events@, answers@),
{
    let mut answers: Vec<Option<Vec<StyledRange>>> = Vec::new();
    let mut highline: Option<Highlighter<'b>> = None;
    let mut i: usize = 0;
    while i < events.len()
        invariant
            0 <= i <= events.len(),
            answers@.len() == i,
            highline is Some ==> inside_code(events@, i as int),
            forall|at: int|
                0 <= at < i && (#[trigger] answers@[at]) is Some ==> inside_code(events@, at)
                    && answers_for(events@[at], answers@[at]->Some_0@),
        decreases events.len() - i,
    {
        let ghost active = highline is Some;
        let mut answer: Option<Vec<StyledRange>> = None;
        match &events[i] {
            Event::Start(Tag::CodeBlock(info)) => {
                match syntaxes.find_syntax_by_token(info.as_str()) {
                    Some(syntax) => {
                        match find_theme(themes, theme) {
                            Some(found) => {
                                highline = Some(
                                    Highlighter {
                                        lines: HighlightLines::new(syntax, found),
                                        syntaxes,
                                    },
                                );
                            },
                            None => {},
                        }
                    },
                    None => {},
                }
                proof {
                    lemma_code_opens(events@, i as int);
                }
            },
            Event::End(Tag::CodeBlock(_)) => {
                highline = None;
            },
            Event::Text(text) => {
                match &mut highline {
                    Some(highlighter) => {
                        match highlight_line(highlighter, text.as_str()) {
                            Ok(ranges) => {
                                if ranges_make(&ranges, text.as_str()) {
                                    answer = Some(ranges);
                                }
                            },
                            Err(_) => {},
                        }
                    },
                    None => {},
                }
                proof {
                    if active {
                        lemma_code_stays_open(events@, i as int);
                    }
                }
            },
            _ => {
                proof {
                    if active {
                        lemma_code_stays_open(events@, i as int);
                    }
                }
            },
        }
        answers.push(answer);
        i += 1;
    }
    answers
}

/// Behind the opening of a block of code, a block of code is open.
proof fn lemma_code_opens(events: Seq<Event>, at: int)
    requires
        0 <= at < events.len(),
        opens_code(events[at]),
    ensures
        inside_code(events, at + 1),
{
}

/// A block of code stays open behind an event that closes none.
proof fn lemma_code_stays_open(events: Seq<Event>, at: int)
    requires
        0 <= at < events.len(),
        inside_code(events, at),
        !closes_code(events[at]),
    ensures
        inside_code(events, at + 1),
{
    let open = choose|open: int|
        0 <= open < at && opens_code(#[trigger] events[open]) && forall|close: int|
            open < close < at ==> !closes_code(#[trigger] events[close]);
    assert(opens_code(events[open]));
    assert forall|close: int| open < close < at + 1 implies !closes_code(
        #[trigger] events[close],
    ) by {}
}

} // verus!
