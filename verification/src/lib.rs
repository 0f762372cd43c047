//! Terminal rendering of structured documents: a box-model document tree, a
//! flow layout that fits the tree into a column budget, and a renderer that
//! paints the laid-out tree as rows of styled text.

use vstd::prelude::*;
use syntect::highlighting::ThemeSet;
use syntect::parsing::SyntaxSet;

pub mod color;
pub mod style;
pub mod text;
pub mod dom;
pub mod flow;
pub mod layout;
pub mod laws;
pub mod render;
pub mod event;
pub mod highlight;
pub mod outline;
pub mod builder;

use crate::builder::{page, renders, Ctx, DEFAULT_COLS};
use crate::event::Event;
use crate::highlight::{answers_fit, StyledRange};
use crate::render::ansi_text;

verus! {

/// Renders the document of a stream of events for a terminal of the default
/// width, code highlighted with the syntaxes and the default theme that
/// `syntect` ships with: built, laid out and rendered, it is the text of its
/// page. There is no text where the layout of the document fails, or where
/// its page is not sound on a row.
pub fn push_ansi(events: Vec<Event>) -> (out: Option<String>)
    ensures
        exists|answers: Seq<Option<Vec<StyledRange>>>|
            {
                &&& #[trigger] answers_fit(events@, answers)
                &&& match out {
                    Some(text) => renders(events@, answers, 0, DEFAULT_COLS) && text@
                        == ansi_text(page(events@, answers, 0, DEFAULT_COLS).screen()),
                    None => !renders(events@, answers, 0, DEFAULT_COLS),
                }
            },
{
    let syntaxes = SyntaxSet::load_defaults_newlines();
    let themes = ThemeSet::load_defaults();
    let mut ctx = Ctx::new(events, &syntaxes, &themes);
    let ghost answers = ctx.answers@;
    let out = ctx.render(DEFAULT_COLS);
    assert(answers_fit(events@, answers));
    out
}

} // verus!
