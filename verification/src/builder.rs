//! The document builder: turns a stream of events into a tree of boxes.

use vstd::prelude::*;
use vstd::utf8::{
    encode_utf8, encode_utf8_valid_utf8, is_char_boundary,
    is_char_boundary_iff_not_is_continuation_byte, is_continuation_byte,
};
use syntect::highlighting::ThemeSet;
use syntect::parsing::SyntaxSet;
use crate::color::{DomColor, TermColor};
use crate::dom::{
    lemma_children_views, lemma_views_update, views, BoxCursor, BoxKind, BoxModel, BoxSize,
    DomBox, Edges, KindModel, Rect,
};
use crate::flow::laid_out;
use crate::render::ansi_text;
use crate::event::{Event, HeaderLevel, Tag};
use crate::highlight::{answers_fit, highlight_events, StyledRange};
use crate::outline::{
    added, answer_at, attached, built, bullet_box, bullets_before, closed, closes, code_style,
    decimal, digit, document, ends_in_newline, entered, header_box, image_dest_style,
    image_title_style, span_style,
    is_span, is_table_part, labelled, labelled_child, left, lemma_added_parent,
    lemma_built_added, lemma_built_closed, lemma_built_nested, lemma_document_is_block,
    link_style, nests, opened,
    prepared, range_style, with_break, with_line_of_text, with_ranges, with_text,
    without_last_byte, Draft,
};
use crate::style::{BorderType, DomStyle};
use crate::text::split_at_in_place;

verus! {

broadcast use lemma_children_views;

/// The column budget of a document that is given none.
pub const DEFAULT_COLS: u16 = 80;

/// The theme of the highlighter where none is chosen.
pub const DEFAULT_THEME: &'static str = "base16-eighties.dark";

/// The character of a digit.
fn digit_char(d: u8) -> (c: char)
    requires
        d < 10,
    ensures
        c == digit(d as nat),
{
    if d == 0 {
        '0'
    } else if d == 1 {
        '1'
    } else if d == 2 {
        '2'
    } else if d == 3 {
        '3'
    } else if d == 4 {
        '4'
    } else if d == 5 {
        '5'
    } else if d == 6 {
        '6'
    } else if d == 7 {
        '7'
    } else if d == 8 {
        '8'
    } else {
        '9'
    }
}

/// A number in decimal digits.
fn decimal_string(n: u128) -> (s: String)
    ensures
        s@ == decimal(n as nat),
{
    // the digits from the last to the first
    let mut digits: Vec<char> = Vec::new();
    let mut rest = n;
    assert(decimal(rest as nat) + digits@.reverse() =~= decimal(n as nat));
    while rest >= 10
        invariant
            decimal(n as nat) == decimal(rest as nat) + digits@.reverse(),
        decreases rest,
    {
        let ghost before = digits@;
        digits.push(digit_char((rest % 10) as u8));
        proof {
            assert(digits@.reverse() =~= seq![digit((rest % 10) as nat)] + before.reverse());
            assert(decimal((rest / 10) as nat).push(digit((rest % 10) as nat)) + before.reverse()
                =~= decimal((rest / 10) as nat) + digits@.reverse());
        }
        rest = rest / 10;
    }
    let ghost before = digits@;
    digits.push(digit_char(rest as u8));
    assert(digits@.reverse() =~= seq![digit(rest as nat)] + before.reverse());
    let mut s = String::new();
    let mut i = digits.len();
    assert(s@ =~= digits@.reverse().take(0));
    while i > 0
        invariant
            i <= digits@.len(),
            s@ == digits@.reverse().take(digits@.len() - i),
        decreases i,
    {
        i -= 1;
        s.push(digits[i]);
        assert(s@ =~= digits@.reverse().take(digits@.len() - i));
    }
    assert(digits@.reverse().take(digits@.len() as int) =~= digits@.reverse());
    s
}

/// Takes the line feed off the end of a text, if it ends in one.
fn take_newline(text: &mut String) -> (had: bool)
    ensures
        had == ends_in_newline(old(text)@),
        final(text)@ == (if had {
            without_last_byte(old(text)@)
        } else {
            old(text)@
        }),
{
    broadcast use {encode_utf8_valid_utf8, is_char_boundary_iff_not_is_continuation_byte};

    let len = text.as_str().as_bytes().len();
    if len == 0 {
        return false;
    }
    let last = text.as_str().as_bytes()[len - 1];
    if last != 10 {
        return false;
    }
    proof {
        let bytes = encode_utf8(text@);
        assert(!is_continuation_byte(10u8)) by (bit_vector);
        assert(is_char_boundary(bytes, len as int - 1));
    }
    let _ = split_at_in_place(text, len - 1);
    true
}

/// Adds a text in the style of the line it goes to, a line feed at its end
/// becoming a line-break marker.
fn add_line_of_text(parent: &mut DomBox, text: String)
    ensures
        final(parent)@ == with_line_of_text(old(parent)@, text@, old(parent)@.line().style),
{
    let mut text = text;
    let add_break = take_newline(&mut text);
    let _ = parent.add_text(text);
    if add_break {
        let _ = parent.add_break();
    }
}

/// Adds one highlighted range as a text of its own: in the colour of the
/// range, with its emphasis added to that of the line, a line feed at its
/// end becoming a line-break marker.
fn add_range(parent: &mut DomBox, range: &StyledRange)
    ensures
        final(parent)@ == with_line_of_text(
            old(parent)@,
            range.text@,
            range_style(old(parent)@.line().style, *range),
        ),
{
    let mut text = range.text.clone();
    let add_break = take_newline(&mut text);
    let child = parent.add_text(text);
    child.style.fg = DomColor::from_color(range.red, range.green, range.blue);
    child.style.bold = child.style.bold || range.bold;
    child.style.italic = child.style.italic || range.italic;
    child.style.underline = child.style.underline || range.underline;
    if add_break {
        let _ = parent.add_break();
    }
}

/// Adds the ranges that the highlighter made of a text, each as a text of
/// its own.
pub fn add_highlighted(parent: &mut DomBox, ranges: &Vec<StyledRange>)
    ensures
        final(parent)@ == with_ranges(old(parent)@, ranges@),
{
    let mut i: usize = 0;
    assert(ranges@.take(0) =~= Seq::<StyledRange>::empty());
    while i < ranges.len()
        invariant
            0 <= i <= ranges@.len(),
            parent@ == with_ranges(old(parent)@, ranges@.take(i as int)),
        decreases ranges@.len() - i,
    {
        add_range(parent, &ranges[i]);
        proof {
            assert(ranges@.take(i as int + 1).drop_last() =~= ranges@.take(i as int));
            assert(ranges@.take(i as int + 1).last() == ranges@[i as int]);
        }
        i += 1;
    }
    assert(ranges@.take(i as int) =~= ranges@);
}

/// Labels the bullets of a list that is being closed: with the numbers from
/// `start` on, or with a star each.
pub fn label_bullets(list: &mut DomBox, start: Option<u64>)
    ensures
        final(list)@ == labelled(old(list)@, start),
{
    let ghost before = list@.children;
    let mut seen: usize = 0;
    let mut i: usize = 0;
    while i < list.children.len()
        invariant
            0 <= i <= list.children@.len(),
            list.children@.len() == before.len(),
            list.kind == old(list).kind,
            list.size == old(list).size,
            list.style == old(list).style,
            before == old(list)@.children,
            seen == bullets_before(before, i as int),
            seen <= i,
            forall|j: int| 0 <= j < i ==> #[trigger] list@.children[j] == labelled_child(before, j, start),
            forall|j: int| i <= j < before.len() ==> #[trigger] list@.children[j] == before[j],
        decreases list.children@.len() - i,
    {
        let ghost pre = list.children@;
        let is_bullet = match list.children[i].kind {
            BoxKind::ListBullet => true,
            _ => false,
        };
        assert(list@.children[i as int] == before[i as int]);
        if is_bullet {
            let label = match start {
                Some(first) => decimal_string(first as u128 + seen as u128),
                None => {
                    let mut star = String::new();
                    star.push('*');
                    assert(star@ =~= seq!['*']);
                    star
                },
            };
            let _ = list.children[i].add_text(label);
            proof {
                lemma_views_update(pre, i as int, list.children@[i as int]);
            }
            seen += 1;
        }
        proof {
            assert forall|j: int| 0 <= j < i + 1 implies #[trigger] list@.children[j]
                == labelled_child(before, j, start) by {
                if j < i {
                    assert(views(pre)[j] == labelled_child(before, j, start));
                }
            }
            assert forall|j: int| i + 1 <= j < before.len() implies #[trigger] list@.children[j]
                == before[j] by {
                assert(views(pre)[j] == before[j]);
            }
        }
        i += 1;
    }
    assert(list@.children =~= labelled(old(list)@, start).children);
}

/// The values of the two collections beside a document.
pub open spec fn side_view(side: Option<DomBox>) -> Option<BoxModel> {
    match side {
        Some(b) => Some(b@),
        None => None,
    }
}

/// A copy of highlighted ranges.
fn copy_ranges(ranges: &Vec<StyledRange>) -> (copy: Vec<StyledRange>)
    ensures
        copy@ == ranges@,
{
    let mut copy: Vec<StyledRange> = Vec::new();
    let mut i: usize = 0;
    while i < ranges.len()
        invariant
            0 <= i <= ranges@.len(),
            copy@ == ranges@.take(i as int),
        decreases ranges@.len() - i,
    {
        let range = &ranges[i];
        copy.push(
            StyledRange {
                red: range.red,
                green: range.green,
                blue: range.blue,
                bold: range.bold,
                italic: range.italic,
                underline: range.underline,
                text: range.text.clone(),
            },
        );
        assert(copy@ =~= ranges@.take(i as int + 1));
        i += 1;
    }
    assert(ranges@.take(i as int) =~= ranges@);
    copy
}

/// The state of a build: the stream of events with the highlighter's
/// answers, the position in it, and the links and footnotes met so far.
pub struct Ctx {
    pub events: Vec<Event>,
    pub answers: Vec<Option<Vec<StyledRange>>>,
    pub pos: usize,
    pub links: Option<DomBox>,
    pub footnotes: Option<DomBox>,
}

/// The document of a stream of events once it is laid out.
pub open spec fn page(
    events: Seq<Event>,
    answers: Seq<Option<Vec<StyledRange>>>,
    from: int,
    width: u16,
) -> BoxModel {
    let doc = document(events, answers, from, width);
    laid_out(doc, BoxCursor { x: 0, y: 0, container: doc.size }).node
}

/// Whether the document of a stream of events can be rendered: its layout
/// does not fail, and its page is sound on every row.
pub open spec fn renders(
    events: Seq<Event>,
    answers: Seq<Option<Vec<StyledRange>>>,
    from: int,
    width: u16,
) -> bool {
    let doc = document(events, answers, from, width);
    !laid_out(doc, BoxCursor { x: 0, y: 0, container: doc.size }).failed && page(
        events,
        answers,
        from,
        width,
    ).screen_ok()
}

impl Ctx {
    /// The state of the build as a draft around the box being filled.
    pub open spec fn draft(self, parent: BoxModel) -> Draft {
        Draft {
            parent,
            links: side_view(self.links),
            notes: side_view(self.footnotes),
            pos: self.pos as int,
        }
    }

    /// A build of the given events that has not begun. Their code is
    /// highlighted with the default theme.
    pub fn new(events: Vec<Event>, syntaxes: &SyntaxSet, themes: &ThemeSet) -> (ctx: Ctx)
        ensures
            ctx.events == events,
            answers_fit(events@, ctx.answers@),
            ctx.pos == 0,
            ctx.links is None,
            ctx.footnotes is None,
    {
        let answers = highlight_events(&events, syntaxes, themes, DEFAULT_THEME);
        Ctx { events, answers, pos: 0, links: None, footnotes: None }
    }

    /// A build of the given events that has not begun, with the answers the
    /// highlighter gave for them.
    pub fn with_answers(events: Vec<Event>, answers: Vec<Option<Vec<StyledRange>>>) -> (ctx: Ctx)
        ensures
            ctx.events == events,
            ctx.answers == answers,
            ctx.pos == 0,
            ctx.links is None,
            ctx.footnotes is None,
    {
        Ctx { events, answers, pos: 0, links: None, footnotes: None }
    }

    /// Builds the document of the events from the position on, inside the
    /// given column budget: the tree is built into a root block of that
    /// width, and the links and the footnotes are put behind it.
    pub fn build(&mut self, width: u16) -> (root: DomBox)
        ensures
            final(self).events == old(self).events,
            final(self).answers == old(self).answers,
            old(self).pos <= final(self).pos,
            final(self).links is None,
            final(self).footnotes is None,
            root@ == document(
                old(self).events@,
                old(self).answers@,
                old(self).pos as int,
                width,
            ),
    {
        self.links = Some(DomBox::new_block());
        self.footnotes = Some(DomBox::new_block());
        let mut root = DomBox::new_root(width);
        self.build_dom(&mut root);
        match self.links.take() {
            Some(links) => {
                root.swallow(links);
            },
            None => {},
        }
        match self.footnotes.take() {
            Some(footnotes) => {
                root.swallow(footnotes);
            },
            None => {},
        }
        root
    }

    /// Renders the document of the events from the position on, inside the
    /// given column budget: built, laid out and rendered, it is the text of
    /// its page. There is no text where the layout of the document fails,
    /// or where its page is not sound on a row.
    pub fn render(&mut self, width: u16) -> (out: Option<String>)
        ensures
            final(self).events == old(self).events,
            final(self).answers == old(self).answers,
            match out {
                Some(text) => renders(
                    old(self).events@,
                    old(self).answers@,
                    old(self).pos as int,
                    width,
                ) && text@ == ansi_text(
                    page(
                        old(self).events@,
                        old(self).answers@,
                        old(self).pos as int,
                        width,
                    ).screen(),
                ),
                None => !renders(
                    old(self).events@,
                    old(self).answers@,
                    old(self).pos as int,
                    width,
                ),
            },
    {
        let mut root = self.build(width);
        proof {
            lemma_document_is_block(
                old(self).events@,
                old(self).answers@,
                old(self).pos as int,
                width,
            );
        }
        if !root.layout() {
            return None;
        }
        root.render()
    }

    /// The answer of the highlighter for the event at a position.
    fn answer(&self, at: usize) -> (answer: Option<Vec<StyledRange>>)
        ensures
            side_ranges(answer) == answer_at(self.answers@, at as int),
    {
        if at < self.answers.len() {
            match &self.answers[at] {
                Some(ranges) => Some(copy_ranges(ranges)),
                None => None,
            }
        } else {
            None
        }
    }

    /// Puts in front of a construct what goes before its box: the bullet of
    /// an item, the title and the destination of an image, and, among the
    /// links, the destination of a link.
    fn prepare(&mut self, parent: &mut DomBox, tag: &Tag)
        ensures
            final(self).events == old(self).events,
            final(self).answers == old(self).answers,
            final(self).pos == old(self).pos,
            final(self).draft(final(parent)@) == prepared(*tag, old(self).draft(old(parent)@)),
    {
        match tag {
            Tag::Item => {
                add_item_bullet(parent);
            },
            Tag::Link(dest, _) => {
                match self.links.take() {
                    Some(links) => {
                        let mut links = links;
                        note_link(&mut links, dest.clone());
                        self.links = Some(links);
                    },
                    None => {},
                }
            },
            Tag::Image(dest, title) => {
                add_image_head(parent, dest.clone(), title.clone());
            },
            _ => {},
        }
    }

    /// Builds the box of a construct that the events up to its end fill,
    /// and attaches it to the parent.
    fn build_nested(&mut self, parent: &mut DomBox, tag: Tag)
        requires
            nests(tag, old(self).draft(old(parent)@)),
            old(self).pos <= old(self).events@.len(),
        ensures
            final(self).events == old(self).events,
            final(self).answers == old(self).answers,
            final(self).draft(final(parent)@) == left(
                tag,
                old(self).draft(old(parent)@),
                built(
                    old(self).events@,
                    old(self).answers@,
                    entered(tag, old(self).draft(old(parent)@)),
                ),
            ),
            old(self).pos <= final(self).pos <= old(self).events@.len(),
        decreases old(self).events@.len() - old(self).pos, 1int,
    {
        match tag {
            Tag::FootnoteDefinition(name) => {
                match self.footnotes.take() {
                    Some(footnotes) => {
                        let mut footnotes = footnotes;
                        let child = footnotes.add_text(name);
                        child.style.fg = DomColor::from_dark(TermColor::Green);
                        child.style.underline = true;
                        self.build_dom(&mut footnotes);
                        self.footnotes = Some(footnotes);
                    },
                    None => {},
                }
            },
            tag => {
                self.prepare(parent, &tag);
                let mut child = open_box(&tag, parent);
                self.build_dom(&mut child);
                close_box(&tag, &mut child);
                attach(parent, &tag, child);
            },
        }
    }

    /// Fills a box with what the events from the position on describe, up
    /// to the event that closes the box or to the end of the stream.
    pub fn build_dom(&mut self, parent: &mut DomBox)
        ensures
            final(self).events == old(self).events,
            final(self).answers == old(self).answers,
            final(self).draft(final(parent)@) == built(
                old(self).events@,
                old(self).answers@,
                old(self).draft(old(parent)@),
            ),
            old(self).pos <= final(self).pos,
            old(self).pos <= old(self).events@.len() ==> final(self).pos <= old(self).events@.len(),
        decreases old(self).events@.len() - old(self).pos, 0int,
    {
        let ghost events = self.events@;
        let ghost answers = self.answers@;
        let ghost first = self.draft(parent@);
        loop
            invariant_except_break
                built(events, answers, first) == built(events, answers, self.draft(parent@)),
            invariant
                self.events == old(self).events,
                self.answers == old(self).answers,
                events == old(self).events@,
                answers == old(self).answers@,
                first == old(self).draft(old(parent)@),
                old(self).pos <= self.pos,
                old(self).pos <= events.len() ==> self.pos <= events.len(),
            ensures
                self.events == old(self).events,
                self.answers == old(self).answers,
                old(self).pos <= self.pos,
                old(self).pos <= events.len() ==> self.pos <= events.len(),
                self.draft(parent@) == built(events, answers, first),
            decreases events.len() - self.pos,
        {
            if self.pos >= self.events.len() {
                break ;
            }
            let at = self.pos;
            let event = self.events[at].clone();
            let answer = self.answer(at);
            let ghost d = self.draft(parent@);
            self.pos = at + 1;
            match event {
                Event::Start(tag) => {
                    if opens_box(&tag, self.footnotes.is_some()) {
                        proof {
                            lemma_built_nested(events, answers, d);
                        }
                        self.build_nested(parent, tag);
                    } else {
                        proof {
                            lemma_built_added(events, answers, d);
                            lemma_added_parent(
                                events[at as int],
                                answer_at(answers, at as int),
                                Draft { pos: at + 1, ..d },
                            );
                        }
                        add_event(parent, Event::Start(tag), answer);
                    }
                },
                Event::End(tag) => {
                    if closes_box(&tag) {
                        proof {
                            lemma_built_closed(events, answers, d);
                        }
                        match tag {
                            Tag::List(start) => {
                                label_bullets(parent, start);
                            },
                            _ => {},
                        }
                        break ;
                    } else {
                        proof {
                            lemma_built_added(events, answers, d);
                        }
                    }
                },
                event => {
                    proof {
                        lemma_built_added(events, answers, d);
                        lemma_added_parent(
                            events[at as int],
                            answer_at(answers, at as int),
                            Draft { pos: at + 1, ..d },
                        );
                    }
                    add_event(parent, event, answer);
                },
            }
        }
    }
}

/// Whether the start of a construct opens a box that the events up to its
/// end fill.
fn opens_box(tag: &Tag, has_notes: bool) -> (yes: bool)
    ensures
        yes == (!is_table_part(*tag) && !(*tag is Rule) && !(*tag is FootnoteDefinition
            && !has_notes)),
{
    match tag {
        Tag::Rule => false,
        Tag::Table => false,
        Tag::TableHead => false,
        Tag::TableRow => false,
        Tag::TableCell => false,
        Tag::FootnoteDefinition(_) => has_notes,
        _ => true,
    }
}

/// Whether the end of a construct closes the box being filled.
fn closes_box(tag: &Tag) -> (yes: bool)
    ensures
        yes == closes(*tag),
{
    match tag {
        Tag::Rule => false,
        Tag::Table => false,
        Tag::TableHead => false,
        Tag::TableRow => false,
        Tag::TableCell => false,
        _ => true,
    }
}

/// The bullet of a list item, added to the list.
fn add_item_bullet(parent: &mut DomBox)
    ensures
        final(parent)@ == old(parent)@.with_child(bullet_box(old(parent)@.style)),
{
    let bullet = parent.add_bullet();
    bullet.style.fg = DomColor::from_light(TermColor::Yellow);
    bullet.size.border.right = 1;
}

/// The destination of a link, noted among the links with a line break.
fn note_link(links: &mut DomBox, dest: String)
    ensures
        final(links)@ == with_break(
            with_text(old(links)@, dest@, link_style(old(links)@.line().style)),
        ),
{
    let child = links.add_text(dest);
    child.style.fg = DomColor::from_dark(TermColor::Blue);
    child.style.underline = true;
    let _ = links.add_break();
}

/// The title and the destination of an image, in front of its content.
fn add_image_head(parent: &mut DomBox, dest: String, title: String)
    ensures
        final(parent)@ == with_text(
            with_text(old(parent)@, title@, image_title_style(old(parent)@.line().style)),
            dest@,
            image_dest_style(old(parent)@.line().style),
        ),
{
    let child = parent.add_text(title);
    child.style.fg = DomColor::from_light(TermColor::Black);
    child.style.bg = DomColor::from_dark(TermColor::Yellow);
    proof {
        lemma_line_stays(old(parent)@, parent@);
    }
    let child = parent.add_text(dest);
    child.style.fg = DomColor::from_dark(TermColor::Blue);
    child.style.bg = DomColor::from_dark(TermColor::Yellow);
    child.style.underline = true;
}

/// Inline content that a box gets leaves the style of its line as it is.
proof fn lemma_line_stays(before: BoxModel, after: BoxModel)
    requires
        exists|child: BoxModel| after == before.with_inline(child),
    ensures
        after.line().style == before.line().style,
{
}

/// A box of the given kind, border and style without children.
fn make_box(kind: BoxKind, border: Edges, style: DomStyle) -> (child: DomBox)
    ensures
        child@ == (BoxModel {
            kind: kind@,
            size: BoxSize { border, ..BoxSize::zero() },
            style,
            children: Seq::empty(),
        }),
{
    let child = DomBox {
        kind,
        size: BoxSize { content: Rect { x: 0, y: 0, w: 0, h: 0 }, border },
        style,
        children: Vec::new(),
    };
    assert(child@.children =~= Seq::empty());
    child
}

/// The box of a header as it is opened.
fn open_header(level: HeaderLevel, base: DomStyle) -> (child: DomBox)
    ensures
        child@ == header_box(level, base),
{
    let border_type = match level {
        HeaderLevel::H1 => BorderType::Thin,
        HeaderLevel::H2 => BorderType::Bold,
        HeaderLevel::H3 => BorderType::Double,
        HeaderLevel::H4 => BorderType::Thin,
        HeaderLevel::H5 => BorderType::Dash,
        HeaderLevel::H6 => base.border_type,
    };
    let side: u16 = match level {
        HeaderLevel::H1 => 1,
        _ => 0,
    };
    let mut style = base;
    style.border_type = border_type;
    style.fg = DomColor::from_dark(TermColor::Purple);
    make_box(
        BoxKind::Header(level.to_number()),
        Edges { top: side, bottom: 1, left: side, right: side },
        style,
    )
}

/// The inline span of a construct as it is opened.
fn open_span(tag: &Tag, line: DomStyle) -> (child: DomBox)
    requires
        is_span(*tag),
    ensures
        child@ == BoxModel::fresh(KindModel::Inline, span_style(*tag, line)),
{
    let mut style = line;
    match tag {
        Tag::Emphasis => {
            style.italic = true;
        },
        Tag::Strong => {
            style.bold = true;
        },
        Tag::Code => {
            style.code = true;
            style.fg = DomColor::from_dark(TermColor::White);
            style.bg = DomColor::from_dark(TermColor::Black);
        },
        Tag::Link(_, _) => {
            style.underline = true;
            style.fg = DomColor::from_dark(TermColor::Blue);
        },
        _ => {
            style.italic = true;
        },
    }
    make_box(BoxKind::Inline, Edges { top: 0, bottom: 0, left: 0, right: 0 }, style)
}

/// The block of code as it is opened.
fn open_code(base: DomStyle) -> (child: DomBox)
    ensures
        child@ == BoxModel::fresh(KindModel::Block, code_style(base)),
{
    let mut style = base;
    style.code = true;
    style.fg = DomColor::from_dark(TermColor::White);
    style.bg = DomColor::from_dark(TermColor::Black);
    make_box(BoxKind::Block, Edges { top: 0, bottom: 0, left: 0, right: 0 }, style)
}

/// The box of a construct as it is opened inside a parent.
fn open_box(tag: &Tag, parent: &DomBox) -> (child: DomBox)
    ensures
        child@ == opened(*tag, parent@),
{
    match tag {
        Tag::Header(level) => open_header(*level, parent.style),
        Tag::CodeBlock(_) => open_code(parent.style),
        Tag::List(start) => {
            let kept = match start {
                Some(first) => Some((*first % 0x10000) as u16),
                None => None,
            };
            DomBox::new_child(BoxKind::List(kept), parent.style)
        },
        Tag::Emphasis | Tag::Strong | Tag::Code | Tag::Link(_, _) | Tag::Image(_, _) => open_span(
            tag,
            parent.line_style(),
        ),
        _ => DomBox::new_child(BoxKind::Block, parent.style),
    }
}

/// Finishes the box of a construct whose content is built.
fn close_box(tag: &Tag, child: &mut DomBox)
    ensures
        final(child)@ == closed(*tag, old(child)@),
{
    match tag {
        Tag::Paragraph => {
            child.size.border.bottom = 1;
        },
        Tag::List(_) => {
            child.size.border.bottom = 1;
        },
        Tag::BlockQuote => {
            child.size.border.left = 1;
            child.style.border_type = BorderType::Thin;
            child.style.fg = DomColor::from_dark(TermColor::Cyan);
        },
        _ => {},
    }
}

/// Attaches the finished box of a construct to its parent.
fn attach(parent: &mut DomBox, tag: &Tag, child: DomBox)
    ensures
        final(parent)@ == attached(*tag, old(parent)@, child@),
{
    match tag {
        Tag::Emphasis | Tag::Strong | Tag::Code | Tag::Link(_, _) | Tag::Image(_, _) => {
            parent.swallow_inline(child);
        },
        Tag::BlockQuote | Tag::CodeBlock(_) => {
            parent.swallow(child);
            let newline = parent.add_block();
            let _ = newline.add_text(String::new());
        },
        _ => {
            parent.swallow(child);
        },
    }
}

/// Adds to a box what an event that opens and closes nothing stands for.
fn add_event(parent: &mut DomBox, event: Event, answer: Option<Vec<StyledRange>>)
    ensures
        final(parent)@ == added(
            event,
            side_ranges(answer),
            Draft { parent: old(parent)@, links: None, notes: None, pos: 0 },
        ).parent,
{
    match event {
        Event::Start(Tag::Rule) => {
            let child = parent.add_block();
            child.style.extend = true;
            child.size.border.bottom = 1;
            child.style.border_type = BorderType::Thin;
            child.style.fg = DomColor::from_dark(TermColor::Yellow);
        },
        Event::Text(text) => {
            match answer {
                Some(ranges) => {
                    add_highlighted(parent, &ranges);
                },
                None => {
                    add_line_of_text(parent, text);
                },
            }
        },
        Event::Html(html) => {
            let child = parent.add_text(html);
            child.style.fg = DomColor::from_light(TermColor::Red);
        },
        Event::InlineHtml(html) => {
            let child = parent.add_text(html);
            child.style.fg = DomColor::from_light(TermColor::Red);
        },
        Event::SoftBreak => {
            let _ = parent.add_break();
        },
        Event::HardBreak => {
            let _ = parent.add_break();
        },
        Event::FootnoteReference(name) => {
            let child = parent.add_text(name);
            child.style.fg = DomColor::from_dark(TermColor::Green);
            child.style.underline = true;
        },
        _ => {},
    }
}

/// The ranges of an answer.
pub open spec fn side_ranges(answer: Option<Vec<StyledRange>>) -> Option<Seq<StyledRange>> {
    match answer {
        Some(ranges) => Some(ranges@),
        None => None,
    }
}

} // verus!
