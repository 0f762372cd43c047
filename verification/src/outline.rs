//! What building a document means: the tree that a stream of events and the
//! highlighter's answers describe, stated over the values of boxes.

use vstd::prelude::*;
use vstd::utf8::encode_utf8;
use crate::color::{rgb_index, DomColor, TermColor};
use crate::dom::{BoxModel, BoxSize, Edges, KindModel};
use crate::event::{Event, HeaderLevel, Tag};
use crate::highlight::StyledRange;
use crate::style::{BorderType, DomStyle};
use crate::text::{byte_len, text_before};

verus! {

/// The dark variant of a hue.
pub open spec fn dark(hue: TermColor) -> DomColor {
    DomColor(Some(hue.ordinal()))
}

/// The light variant of a hue.
pub open spec fn light(hue: TermColor) -> DomColor {
    DomColor(Some((hue.ordinal() + 8) as u8))
}

/// The style of raw markup: light red.
pub open spec fn markup_style(base: DomStyle) -> DomStyle {
    DomStyle { fg: light(TermColor::Red), ..base }
}

/// The style of the name of a footnote: dark green, underlined.
pub open spec fn note_style(base: DomStyle) -> DomStyle {
    DomStyle { fg: dark(TermColor::Green), underline: true, ..base }
}

/// The style of a link: dark blue, underlined.
pub open spec fn link_style(base: DomStyle) -> DomStyle {
    DomStyle { fg: dark(TermColor::Blue), underline: true, ..base }
}

/// The style of the title of an image: light black on dark yellow.
pub open spec fn image_title_style(base: DomStyle) -> DomStyle {
    DomStyle { fg: light(TermColor::Black), bg: dark(TermColor::Yellow), ..base }
}

/// The style of the destination of an image: an underlined dark blue on
/// dark yellow.
pub open spec fn image_dest_style(base: DomStyle) -> DomStyle {
    DomStyle {
        fg: dark(TermColor::Blue),
        bg: dark(TermColor::Yellow),
        underline: true,
        ..base
    }
}

/// The style of code: dark white on dark black, marked as code.
pub open spec fn code_style(base: DomStyle) -> DomStyle {
    DomStyle { code: true, fg: dark(TermColor::White), bg: dark(TermColor::Black), ..base }
}

/// The style of a highlighted range: its colour as a palette entry, and its
/// emphasis added to that of the line.
pub open spec fn range_style(base: DomStyle, range: StyledRange) -> DomStyle {
    DomStyle {
        fg: DomColor(Some(rgb_index(range.red, range.green, range.blue))),
        bold: base.bold || range.bold,
        italic: base.italic || range.italic,
        underline: base.underline || range.underline,
        ..base
    }
}

/// The style of a header: the accent colour, and the border type of its
/// level.
pub open spec fn header_style(level: HeaderLevel, base: DomStyle) -> DomStyle {
    DomStyle {
        fg: dark(TermColor::Purple),
        border_type: match level {
            HeaderLevel::H1 => BorderType::Thin,
            HeaderLevel::H2 => BorderType::Bold,
            HeaderLevel::H3 => BorderType::Double,
            HeaderLevel::H4 => BorderType::Thin,
            HeaderLevel::H5 => BorderType::Dash,
            HeaderLevel::H6 => base.border_type,
        },
        ..base
    }
}

/// The border of a header: one row below, and for the first level one row
/// above and one column on each side as well.
pub open spec fn header_border(level: HeaderLevel) -> Edges {
    match level {
        HeaderLevel::H1 => Edges { top: 1, bottom: 1, left: 1, right: 1 },
        _ => Edges { top: 0, bottom: 1, left: 0, right: 0 },
    }
}

/// A box with the given border and no geometry otherwise.
pub open spec fn bordered(b: BoxModel, border: Edges) -> BoxModel {
    BoxModel { size: BoxSize { border, ..b.size }, ..b }
}

/// A horizontal rule: an empty block that keeps the full width, with a thin
/// dark yellow border below.
pub open spec fn rule_box(base: DomStyle) -> BoxModel {
    BoxModel {
        size: BoxSize { border: Edges { bottom: 1, ..BoxSize::zero().border }, ..BoxSize::zero() },
        style: DomStyle {
            extend: true,
            border_type: BorderType::Thin,
            fg: dark(TermColor::Yellow),
            ..base
        },
        ..BoxModel::fresh(KindModel::Block, base)
    }
}

/// The bullet of a list item: light yellow, with a border to its right.
pub open spec fn bullet_box(base: DomStyle) -> BoxModel {
    BoxModel {
        size: BoxSize { border: Edges { right: 1, ..BoxSize::zero().border }, ..BoxSize::zero() },
        style: DomStyle { fg: light(TermColor::Yellow), ..base },
        ..BoxModel::fresh(KindModel::ListBullet, base)
    }
}

/// An empty line of its own: a block that holds an empty text.
pub open spec fn spacer_box(base: DomStyle) -> BoxModel {
    BoxModel::fresh(KindModel::Block, base).with_inline(
        BoxModel::fresh(KindModel::Text(Seq::empty()), base),
    )
}

/// The box with a text added as inline content, in a style made from that
/// of the line it goes to.
pub open spec fn with_text(b: BoxModel, text: Seq<char>, style: DomStyle) -> BoxModel {
    b.with_inline(BoxModel::fresh(KindModel::Text(text), style))
}

/// The box with a line-break marker added as its last child.
pub open spec fn with_break(b: BoxModel) -> BoxModel {
    b.with_child(BoxModel::fresh(KindModel::Break, b.style))
}

/// Whether a text ends in a line feed: the byte 10, which is a character of
/// its own wherever it stands.
pub open spec fn ends_in_newline(text: Seq<char>) -> bool {
    byte_len(text) > 0 && encode_utf8(text).last() == 10u8
}

/// The text without its last byte.
pub open spec fn without_last_byte(text: Seq<char>) -> Seq<char> {
    text_before(text, byte_len(text) - 1)
}

/// The box with a text added in the given style: a line feed at its end is
/// taken off and a line-break marker added in its place.
pub open spec fn with_line_of_text(b: BoxModel, text: Seq<char>, style: DomStyle) -> BoxModel {
    if ends_in_newline(text) {
        with_break(with_text(b, without_last_byte(text), style))
    } else {
        with_text(b, text, style)
    }
}

/// The box with highlighted ranges added, each as a text of its own.
pub open spec fn with_ranges(b: BoxModel, ranges: Seq<StyledRange>) -> BoxModel
    decreases ranges.len(),
{
    if ranges.len() == 0 {
        b
    } else {
        let before = with_ranges(b, ranges.drop_last());
        with_line_of_text(
            before,
            ranges.last().text@,
            range_style(before.line().style, ranges.last()),
        )
    }
}

/// The decimal digits of a number.
pub open spec fn decimal(n: nat) -> Seq<char>
    decreases n,
{
    if n < 10 {
        seq![digit(n)]
    } else {
        decimal(n / 10).push(digit(n % 10))
    }
}

/// The character of a digit.
pub open spec fn digit(n: nat) -> char {
    if n == 0 {
        '0'
    } else if n == 1 {
        '1'
    } else if n == 2 {
        '2'
    } else if n == 3 {
        '3'
    } else if n == 4 {
        '4'
    } else if n == 5 {
        '5'
    } else if n == 6 {
        '6'
    } else if n == 7 {
        '7'
    } else if n == 8 {
        '8'
    } else {
        '9'
    }
}

/// The number of bullets among the first `count` boxes.
pub open spec fn bullets_before(boxes: Seq<BoxModel>, count: int) -> nat
    decreases count,
{
    if count <= 0 || count > boxes.len() {
        0
    } else if boxes[count - 1].kind is ListBullet {
        bullets_before(boxes, count - 1) + 1
    } else {
        bullets_before(boxes, count - 1)
    }
}

/// The label of the bullet that `before` bullets precede: the next number
/// of a numbered list, a star in any other.
pub open spec fn bullet_label(start: Option<u64>, before: nat) -> Seq<char> {
    match start {
        Some(first) => decimal(first as nat + before),
        None => seq!['*'],
    }
}

/// A box of a list once the list is closed: a bullet has got its label.
pub open spec fn labelled_child(boxes: Seq<BoxModel>, i: int, start: Option<u64>) -> BoxModel {
    if boxes[i].kind is ListBullet {
        with_text(boxes[i], bullet_label(start, bullets_before(boxes, i)), boxes[i].line().style)
    } else {
        boxes[i]
    }
}

/// A list once it is closed: each of its bullets has got its label, the
/// numbers counting up from the first.
pub open spec fn labelled(list: BoxModel, start: Option<u64>) -> BoxModel {
    BoxModel {
        children: Seq::new(
            list.children.len(),
            |i: int| labelled_child(list.children, i, start),
        ),
        ..list
    }
}

/// Whether a construct holds inline content.
pub open spec fn is_span(tag: Tag) -> bool {
    tag is Emphasis || tag is Strong || tag is Code || tag is Link || tag is Image
}

/// Whether a construct has no layout: the events of a table change nothing.
pub open spec fn is_table_part(tag: Tag) -> bool {
    tag is Table || tag is TableHead || tag is TableRow || tag is TableCell
}

/// The state of a build: the box that is being filled, the two collections
/// beside the document, and the position in the stream.
pub struct Draft {
    pub parent: BoxModel,
    pub links: Option<BoxModel>,
    pub notes: Option<BoxModel>,
    pub pos: int,
}

/// The answer of the highlighter for the event at a position.
pub open spec fn answer_at(answers: Seq<Option<Vec<StyledRange>>>, at: int) -> Option<
    Seq<StyledRange>,
> {
    if 0 <= at < answers.len() {
        match answers[at] {
            Some(ranges) => Some(ranges@),
            None => None,
        }
    } else {
        None
    }
}

/// The start of a list as the kind of the list keeps it.
pub open spec fn list_start(start: Option<u64>) -> Option<u16> {
    match start {
        Some(first) => Some((first % 0x10000) as u16),
        None => None,
    }
}

/// What stands in the parent and beside the document before the box of a
/// construct is opened: an item puts its bullet in front; a link notes its
/// destination, with a line break, among the links; an image puts its title
/// and its destination in front.
pub open spec fn prepared(tag: Tag, d: Draft) -> Draft {
    match tag {
        Tag::Item => Draft { parent: d.parent.with_child(bullet_box(d.parent.style)), ..d },
        Tag::Link(dest, _) => Draft {
            links: match d.links {
                Some(links) => Some(
                    with_break(with_text(links, dest@, link_style(links.line().style))),
                ),
                None => None,
            },
            ..d
        },
        Tag::Image(dest, title) => Draft {
            parent: with_text(
                with_text(d.parent, title@, image_title_style(d.parent.line().style)),
                dest@,
                image_dest_style(d.parent.line().style),
            ),
            ..d
        },
        _ => d,
    }
}

/// The style of the inline span of a construct inside a line: emphasis is
/// italic, strong emphasis bold, code styled as code, a link styled as a
/// link, the content of an image italic.
pub open spec fn span_style(tag: Tag, line: DomStyle) -> DomStyle {
    match tag {
        Tag::Strong => DomStyle { bold: true, ..line },
        Tag::Code => code_style(line),
        Tag::Link(_, _) => link_style(line),
        _ => DomStyle { italic: true, ..line },
    }
}

/// The box of a header as it is opened.
pub open spec fn header_box(level: HeaderLevel, base: DomStyle) -> BoxModel {
    BoxModel {
        kind: KindModel::Header(level.number()),
        size: BoxSize { border: header_border(level), ..BoxSize::zero() },
        style: header_style(level, base),
        children: Seq::empty(),
    }
}

/// The box of a construct as it is opened inside a parent.
pub open spec fn opened(tag: Tag, parent: BoxModel) -> BoxModel {
    if is_span(tag) {
        BoxModel::fresh(KindModel::Inline, span_style(tag, parent.line().style))
    } else {
        match tag {
            Tag::Header(level) => header_box(level, parent.style),
            Tag::CodeBlock(_) => BoxModel::fresh(KindModel::Block, code_style(parent.style)),
            Tag::List(start) => BoxModel::fresh(KindModel::List(list_start(start)), parent.style),
            _ => BoxModel::fresh(KindModel::Block, parent.style),
        }
    }
}

/// The box of a construct once its content is built: a paragraph and a list
/// get a border below; a block quote gets a thin dark cyan border to its
/// left.
pub open spec fn closed(tag: Tag, child: BoxModel) -> BoxModel {
    match tag {
        Tag::Paragraph | Tag::List(_) => bordered(
            child,
            Edges { bottom: 1, ..child.size.border },
        ),
        Tag::BlockQuote => BoxModel {
            style: DomStyle {
                border_type: BorderType::Thin,
                fg: dark(TermColor::Cyan),
                ..child.style
            },
            ..bordered(child, Edges { left: 1, ..child.size.border })
        },
        _ => child,
    }
}

/// The parent with the finished box of a construct in it: a span as inline
/// content, any other as the last child; a block quote and a block of code
/// are followed by an empty line.
pub open spec fn attached(tag: Tag, parent: BoxModel, child: BoxModel) -> BoxModel {
    if is_span(tag) {
        parent.with_inline(child)
    } else if tag is BlockQuote || tag is CodeBlock {
        parent.with_child(child).with_child(spacer_box(parent.style))
    } else {
        parent.with_child(child)
    }
}

/// Whether the start of a construct opens a box that the events up to its
/// end fill: any but a rule, the parts of a table, and the definition of a
/// footnote while another is being filled.
pub open spec fn nests(tag: Tag, d: Draft) -> bool {
    !is_table_part(tag) && !(tag is Rule) && !(tag is FootnoteDefinition && d.notes is None)
}

/// Whether the end of a construct closes the box being filled: any but that
/// of a rule or of a part of a table.
pub open spec fn closes(tag: Tag) -> bool {
    !is_table_part(tag) && !(tag is Rule)
}

/// The state in which the box of a construct is filled. The definition of a
/// footnote fills the footnotes themselves, behind its name, and leaves none
/// beside it meanwhile; any other construct fills the box it opens.
pub open spec fn entered(tag: Tag, d: Draft) -> Draft {
    match tag {
        Tag::FootnoteDefinition(name) => Draft {
            parent: match d.notes {
                Some(notes) => with_text(notes, name@, note_style(notes.line().style)),
                None => d.parent,
            },
            notes: None,
            ..d
        },
        _ => Draft { parent: opened(tag, prepared(tag, d).parent), ..prepared(tag, d) },
    }
}

/// The state once the box of a construct is filled, `inner` being the state
/// in which that ended. The definition of a footnote puts the footnotes
/// back; any other construct attaches its finished box to the parent.
pub open spec fn left(tag: Tag, d: Draft, inner: Draft) -> Draft {
    match tag {
        Tag::FootnoteDefinition(_) => Draft {
            parent: d.parent,
            links: inner.links,
            notes: Some(inner.parent),
            pos: inner.pos,
        },
        _ => Draft {
            parent: attached(tag, prepared(tag, d).parent, closed(tag, inner.parent)),
            ..inner
        },
    }
}

/// The state after an event that opens and closes nothing: a rule adds its
/// box; a text adds itself, or the ranges the highlighter made of it; raw
/// markup, the reference to a footnote and a break add themselves; the
/// parts of a table add nothing.
pub open spec fn added(event: Event, answer: Option<Seq<StyledRange>>, d: Draft) -> Draft {
    let line = d.parent.line().style;
    match event {
        Event::Start(Tag::Rule) => Draft {
            parent: d.parent.with_child(rule_box(d.parent.style)),
            ..d
        },
        Event::Text(text) => Draft {
            parent: match answer {
                Some(ranges) => with_ranges(d.parent, ranges),
                None => with_line_of_text(d.parent, text@, line),
            },
            ..d
        },
        Event::Html(html) | Event::InlineHtml(html) => Draft {
            parent: with_text(d.parent, html@, markup_style(line)),
            ..d
        },
        Event::SoftBreak | Event::HardBreak => Draft { parent: with_break(d.parent), ..d },
        Event::FootnoteReference(name) => Draft {
            parent: with_text(d.parent, name@, note_style(line)),
            ..d
        },
        _ => d,
    }
}

/// The box being filled once it is closed: a list has its bullets labelled.
pub open spec fn ended(tag: Tag, parent: BoxModel) -> BoxModel {
    match tag {
        Tag::List(start) => labelled(parent, start),
        _ => parent,
    }
}

/// The state of a build after the events from its position up to the one
/// that closes the box being filled, or to the end of the stream. Filling
/// the box of a construct always moves on in the stream, which is what makes
/// a build end.
pub open spec fn built(events: Seq<Event>, answers: Seq<Option<Vec<StyledRange>>>, d: Draft) -> Draft
    decreases events.len() - d.pos,
{
    if d.pos < 0 || d.pos >= events.len() {
        d
    } else {
        let at = d.pos;
        let next = Draft { pos: at + 1, ..d };
        match events[at] {
            Event::Start(tag) if nests(tag, d) => {
                let inner = built(events, answers, entered(tag, next));
                let after = left(tag, next, inner);
                if at < inner.pos <= events.len() {
                    built(events, answers, after)
                } else {
                    after
                }
            },
            Event::End(tag) if closes(tag) => Draft { parent: ended(tag, d.parent), ..next },
            event => built(events, answers, added(event, answer_at(answers, at), next)),
        }
    }
}

/// A build never goes back in the stream, and ends within it.
pub proof fn lemma_built_advances(
    events: Seq<Event>,
    answers: Seq<Option<Vec<StyledRange>>>,
    d: Draft,
)
    requires
        0 <= d.pos <= events.len(),
    ensures
        d.pos <= built(events, answers, d).pos <= events.len(),
        d.pos < events.len() ==> d.pos < built(events, answers, d).pos,
    decreases events.len() - d.pos,
{
    if d.pos < events.len() {
        let at = d.pos;
        let next = Draft { pos: at + 1, ..d };
        match events[at] {
            Event::Start(tag) if nests(tag, d) => {
                lemma_built_advances(events, answers, entered(tag, next));
                let inner = built(events, answers, entered(tag, next));
                lemma_built_advances(events, answers, left(tag, next, inner));
            },
            Event::End(tag) if closes(tag) => {},
            event => {
                lemma_built_advances(events, answers, added(event, answer_at(answers, at), next));
            },
        }
    }
}

/// A build that stands at the start of a construct which opens a box goes
/// on from where the box is filled and attached.
pub proof fn lemma_built_nested(
    events: Seq<Event>,
    answers: Seq<Option<Vec<StyledRange>>>,
    d: Draft,
)
    requires
        0 <= d.pos < events.len(),
        events[d.pos] is Start,
        nests(events[d.pos]->Start_0, d),
    ensures
        ({
            let tag = events[d.pos]->Start_0;
            let next = Draft { pos: d.pos + 1, ..d };
            let inner = built(events, answers, entered(tag, next));
            &&& d.pos < inner.pos <= events.len()
            &&& built(events, answers, d) == built(events, answers, left(tag, next, inner))
        }),
{
    let tag = events[d.pos]->Start_0;
    let next = Draft { pos: d.pos + 1, ..d };
    lemma_built_advances(events, answers, entered(tag, next));
}

/// A build that stands at the end of a construct which closes the box ends
/// behind it.
pub proof fn lemma_built_closed(
    events: Seq<Event>,
    answers: Seq<Option<Vec<StyledRange>>>,
    d: Draft,
)
    requires
        0 <= d.pos < events.len(),
        events[d.pos] is End,
        closes(events[d.pos]->End_0),
    ensures
        built(events, answers, d) == (Draft {
            parent: ended(events[d.pos]->End_0, d.parent),
            pos: d.pos + 1,
            ..d
        }),
{
}

/// A build that stands at any other event goes on behind it with what the
/// event adds.
pub proof fn lemma_built_added(
    events: Seq<Event>,
    answers: Seq<Option<Vec<StyledRange>>>,
    d: Draft,
)
    requires
        0 <= d.pos < events.len(),
        !(events[d.pos] is Start && nests(events[d.pos]->Start_0, d)),
        !(events[d.pos] is End && closes(events[d.pos]->End_0)),
    ensures
        built(events, answers, d) == built(
            events,
            answers,
            added(events[d.pos], answer_at(answers, d.pos), Draft { pos: d.pos + 1, ..d }),
        ),
{
}

/// What an event adds, it adds to the box being filled and to nothing else.
pub proof fn lemma_added_parent(event: Event, answer: Option<Seq<StyledRange>>, d: Draft)
    ensures
        added(event, answer, d) == (Draft {
            parent: added(
                event,
                answer,
                Draft { parent: d.parent, links: None, notes: None, pos: 0 },
            ).parent,
            ..d
        }),
{
}

/// A highlighted line in a box that stacks its children: where no line is
/// open at the end of the box, one range that ends in a line feed adds
/// exactly a line that holds one text, the range without its line feed in
/// the colour and with the emphasis of the range, and a line-break marker
/// behind the line.
pub proof fn lemma_highlighted_line(b: BoxModel, range: StyledRange)
    requires
        !b.holds_inline(),
        !b.ends_with_line(),
        ends_in_newline(range.text@),
    ensures
        with_ranges(b, seq![range]).children == b.children.push(
            BoxModel::fresh(KindModel::InlineContainer, b.style).with_child(
                BoxModel::fresh(
                    KindModel::Text(without_last_byte(range.text@)),
                    range_style(b.style, range),
                ),
            ),
        ).push(BoxModel::fresh(KindModel::Break, b.style)),
        same_frame(with_ranges(b, seq![range]), b),
{
    assert(seq![range].drop_last() =~= Seq::<StyledRange>::empty());
    assert(with_ranges(b, seq![range].drop_last()) == b);
}

/// Whether two boxes differ in their children at most: they are of one kind,
/// geometry and style.
pub open spec fn same_frame(a: BoxModel, b: BoxModel) -> bool {
    a.kind == b.kind && a.size == b.size && a.style == b.style
}

/// Highlighted ranges leave the box they are added to of its kind.
pub proof fn lemma_ranges_keep_kind(b: BoxModel, ranges: Seq<StyledRange>)
    ensures
        same_frame(with_ranges(b, ranges), b),
    decreases ranges.len(),
{
    if ranges.len() > 0 {
        lemma_ranges_keep_kind(b, ranges.drop_last());
        let before = with_ranges(b, ranges.drop_last());
        lemma_line_of_text_keeps_kind(
            before,
            ranges.last().text@,
            range_style(before.line().style, ranges.last()),
        );
    }
}

/// Inline content leaves the box it is added to of its kind.
pub proof fn lemma_inline_keeps_kind(b: BoxModel, child: BoxModel)
    ensures
        same_frame(b.with_inline(child), b),
        same_frame(b.with_child(child), b),
{
}

/// What goes before the box of a construct leaves the parent of its kind.
proof fn lemma_prepared_keeps_kind(tag: Tag, d: Draft)
    ensures
        same_frame(prepared(tag, d).parent, d.parent),
        prepared(tag, d).links is Some == d.links is Some,
        prepared(tag, d).notes == d.notes,
        prepared(tag, d).pos == d.pos,
        prepared(tag, d).links matches Some(links) ==> same_frame(links, d.links->Some_0),
{
    match tag {
        Tag::Link(dest, _) => {
            match d.links {
                Some(links) => {
                    let first = with_text(links, dest@, link_style(links.line().style));
                    lemma_inline_keeps_kind(
                        links,
                        BoxModel::fresh(KindModel::Text(dest@), link_style(links.line().style)),
                    );
                    lemma_inline_keeps_kind(first, BoxModel::fresh(KindModel::Break, first.style));
                },
                None => {},
            }
        },
        Tag::Image(dest, title) => {
            let first = with_text(d.parent, title@, image_title_style(d.parent.line().style));
            lemma_inline_keeps_kind(
                d.parent,
                BoxModel::fresh(
                    KindModel::Text(title@),
                    image_title_style(d.parent.line().style),
                ),
            );
            lemma_inline_keeps_kind(
                first,
                BoxModel::fresh(KindModel::Text(dest@), image_dest_style(d.parent.line().style)),
            );
        },
        _ => {},
    }
}

/// Where the box of a construct is filled, the links are as they were but
/// for their children; so are the footnotes, unless it is they that are
/// being filled.
proof fn lemma_entered_keeps_sides(tag: Tag, d: Draft)
    requires
        nests(tag, d),
    ensures
        d.links matches Some(links) ==> entered(tag, d).links is Some && same_frame(
            entered(tag, d).links->Some_0,
            links,
        ),
        !(tag is FootnoteDefinition) ==> entered(tag, d).notes == d.notes,
        tag is FootnoteDefinition ==> d.notes is Some && same_frame(
            entered(tag, d).parent,
            d.notes->Some_0,
        ),
        entered(tag, d).pos == d.pos,
{
    lemma_prepared_keeps_kind(tag, d);
    match tag {
        Tag::FootnoteDefinition(name) => {
            let notes = d.notes->Some_0;
            lemma_inline_keeps_kind(
                notes,
                BoxModel::fresh(KindModel::Text(name@), note_style(notes.line().style)),
            );
        },
        _ => {},
    }
}

/// The finished box of a construct leaves the parent of its kind.
proof fn lemma_left_keeps_kind(tag: Tag, d: Draft, inner: Draft)
    ensures
        same_frame(left(tag, d, inner).parent, d.parent),
        left(tag, d, inner).links == inner.links,
        left(tag, d, inner).notes == (if tag is FootnoteDefinition {
            Some(inner.parent)
        } else {
            inner.notes
        }),
        left(tag, d, inner).pos == inner.pos,
{
    lemma_prepared_keeps_kind(tag, d);
    let ready = prepared(tag, d).parent;
    let child = closed(tag, inner.parent);
    lemma_inline_keeps_kind(ready, child);
    lemma_inline_keeps_kind(ready.with_child(child), spacer_box(ready.style));
}

/// What an event adds leaves the box being filled of its kind.
proof fn lemma_added_keeps_kind(event: Event, answer: Option<Seq<StyledRange>>, d: Draft)
    ensures
        same_frame(added(event, answer, d).parent, d.parent),
        added(event, answer, d).links == d.links,
        added(event, answer, d).notes == d.notes,
        added(event, answer, d).pos == d.pos,
{
    let line = d.parent.line().style;
    match event {
        Event::Text(text) => {
            match answer {
                Some(ranges) => {
                    lemma_ranges_keep_kind(d.parent, ranges);
                },
                None => {
                    lemma_line_of_text_keeps_kind(d.parent, text@, line);
                },
            }
        },
        Event::Html(html) | Event::InlineHtml(html) => {
            lemma_inline_keeps_kind(
                d.parent,
                BoxModel::fresh(KindModel::Text(html@), markup_style(line)),
            );
        },
        Event::FootnoteReference(name) => {
            lemma_inline_keeps_kind(
                d.parent,
                BoxModel::fresh(KindModel::Text(name@), note_style(line)),
            );
        },
        _ => {},
    }
}

/// A text leaves the box it is added to of its kind.
proof fn lemma_line_of_text_keeps_kind(b: BoxModel, text: Seq<char>, style: DomStyle)
    ensures
        same_frame(with_line_of_text(b, text, style), b),
{
    lemma_inline_keeps_kind(b, BoxModel::fresh(KindModel::Text(text), style));
    lemma_inline_keeps_kind(b, BoxModel::fresh(KindModel::Text(without_last_byte(text)), style));
}

/// A build leaves the box it fills of its kind.
pub proof fn lemma_built_keeps_kind(
    events: Seq<Event>,
    answers: Seq<Option<Vec<StyledRange>>>,
    d: Draft,
)
    ensures
        same_frame(built(events, answers, d).parent, d.parent),
        d.links matches Some(links) ==> built(events, answers, d).links is Some && same_frame(
            built(events, answers, d).links->Some_0,
            links,
        ),
        d.notes matches Some(notes) ==> built(events, answers, d).notes is Some && same_frame(
            built(events, answers, d).notes->Some_0,
            notes,
        ),
    decreases events.len() - d.pos,
{
    if 0 <= d.pos < events.len() {
        let at = d.pos;
        let next = Draft { pos: at + 1, ..d };
        if events[at] is Start && nests(events[at]->Start_0, d) {
            let tag = events[at]->Start_0;
            let inner = built(events, answers, entered(tag, next));
            lemma_entered_keeps_sides(tag, next);
            lemma_built_keeps_kind(events, answers, entered(tag, next));
            lemma_left_keeps_kind(tag, next, inner);
            lemma_built_nested(events, answers, d);
            lemma_built_keeps_kind(events, answers, left(tag, next, inner));
        } else if events[at] is End && closes(events[at]->End_0) {
            lemma_built_closed(events, answers, d);
        } else {
            lemma_built_added(events, answers, d);
            lemma_added_keeps_kind(events[at], answer_at(answers, at), next);
            lemma_built_keeps_kind(
                events,
                answers,
                added(events[at], answer_at(answers, at), next),
            );
        }
    }
}

/// The shape of a document: a plain block with no geometry but the column
/// budget as its content width; its children are what the events built into
/// it, then the block of the links, then the block of the footnotes, each
/// once and in this order.
pub proof fn lemma_document_is_block(
    events: Seq<Event>,
    answers: Seq<Option<Vec<StyledRange>>>,
    from: int,
    width: u16,
)
    ensures
        ({
            let doc = document(events, answers, from, width);
            let end = built(events, answers, first_draft(from, width));
            &&& same_frame(doc, first_draft(from, width).parent)
            &&& doc.kind is Block
            &&& doc.size.content.w == width
            &&& end.links is Some
            &&& end.notes is Some
            &&& doc.children == end.parent.children.push(end.links->Some_0).push(
                end.notes->Some_0,
            )
            &&& end.links->Some_0.kind is Block
            &&& end.notes->Some_0.kind is Block
        }),
{
    lemma_built_keeps_kind(events, answers, first_draft(from, width));
}

/// The state in which the build of a document begins: an empty root block
/// of the width of the column budget, and two empty blocks beside it for
/// the links and the footnotes.
pub open spec fn first_draft(from: int, width: u16) -> Draft {
    let side = BoxModel::fresh(KindModel::Block, DomStyle::plain());
    Draft {
        parent: BoxModel {
            size: BoxSize {
                content: crate::dom::Rect { x: 0, y: 0, w: width, h: 0 },
                border: BoxSize::zero().border,
            },
            ..side
        },
        links: Some(side),
        notes: Some(side),
        pos: from,
    }
}

/// The document that a stream of events describes inside a column budget:
/// a root block of that width, filled with what the events build, and
/// behind it the links and the footnotes that came up on the way.
pub open spec fn document(
    events: Seq<Event>,
    answers: Seq<Option<Vec<StyledRange>>>,
    from: int,
    width: u16,
) -> BoxModel {
    let d = built(events, answers, first_draft(from, width));
    let with_links = match d.links {
        Some(links) => d.parent.with_child(links),
        None => d.parent,
    };
    match d.notes {
        Some(notes) => with_links.with_child(notes),
        None => with_links,
    }
}

} // verus!
