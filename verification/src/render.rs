//! The renderer: paints a laid-out tree row by row as spans of styled text.

use vstd::prelude::*;
use ansi_term::{ANSIString, ANSIStrings};
use crate::dom::{lemma_children_views, BoxKind, BoxModel, DomBox, KindModel};
use crate::layout::lemma_child_weight;
use crate::style::plain_style;
use crate::text::{display_width, str_width};

verus! {

broadcast use lemma_children_views;

/// A run of text in one terminal style.
#[derive(Debug)]
pub struct Span {
    pub style: ansi_term::Style,
    pub text: String,
}

/// The mathematical value of a `Span`.
pub struct SpanModel {
    pub style: ansi_term::Style,
    pub text: Seq<char>,
}

impl View for Span {
    type V = SpanModel;

    open spec fn view(&self) -> SpanModel {
        SpanModel { style: self.style, text: self.text@ }
    }
}

/// The values of a sequence of spans.
pub open spec fn span_views(spans: Seq<Span>) -> Seq<SpanModel> {
    spans.map_values(|span: Span| span@)
}

/// The text that `ansi_term` writes for a sequence of painted strings: the
/// texts in order, with the escape sequences that switch from each style to
/// the next between them.
pub uninterp spec fn ansi_text(spans: Seq<SpanModel>) -> Seq<char>;

/// `Style::paint` and the `Display` of `ANSIStrings` from `ansi_term`: each
/// span painted in its style, and all of them written as one string.
#[verifier::external_body]
fn write_spans(spans: &Vec<Span>) -> (out: String)
    ensures
        out@ == ansi_text(span_views(spans@)),
{
    let painted: Vec<ANSIString<'_>> =
        spans.iter().map(|span| span.style.paint(span.text.as_str())).collect();
    format!("{}", ANSIStrings(&painted))
}

/// A glyph some times over.
pub open spec fn repeat(glyph: char, count: int) -> Seq<char> {
    Seq::new(
        if count > 0 {
            count as nat
        } else {
            0
        },
        |i: int| glyph,
    )
}

/// What a box contributes to one row of the output: its spans, and the
/// column where it starts and the columns it takes, both zero where the row
/// lies outside the box.
pub struct Row {
    pub spans: Seq<SpanModel>,
    pub start: int,
    pub len: int,
}

/// The spans of some children on one row and the column behind them.
pub struct Filled {
    pub spans: Seq<SpanModel>,
    pub pos: int,
}

impl BoxModel {
    /// Whether no line-break marker is left in what the renderer reaches.
    pub open spec fn paintable(self) -> bool
        decreases self,
    {
        &&& !(self.kind is Break)
        &&& !(self.kind is Text) ==> forall|i: int|
            0 <= i < self.children.len() ==> (#[trigger] self.children[i]).paintable()
    }

    /// The column where the box starts, border included.
    pub open spec fn left_edge(self) -> int {
        if self.size.content.x >= self.size.border.left {
            self.size.content.x - self.size.border.left
        } else {
            0
        }
    }

    /// A run of `count` glyphs in the style of the box.
    pub open spec fn run(self, glyph: char, count: int) -> SpanModel {
        SpanModel { style: self.style.ansi(), text: repeat(glyph, count) }
    }

    /// The border line above or below the content: a corner for each column
    /// of the left border, the horizontal glyph of the border type across the
    /// content, a corner for each column of the right border.
    pub open spec fn border_line(self, is_top: bool) -> SpanModel {
        SpanModel {
            style: self.style.ansi(),
            text: repeat(
                if is_top {
                    '┌'
                } else {
                    '└'
                },
                self.size.border.left as int,
            ) + repeat(self.style.border_type.horizontal(), self.size.content.w as int) + repeat(
                if is_top {
                    '┐'
                } else {
                    '┘'
                },
                self.size.border.right as int,
            ),
        }
    }

    /// The border beside the content: the vertical glyph of the border type
    /// for each column of that border.
    pub open spec fn border_side(self, is_left: bool) -> SpanModel {
        self.run(
            self.style.border_type.vertical(),
            if is_left {
                self.size.border.left as int
            } else {
                self.size.border.right as int
            },
        )
    }

    /// The first `count` children on a row: the spans of each that shows on
    /// it, with blanks in the style of the box in front of a child that
    /// starts behind the column reached so far.
    pub open spec fn filled(self, count: int, line: int) -> Filled
        decreases self, count,
    {
        if count <= 0 || count > self.children.len() {
            Filled { spans: Seq::empty(), pos: self.size.content.x as int }
        } else {
            let before = self.filled(count - 1, line);
            let child = self.children[count - 1].row(line);
            if child.len == 0 {
                Filled { spans: before.spans + child.spans, pos: before.pos }
            } else if child.start > before.pos {
                Filled {
                    spans: before.spans + seq![self.run(' ', child.start - before.pos)]
                        + child.spans,
                    pos: child.start + child.len,
                }
            } else {
                Filled { spans: before.spans + child.spans, pos: child.start + child.len }
            }
        }
    }

    /// The box on one row of the output: nothing outside its rows; a border
    /// line in its border band; in its content band the left border, then
    /// its text or its children, then blanks up to its content width, then
    /// the right border.
    pub open spec fn row(self, line: int) -> Row
        decreases self, self.children.len() + 1,
    {
        let size = self.size;
        if line < size.content.y - size.border.top || line >= size.content.y + size.content.h
            + size.border.bottom {
            Row { spans: Seq::empty(), start: 0, len: 0 }
        } else if line < size.content.y || line >= size.content.y + size.content.h {
            Row {
                spans: seq![self.border_line(line < size.content.y)],
                start: self.left_edge(),
                len: size.outer_width(),
            }
        } else {
            let inner = match self.kind {
                KindModel::Text(text) => Filled {
                    spans: seq![SpanModel { style: self.style.ansi(), text }],
                    pos: size.content.x + display_width(text),
                },
                _ => self.filled(self.children.len() as int, line),
            };
            let right = size.content.x + size.content.w;
            Row {
                spans: seq![self.border_side(true)] + inner.spans + (if inner.pos < right {
                    seq![self.run(' ', right - inner.pos)]
                } else {
                    Seq::empty()
                }) + seq![self.border_side(false)],
                start: self.left_edge(),
                len: size.outer_width(),
            }
        }
    }

    /// Whether the first `count` children stand on a row as they should: each
    /// sound in itself, and each that shows on the row behind the ones
    /// before it and inside the content of the box.
    pub open spec fn filled_ok(self, count: int, line: int) -> bool
        decreases self, count,
    {
        if count <= 0 || count > self.children.len() {
            true
        } else {
            let before = self.filled(count - 1, line);
            let child = self.children[count - 1].row(line);
            &&& self.filled_ok(count - 1, line)
            &&& self.children[count - 1].row_ok(line)
            &&& child.len != 0 ==> before.pos <= child.start && child.start + child.len
                <= self.size.content.x + self.size.content.w
        }
    }

    /// Whether the box is sound on a row of its content: a text displays no
    /// wider than the box; the children of any other box stand in order,
    /// without overlap, inside its content. Outside the content there is
    /// nothing to go wrong.
    pub open spec fn row_ok(self, line: int) -> bool
        decreases self, self.children.len() + 1,
    {
        let size = self.size;
        if line < size.content.y || line >= size.content.y + size.content.h {
            true
        } else {
            match self.kind {
                KindModel::Text(text) => display_width(text) <= size.content.w,
                _ => self.filled_ok(self.children.len() as int, line) && self.filled(
                    self.children.len() as int,
                    line,
                ).pos <= size.content.x + size.content.w,
            }
        }
    }

    /// Whether the box is sound on each of its rows.
    pub open spec fn screen_ok(self) -> bool {
        forall|line: int| 0 <= line < self.size.outer_height() ==> self.row_ok(line)
    }

    /// The first `count` rows of the output, each closed by a newline in the
    /// plain style.
    pub open spec fn rows(self, count: int) -> Seq<SpanModel>
        decreases count,
    {
        if count <= 0 {
            Seq::empty()
        } else {
            self.rows(count - 1) + self.row(count - 1).spans + seq![
                SpanModel { style: plain_style(), text: seq!['\n'] },
            ]
        }
    }

    /// All the rows of the box, from its top border to its bottom border.
    pub open spec fn screen(self) -> Seq<SpanModel> {
        self.rows(self.size.outer_height())
    }
}

/// Children that stand on a row as they should do so from the first on.
pub proof fn lemma_filled_ok_prefix(b: BoxModel, count: int, upto: int, line: int)
    requires
        0 <= count <= upto <= b.children.len(),
        b.filled_ok(upto, line),
    ensures
        b.filled_ok(count, line),
    decreases upto - count,
{
    if count < upto {
        lemma_filled_ok_prefix(b, count, upto - 1, line);
    }
}

/// Idempotent rendering: what is rendered depends on the value of the tree
/// alone, so the same tree renders to the same text every time.
pub proof fn lemma_render_repeats(first: DomBox, second: DomBox)
    requires
        first@ == second@,
    ensures
        ansi_text(first@.screen()) == ansi_text(second@.screen()),
{
}

/// A string of `count` glyphs.
fn repeated(glyph: char, count: u32) -> (s: String)
    ensures
        s@ == repeat(glyph, count as int),
{
    let mut s = String::new();
    let mut i: u32 = 0;
    while i < count
        invariant
            i <= count,
            s@ == repeat(glyph, i as int),
        decreases count - i,
    {
        s.push(glyph);
        i += 1;
        assert(s@ =~= repeat(glyph, i as int));
    }
    s
}

/// Appends `count` glyphs.
fn push_repeated(s: &mut String, glyph: char, count: u16)
    ensures
        final(s)@ == old(s)@ + repeat(glyph, count as int),
{
    let mut i: u16 = 0;
    assert(s@ =~= old(s)@ + repeat(glyph, 0));
    while i < count
        invariant
            i <= count,
            s@ == old(s)@ + repeat(glyph, i as int),
        decreases count - i,
    {
        s.push(glyph);
        i += 1;
        assert(s@ =~= old(s)@ + repeat(glyph, i as int));
    }
}

impl DomBox {
    /// Whether no line-break marker is left in what the renderer reaches.
    pub fn can_render(&self) -> (ok: bool)
        ensures
            ok == self@.paintable(),
        decreases self@.weight(),
    {
        match self.kind {
            BoxKind::Break => {
                return false;
            },
            BoxKind::Text(_) => {
                return true;
            },
            _ => {},
        }
        let mut i: usize = 0;
        while i < self.children.len()
            invariant
                0 <= i <= self.children@.len(),
                !(self@.kind is Break),
                !(self@.kind is Text),
                forall|j: int| 0 <= j < i ==> (#[trigger] self@.children[j]).paintable(),
            decreases self.children@.len() - i,
        {
            proof {
                lemma_child_weight(self@, i as int);
                assert(self@.children[i as int] == self.children@[i as int]@);
            }
            if !self.children[i].can_render() {
                return false;
            }
            i += 1;
        }
        true
    }

    /// Renders the tree below this box, which is its root: every row from
    /// the top border to the bottom border, each closed by a newline, as one
    /// text with the terminal's escape sequences in it. There is no text
    /// where the tree is not sound on one of its rows.
    pub fn render(&self) -> (out: Option<String>)
        requires
            self@.paintable(),
        ensures
            match out {
                Some(text) => self@.screen_ok() && text@ == ansi_text(self@.screen()),
                None => !self@.screen_ok(),
            },
    {
        let mut strings: Vec<Span> = Vec::new();
        let height: u32 = self.size.content.h as u32 + self.size.border.top as u32
            + self.size.border.bottom as u32;
        let mut line: u32 = 0;
        assert(span_views(strings@) =~= self@.rows(0));
        while line < height
            invariant
                line <= height,
                height == self@.size.outer_height(),
                self@.paintable(),
                span_views(strings@) == self@.rows(line as int),
                forall|l: int| 0 <= l < line ==> self@.row_ok(l),
            decreases height - line,
        {
            match self.render_line(line, &mut strings) {
                Some(_) => {},
                None => {
                    return None;
                },
            }
            let ghost row = span_views(strings@);
            let mut newline = String::new();
            newline.push('\n');
            assert(newline@ =~= seq!['\n']);
            strings.push(Span { style: ansi_term::Style::new(), text: newline });
            assert(span_views(strings@) =~= row + seq![
                SpanModel { style: plain_style(), text: seq!['\n'] },
            ]);
            line += 1;
        }
        Some(write_spans(&strings))
    }

    /// Appends what the box shows on one row and tells the column where it
    /// starts and the columns it takes. It tells nothing where the box is
    /// not sound on the row; what it has appended by then is of no use.
    pub fn render_line(&self, line: u32, strings: &mut Vec<Span>) -> (extent: Option<(u32, u32)>)
        requires
            self@.paintable(),
        ensures
            match extent {
                Some(extent) => {
                    &&& self@.row_ok(line as int)
                    &&& span_views(final(strings)@) == span_views(old(strings)@) + self@.row(
                        line as int,
                    ).spans
                    &&& extent.0 == self@.row(line as int).start
                    &&& extent.1 == self@.row(line as int).len
                },
                None => !self@.row_ok(line as int),
            },
        decreases self@.weight(),
    {
        let x: u32 = self.size.content.x as u32;
        let y: u32 = self.size.content.y as u32;
        let w: u32 = self.size.content.w as u32;
        let h: u32 = self.size.content.h as u32;
        if (line as u64) + (self.size.border.top as u64) < y as u64 || line >= y + h
            + self.size.border.bottom as u32 {
            assert(span_views(strings@) =~= span_views(old(strings)@) + Seq::<SpanModel>::empty());
            return Some((0, 0));
        }
        if line < y || line >= y + h {
            return Some(self.render_borderline(line, strings));
        }
        self.render_borderside(true, strings);
        let ghost base = span_views(strings@);
        let mut pos: u32 = x;
        match &self.kind {
            BoxKind::Text(text) => {
                let width = str_width(text.as_str());
                if width > w as usize {
                    return None;
                }
                strings.push(Span { style: self.style.to_ansi(), text: text.clone() });
                pos = x + width as u32;
                assert(span_views(strings@) =~= base + seq![
                    SpanModel { style: self@.style.ansi(), text: text@ },
                ]);
            },
            _ => {
                let mut i: usize = 0;
                assert(span_views(strings@) =~= base + self@.filled(0, line as int).spans);
                while i < self.children.len()
                    invariant
                        0 <= i <= self.children@.len(),
                        self@.paintable(),
                        !(self@.kind is Text),
                        x == self@.size.content.x,
                        w == self@.size.content.w,
                        self@.size.content.y <= line < self@.size.content.y
                            + self@.size.content.h,
                        span_views(strings@) == base + self@.filled(i as int, line as int).spans,
                        pos == self@.filled(i as int, line as int).pos,
                        self@.filled_ok(i as int, line as int),
                        pos <= 0x4ffff,
                    decreases self.children@.len() - i,
                {
                    proof {
                        lemma_child_weight(self@, i as int);
                        assert(self@.children[i as int] == self.children@[i as int]@);
                        if self@.filled_ok(self.children@.len() as int, line as int) {
                            lemma_filled_ok_prefix(
                                self@,
                                i as int + 1,
                                self.children@.len() as int,
                                line as int,
                            );
                        }
                    }
                    let ghost filled = self@.filled(i as int, line as int);
                    let ghost child = self@.children[i as int].row(line as int);
                    let ghost painted_before = strings@;
                    let insert_point = strings.len();
                    let (start, len) = match self.children[i].render_line(line, strings) {
                        Some(extent) => extent,
                        None => {
                            assert(!self@.filled_ok(i as int + 1, line as int));
                            return None;
                        },
                    };
                    proof {
                        assert(span_views(strings@).len() == strings@.len());
                        assert(span_views(painted_before).len() == painted_before.len());
                    }
                    if len == 0 {
                        assert(base + filled.spans + child.spans =~= base + (filled.spans
                            + child.spans));
                        i += 1;
                        continue ;
                    }
                    if start < pos || start + len > x + w {
                        assert(!self@.filled_ok(i as int + 1, line as int));
                        return None;
                    }
                    if start > pos {
                        let ghost painted = strings@;
                        self.render_charline(' ', start - pos, Some(insert_point), strings);
                        assert(span_views(strings@) =~= base + (filled.spans + seq![
                            self@.run(' ', start - pos),
                        ] + child.spans)) by {
                            assert(span_views(painted.insert(insert_point as int, strings@[insert_point as int]))
                                =~= span_views(painted).insert(
                                insert_point as int,
                                strings@[insert_point as int]@,
                            ));
                            assert(span_views(painted) == base + filled.spans + child.spans);
                            assert(insert_point == (base + filled.spans).len());
                        }
                    } else {
                        assert(base + filled.spans + child.spans =~= base + (filled.spans
                            + child.spans));
                    }
                    pos = start + len;
                    i += 1;
                }
                if pos > x + w {
                    return None;
                }
            },
        }
        let ghost inner = span_views(strings@);
        if pos < x + w {
            self.render_charline(' ', x + w - pos, None, strings);
        } else {
            assert(inner + Seq::<SpanModel>::empty() =~= inner);
        }
        self.render_borderside(false, strings);
        proof {
            let row = self@.row(line as int);
            assert(span_views(strings@) =~= span_views(old(strings)@) + row.spans);
        }
        Some(
            (
                if x >= self.size.border.left as u32 {
                    x - self.size.border.left as u32
                } else {
                    0
                },
                w + self.size.border.left as u32 + self.size.border.right as u32,
            ),
        )
    }

    /// Appends the border line above the content, if `line` lies above it,
    /// or else the one below.
    pub fn render_borderline(&self, line: u32, strings: &mut Vec<Span>) -> (extent: (u32, u32))
        ensures
            span_views(final(strings)@) == span_views(old(strings)@).push(
                self@.border_line(line < self.size.content.y),
            ),
            extent.0 == self@.left_edge(),
            extent.1 == self@.size.outer_width(),
    {
        let is_top = line < self.size.content.y as u32;
        let mut s = String::new();
        push_repeated(
            &mut s,
            if is_top {
                '┌'
            } else {
                '└'
            },
            self.size.border.left,
        );
        push_repeated(&mut s, self.style.border_type.horizontal_glyph(), self.size.content.w);
        push_repeated(
            &mut s,
            if is_top {
                '┐'
            } else {
                '┘'
            },
            self.size.border.right,
        );
        assert(s@ =~= self@.border_line(is_top).text);
        strings.push(Span { style: self.style.to_ansi(), text: s });
        assert(span_views(strings@) =~= span_views(old(strings)@).push(self@.border_line(is_top)));
        (
            if self.size.content.x >= self.size.border.left {
                (self.size.content.x - self.size.border.left) as u32
            } else {
                0
            },
            self.size.content.w as u32 + self.size.border.left as u32
                + self.size.border.right as u32,
        )
    }

    /// Appends the left or the right border beside the content.
    pub fn render_borderside(&self, is_left: bool, strings: &mut Vec<Span>)
        ensures
            span_views(final(strings)@) == span_views(old(strings)@).push(
                self@.border_side(is_left),
            ),
    {
        let width = if is_left {
            self.size.border.left
        } else {
            self.size.border.right
        };
        let s = repeated(self.style.border_type.vertical_glyph(), width as u32);
        strings.push(Span { style: self.style.to_ansi(), text: s });
        assert(span_views(strings@) =~= span_views(old(strings)@).push(self@.border_side(is_left)));
    }

    /// Adds `n` glyphs in the style of the box: at position `insert` of the
    /// spans, or at their end.
    pub fn render_charline(&self, c: char, n: u32, insert: Option<usize>, strings: &mut Vec<Span>)
        requires
            insert matches Some(at) ==> at <= old(strings)@.len(),
        ensures
            span_views(final(strings)@) == (match insert {
                Some(at) => span_views(old(strings)@).insert(at as int, self@.run(c, n as int)),
                None => span_views(old(strings)@).push(self@.run(c, n as int)),
            }),
            insert matches Some(at) ==> final(strings)@ == old(strings)@.insert(
                at as int,
                final(strings)@[at as int],
            ),
    {
        let s = repeated(c, n);
        let span = Span { style: self.style.to_ansi(), text: s };
        match insert {
            Some(at) => {
                strings.insert(at, span);
                assert(span_views(strings@) =~= span_views(old(strings)@).insert(
                    at as int,
                    self@.run(c, n as int),
                ));
            },
            None => {
                strings.push(span);
                assert(span_views(strings@) =~= span_views(old(strings)@).push(
                    self@.run(c, n as int),
                ));
            },
        }
    }
}

} // verus!
