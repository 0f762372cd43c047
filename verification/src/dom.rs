//! The document tree: boxes with a kind, a geometry, a style and children.

use vstd::prelude::*;
use crate::style::DomStyle;

verus! {

/// A rectangle of terminal cells.
#[derive(Clone, Copy, Debug, PartialEq, Eq, Structural)]
pub struct Rect {
    pub x: u16,
    pub y: u16,
    pub w: u16,
    pub h: u16,
}

/// The widths of the four border edges of a box.
#[derive(Clone, Copy, Debug, PartialEq, Eq, Structural)]
pub struct Edges {
    pub top: u16,
    pub bottom: u16,
    pub left: u16,
    pub right: u16,
}

/// The geometry of a box: its content rectangle and the border around it.
#[derive(Clone, Copy, Debug, PartialEq, Eq, Structural)]
pub struct BoxSize {
    pub content: Rect,
    pub border: Edges,
}

impl BoxSize {
    /// The geometry of a box that has not been laid out.
    pub open spec fn zero() -> BoxSize {
        BoxSize {
            content: Rect { x: 0, y: 0, w: 0, h: 0 },
            border: Edges { top: 0, bottom: 0, left: 0, right: 0 },
        }
    }

    /// Content height and the two horizontal border edges.
    pub open spec fn outer_height(self) -> int {
        self.content.h + self.border.top + self.border.bottom
    }

    /// Content width and the two vertical border edges.
    pub open spec fn outer_width(self) -> int {
        self.content.w + self.border.left + self.border.right
    }
}

impl Default for BoxSize {
    fn default() -> (size: BoxSize)
        ensures
            size == BoxSize::zero(),
    {
        BoxSize {
            content: Rect { x: 0, y: 0, w: 0, h: 0 },
            border: Edges { top: 0, bottom: 0, left: 0, right: 0 },
        }
    }
}

/// Where the next box goes, and the geometry of the container it goes into.
#[derive(Clone, Copy, Debug, PartialEq, Eq, Structural)]
pub struct BoxCursor {
    pub container: BoxSize,
    pub x: u16,
    pub y: u16,
}

/// What laying out a box came to.
#[derive(Debug, PartialEq, Eq)]
pub enum LayoutRes<T> {
    /// The box fits where it is.
    Normal,
    /// The box kept what fits; the rest is the continuation to place after it.
    CutHere(T),
    /// Nothing of the box fits here; it is to be tried again on a fresh line.
    Reject,
}

/// What a box is.
#[derive(Debug, PartialEq, Eq)]
pub enum BoxKind {
    Text(String),
    Break,
    InlineContainer,
    Inline,
    Block,
    Header(u8),
    List(Option<u16>),
    ListBullet,
    Table,
    TableColumn,
    TableItem,
    Image,
}

/// The mathematical value of a `BoxKind`.
pub enum KindModel {
    Text(Seq<char>),
    Break,
    InlineContainer,
    Inline,
    Block,
    Header(u8),
    List(Option<u16>),
    ListBullet,
    Table,
    TableColumn,
    TableItem,
    Image,
}

impl View for BoxKind {
    type V = KindModel;

    open spec fn view(&self) -> KindModel {
        match *self {
            BoxKind::Text(text) => KindModel::Text(text@),
            BoxKind::Break => KindModel::Break,
            BoxKind::InlineContainer => KindModel::InlineContainer,
            BoxKind::Inline => KindModel::Inline,
            BoxKind::Block => KindModel::Block,
            BoxKind::Header(level) => KindModel::Header(level),
            BoxKind::List(start) => KindModel::List(start),
            BoxKind::ListBullet => KindModel::ListBullet,
            BoxKind::Table => KindModel::Table,
            BoxKind::TableColumn => KindModel::TableColumn,
            BoxKind::TableItem => KindModel::TableItem,
            BoxKind::Image => KindModel::Image,
        }
    }
}

impl Clone for BoxKind {
    fn clone(&self) -> (kind: BoxKind)
        ensures
            kind@ == self@,
    {
        match self {
            BoxKind::Text(text) => BoxKind::Text(text.clone()),
            BoxKind::Break => BoxKind::Break,
            BoxKind::InlineContainer => BoxKind::InlineContainer,
            BoxKind::Inline => BoxKind::Inline,
            BoxKind::Block => BoxKind::Block,
            BoxKind::Header(level) => BoxKind::Header(*level),
            BoxKind::List(start) => BoxKind::List(*start),
            BoxKind::ListBullet => BoxKind::ListBullet,
            BoxKind::Table => BoxKind::Table,
            BoxKind::TableColumn => BoxKind::TableColumn,
            BoxKind::TableItem => BoxKind::TableItem,
            BoxKind::Image => BoxKind::Image,
        }
    }
}

/// One box of the document tree. A box owns its children.
#[derive(Debug, PartialEq, Eq)]
pub struct DomBox {
    pub kind: BoxKind,
    pub size: BoxSize,
    pub style: DomStyle,
    pub children: Vec<DomBox>,
}

/// The mathematical value of a `DomBox`: the same record over sequences.
pub struct BoxModel {
    pub kind: KindModel,
    pub size: BoxSize,
    pub style: DomStyle,
    pub children: Seq<BoxModel>,
}

/// The value of a box: its own fields and the values of its children.
pub open spec fn model_of(b: DomBox) -> BoxModel
    decreases b,
{
    BoxModel {
        kind: b.kind@,
        size: b.size,
        style: b.style,
        children: Seq::new(
            b.children@.len(),
            |i: int|
                if 0 <= i < b.children@.len() {
                    model_of(b.children@[i])
                } else {
                    arbitrary()
                },
        ),
    }
}

impl View for DomBox {
    type V = BoxModel;

    open spec fn view(&self) -> BoxModel {
        model_of(*self)
    }
}

/// The values of a sequence of boxes.
pub open spec fn views(boxes: Seq<DomBox>) -> Seq<BoxModel> {
    Seq::new(boxes.len(), |i: int| boxes[i]@)
}

/// The children of a box's value are the values of its children.
pub broadcast proof fn lemma_children_views(b: DomBox)
    ensures
        #![trigger b@]
        b@.children == views(b.children@),
{
    assert(b@.children.len() == b.children@.len());
    assert forall|i: int| 0 <= i < b.children@.len() implies b@.children[i] == b.children@[i]@ by {}
    assert(b@.children =~= views(b.children@));
}

impl<T: View> View for LayoutRes<T> {
    type V = LayoutRes<T::V>;

    open spec fn view(&self) -> LayoutRes<T::V> {
        match *self {
            LayoutRes::Normal => LayoutRes::Normal,
            LayoutRes::CutHere(rest) => LayoutRes::CutHere(rest@),
            LayoutRes::Reject => LayoutRes::Reject,
        }
    }
}

impl BoxModel {
    /// A box of the given kind and style that has no geometry and no children.
    pub open spec fn fresh(kind: KindModel, style: DomStyle) -> BoxModel {
        BoxModel { kind, size: BoxSize::zero(), style, children: Seq::empty() }
    }

    /// The box with one more child at the end.
    pub open spec fn with_child(self, child: BoxModel) -> BoxModel {
        BoxModel { children: self.children.push(child), ..self }
    }

    /// The box with its last child replaced.
    pub open spec fn with_last(self, child: BoxModel) -> BoxModel {
        BoxModel { children: self.children.update(self.children.len() - 1, child), ..self }
    }

    /// Whether inline content goes into the box itself.
    pub open spec fn holds_inline(self) -> bool {
        self.kind is Inline || self.kind is InlineContainer
    }

    /// Whether the last child is a line that takes more inline content.
    pub open spec fn ends_with_line(self) -> bool {
        self.children.len() > 0 && self.children.last().kind is InlineContainer
    }

    /// The line that inline content added to the box goes into: the box
    /// itself, its last child if that is a line, or else a new, empty line.
    pub open spec fn line(self) -> BoxModel {
        if self.holds_inline() {
            self
        } else if self.ends_with_line() {
            self.children.last()
        } else {
            BoxModel::fresh(KindModel::InlineContainer, self.style)
        }
    }

    /// The box once its line has become `line`.
    pub open spec fn with_line(self, line: BoxModel) -> BoxModel {
        if self.holds_inline() {
            line
        } else if self.ends_with_line() {
            self.with_last(line)
        } else {
            self.with_child(line)
        }
    }

    /// The box with `child` added as inline content.
    pub open spec fn with_inline(self, child: BoxModel) -> BoxModel {
        self.with_line(self.line().with_child(child))
    }
}

/// Appending a box appends its value.
pub proof fn lemma_views_push(boxes: Seq<DomBox>, last: DomBox)
    ensures
        views(boxes.push(last)) == views(boxes).push(last@),
{
    assert(views(boxes.push(last)) =~= views(boxes).push(last@));
}

/// Replacing a box replaces its value.
pub proof fn lemma_views_update(boxes: Seq<DomBox>, i: int, b: DomBox)
    requires
        0 <= i < boxes.len(),
    ensures
        views(boxes.update(i, b)) == views(boxes).update(i, b@),
{
    assert(views(boxes.update(i, b)) =~= views(boxes).update(i, b@));
}

/// The values of a part of a sequence are that part of its values.
pub proof fn lemma_views_subrange(boxes: Seq<DomBox>, from: int, to: int)
    requires
        0 <= from <= to <= boxes.len(),
    ensures
        views(boxes.subrange(from, to)) == views(boxes).subrange(from, to),
{
    assert(views(boxes.subrange(from, to)) =~= views(boxes).subrange(from, to));
}

/// Inserting a box inserts its value.
pub proof fn lemma_views_insert(boxes: Seq<DomBox>, i: int, b: DomBox)
    requires
        0 <= i <= boxes.len(),
    ensures
        views(boxes.insert(i, b)) == views(boxes).insert(i, b@),
{
    assert(views(boxes.insert(i, b)) =~= views(boxes).insert(i, b@));
}

/// Removing a box removes its value.
pub proof fn lemma_views_remove(boxes: Seq<DomBox>, i: int)
    requires
        0 <= i < boxes.len(),
    ensures
        views(boxes.remove(i)) == views(boxes).remove(i),
{
    assert(views(boxes.remove(i)) =~= views(boxes).remove(i));
}

impl DomBox {
    /// A box of the given kind and style without geometry or children.
    pub fn new_child(kind: BoxKind, style: DomStyle) -> (child: DomBox)
        ensures
            child@ == BoxModel::fresh(kind@, style),
            child.children@.len() == 0,
    {
        broadcast use lemma_children_views;

        let child = DomBox { size: BoxSize::default(), kind, style, children: Vec::new() };
        assert(child@.children =~= Seq::empty());
        child
    }

    /// The root of a document: a block whose content width is the column
    /// budget.
    pub fn new_root(width: u16) -> (root: DomBox)
        ensures
            root@ == (BoxModel {
                size: BoxSize {
                    content: Rect { x: 0, y: 0, w: width, h: 0 },
                    border: BoxSize::zero().border,
                },
                ..BoxModel::fresh(KindModel::Block, DomStyle::plain())
            }),
    {
        let mut dombox = DomBox::new_block();
        dombox.size.content.w = width;
        dombox
    }

    /// An empty block.
    pub fn new_block() -> (block: DomBox)
        ensures
            block@ == BoxModel::fresh(KindModel::Block, DomStyle::plain()),
    {
        DomBox::new_child(BoxKind::Block, DomStyle::default())
    }

    /// Takes an existing box as the last child.
    pub fn swallow(&mut self, existing: DomBox)
        ensures
            final(self)@ == old(self)@.with_child(existing@),
    {
        broadcast use lemma_children_views;

        self.children.push(existing);
        proof {
            lemma_views_push(old(self).children@, existing);
        }
    }

    /// Adds a child of the given kind, with the style of this box, as the last
    /// child, and hands it out.
    fn add_child(&mut self, kind: BoxKind) -> (child: &mut DomBox)
        ensures
            child@ == BoxModel::fresh(kind@, old(self).style),
            final(self)@ == old(self)@.with_child(final(child)@),
    {
        broadcast use lemma_children_views;

        let style = self.style;
        self.children.push(DomBox::new_child(kind, style));
        let last = self.children.len() - 1;
        let ghost pushed = self.children@;
        let child = &mut self.children[last];
        proof {
            assert(pushed.update(last as int, *final(child)) =~= old(self).children@.push(
                *final(child),
            ));
            lemma_views_push(old(self).children@, *final(child));
        }
        child
    }

    /// The line that inline content of this box goes into: the box itself
    /// where it is an inline span or a line, else its last child where that is
    /// a line, else a new line added at the end.
    pub fn get_inline_container(&mut self) -> (line: &mut DomBox)
        ensures
            line@ == old(self)@.line(),
            final(self)@ == old(self)@.with_line(final(line)@),
    {
        broadcast use lemma_children_views;

        let holds_inline = match self.kind {
            BoxKind::Inline => true,
            BoxKind::InlineContainer => true,
            _ => false,
        };
        if holds_inline {
            return self;
        }
        let count = self.children.len();
        let has_line = count > 0 && match self.children[count - 1].kind {
            BoxKind::InlineContainer => true,
            _ => false,
        };
        if has_line {
            let line = &mut self.children[count - 1];
            proof {
                lemma_views_update(old(self).children@, count - 1, *final(line));
            }
            line
        } else {
            self.add_child(BoxKind::InlineContainer)
        }
    }

    /// The style of the line that inline content of this box goes into.
    pub fn line_style(&self) -> (style: DomStyle)
        ensures
            style == self@.line().style,
    {
        broadcast use lemma_children_views;

        let holds_inline = match self.kind {
            BoxKind::Inline => true,
            BoxKind::InlineContainer => true,
            _ => false,
        };
        if holds_inline {
            return self.style;
        }
        let count = self.children.len();
        let has_line = count > 0 && match self.children[count - 1].kind {
            BoxKind::InlineContainer => true,
            _ => false,
        };
        if has_line {
            self.children[count - 1].style
        } else {
            self.style
        }
    }

    /// Takes an existing box as inline content.
    pub fn swallow_inline(&mut self, existing: DomBox)
        ensures
            final(self)@ == old(self)@.with_inline(existing@),
    {
        let line = self.get_inline_container();
        line.swallow(existing);
    }

    /// Adds a text as inline content and hands it out.
    pub fn add_text(&mut self, text: String) -> (child: &mut DomBox)
        ensures
            child@ == BoxModel::fresh(KindModel::Text(text@), old(self)@.line().style),
            final(self)@ == old(self)@.with_inline(final(child)@),
    {
        let inline_container = self.get_inline_container();
        inline_container.add_child(BoxKind::Text(text))
    }

    /// Adds an inline span as inline content and hands it out.
    pub fn add_inline(&mut self) -> (child: &mut DomBox)
        ensures
            child@ == BoxModel::fresh(KindModel::Inline, old(self)@.line().style),
            final(self)@ == old(self)@.with_inline(final(child)@),
    {
        let inline_container = self.get_inline_container();
        inline_container.add_child(BoxKind::Inline)
    }

    /// Adds a block as the last child and hands it out.
    pub fn add_block(&mut self) -> (child: &mut DomBox)
        ensures
            child@ == BoxModel::fresh(KindModel::Block, old(self).style),
            final(self)@ == old(self)@.with_child(final(child)@),
    {
        self.add_child(BoxKind::Block)
    }

    /// Adds a header of the given level as the last child and hands it out.
    pub fn add_header(&mut self, level: u8) -> (child: &mut DomBox)
        ensures
            child@ == BoxModel::fresh(KindModel::Header(level), old(self).style),
            final(self)@ == old(self)@.with_child(final(child)@),
    {
        self.add_child(BoxKind::Header(level))
    }

    /// Adds a list as the last child and hands it out.
    pub fn add_list(&mut self, start: Option<u16>) -> (child: &mut DomBox)
        ensures
            child@ == BoxModel::fresh(KindModel::List(start), old(self).style),
            final(self)@ == old(self)@.with_child(final(child)@),
    {
        self.add_child(BoxKind::List(start))
    }

    /// Adds a list bullet as the last child and hands it out.
    pub fn add_bullet(&mut self) -> (child: &mut DomBox)
        ensures
            child@ == BoxModel::fresh(KindModel::ListBullet, old(self).style),
            final(self)@ == old(self)@.with_child(final(child)@),
    {
        self.add_child(BoxKind::ListBullet)
    }

    /// Adds a line-break marker as the last child and hands it out.
    pub fn add_break(&mut self) -> (child: &mut DomBox)
        ensures
            child@ == BoxModel::fresh(KindModel::Break, old(self).style),
            final(self)@ == old(self)@.with_child(final(child)@),
    {
        self.add_child(BoxKind::Break)
    }
}

} // verus!
