//! What laying out a box means: the flow of boxes inside a column budget,
//! stated over the values of boxes.

use vstd::prelude::*;
use crate::dom::{BoxCursor, BoxModel, BoxSize, Edges, KindModel, LayoutRes, Rect};
use crate::text::{
    byte_len, cut_offset, display_width, grapheme_starts, text_before, text_from,
};

verus! {

/// An amount of cells as a coordinate: kept within the range of `u16`.
pub open spec fn clamp(n: int) -> u16 {
    if n < 0 {
        0u16
    } else if n > 0xffff {
        0xffffu16
    } else {
        n as u16
    }
}

/// The sum of the weights of some boxes.
pub open spec fn weights(boxes: Seq<BoxModel>) -> nat
    decreases boxes, 0int,
{
    if boxes.len() == 0 {
        0
    } else {
        boxes[0].weight() + weights(boxes.drop_first())
    }
}

impl BoxModel {
    /// The bytes of text that the box itself holds.
    pub open spec fn text_bytes(self) -> nat {
        match self.kind {
            KindModel::Text(text) => byte_len(text),
            _ => 0,
        }
    }

    /// How much there is to lay out: one for each box of the subtree and one
    /// for each byte of its texts. A continuation weighs less than the box it
    /// was cut from.
    pub open spec fn weight(self) -> nat
        decreases self, 1int,
    {
        1 + self.text_bytes() + weights(self.children)
    }

    /// Whether the box is a text or an inline span.
    pub open spec fn is_inline_leaf(self) -> bool {
        self.kind is Text || self.kind is Inline
    }

    /// Whether the box stacks its children: a block, a header or a bullet.
    pub open spec fn is_block_like(self) -> bool {
        self.kind is Block || self.kind is Header || self.kind is ListBullet
    }

    /// Whether the box has no border to its left and right.
    pub open spec fn no_side_border(self) -> bool {
        self.size.border.left == 0 && self.size.border.right == 0
    }

    /// Whether the layout has a rule for every box it reaches in the subtree:
    /// blocks, headers and bullets stack anything but bare inline content;
    /// lists hold bullets and blocks; lines and inline spans hold anything;
    /// texts and inline spans carry no side border; a line-break marker
    /// stands only inside a stacking box, a line or an inline span.
    ///
    /// This is told from the shape of the tree alone, before any width is
    /// known, and is enough for a layout not to fail. It is not needed: a
    /// text that stands bare in a block, or that has a side border, is laid
    /// out as long as it is never rejected, which depends on the widths met
    /// on the way.
    pub open spec fn lays_out(self) -> bool
        decreases self,
    {
        match self.kind {
            KindModel::Block | KindModel::Header(_) | KindModel::ListBullet => forall|i: int|
                0 <= i < self.children.len() ==> (#[trigger] self.children[i]).kind is Break || (
                self.children[i].lays_out() && !self.children[i].is_inline_leaf()),
            KindModel::List(_) => forall|i: int|
                0 <= i < self.children.len() ==> ((#[trigger] self.children[i]).kind is ListBullet
                    || self.children[i].kind is Block) && self.children[i].lays_out(),
            KindModel::InlineContainer => forall|i: int|
                0 <= i < self.children.len() ==> (#[trigger] self.children[i]).kind is Break
                    || self.children[i].lays_out(),
            KindModel::Inline => self.no_side_border() && forall|i: int|
                0 <= i < self.children.len() ==> (#[trigger] self.children[i]).kind is Break
                    || self.children[i].lays_out(),
            KindModel::Text(_) => self.no_side_border(),
            _ => false,
        }
    }
}

/// The content width of a block at the cursor: what remains of the container
/// beside the cursor, less the side borders, and one column where nothing
/// remains.
pub open spec fn block_width(c: BoxCursor, border: Edges) -> u16 {
    let room = c.container.content.w - c.x + c.container.content.x;
    if room > border.left + border.right {
        clamp(room - border.left - border.right)
    } else {
        1u16
    }
}

/// The content width of a list or of a line: that of the container less the
/// side borders, and one column where nothing remains.
pub open spec fn line_width(c: BoxCursor, border: Edges) -> u16 {
    if c.container.content.w > border.left + border.right {
        (c.container.content.w - border.left - border.right) as u16
    } else {
        1u16
    }
}

/// The width available to inline content at the cursor: what remains of the
/// container's line, less the side borders, and nothing where none remains.
pub open spec fn inline_room(c: BoxCursor, border: Edges) -> u16 {
    clamp(c.container.content.w - (c.x - c.container.content.x) - (border.left + border.right))
}

/// The geometry of a box placed at the cursor with the given content extent.
pub open spec fn placed(size: BoxSize, c: BoxCursor, w: u16, h: u16) -> BoxSize {
    BoxSize {
        content: Rect { x: clamp(c.x + size.border.left), y: clamp(c.y + size.border.top), w, h },
        border: size.border,
    }
}

/// The cursor at the content origin of a container.
pub open spec fn inner_cursor(size: BoxSize) -> BoxCursor {
    BoxCursor { x: size.content.x, y: size.content.y, container: size }
}

/// The sum of the outer heights of some boxes.
pub open spec fn outer_heights(boxes: Seq<BoxModel>) -> int
    decreases boxes.len(),
{
    if boxes.len() == 0 {
        0
    } else {
        outer_heights(boxes.drop_last()) + boxes.last().size.outer_height()
    }
}

/// The sum of the outer heights of the blocks among some boxes.
pub open spec fn block_heights(boxes: Seq<BoxModel>) -> int
    decreases boxes.len(),
{
    if boxes.len() == 0 {
        0
    } else if boxes.last().kind is Block {
        block_heights(boxes.drop_last()) + boxes.last().size.outer_height()
    } else {
        block_heights(boxes.drop_last())
    }
}

/// The largest outer width among some boxes.
pub open spec fn widest(boxes: Seq<BoxModel>) -> u16
    decreases boxes.len(),
{
    if boxes.len() == 0 {
        0u16
    } else {
        let before = widest(boxes.drop_last());
        let last = clamp(boxes.last().size.outer_width());
        if last > before {
            last
        } else {
            before
        }
    }
}

/// A box after its layout, the cursor after it, and the outcome; or that the
/// layout failed, in which case the rest is of no use. A layout fails where
/// it comes to a box of a kind it has no rule for, to a child of a list that
/// is neither a bullet nor a block, to a child of a stacking box that is
/// rejected, or to the first child of a line that is rejected.
pub struct Laid {
    pub node: BoxModel,
    pub cursor: BoxCursor,
    pub res: LayoutRes<BoxModel>,
    pub failed: bool,
}

/// A box fitted into the place it was given, and the outcome.
pub struct Fitted {
    pub node: BoxModel,
    pub res: LayoutRes<BoxModel>,
    pub failed: bool,
}

/// Boxes stacked below one another and the cursor below them.
pub struct Stack {
    pub boxes: Seq<BoxModel>,
    pub cursor: BoxCursor,
    pub failed: bool,
}

/// One line of inline content: the boxes that stay on it, the boxes that go
/// to the next line if the line was cut, and whether its first box found no
/// room at all.
pub struct Line {
    pub kept: Seq<BoxModel>,
    pub rest: Option<Seq<BoxModel>>,
    pub rejected: bool,
    pub cursor: BoxCursor,
    pub failed: bool,
}

/// A box laid out at the cursor, by the rule of its kind.
pub open spec fn laid_out(b: BoxModel, c: BoxCursor) -> Laid
    decreases b.weight(), 2int,
{
    match b.kind {
        KindModel::Block | KindModel::ListBullet | KindModel::Header(_) => lay_block(b, c),
        KindModel::InlineContainer => lay_inline_container(b, c),
        KindModel::List(_) => lay_list(b, c),
        KindModel::Text(_) | KindModel::Inline => lay_inline(b, c),
        _ => Laid { node: b, cursor: c, res: LayoutRes::Normal, failed: true },
    }
}

/// Boxes laid out one below the other from the cursor on. A line-break marker
/// is dropped. The continuation of a box that was cut is laid out next.
/// Stacking fails at a box whose layout fails or that is rejected.
/// Stacking ends because a continuation weighs less than the box it was cut
/// from; one that did not would be left out.
pub open spec fn stacked(todo: Seq<BoxModel>, c: BoxCursor) -> Stack
    decreases weights(todo), 4int,
{
    if todo.len() == 0 {
        Stack { boxes: Seq::empty(), cursor: c, failed: false }
    } else {
        stacked_from(todo[0], todo.drop_first(), c)
    }
}

/// `stacked` for a first box and the boxes after it.
pub open spec fn stacked_from(first: BoxModel, rest: Seq<BoxModel>, c: BoxCursor) -> Stack
    decreases first.weight() + weights(rest), 3int,
{
    if first.kind is Break {
        stacked(rest, c)
    } else {
        let top = laid_out(first, c);
        if top.failed || top.res is Reject {
            Stack { boxes: seq![top.node] + rest, cursor: top.cursor, failed: true }
        } else {
            let below = match top.res {
                LayoutRes::CutHere(next) if next.weight() < first.weight() => stacked_from(
                    next,
                    rest,
                    top.cursor,
                ),
                _ => stacked(rest, top.cursor),
            };
            Stack {
                boxes: seq![top.node] + below.boxes,
                cursor: below.cursor,
                failed: below.failed,
            }
        }
    }
}

/// Boxes laid out side by side from the cursor on, up to the first that ends
/// the line: a line-break marker, which is dropped and sends what follows to
/// the next line; a box that was cut, whose continuation goes to the next
/// line with what follows; a box that found no room, which goes to the next
/// line itself unless it is the first of the line. Lining up fails where the
/// layout of one of the boxes fails.
pub open spec fn lined_up(todo: Seq<BoxModel>, at_start: bool, c: BoxCursor) -> Line
    decreases weights(todo), 4int,
{
    if todo.len() == 0 {
        Line { kept: Seq::empty(), rest: None, rejected: false, cursor: c, failed: false }
    } else if todo[0].kind is Break {
        Line {
            kept: Seq::empty(),
            rest: Some(todo.drop_first()),
            rejected: false,
            cursor: c,
            failed: false,
        }
    } else {
        let first = laid_out(todo[0], c);
        match first.res {
            LayoutRes::Normal => {
                let after = lined_up(todo.drop_first(), false, first.cursor);
                Line {
                    kept: seq![first.node] + after.kept,
                    failed: first.failed || after.failed,
                    ..after
                }
            },
            LayoutRes::CutHere(next) => Line {
                kept: seq![first.node],
                rest: Some(seq![next] + todo.drop_first()),
                rejected: false,
                cursor: first.cursor,
                failed: first.failed,
            },
            LayoutRes::Reject => if at_start {
                Line {
                    kept: seq![first.node] + todo.drop_first(),
                    rest: None,
                    rejected: true,
                    cursor: first.cursor,
                    failed: first.failed,
                }
            } else {
                Line {
                    kept: Seq::empty(),
                    rest: Some(seq![first.node] + todo.drop_first()),
                    rejected: false,
                    cursor: first.cursor,
                    failed: first.failed,
                }
            },
        }
    }
}

/// The children of a placed line or inline span lined up inside it. The box
/// becomes as wide as the cursor travelled. Where the line was cut, the
/// outcome is a continuation: a box like this one, as it was placed, that
/// holds what goes to the next line. Where nothing ended the line, the
/// outcome is `res`.
pub open spec fn lay_children_inline(b: BoxModel, res: LayoutRes<BoxModel>) -> Fitted
    decreases b.weight(), 0int,
{
    let line = lined_up(b.children, true, inner_cursor(b.size));
    let w = clamp(line.cursor.x - b.size.content.x);
    Fitted {
        node: BoxModel {
            size: BoxSize { content: Rect { w, ..b.size.content }, ..b.size },
            children: line.kept,
            ..b
        },
        res: if line.rejected {
            LayoutRes::Reject
        } else {
            match line.rest {
                Some(rest) => LayoutRes::CutHere(BoxModel { children: rest, ..b }),
                None => res,
            }
        },
        failed: line.failed,
    }
}

/// A block, header or bullet laid out at the cursor: placed there, its
/// children stacked inside, as high as they are together, and as wide as the
/// widest of them unless its style keeps the allotted width. A bullet moves
/// the cursor to its right; the others move it below them, back to the left
/// edge of the container.
pub open spec fn lay_block(b: BoxModel, c: BoxCursor) -> Laid
    decreases b.weight(), 1int,
{
    let start = placed(b.size, c, block_width(c, b.size.border), 0);
    let stack = stacked(b.children, inner_cursor(start));
    let h = clamp(outer_heights(stack.boxes));
    let w = if b.style.extend {
        start.content.w
    } else {
        widest(stack.boxes)
    };
    let size = BoxSize { content: Rect { w, h, ..start.content }, ..start };
    Laid {
        node: BoxModel { size, children: stack.boxes, ..b },
        cursor: if b.kind is ListBullet {
            BoxCursor { x: clamp(c.x + size.outer_width()), ..c }
        } else {
            BoxCursor { x: c.container.content.x, y: clamp(c.y + size.outer_height()), ..c }
        },
        res: LayoutRes::Normal,
        failed: stack.failed,
    }
}

/// A list laid out at the cursor: placed there as wide as the container
/// allows, its children stacked inside, as high as its blocks are together
/// (a bullet stands beside the block after it). It moves the cursor below it.
pub open spec fn lay_list(b: BoxModel, c: BoxCursor) -> Laid
    decreases b.weight(), 1int,
{
    let start = placed(b.size, c, line_width(c, b.size.border), 0);
    let stack = stacked(b.children, inner_cursor(start));
    let h = clamp(block_heights(stack.boxes));
    let size = BoxSize { content: Rect { h, ..start.content }, ..start };
    Laid {
        node: BoxModel { size, children: stack.boxes, ..b },
        cursor: BoxCursor { y: clamp(c.y + size.outer_height()), ..c },
        res: LayoutRes::Normal,
        failed: !list_kinds(b.children) || stack.failed,
    }
}

/// Whether every box is a bullet or a block, as the children of a list have
/// to be.
pub open spec fn list_kinds(boxes: Seq<BoxModel>) -> bool {
    forall|i: int|
        0 <= i < boxes.len() ==> (#[trigger] boxes[i]).kind is ListBullet || boxes[i].kind is Block
}

/// A line laid out at the cursor: placed there one row high, its children
/// lined up inside. It moves the cursor below it. Its layout fails where its
/// first child is rejected.
pub open spec fn lay_inline_container(b: BoxModel, c: BoxCursor) -> Laid
    decreases b.weight(), 1int,
{
    let start = placed(b.size, c, line_width(c, b.size.border), 1);
    let line = lay_children_inline(BoxModel { size: start, ..b }, LayoutRes::Normal);
    Laid {
        node: line.node,
        cursor: BoxCursor { y: clamp(c.y + line.node.size.outer_height()), ..c },
        res: line.res,
        failed: line.failed || line.res is Reject,
    }
}

/// Whether the first `count` grapheme clusters of a text display no wider
/// than the room.
pub open spec fn front_fits(text: Seq<char>, count: nat, room: u16) -> bool {
    display_width(text_before(text, cut_offset(text, count))) <= room
}

/// The number of leading grapheme clusters that stay where a text is cut,
/// counted on from `count`: one more for as long as there is one and the
/// clusters with it display no wider than the room.
pub open spec fn kept_clusters(text: Seq<char>, room: u16, count: nat) -> nat
    decreases grapheme_starts(text).len() - count,
{
    if count < grapheme_starts(text).len() && front_fits(text, count + 1, room) {
        kept_clusters(text, room, count + 1)
    } else {
        count
    }
}

/// The byte offset at which a text that is wider than the room is cut:
/// behind the leading grapheme clusters that display no wider than the room
/// together, and behind the first cluster where that alone is wider.
pub open spec fn text_cut(text: Seq<char>, room: u16) -> int {
    if front_fits(text, 1, room) {
        cut_offset(text, kept_clusters(text, room, 1))
    } else {
        cut_offset(text, 1)
    }
}

/// A text placed in the room it is given: rejected where there is none; cut
/// where it displays wider than the room, the rest being its continuation;
/// kept whole where it fits. The text that stays is as wide as it displays.
pub open spec fn lay_text(b: BoxModel, text: Seq<char>) -> Fitted {
    let room = b.size.content.w;
    if room == 0 {
        Fitted { node: b, res: LayoutRes::Reject, failed: false }
    } else if display_width(text) > room && text.len() > 0 {
        let offset = text_cut(text, room);
        let kept = text_before(text, offset);
        Fitted {
            node: BoxModel {
                kind: KindModel::Text(kept),
                size: BoxSize {
                    content: Rect { w: clamp(display_width(kept) as int), ..b.size.content },
                    ..b.size
                },
                ..b
            },
            res: LayoutRes::CutHere(
                BoxModel {
                    kind: KindModel::Text(text_from(text, offset)),
                    size: b.size,
                    style: b.style,
                    children: Seq::empty(),
                },
            ),
            failed: false,
        }
    } else {
        Fitted {
            node: BoxModel {
                size: BoxSize {
                    content: Rect { w: clamp(display_width(text) as int), ..b.size.content },
                    ..b.size
                },
                ..b
            },
            res: LayoutRes::Normal,
            failed: false,
        }
    }
}

/// Where one cluster fits, the clusters that stay fit; and no cluster more
/// would.
pub proof fn lemma_kept_clusters(text: Seq<char>, room: u16, count: nat)
    ensures
        count <= kept_clusters(text, room, count),
        front_fits(text, count, room) ==> front_fits(
            text,
            kept_clusters(text, room, count),
            room,
        ),
        !(kept_clusters(text, room, count) < grapheme_starts(text).len() && front_fits(
            text,
            kept_clusters(text, room, count) + 1,
            room,
        )),
    decreases grapheme_starts(text).len() - count,
{
    if count < grapheme_starts(text).len() && front_fits(text, count + 1, room) {
        lemma_kept_clusters(text, room, count + 1);
    }
}

/// A text or an inline span laid out at the cursor: placed there one row
/// high in the room that is left, then fitted as a text or lined up as a
/// span. It moves the cursor right by its content width.
pub open spec fn lay_inline(b: BoxModel, c: BoxCursor) -> Laid
    decreases b.weight(), 1int,
{
    let start = placed(b.size, c, inline_room(c, b.size.border), 1);
    let placed_box = BoxModel { size: start, ..b };
    let inner = match b.kind {
        KindModel::Text(text) => lay_text(placed_box, text),
        _ => lay_children_inline(placed_box, LayoutRes::Normal),
    };
    Laid {
        node: inner.node,
        cursor: BoxCursor { x: clamp(c.x + inner.node.size.content.w), ..c },
        res: inner.res,
        failed: inner.failed,
    }
}

/// Clamping the parts of a sum of amounts before adding them changes nothing.
pub proof fn lemma_clamp_add(a: int, b: int)
    requires
        0 <= a,
        0 <= b,
    ensures
        clamp(clamp(a) + clamp(b)) == clamp(a + b),
        clamp(clamp(a) + b) == clamp(a + b),
{
}

/// One more box adds its outer height to the sum, which is never negative.
pub proof fn lemma_outer_heights_push(boxes: Seq<BoxModel>, last: BoxModel)
    ensures
        outer_heights(boxes.push(last)) == outer_heights(boxes) + last.size.outer_height(),
        outer_heights(boxes) >= 0,
    decreases boxes.len(),
{
    assert(boxes.push(last).drop_last() =~= boxes);
    if boxes.len() > 0 {
        lemma_outer_heights_push(boxes.drop_last(), boxes.last());
        assert(boxes.drop_last().push(boxes.last()) =~= boxes);
    }
}

/// One more box adds its outer height to the sum over the blocks if it is a
/// block itself; the sum is never negative.
pub proof fn lemma_block_heights_push(boxes: Seq<BoxModel>, last: BoxModel)
    ensures
        block_heights(boxes.push(last)) == block_heights(boxes) + (if last.kind is Block {
            last.size.outer_height()
        } else {
            0
        }),
        block_heights(boxes) >= 0,
    decreases boxes.len(),
{
    assert(boxes.push(last).drop_last() =~= boxes);
    if boxes.len() > 0 {
        lemma_block_heights_push(boxes.drop_last(), boxes.last());
        assert(boxes.drop_last().push(boxes.last()) =~= boxes);
    }
}

/// One more box widens the widest if it is wider.
pub proof fn lemma_widest_push(boxes: Seq<BoxModel>, last: BoxModel)
    ensures
        widest(boxes.push(last)) == (if clamp(last.size.outer_width()) > widest(boxes) {
            clamp(last.size.outer_width())
        } else {
            widest(boxes)
        }),
{
    assert(boxes.push(last).drop_last() =~= boxes);
}

/// What stacking does with the first of some boxes.
pub proof fn lemma_stacked_first(todo: Seq<BoxModel>, c: BoxCursor)
    requires
        todo.len() > 0,
    ensures
        todo[0].kind is Break ==> stacked(todo, c) == stacked(todo.drop_first(), c),
        !(todo[0].kind is Break) ==> stacked(todo, c) == ({
            let top = laid_out(todo[0], c);
            if top.failed || top.res is Reject {
                Stack { boxes: seq![top.node] + todo.drop_first(), cursor: top.cursor, failed: true }
            } else {
                let below = stacked(next_in_stack(todo, top.res), top.cursor);
                Stack {
                    boxes: seq![top.node] + below.boxes,
                    cursor: below.cursor,
                    failed: below.failed,
                }
            }
        }),
{
    if !(todo[0].kind is Break) {
        let top = laid_out(todo[0], c);
        match top.res {
            LayoutRes::CutHere(next) => {
                if next.weight() < todo[0].weight() {
                    let after = seq![next] + todo.drop_first();
                    assert(after.drop_first() =~= todo.drop_first());
                    assert(after[0] == next);
                    assert(stacked(after, top.cursor) == stacked_from(
                        next,
                        todo.drop_first(),
                        top.cursor,
                    ));
                }
            },
            _ => {},
        }
    }
}

/// The boxes still to stack once the first has been laid out: its
/// continuation, if it was cut, and the boxes after it.
pub open spec fn next_in_stack(todo: Seq<BoxModel>, res: LayoutRes<BoxModel>) -> Seq<BoxModel> {
    match res {
        LayoutRes::CutHere(next) if next.weight() < todo[0].weight() => seq![next]
            + todo.drop_first(),
        _ => todo.drop_first(),
    }
}

/// The weight of boxes is the weight of the first and of those after it.
pub proof fn lemma_weights_first(boxes: Seq<BoxModel>)
    requires
        boxes.len() > 0,
    ensures
        weights(boxes) == boxes[0].weight() + weights(boxes.drop_first()),
        boxes[0].weight() >= 1,
{
}

/// A box in front of others adds its weight to theirs.
pub proof fn lemma_weights_cons(first: BoxModel, rest: Seq<BoxModel>)
    ensures
        weights(seq![first] + rest) == first.weight() + weights(rest),
{
    assert((seq![first] + rest).drop_first() =~= rest);
    assert((seq![first] + rest)[0] == first);
}

/// The weight of boxes one after the other is the sum of their weights.
pub proof fn lemma_weights_concat(front: Seq<BoxModel>, back: Seq<BoxModel>)
    ensures
        weights(front + back) == weights(front) + weights(back),
    decreases front.len(),
{
    if front.len() == 0 {
        assert(front + back =~= back);
    } else {
        lemma_weights_concat(front.drop_first(), back);
        assert((front + back).drop_first() =~= front.drop_first() + back);
        assert((front + back)[0] == front[0]);
    }
}

/// Whether every box is a line-break marker or has a layout.
pub open spec fn line_ok(boxes: Seq<BoxModel>) -> bool {
    forall|i: int| 0 <= i < boxes.len() ==> (#[trigger] boxes[i]).kind is Break || boxes[i].lays_out()
}

/// Whether every box is a line-break marker or has a layout and is no bare
/// inline content.
pub open spec fn stack_ok(boxes: Seq<BoxModel>) -> bool {
    forall|i: int|
        0 <= i < boxes.len() ==> (#[trigger] boxes[i]).kind is Break || (boxes[i].lays_out()
            && !boxes[i].is_inline_leaf())
}

/// Whether every box is a bullet or a block that has a layout.
pub open spec fn list_ok(boxes: Seq<BoxModel>) -> bool {
    forall|i: int|
        0 <= i < boxes.len() ==> ((#[trigger] boxes[i]).kind is ListBullet || boxes[i].kind is Block)
            && boxes[i].lays_out()
}

/// A box has a layout if its children are fit for its kind.
pub proof fn lemma_lays_out(b: BoxModel)
    ensures
        b.is_block_like() ==> b.lays_out() == stack_ok(b.children),
        b.kind is List ==> b.lays_out() == list_ok(b.children),
        b.kind is InlineContainer ==> b.lays_out() == line_ok(b.children),
        b.kind is Inline ==> b.lays_out() == (b.no_side_border() && line_ok(b.children)),
        b.kind is Text ==> b.lays_out() == b.no_side_border(),
{
}


} // verus!
