//! What holds of every layout.

use vstd::prelude::*;
use crate::dom::{BoxCursor, BoxModel, KindModel, LayoutRes};
use crate::flow::{
    block_heights, clamp, inline_room, inner_cursor, laid_out, lay_children_inline,
    lemma_block_heights_push, lemma_lays_out, lemma_outer_heights_push,
    lemma_weights_first,
    line_ok, line_width, lined_up, outer_heights, placed, stack_ok, stacked, stacked_from,
    weights,
};
use crate::flow::{front_fits, kept_clusters, lemma_kept_clusters, lemma_weights_cons};
use crate::text::{
    byte_len, cut_offset, display_width, is_grapheme_boundary, lemma_cut_text, text_before,
};

verus! {

/// Whether the heights add up in the subtree that a layout reaches: a block,
/// a header or a bullet is as high as the outer heights of its children
/// together, a list as high as those of its blocks, as far as a coordinate
/// reaches.
pub open spec fn heights_add_up(b: BoxModel) -> bool
    decreases b,
{
    &&& b.is_block_like() ==> b.size.content.h == clamp(outer_heights(b.children))
    &&& b.kind is List ==> b.size.content.h == clamp(block_heights(b.children))
    &&& !(b.kind is Text) ==> forall|i: int|
        0 <= i < b.children.len() ==> heights_add_up(#[trigger] b.children[i])
}

/// Whether the widths are right in the subtree that a layout reaches: a
/// text is as wide as it displays, as far as a coordinate reaches; and a
/// text, an inline span and a line are one row high.
pub open spec fn widths_are_right(b: BoxModel) -> bool
    decreases b,
{
    &&& b.kind is Text ==> b.size.content.w == clamp(display_width(b.kind->Text_0) as int)
    &&& b.kind is Text || b.kind is Inline || b.kind is InlineContainer ==> b.size.content.h == 1
    &&& !(b.kind is Text) ==> forall|i: int|
        0 <= i < b.children.len() ==> widths_are_right(#[trigger] b.children[i])
}

/// Whether a box is as a layout leaves it: the heights add up in it, the
/// widths are right in it, and no line-break marker is left in it.
pub open spec fn settled(b: BoxModel) -> bool {
    heights_add_up(b) && widths_are_right(b) && b.paintable()
}

/// Whether each of some boxes is as a layout leaves it.
pub open spec fn all_settled(boxes: Seq<BoxModel>) -> bool {
    forall|i: int| 0 <= i < boxes.len() ==> settled(#[trigger] boxes[i])
}

/// What a layout comes to for a box that has one: it does not fail; unless
/// the box is
/// rejected, the heights add up in it and no line-break marker is left in
/// it; a continuation is of the sort of the box it was cut from and has a
/// layout; only a text or an inline span with no room is rejected, and it
/// keeps its layout.
pub open spec fn sound(b: BoxModel, c: BoxCursor) -> bool {
    let o = laid_out(b, c);
    !o.failed && match o.res {
        LayoutRes::Normal => settled(o.node),
        LayoutRes::CutHere(next) => {
            &&& settled(o.node)
            &&& next.lays_out()
            &&& next.is_inline_leaf() == b.is_inline_leaf()
            &&& b.is_inline_leaf() || b.kind is InlineContainer
        },
        LayoutRes::Reject => {
            &&& b.is_inline_leaf()
            &&& inline_room(c, b.size.border) == 0
            &&& o.node.lays_out()
        },
    }
}

/// A tree that has a layout by its shape is laid out without failure, and
/// what holds of every layout that does not fail holds of it: the heights
/// add up, the widths are right and no line-break marker is left. Besides,
/// its continuation has a layout by its shape again, and it is rejected
/// only where it is a text or an inline span with no room.
pub proof fn lemma_shape_suffices(b: BoxModel, c: BoxCursor)
    requires
        b.lays_out(),
    ensures
        sound(b, c),
        !(laid_out(b, c).res is Reject) ==> heights_add_up(laid_out(b, c).node),
        !(laid_out(b, c).res is Reject) ==> widths_are_right(laid_out(b, c).node),
        !(laid_out(b, c).res is Reject) ==> laid_out(b, c).node.paintable(),
    decreases b.weight(), 2int,
{
    lemma_lays_out(b);
    match b.kind {
        KindModel::Block | KindModel::ListBullet | KindModel::Header(_) => {
            let start = placed(b.size, c, crate::flow::block_width(c, b.size.border), 0);
            lemma_stacked_adds_up(b.children, inner_cursor(start));
        },
        KindModel::List(_) => {
            let start = placed(b.size, c, line_width(c, b.size.border), 0);
            assert(stack_ok(b.children)) by {
                assert forall|i: int| 0 <= i < b.children.len() implies (
                #[trigger] b.children[i]).kind is Break || (b.children[i].lays_out()
                    && !b.children[i].is_inline_leaf()) by {}
            }
            lemma_stacked_adds_up(b.children, inner_cursor(start));
        },
        KindModel::InlineContainer => {
            let start = placed(b.size, c, line_width(c, b.size.border), 1);
            let inner = BoxModel { size: start, ..b };
            lemma_lays_out(inner);
            lemma_line_adds_up(inner);
            lemma_lays_out(lay_children_inline(inner, LayoutRes::Normal).node);
        },
        KindModel::Inline => {
            let start = placed(b.size, c, inline_room(c, b.size.border), 1);
            let inner = BoxModel { size: start, ..b };
            lemma_lays_out(inner);
            lemma_line_adds_up(inner);
            lemma_lays_out(lay_children_inline(inner, LayoutRes::Normal).node);
        },
        KindModel::Text(text) => {
            let o = laid_out(b, c);
            lemma_lays_out(o.node);
            match o.res {
                LayoutRes::CutHere(next) => {
                    lemma_lays_out(next);
                },
                _ => {},
            }
        },
        _ => {},
    }
}

/// Boxes that were stacked are as a layout leaves them.
proof fn lemma_stacked_adds_up(todo: Seq<BoxModel>, c: BoxCursor)
    requires
        stack_ok(todo),
    ensures
        all_settled(stacked(todo, c).boxes),
        !stacked(todo, c).failed,
    decreases weights(todo), 4int,
{
    if todo.len() > 0 {
        let rest = todo.drop_first();
        lemma_weights_first(todo);
        assert(stack_ok(rest)) by {
            assert forall|j: int| 0 <= j < rest.len() implies (#[trigger] rest[j]).kind is Break
                || (rest[j].lays_out() && !rest[j].is_inline_leaf()) by {
                assert(rest[j] == todo[j + 1]);
            }
        }
        assert(todo[0].kind is Break || (todo[0].lays_out() && !todo[0].is_inline_leaf()));
        lemma_stacked_from_adds_up(todo[0], rest, c);
    }
}

proof fn lemma_stacked_from_adds_up(first: BoxModel, rest: Seq<BoxModel>, c: BoxCursor)
    requires
        first.kind is Break || (first.lays_out() && !first.is_inline_leaf()),
        stack_ok(rest),
    ensures
        all_settled(stacked_from(first, rest, c).boxes),
        !stacked_from(first, rest, c).failed,
    decreases first.weight() + weights(rest), 3int,
{
    if first.kind is Break {
        lemma_stacked_adds_up(rest, c);
    } else {
        lemma_shape_suffices(first, c);
        let top = laid_out(first, c);
        let below = match top.res {
            LayoutRes::CutHere(next) if next.weight() < first.weight() => {
                lemma_stacked_from_adds_up(next, rest, top.cursor);
                stacked_from(next, rest, top.cursor)
            },
            _ => {
                lemma_stacked_adds_up(rest, top.cursor);
                stacked(rest, top.cursor)
            },
        };
        let boxes = seq![top.node] + below.boxes;
        assert forall|i: int| 0 <= i < boxes.len() implies settled(#[trigger] boxes[i]) by {
            if i > 0 {
                assert(boxes[i] == below.boxes[i - 1]);
            }
        }
    }
}

/// What lining up comes to for boxes that have a layout: the heights add up
/// in those that stay on the line, unless the first was rejected; those that
/// go to the next line have a layout; and the first is rejected only where
/// it is a text or an inline span with no room, and keeps its layout.
proof fn lemma_lined_up_adds_up(todo: Seq<BoxModel>, at_start: bool, c: BoxCursor)
    requires
        line_ok(todo),
    ensures
        ({
            let l = lined_up(todo, at_start, c);
            &&& !l.failed
            &&& !l.rejected ==> all_settled(l.kept)
            &&& l.rest matches Some(rest) ==> line_ok(rest)
            &&& l.rejected ==> {
                &&& at_start
                &&& todo.len() > 0
                &&& todo[0].is_inline_leaf()
                &&& todo[0].lays_out()
                &&& inline_room(c, todo[0].size.border) == 0
                &&& line_ok(l.kept)
            }
        }),
    decreases weights(todo), 4int,
{
    if todo.len() > 0 {
        let rest = todo.drop_first();
        lemma_weights_first(todo);
        assert(line_ok(rest)) by {
            assert forall|j: int| 0 <= j < rest.len() implies (#[trigger] rest[j]).kind is Break
                || rest[j].lays_out() by {
                assert(rest[j] == todo[j + 1]);
            }
        }
        assert(todo[0].kind is Break || todo[0].lays_out());
        if !(todo[0].kind is Break) {
            lemma_shape_suffices(todo[0], c);
            let first = laid_out(todo[0], c);
            match first.res {
                LayoutRes::Normal => {
                    lemma_lined_up_adds_up(rest, false, first.cursor);
                    let after = lined_up(rest, false, first.cursor);
                    let kept = seq![first.node] + after.kept;
                    assert forall|i: int| 0 <= i < kept.len() implies settled(#[trigger] kept[i]) by {
                        if i > 0 {
                            assert(kept[i] == after.kept[i - 1]);
                        }
                    }
                },
                LayoutRes::CutHere(next) => {
                    let moved = seq![next] + rest;
                    assert forall|j: int| 0 <= j < moved.len() implies (#[trigger] moved[j]).kind is Break
                        || moved[j].lays_out() by {
                        if j > 0 {
                            assert(moved[j] == rest[j - 1]);
                        }
                    }
                    assert(seq![first.node][0] == first.node);
                },
                LayoutRes::Reject => {
                    let moved = seq![first.node] + rest;
                    assert forall|j: int| 0 <= j < moved.len() implies (#[trigger] moved[j]).kind is Break
                        || moved[j].lays_out() by {
                        if j > 0 {
                            assert(moved[j] == rest[j - 1]);
                        }
                    }
                },
            }
        }
    }
}

/// What lining up the children of a placed line or inline span comes to: the
/// heights add up in it unless it is rejected; its continuation is a box of
/// its kind that has a layout; it is rejected only where it has no width
/// at all, and keeps its layout.
proof fn lemma_line_adds_up(b: BoxModel)
    requires
        b.holds_inline(),
        b.lays_out(),
    ensures
        ({
            let o = lay_children_inline(b, LayoutRes::Normal);
            &&& !o.failed
            &&& o.node.kind == b.kind
            &&& o.node.size.border == b.size.border
            &&& !(o.res is Reject) ==> all_settled(o.node.children)
            &&& o.res matches LayoutRes::CutHere(next) ==> next.lays_out() && next.kind == b.kind
            &&& o.res is Reject ==> b.size.content.w == 0 && line_ok(o.node.children)
        }),
    decreases b.weight(), 0int,
{
    lemma_lays_out(b);
    lemma_lined_up_adds_up(b.children, true, inner_cursor(b.size));
    let l = lined_up(b.children, true, inner_cursor(b.size));
    match l.rest {
        Some(rest) => {
            lemma_lays_out(BoxModel { children: rest, ..b });
        },
        None => {},
    }
    if l.rejected {
        lemma_lays_out(b.children[0]);
    }
}

/// Whether every box that is no block has no outer height.
pub open spec fn only_blocks_are_high(boxes: Seq<BoxModel>) -> bool {
    forall|i: int|
        0 <= i < boxes.len() && !((#[trigger] boxes[i]).kind is Block) ==> boxes[i].size.outer_height()
            == 0
}

/// Where only the blocks among some boxes are high, the outer heights of the
/// blocks are those of all the boxes.
pub proof fn lemma_block_heights_are_all(boxes: Seq<BoxModel>)
    requires
        only_blocks_are_high(boxes),
    ensures
        block_heights(boxes) == outer_heights(boxes),
    decreases boxes.len(),
{
    if boxes.len() > 0 {
        let front = boxes.drop_last();
        assert forall|i: int| 0 <= i < front.len() && !((#[trigger] front[i]).kind is Block) implies front[i].size.outer_height()
            == 0 by {
            assert(front[i] == boxes[i]);
        }
        lemma_block_heights_are_all(front);
    }
}

/// Height accounting in sums: where the heights add up in a box, a block, a
/// header or a bullet is exactly as high as the outer heights of its
/// children together, and a list as those of its blocks together, unless
/// the sum is out of the range of a coordinate. A list is as high as all its
/// children together where its bullets, which stand beside its blocks, have
/// no height.
pub proof fn lemma_heights_are_sums(b: BoxModel)
    requires
        heights_add_up(b),
    ensures
        b.is_block_like() && outer_heights(b.children) <= 0xffff ==> b.size.content.h
            == outer_heights(b.children),
        b.kind is List && block_heights(b.children) <= 0xffff ==> b.size.content.h
            == block_heights(b.children),
        b.kind is List && only_blocks_are_high(b.children) && outer_heights(b.children) <= 0xffff
            ==> b.size.content.h == outer_heights(b.children),
{
    lemma_outer_heights_push(b.children, b);
    lemma_block_heights_push(b.children, b);
    if b.kind is List && only_blocks_are_high(b.children) {
        lemma_block_heights_are_all(b.children);
    }
}

/// The text that a box holds, if it is a text.
pub open spec fn text_of(b: BoxModel) -> Seq<char> {
    match b.kind {
        KindModel::Text(text) => text,
        _ => Seq::empty(),
    }
}

/// Width accounting, for a text `before` that a layout at the cursor turned
/// into `after` with the outcome `res`. A text that stays is as wide as it
/// displays. A text that fits stays whole and displays no wider than the
/// room. A text that is cut keeps its leading grapheme clusters, at least
/// one, and hands on the rest: nothing is lost, no cluster is parted, and
/// what it keeps displays no wider than the room unless its first cluster
/// alone is wider than that; then it keeps that one cluster. A text is
/// rejected only where there is no room, and stays as it was.
pub open spec fn text_fitted(
    before: BoxModel,
    c: BoxCursor,
    after: BoxModel,
    res: LayoutRes<BoxModel>,
) -> bool {
    let text = text_of(before);
    let kept = text_of(after);
    let room = inline_room(c, before.size.border);
    &&& after.kind is Text
    &&& match res {
        LayoutRes::Normal => {
            &&& kept == text
            &&& after.size.content.w == display_width(kept)
            &&& display_width(kept) <= room
        },
        LayoutRes::CutHere(next) => {
            &&& display_width(text) > room
            &&& next.kind is Text
            &&& kept + text_of(next) == text
            &&& kept.len() > 0
            &&& is_grapheme_boundary(text, byte_len(kept) as int)
            &&& after.size.content.w == clamp(display_width(kept) as int)
            &&& front_fits(text, 1, room) ==> display_width(kept) <= room
                && after.size.content.w == display_width(kept)
            &&& !front_fits(text, 1, room) ==> kept == text_before(text, cut_offset(text, 1))
        },
        LayoutRes::Reject => room == 0 && kept == text,
    }
}

/// Width accounting holds of the layout of every text, an empty text
/// displaying nothing wide.
pub proof fn lemma_text_width(b: BoxModel, c: BoxCursor)
    requires
        b.kind is Text,
        text_of(b).len() == 0 ==> display_width(text_of(b)) == 0,
    ensures
        text_fitted(b, c, laid_out(b, c).node, laid_out(b, c).res),
{
    let text = text_of(b);
    let room = inline_room(c, b.size.border);
    if room > 0 && display_width(text) > room {
        lemma_kept_clusters(text, room, 1);
        lemma_cut_text(text, kept_clusters(text, room, 1));
        lemma_cut_text(text, 1);
    }
}

/// The text that a box holds, in reading order: a text holds its own, a
/// line-break marker none, any other box what its children hold.
pub open spec fn texts(b: BoxModel) -> Seq<char>
    decreases b, 1int,
{
    match b.kind {
        KindModel::Text(text) => text,
        KindModel::Break => Seq::empty(),
        _ => all_texts(b.children),
    }
}

/// The text that some boxes hold, one after the other.
pub open spec fn all_texts(boxes: Seq<BoxModel>) -> Seq<char>
    decreases boxes, 0int,
{
    if boxes.len() == 0 {
        Seq::empty()
    } else {
        texts(boxes[0]) + all_texts(boxes.drop_first())
    }
}

/// The text that an outcome hands on: that of the continuation, if there is
/// one.
pub open spec fn handed_on(res: LayoutRes<BoxModel>) -> Seq<char> {
    match res {
        LayoutRes::CutHere(next) => texts(next),
        _ => Seq::empty(),
    }
}

/// A box in front of others puts its text in front of theirs.
proof fn lemma_all_texts_cons(first: BoxModel, rest: Seq<BoxModel>)
    ensures
        all_texts(seq![first] + rest) == texts(first) + all_texts(rest),
{
    assert((seq![first] + rest).drop_first() =~= rest);
    assert((seq![first] + rest)[0] == first);
}

/// What holds of every layout that does not fail.
///
/// Text conservation: no text is lost, doubled or moved out of order. What
/// the box holds afterwards, followed by what its continuation holds if it
/// was cut, is what it held before.
///
/// Height and width accounting: unless the box is rejected, in every box
/// that the layout keeps a block, a header or a bullet is as high as its
/// children are together, and a list as high as its blocks; every text is
/// as wide as it displays, and every text, inline span and line is one row
/// high; and no line-break marker is left, so that the tree can be
/// rendered.
///
/// A continuation weighs less than the box it was cut from, so that none is
/// ever left out, and a box that is rejected gains no weight.
pub proof fn lemma_layout_is_sound(b: BoxModel, c: BoxCursor)
    requires
        !laid_out(b, c).failed,
    ensures
        texts(laid_out(b, c).node) + handed_on(laid_out(b, c).res) == texts(b),
        laid_out(b, c).res matches LayoutRes::CutHere(next) ==> next.weight() < b.weight(),
        laid_out(b, c).res is Reject ==> laid_out(b, c).node.weight() <= b.weight(),
        !(laid_out(b, c).res is Reject) ==> settled(laid_out(b, c).node),
    decreases b.weight(), 2int,
{
    let o = laid_out(b, c);
    match b.kind {
        KindModel::Block | KindModel::ListBullet | KindModel::Header(_) => {
            let start = placed(b.size, c, crate::flow::block_width(c, b.size.border), 0);
            lemma_stack_keeps_text(b.children, inner_cursor(start));
            assert(texts(o.node) + Seq::<char>::empty() =~= texts(o.node));
        },
        KindModel::List(_) => {
            let start = placed(b.size, c, line_width(c, b.size.border), 0);
            lemma_stack_keeps_text(b.children, inner_cursor(start));
            assert(texts(o.node) + Seq::<char>::empty() =~= texts(o.node));
        },
        KindModel::InlineContainer => {
            let start = placed(b.size, c, line_width(c, b.size.border), 1);
            lemma_line_keeps_text(BoxModel { size: start, ..b });
        },
        KindModel::Inline => {
            let start = placed(b.size, c, inline_room(c, b.size.border), 1);
            lemma_line_keeps_text(BoxModel { size: start, ..b });
        },
        KindModel::Text(text) => {
            let room = inline_room(c, b.size.border);
            if room > 0 && display_width(text) > room && text.len() > 0 {
                lemma_cut_text(text, kept_clusters(text, room, 1));
                lemma_cut_text(text, 1);
                let next = o.res->CutHere_0;
                assert(weights(next.children) == 0);
            } else {
                assert(texts(o.node) + Seq::<char>::empty() =~= texts(o.node));
            }
        },
        _ => {},
    }
}

/// Boxes that were stacked without failure hold the text they held before,
/// and are as a layout leaves them.
proof fn lemma_stack_keeps_text(todo: Seq<BoxModel>, c: BoxCursor)
    requires
        !stacked(todo, c).failed,
    ensures
        all_texts(stacked(todo, c).boxes) == all_texts(todo),
        all_settled(stacked(todo, c).boxes),
    decreases weights(todo), 4int,
{
    if todo.len() > 0 {
        lemma_weights_first(todo);
        lemma_stack_from_keeps_text(todo[0], todo.drop_first(), c);
    }
}

proof fn lemma_stack_from_keeps_text(first: BoxModel, rest: Seq<BoxModel>, c: BoxCursor)
    requires
        !stacked_from(first, rest, c).failed,
    ensures
        all_texts(stacked_from(first, rest, c).boxes) == texts(first) + all_texts(rest),
        all_settled(stacked_from(first, rest, c).boxes),
    decreases first.weight() + weights(rest), 3int,
{
    if first.kind is Break {
        lemma_stack_keeps_text(rest, c);
        assert(Seq::<char>::empty() + all_texts(rest) =~= all_texts(rest));
    } else {
        lemma_layout_is_sound(first, c);
        let top = laid_out(first, c);
        match top.res {
            LayoutRes::CutHere(next) => {
                lemma_stack_from_keeps_text(next, rest, top.cursor);
                let below = stacked_from(next, rest, top.cursor);
                lemma_all_texts_cons(top.node, below.boxes);
                assert(texts(top.node) + (texts(next) + all_texts(rest)) =~= (texts(top.node)
                    + texts(next)) + all_texts(rest));
                let boxes = seq![top.node] + below.boxes;
                assert forall|i: int| 0 <= i < boxes.len() implies settled(#[trigger] boxes[i]) by {
                    if i > 0 {
                        assert(boxes[i] == below.boxes[i - 1]);
                    }
                }
            },
            _ => {
                lemma_stack_keeps_text(rest, top.cursor);
                let below = stacked(rest, top.cursor);
                lemma_all_texts_cons(top.node, below.boxes);
                assert(texts(top.node) + Seq::<char>::empty() =~= texts(top.node));
                let boxes = seq![top.node] + below.boxes;
                assert forall|i: int| 0 <= i < boxes.len() implies settled(#[trigger] boxes[i]) by {
                    if i > 0 {
                        assert(boxes[i] == below.boxes[i - 1]);
                    }
                }
            },
        }
    }
}

/// Boxes that were lined up without failure hold, with those that go to the
/// next line, the text they held before; those that stay are as a layout
/// leaves them unless the first was rejected; those that go to the next
/// line weigh no more than all did, and less where the line began with them
/// all; and where none goes, as many stay as there were.
proof fn lemma_lined_up_keeps_text(todo: Seq<BoxModel>, at_start: bool, c: BoxCursor)
    requires
        !lined_up(todo, at_start, c).failed,
    ensures
        ({
            let l = lined_up(todo, at_start, c);
            &&& all_texts(l.kept) + (match l.rest {
                Some(rest) => all_texts(rest),
                None => Seq::empty(),
            }) == all_texts(todo)
            &&& l.rest matches Some(rest) ==> weights(rest) <= weights(todo) && (at_start
                ==> weights(rest) < weights(todo))
            &&& l.rejected ==> at_start && l.rest is None && weights(l.kept) <= weights(todo)
            &&& l.rest is None ==> l.kept.len() == todo.len()
            &&& !l.rejected ==> all_settled(l.kept)
        }),
    decreases weights(todo), 4int,
{
    if todo.len() == 0 {
        assert(all_texts(todo) + Seq::<char>::empty() =~= all_texts(todo));
    } else {
        let tail = todo.drop_first();
        lemma_weights_first(todo);
        if todo[0].kind is Break {
            assert(Seq::<char>::empty() + all_texts(tail) =~= all_texts(tail));
            assert(all_texts(Seq::<BoxModel>::empty()) + all_texts(tail) =~= all_texts(tail));
        } else {
            lemma_layout_is_sound(todo[0], c);
            let first = laid_out(todo[0], c);
            let l = lined_up(todo, at_start, c);
            let whole = all_texts(todo);
            assert(whole == texts(todo[0]) + all_texts(tail));
            match first.res {
                LayoutRes::Normal => {
                    lemma_lined_up_keeps_text(tail, false, first.cursor);
                    let after = lined_up(tail, false, first.cursor);
                    lemma_all_texts_cons(first.node, after.kept);
                    let moved = match after.rest {
                        Some(rest) => all_texts(rest),
                        None => Seq::empty(),
                    };
                    assert(texts(first.node) =~= texts(todo[0])) by {
                        assert(texts(first.node) + Seq::<char>::empty() =~= texts(first.node));
                    }
                    assert(all_texts(l.kept) + moved =~= whole) by {
                        assert((texts(first.node) + all_texts(after.kept)) + moved =~= texts(
                            first.node,
                        ) + (all_texts(after.kept) + moved));
                    }
                    let kept = seq![first.node] + after.kept;
                    assert forall|i: int| 0 <= i < kept.len() implies settled(#[trigger] kept[i]) by {
                        if i > 0 {
                            assert(kept[i] == after.kept[i - 1]);
                        }
                    }
                },
                LayoutRes::CutHere(next) => {
                    lemma_all_texts_cons(first.node, Seq::empty());
                    lemma_all_texts_cons(next, tail);
                    lemma_weights_cons(next, tail);
                    assert(seq![first.node] + Seq::<BoxModel>::empty() =~= seq![first.node]);
                    assert(all_texts(Seq::<BoxModel>::empty()) =~= Seq::<char>::empty());
                    assert(all_texts(l.kept) =~= texts(first.node));
                    assert(all_texts(l.kept) + all_texts(seq![next] + tail) =~= whole) by {
                        assert(texts(first.node) + (texts(next) + all_texts(tail)) =~= (texts(
                            first.node,
                        ) + texts(next)) + all_texts(tail));
                    }
                    assert(seq![first.node][0] == first.node);
                },
                LayoutRes::Reject => {
                    lemma_all_texts_cons(first.node, tail);
                    lemma_weights_cons(first.node, tail);
                    assert(texts(first.node) =~= texts(todo[0])) by {
                        assert(texts(first.node) + Seq::<char>::empty() =~= texts(first.node));
                    }
                    let moved = seq![first.node] + tail;
                    assert(all_texts(moved) =~= whole);
                    assert(all_texts(moved) + Seq::<char>::empty() =~= whole);
                    assert(all_texts(Seq::<BoxModel>::empty()) + all_texts(moved) =~= whole);
                },
            }
        }
    }
}

/// A line or an inline span whose children were lined up without failure
/// holds, with its continuation, the text it held before; its continuation
/// weighs less than it did; rejected, it gains no weight; unless it is cut
/// it has as many children as before; and unless it is rejected its
/// children are as a layout leaves them.
pub proof fn lemma_line_keeps_text(b: BoxModel)
    requires
        b.holds_inline(),
        !lay_children_inline(b, LayoutRes::Normal).failed,
    ensures
        ({
            let o = lay_children_inline(b, LayoutRes::Normal);
            &&& texts(o.node) + handed_on(o.res) == texts(b)
            &&& o.res matches LayoutRes::CutHere(next) ==> next.weight() < b.weight()
            &&& o.res is Reject ==> o.node.weight() <= b.weight()
            &&& !(o.res is CutHere) ==> o.node.children.len() == b.children.len()
            &&& !(o.res is Reject) ==> all_settled(o.node.children)
        }),
    decreases b.weight(), 0int,
{
    lemma_lined_up_keeps_text(b.children, true, inner_cursor(b.size));
}

} // verus!
