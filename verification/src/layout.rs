//! The layout engine: assigns a geometry to every box of a tree inside a
//! column budget, cutting boxes that do not fit into continuations.

use vstd::prelude::*;
use vstd::utf8::{encode_utf8, is_char_boundary};
use crate::dom::{
    lemma_children_views, lemma_views_insert, lemma_views_remove, lemma_views_subrange,
    lemma_views_update, views, BoxCursor, BoxKind, BoxModel, BoxSize, DomBox, Edges, LayoutRes,
    Rect,
};
use crate::flow::{
    block_heights, block_width, clamp, front_fits, inline_room, inner_cursor, kept_clusters,
    laid_out, lay_block, lay_children_inline, lay_inline, lay_inline_container, lay_list,
    lemma_block_heights_push, lemma_clamp_add, lemma_lays_out, lemma_outer_heights_push,
    lemma_stacked_first, lemma_weights_concat, lemma_weights_cons, lemma_weights_first,
    lemma_widest_push, line_width, lined_up, list_kinds, next_in_stack, outer_heights, placed,
    stacked, text_cut, weights, widest, Line, Stack,
};
use crate::laws::{
    handed_on, lemma_shape_suffices, lemma_layout_is_sound, lemma_text_width, settled,
    text_fitted, texts,
};
use crate::text::{
    byte_len, cut_offset, display_width, findsplit, grapheme_starts, split_at_in_place, str_width,
    text_before, width_before,
};

verus! {

broadcast use lemma_children_views;

/// The sum of two amounts of cells, kept within range.
fn add_cells(a: u16, b: u16) -> (sum: u16)
    ensures
        sum == clamp(a + b),
{
    let wide: u32 = a as u32 + b as u32;
    if wide > 0xffff {
        0xffff
    } else {
        wide as u16
    }
}

/// A content extent with the border before and after it, kept within range.
fn outer_extent(content: u16, before: u16, after: u16) -> (sum: u16)
    ensures
        sum == clamp(content + before + after),
{
    let wide: u32 = content as u32 + before as u32 + after as u32;
    if wide > 0xffff {
        0xffff
    } else {
        wide as u16
    }
}

fn block_width_at(cursor: &BoxCursor, border: &Edges) -> (w: u16)
    ensures
        w == block_width(*cursor, *border),
{
    let room: i32 = cursor.container.content.w as i32 - cursor.x as i32
        + cursor.container.content.x as i32;
    let sides: i32 = border.left as i32 + border.right as i32;
    if room > sides {
        let w: i32 = room - sides;
        if w > 0xffff {
            0xffff
        } else {
            w as u16
        }
    } else {
        1
    }
}

fn line_width_at(cursor: &BoxCursor, border: &Edges) -> (w: u16)
    ensures
        w == line_width(*cursor, *border),
{
    let sides: u32 = border.left as u32 + border.right as u32;
    if cursor.container.content.w as u32 > sides {
        (cursor.container.content.w as u32 - sides) as u16
    } else {
        1
    }
}

fn inline_room_at(cursor: &BoxCursor, border: &Edges) -> (w: u16)
    ensures
        w == inline_room(*cursor, *border),
{
    let room: i32 = cursor.container.content.w as i32 - (cursor.x as i32
        - cursor.container.content.x as i32) - (border.left as i32 + border.right as i32);
    if room < 0 {
        0
    } else if room > 0xffff {
        0xffff
    } else {
        room as u16
    }
}

/// Whether a box is fit to be a child: of a list, if `lists`; of a block, a
/// header or a bullet, if `stacks`; else of a line or an inline span.
pub open spec fn child_fits(child: BoxModel, stacks: bool, lists: bool) -> bool {
    if lists {
        (child.kind is ListBullet || child.kind is Block) && child.lays_out()
    } else if stacks {
        child.kind is Break || (child.lays_out() && !child.is_inline_leaf())
    } else {
        child.kind is Break || child.lays_out()
    }
}


/// What is known of an outcome besides its value: a continuation weighs less
/// than the box it was cut from, and a box that is rejected gains no weight.
pub open spec fn outcome_ok(before: BoxModel, after: BoxModel, res: LayoutRes<BoxModel>) -> bool {
    match res {
        LayoutRes::Normal => true,
        LayoutRes::CutHere(next) => next.weight() < before.weight(),
        LayoutRes::Reject => after.weight() <= before.weight(),
    }
}

/// The value of what a layout step returns: an outcome, or none where the
/// layout failed.
pub open spec fn outcome(res: Option<LayoutRes<DomBox>>) -> Option<LayoutRes<BoxModel>> {
    match res {
        Some(r) => Some(r@),
        None => None,
    }
}

/// What a layout step comes to for a box `before` at the cursor `c`. It
/// returns no outcome exactly where the layout fails. Where it returns one,
/// the box, the cursor and the outcome are those of the layout.
pub open spec fn laid(
    before: BoxModel,
    c: BoxCursor,
    after: BoxModel,
    behind: BoxCursor,
    res: Option<LayoutRes<BoxModel>>,
) -> bool {
    match res {
        Some(r) => {
            &&& !laid_out(before, c).failed
            &&& after == laid_out(before, c).node
            &&& behind == laid_out(before, c).cursor
            &&& r == laid_out(before, c).res
            &&& outcome_ok(before, after, r)
        },
        None => laid_out(before, c).failed,
    }
}

/// After the first of some boxes to stack, fewer weigh on: the rest, with
/// the continuation of the first in front if it was cut.
proof fn lemma_stack_next(todo: Seq<BoxModel>, after: BoxModel, res: LayoutRes<BoxModel>)
    requires
        todo.len() > 0,
        outcome_ok(todo[0], after, res),
    ensures
        weights(next_in_stack(todo, res)) < weights(todo),
        weights(todo.drop_first()) < weights(todo),
        res matches LayoutRes::CutHere(next) ==> next_in_stack(todo, res) == seq![next]
            + todo.drop_first(),
        !(res is CutHere) ==> next_in_stack(todo, res) == todo.drop_first(),
{
    lemma_weights_first(todo);
    match res {
        LayoutRes::CutHere(next) => {
            lemma_weights_cons(next, todo.drop_first());
        },
        _ => {},
    }
}

/// A line or an inline span cut at a child: the continuation, which holds
/// `head` and the children after that child, weighs less than the box did
/// if `head` weighs less than the child, or no more than it where the child
/// is not the first.
proof fn lemma_cut_line(b: BoxModel, i: int, head: Seq<BoxModel>)
    requires
        0 <= i < b.children.len(),
        weights(head) < b.children[i].weight() || (i > 0 && weights(head)
            <= b.children[i].weight()),
    ensures
        (BoxModel { children: head + b.children.skip(i + 1), ..b }).weight() < b.weight(),
{
    let kids = b.children;
    let tail = kids.skip(i + 1);
    assert(kids =~= kids.take(i) + kids.skip(i));
    lemma_weights_concat(kids.take(i), kids.skip(i));
    lemma_weights_first(kids.skip(i));
    assert(kids.skip(i).drop_first() =~= tail);
    lemma_weights_concat(head, tail);
    if i > 0 {
        lemma_weights_first(kids.take(i));
    }
}

/// A line or an inline span whose first child was rejected gains no weight.
proof fn lemma_rejected_line(b: BoxModel, first: BoxModel)
    requires
        b.children.len() > 0,
        first.weight() <= b.children[0].weight(),
    ensures
        weights(seq![first] + b.children.drop_first()) <= weights(b.children),
{
    lemma_weights_cons(first, b.children.drop_first());
    lemma_weights_first(b.children);
}

/// Whether a line is lined up as far as `done`: lining up all of `kids` from
/// `start` comes to `done` followed by what lining up the rest from `sub`
/// comes to.
#[verifier::opaque]
spec fn line_so_far(kids: Seq<BoxModel>, start: BoxCursor, done: Seq<BoxModel>, sub: BoxCursor) -> bool {
    let i = done.len() as int;
    let rest = lined_up(kids.skip(i), i == 0, sub);
    i <= kids.len() && lined_up(kids, true, start) == (Line { kept: done + rest.kept, ..rest })
}

proof fn lemma_line_begins(kids: Seq<BoxModel>, start: BoxCursor)
    ensures
        line_so_far(kids, start, Seq::empty(), start),
{
    reveal(line_so_far);
    assert(kids.skip(0) =~= kids);
    assert(Seq::<BoxModel>::empty() + lined_up(kids, true, start).kept =~= lined_up(
        kids,
        true,
        start,
    ).kept);
}

/// A line goes on behind a child that fits.
proof fn lemma_line_goes_on(kids: Seq<BoxModel>, start: BoxCursor, done: Seq<BoxModel>, sub: BoxCursor)
    requires
        line_so_far(kids, start, done, sub),
        done.len() < kids.len(),
        !(kids[done.len() as int].kind is Break),
        !laid_out(kids[done.len() as int], sub).failed,
        laid_out(kids[done.len() as int], sub).res is Normal,
    ensures
        line_so_far(
            kids,
            start,
            done.push(laid_out(kids[done.len() as int], sub).node),
            laid_out(kids[done.len() as int], sub).cursor,
        ),
{
    reveal(line_so_far);
    let i = done.len() as int;
    let first = laid_out(kids[i], sub);
    assert(kids.skip(i)[0] == kids[i]);
    assert(kids.skip(i).drop_first() =~= kids.skip(i + 1));
    let after = lined_up(kids.skip(i + 1), false, first.cursor);
    assert(done.push(first.node) + after.kept =~= done + (seq![first.node] + after.kept));
}

/// What a line comes to where it ends: at the end of the children, at a
/// line-break marker, or at a child that fails, is cut or is rejected.
proof fn lemma_line_ends(kids: Seq<BoxModel>, start: BoxCursor, done: Seq<BoxModel>, sub: BoxCursor)
    requires
        line_so_far(kids, start, done, sub),
    ensures
        ({
            let i = done.len() as int;
            let tail = kids.skip(i + 1);
            let line = lined_up(kids, true, start);
            if i >= kids.len() {
                line == (Line {
                    kept: done,
                    rest: None,
                    rejected: false,
                    cursor: sub,
                    failed: false,
                })
            } else if kids[i].kind is Break {
                line == (Line {
                    kept: done,
                    rest: Some(tail),
                    rejected: false,
                    cursor: sub,
                    failed: false,
                })
            } else {
                let first = laid_out(kids[i], sub);
                &&& first.failed ==> line.failed
                &&& match first.res {
                    LayoutRes::Normal => true,
                    LayoutRes::CutHere(next) => line == (Line {
                        kept: done + seq![first.node],
                        rest: Some(seq![next] + tail),
                        rejected: false,
                        cursor: first.cursor,
                        failed: first.failed,
                    }),
                    LayoutRes::Reject => if i == 0 {
                        line == (Line {
                            kept: seq![first.node] + tail,
                            rest: None,
                            rejected: true,
                            cursor: first.cursor,
                            failed: first.failed,
                        })
                    } else {
                        line == (Line {
                            kept: done,
                            rest: Some(seq![first.node] + tail),
                            rejected: false,
                            cursor: first.cursor,
                            failed: first.failed,
                        })
                    },
                }
            }
        }),
{
    reveal(line_so_far);
    let i = done.len() as int;
    assert(done + Seq::<BoxModel>::empty() =~= done);
    if i < kids.len() {
        assert(kids.skip(i)[0] == kids[i]);
        assert(kids.skip(i).drop_first() =~= kids.skip(i + 1));
        if i == 0 {
            assert(done + (seq![laid_out(kids[i], sub).node] + kids.skip(1)) =~= seq![
                laid_out(kids[i], sub).node,
            ] + kids.skip(1));
        }
    }
}

/// The cursor at the origin inside a container.
pub open spec fn origin(container: BoxSize) -> BoxCursor {
    BoxCursor { x: 0, y: 0, container }
}

/// A child weighs less than the box that holds it.
pub proof fn lemma_child_weight(b: BoxModel, i: int)
    requires
        0 <= i < b.children.len(),
    ensures
        b.children[i].weight() < b.weight(),
{
    let kids = b.children;
    assert(kids =~= kids.take(i) + kids.skip(i));
    lemma_weights_concat(kids.take(i), kids.skip(i));
    lemma_weights_first(kids.skip(i));
}

impl DomBox {
    /// Whether the layout has a rule for every box it reaches in the tree
    /// below this box, as far as the shape of the tree tells: the layout of
    /// such a tree does not fail.
    pub fn has_layout(&self) -> (ok: bool)
        ensures
            ok == self@.lays_out(),
        decreases self@.weight(),
    {
        proof {
            lemma_lays_out(self@);
        }
        let no_side_border = self.size.border.left == 0 && self.size.border.right == 0;
        match self.kind {
            BoxKind::Text(_) => {
                return no_side_border;
            },
            BoxKind::Inline => {
                if !no_side_border {
                    return false;
                }
            },
            BoxKind::Block | BoxKind::Header(_) | BoxKind::ListBullet => {},
            BoxKind::List(_) => {},
            BoxKind::InlineContainer => {},
            _ => {
                return false;
            },
        }
        let stacks = match self.kind {
            BoxKind::Block | BoxKind::Header(_) | BoxKind::ListBullet => true,
            _ => false,
        };
        let lists = match self.kind {
            BoxKind::List(_) => true,
            _ => false,
        };
        let mut i: usize = 0;
        while i < self.children.len()
            invariant
                0 <= i <= self.children@.len(),
                stacks == self@.is_block_like(),
                lists == self@.kind is List,
                stacks || lists || self@.holds_inline(),
                forall|j: int|
                    0 <= j < i ==> child_fits(#[trigger] self@.children[j], stacks, lists),
            decreases self.children@.len() - i,
        {
            proof {
                lemma_child_weight(self@, i as int);
                assert(self@.children[i as int] == self.children@[i as int]@);
            }
            let child = &self.children[i];
            let is_break = match child.kind {
                BoxKind::Break => true,
                _ => false,
            };
            let is_leaf = match child.kind {
                BoxKind::Text(_) => true,
                BoxKind::Inline => true,
                _ => false,
            };
            let is_item = match child.kind {
                BoxKind::ListBullet => true,
                BoxKind::Block => true,
                _ => false,
            };
            let fits = if lists {
                is_item && child.has_layout()
            } else if is_break {
                true
            } else if stacks && is_leaf {
                false
            } else {
                child.has_layout()
            };
            if !fits {
                assert(!child_fits(self@.children[i as int], stacks, lists));
                return false;
            }
            i += 1;
        }
        true
    }

    /// Lays out the tree below this box, which is its root: the cursor starts
    /// at the origin inside the geometry the root has. It tells whether the
    /// layout got through; where it failed, the tree is of no use. Where it
    /// got through, no text is lost or moved out of order; and unless the
    /// root is a text or an inline span that finds no room, the heights add
    /// up in the tree, the widths are right and no line-break marker is
    /// left.
    pub fn layout(&mut self) -> (ok: bool)
        ensures
            ok == !laid_out(old(self)@, origin(old(self).size)).failed,
            ok ==> final(self)@ == laid_out(old(self)@, origin(old(self).size)).node,
            ok ==> texts(final(self)@) + handed_on(
                laid_out(old(self)@, origin(old(self).size)).res,
            ) == texts(old(self)@),
            ok && !(laid_out(old(self)@, origin(old(self).size)).res is Reject) ==> settled(
                final(self)@,
            ),
            old(self)@.lays_out() ==> ok,
    {
        let mut cursor = BoxCursor { x: 0, y: 0, container: self.size };
        proof {
            if !laid_out(old(self)@, cursor).failed {
                lemma_layout_is_sound(old(self)@, cursor);
            }
            if old(self)@.lays_out() {
                lemma_shape_suffices(old(self)@, cursor);
            }
        }
        match self.layout_generic(&mut cursor) {
            Some(_) => true,
            None => false,
        }
    }

    /// Cuts the box in two before the child at `at`: the box keeps the
    /// children before it, and a box with the same kind, geometry and style
    /// takes that child and those after it.
    fn cut_children(&mut self, at: usize) -> (rest: DomBox)
        requires
            at <= old(self).children@.len(),
        ensures
            final(self)@ == (BoxModel {
                children: old(self)@.children.take(at as int),
                ..old(self)@
            }),
            rest@ == (BoxModel { children: old(self)@.children.skip(at as int), ..old(self)@ }),
    {
        let children = self.children.split_off(at);
        let kind = self.kind.clone();
        let rest = DomBox { kind, size: self.size, style: self.style, children };
        proof {
            lemma_views_subrange(old(self).children@, 0, at as int);
            lemma_views_subrange(old(self).children@, at as int, old(self).children@.len() as int);
        }
        rest
    }

    /// Lines up the children of a placed line or inline span. `res` is the
    /// outcome where nothing ends the line; `dorej` says whether the first
    /// child may be rejected. There is no outcome where the layout of a
    /// child fails, or where the first child is rejected and may not be.
    #[verifier::rlimit(40)]
    pub fn inline_children_loop(&mut self, res: LayoutRes<DomBox>, dorej: bool) -> (out: Option<
        LayoutRes<DomBox>,
    >)
        ensures
            match out {
                Some(o) => {
                    &&& !lay_children_inline(old(self)@, res@).failed
                    &&& dorej || !lined_up(
                        old(self)@.children,
                        true,
                        inner_cursor(old(self).size),
                    ).rejected
                    &&& final(self)@ == lay_children_inline(old(self)@, res@).node
                    &&& o@ == lay_children_inline(old(self)@, res@).res
                    &&& res@ is Normal ==> outcome_ok(old(self)@, final(self)@, o@)
                },
                None => lay_children_inline(old(self)@, res@).failed || (!dorej
                    && lined_up(old(self)@.children, true, inner_cursor(old(self).size)).rejected),
            },
        decreases old(self)@.weight(), 0int,
    {
        let mut res = res;
        let mut subcursor = BoxCursor {
            x: self.size.content.x,
            y: self.size.content.y,
            container: self.size,
        };
        let ghost before = old(self)@;
        let ghost kids = old(self)@.children;
        let ghost start = subcursor;
        let ghost res0 = res@;
        let ghost mut done: Seq<BoxModel> = Seq::empty();
        let mut i: usize = 0;
        proof {
            assert(kids.skip(0) =~= kids);
            assert(done + kids =~= kids);
            lemma_line_begins(kids, start);
        }
        loop
            invariant_except_break
                i == done.len(),
                self@.children == done + kids.skip(i as int),
                line_so_far(kids, start, done, subcursor),
                res@ == res0,
            invariant
                i <= kids.len(),
                self.kind@ == old(self).kind@,
                self.size == old(self).size,
                self.style == old(self).style,
                before == old(self)@,
                kids == before.children,
                start == inner_cursor(before.size),
            ensures
                !lined_up(kids, true, start).failed,
                dorej || !lined_up(kids, true, start).rejected,
                self@.children == lined_up(kids, true, start).kept,
                subcursor == lined_up(kids, true, start).cursor,
                res@ == (if lined_up(kids, true, start).rejected {
                    LayoutRes::Reject
                } else {
                    match lined_up(kids, true, start).rest {
                        Some(rest) => LayoutRes::CutHere(BoxModel { children: rest, ..before }),
                        None => res0,
                    }
                }),
                res0 is Normal && res@ is CutHere ==> res@->CutHere_0.weight() < before.weight(),
                res0 is Normal && res@ is Reject ==> weights(self@.children) <= weights(kids),
            decreases kids.len() - i,
        {
            proof {
                assert(self@.children.len() == done.len() + kids.skip(i as int).len());
                lemma_line_ends(kids, start, done, subcursor);
            }
            if i >= self.children.len() {
                proof {
                    assert(done + kids.skip(i as int) =~= done);
                }
                break ;
            }
            proof {
                lemma_child_weight(before, i as int);
                assert(self@.children[i as int] == kids[i as int]);
            }
            let ghost tail = kids.skip(i as int + 1);
            let ghost pre = self.children@;
            let is_break = match self.children[i].kind {
                BoxKind::Break => true,
                _ => false,
            };
            if is_break {
                let _ = self.children.remove(i);
                proof {
                    lemma_views_remove(pre, i as int);
                    assert(self@.children =~= done + tail);
                }
                let next = self.cut_children(i);
                proof {
                    assert((done + tail).take(i as int) =~= done);
                    assert((done + tail).skip(i as int) =~= tail);
                    assert(Seq::<BoxModel>::empty() + tail =~= tail);
                    assert(weights(Seq::<BoxModel>::empty()) == 0);
                    lemma_cut_line(before, i as int, Seq::empty());
                }
                res = LayoutRes::CutHere(next);
                break ;
            }
            let ghost at = subcursor;
            let outcome = match self.children[i].layout_generic(&mut subcursor) {
                Some(outcome) => outcome,
                None => {
                    return None;
                },
            };
            let ghost child = self.children@[i as int]@;
            let ghost mid = self.children@;
            proof {
                lemma_views_update(pre, i as int, self.children@[i as int]);
                assert(self@.children =~= done + (seq![child] + tail));
                lemma_weights_cons(child, Seq::empty());
                assert(seq![child] + Seq::<BoxModel>::empty() =~= seq![child]);
            }
            match outcome {
                LayoutRes::Normal => {
                    proof {
                        lemma_line_goes_on(kids, start, done, at);
                        assert(self@.children =~= (done + seq![child]) + tail);
                        done = done.push(child);
                    }
                },
                LayoutRes::CutHere(next) => {
                    let ghost next_model = next@;
                    self.children.insert(i + 1, next);
                    proof {
                        lemma_views_insert(mid, i as int + 1, next);
                        assert(self@.children =~= (done + seq![child]) + (seq![next_model] + tail));
                    }
                    let cont = self.cut_children(i + 1);
                    proof {
                        let all = (done + seq![child]) + (seq![next_model] + tail);
                        assert(all.take(i as int + 1) =~= done + seq![child]);
                        assert(all.skip(i as int + 1) =~= seq![next_model] + tail);
                        lemma_weights_cons(next_model, Seq::empty());
                        assert(seq![next_model] + Seq::<BoxModel>::empty() =~= seq![next_model]);
                        lemma_cut_line(before, i as int, seq![next_model]);
                    }
                    res = LayoutRes::CutHere(cont);
                    break ;
                },
                LayoutRes::Reject => {
                    if i == 0 {
                        if !dorej {
                            return None;
                        }
                        proof {
                            assert(done + (seq![child] + tail) =~= seq![child] + tail);
                            assert(kids.skip(1) =~= kids.drop_first());
                            lemma_rejected_line(before, child);
                        }
                        res = LayoutRes::Reject;
                    } else {
                        let cont = self.cut_children(i);
                        proof {
                            let all = done + (seq![child] + tail);
                            assert(all.take(i as int) =~= done);
                            assert(all.skip(i as int) =~= seq![child] + tail);
                            lemma_cut_line(before, i as int, seq![child]);
                        }
                        res = LayoutRes::CutHere(cont);
                    }
                    break ;
                },
            }
            i += 1;
        }
        self.size.content.w = if subcursor.x >= self.size.content.x {
            subcursor.x - self.size.content.x
        } else {
            0
        };
        Some(res)
    }

    /// Lays out the box at the cursor by the rule of its kind. There is no
    /// outcome where the layout fails; the box is of no use then.
    pub fn layout_generic(&mut self, cursor: &mut BoxCursor) -> (res: Option<LayoutRes<DomBox>>)
        ensures
            laid(old(self)@, *old(cursor), final(self)@, *final(cursor), outcome(res)),
        decreases old(self)@.weight(), 2int,
    {
        match self.kind {
            BoxKind::Block | BoxKind::ListBullet | BoxKind::Header(_) => self.layout_block(cursor),
            BoxKind::InlineContainer => self.layout_inline_container(cursor),
            BoxKind::List(_) => self.layout_list(cursor),
            BoxKind::Text(_) | BoxKind::Inline => self.layout_inline(cursor),
            _ => None,
        }
    }

    /// Lays out a block, a header or a bullet at the cursor. There is no
    /// outcome where the layout of a child fails or a child is rejected.
    pub fn layout_block(&mut self, cursor: &mut BoxCursor) -> (res: Option<LayoutRes<DomBox>>)
        ensures
            match res {
                Some(r) => {
                    &&& !lay_block(old(self)@, *old(cursor)).failed
                    &&& final(self)@ == lay_block(old(self)@, *old(cursor)).node
                    &&& *final(cursor) == lay_block(old(self)@, *old(cursor)).cursor
                    &&& r@ is Normal
                },
                None => lay_block(old(self)@, *old(cursor)).failed,
            },
        decreases old(self)@.weight(), 1int,
    {
        self.size.content.x = add_cells(cursor.x, self.size.border.left);
        self.size.content.y = add_cells(cursor.y, self.size.border.top);
        self.size.content.h = 0;
        self.size.content.w = block_width_at(cursor, &self.size.border);
        let mut subcursor = BoxCursor {
            x: self.size.content.x,
            y: self.size.content.y,
            container: self.size,
        };
        let mut max_width: u16 = 0;
        let mut i: usize = 0;
        let ghost before = old(self)@;
        let ghost start = subcursor;
        let ghost mut done: Seq<BoxModel> = Seq::empty();
        let ghost mut todo: Seq<BoxModel> = before.children;
        proof {
            assert(done + todo =~= todo);
            assert(done + stacked(todo, start).boxes =~= stacked(todo, start).boxes);
        }
        while i < self.children.len()
            invariant
                i == done.len(),
                self.kind == old(self).kind,
                self.style == old(self).style,
                self.size == (BoxSize {
                    content: Rect { h: self.size.content.h, ..start.container.content },
                    ..start.container
                }),
                before == old(self)@,
                views(self.children@) == done + todo,
                stacked(before.children, start) == (Stack {
                    boxes: done + stacked(todo, subcursor).boxes,
                    cursor: stacked(todo, subcursor).cursor,
                    failed: stacked(todo, subcursor).failed,
                }),
                start == block_start(before, *old(cursor)),
                *cursor == *old(cursor),
                start == block_start(before, *cursor),
                self.size.content.h == clamp(outer_heights(done)),
                max_width == widest(done),
                1 + weights(todo) <= before.weight(),
            decreases weights(todo),
        {
            proof {
                assert(views(self.children@).len() == done.len() + todo.len());
                assert(views(self.children@)[i as int] == todo[0]);
                lemma_weights_first(todo);
                lemma_stacked_first(todo, subcursor);
            }
            let ghost pre = self.children@;
            let ghost rest = todo.drop_first();
            let is_break = match self.children[i].kind {
                BoxKind::Break => true,
                _ => false,
            };
            if is_break {
                let _ = self.children.remove(i);
                proof {
                    lemma_views_remove(pre, i as int);
                    assert(views(self.children@) =~= done + rest);
                    todo = rest;
                }
                continue ;
            }
            let outcome = match self.children[i].layout_generic(&mut subcursor) {
                Some(LayoutRes::Reject) => {
                    return None;
                },
                Some(outcome) => outcome,
                None => {
                    return None;
                },
            };
            let ghost top = self.children@[i as int]@;
            let ghost mid = self.children@;
            proof {
                lemma_views_update(pre, i as int, self.children@[i as int]);
                lemma_stack_next(todo, top, outcome@);
                lemma_outer_heights_push(done, top);
                lemma_widest_push(done, top);
                lemma_clamp_add(outer_heights(done), top.size.outer_height());
            }
            match outcome {
                LayoutRes::CutHere(next) => {
                    self.children.insert(i + 1, next);
                    proof {
                        lemma_views_insert(mid, i as int + 1, next);
                        todo = seq![next@] + rest;
                        assert(views(self.children@) =~= done.push(top) + todo);
                    }
                },
                _ => {
                    proof {
                        assert(views(self.children@) =~= done.push(top) + rest);
                        todo = rest;
                    }
                },
            }
            proof {
                assert(done.push(top) + stacked(todo, subcursor).boxes =~= done + (seq![top]
                    + stacked(todo, subcursor).boxes));
                done = done.push(top);
            }
            let child_height = outer_extent(
                self.children[i].size.content.h,
                self.children[i].size.border.top,
                self.children[i].size.border.bottom,
            );
            self.size.content.h = add_cells(self.size.content.h, child_height);
            let child_width = outer_extent(
                self.children[i].size.content.w,
                self.children[i].size.border.left,
                self.children[i].size.border.right,
            );
            if child_width > max_width {
                max_width = child_width;
            }
            i += 1;
        }
        proof {
            assert(todo.len() == 0);
            assert(done + todo =~= done);
            assert(done + Seq::<BoxModel>::empty() =~= done);
        }
        if !self.style.extend {
            self.size.content.w = max_width;
        }
        let is_bullet = match self.kind {
            BoxKind::ListBullet => true,
            _ => false,
        };
        if is_bullet {
            let width = outer_extent(
                self.size.content.w,
                self.size.border.left,
                self.size.border.right,
            );
            cursor.x = add_cells(cursor.x, width);
        } else {
            let height = outer_extent(
                self.size.content.h,
                self.size.border.top,
                self.size.border.bottom,
            );
            cursor.x = cursor.container.content.x;
            cursor.y = add_cells(cursor.y, height);
        }
        Some(LayoutRes::Normal)
    }

    /// Whether every child is a bullet or a block, as the children of a list
    /// have to be.
    fn holds_items(&self) -> (yes: bool)
        ensures
            yes == list_kinds(self@.children),
    {
        let mut i: usize = 0;
        while i < self.children.len()
            invariant
                0 <= i <= self.children@.len(),
                forall|j: int|
                    0 <= j < i ==> (#[trigger] self@.children[j]).kind is ListBullet
                        || self@.children[j].kind is Block,
            decreases self.children@.len() - i,
        {
            assert(self@.children[i as int] == self.children@[i as int]@);
            let fits = match self.children[i].kind {
                BoxKind::ListBullet => true,
                BoxKind::Block => true,
                _ => false,
            };
            if !fits {
                return false;
            }
            i += 1;
        }
        true
    }

    /// Lays out a list at the cursor. There is no outcome where a child is
    /// neither a bullet nor a block, or where its layout fails or it is
    /// rejected.
    pub fn layout_list(&mut self, cursor: &mut BoxCursor) -> (res: Option<LayoutRes<DomBox>>)
        ensures
            match res {
                Some(r) => {
                    &&& !lay_list(old(self)@, *old(cursor)).failed
                    &&& final(self)@ == lay_list(old(self)@, *old(cursor)).node
                    &&& *final(cursor) == lay_list(old(self)@, *old(cursor)).cursor
                    &&& r@ is Normal
                },
                None => lay_list(old(self)@, *old(cursor)).failed,
            },
        decreases old(self)@.weight(), 1int,
    {
        if !self.holds_items() {
            return None;
        }
        self.size.content.w = line_width_at(cursor, &self.size.border);
        self.size.content.h = 0;
        self.size.content.x = add_cells(cursor.x, self.size.border.left);
        self.size.content.y = add_cells(cursor.y, self.size.border.top);
        let mut subcursor = BoxCursor {
            x: self.size.content.x,
            y: self.size.content.y,
            container: self.size,
        };
        let mut i: usize = 0;
        let ghost before = old(self)@;
        let ghost start = subcursor;
        let ghost mut done: Seq<BoxModel> = Seq::empty();
        let ghost mut todo: Seq<BoxModel> = before.children;
        proof {
            assert(done + todo =~= todo);
            assert(done + stacked(todo, start).boxes =~= stacked(todo, start).boxes);
        }
        while i < self.children.len()
            invariant
                i == done.len(),
                self.kind == old(self).kind,
                self.style == old(self).style,
                self.size == (BoxSize {
                    content: Rect { h: self.size.content.h, ..start.container.content },
                    ..start.container
                }),
                before == old(self)@,
                views(self.children@) == done + todo,
                stacked(before.children, start) == (Stack {
                    boxes: done + stacked(todo, subcursor).boxes,
                    cursor: stacked(todo, subcursor).cursor,
                    failed: stacked(todo, subcursor).failed,
                }),
                start == list_start(before, *old(cursor)),
                *cursor == *old(cursor),
                start == list_start(before, *cursor),
                list_kinds(before.children),
                list_kinds(todo),
                self.size.content.h == clamp(block_heights(done)),
                1 + weights(todo) <= before.weight(),
            decreases weights(todo),
        {
            proof {
                assert(views(self.children@).len() == done.len() + todo.len());
                assert(views(self.children@)[i as int] == todo[0]);
                lemma_weights_first(todo);
                lemma_stacked_first(todo, subcursor);
            }
            let ghost pre = self.children@;
            let ghost rest = todo.drop_first();
            let is_block = match self.children[i].kind {
                BoxKind::Block => true,
                _ => false,
            };
            proof {
                assert(todo[0].kind is ListBullet || todo[0].kind is Block);
                assert(list_kinds(rest)) by {
                    assert forall|j: int| 0 <= j < rest.len() implies (#[trigger] rest[j]).kind is ListBullet
                        || rest[j].kind is Block by {
                        assert(rest[j] == todo[j + 1]);
                    }
                }
            }
            let outcome = match self.children[i].layout_generic(&mut subcursor) {
                Some(LayoutRes::Reject) => {
                    return None;
                },
                Some(outcome) => outcome,
                None => {
                    return None;
                },
            };
            let ghost top = self.children@[i as int]@;
            proof {
                lemma_views_update(pre, i as int, self.children@[i as int]);
                lemma_stack_next(todo, top, outcome@);
                lemma_block_heights_push(done, top);
                lemma_clamp_add(block_heights(done), top.size.outer_height());
                assert(outcome@ is Normal);
                assert(views(self.children@) =~= done.push(top) + rest);
                todo = rest;
            }
            match outcome {
                LayoutRes::CutHere(next) => {
                    self.children.insert(i + 1, next);
                },
                _ => {},
            }
            proof {
                assert(done.push(top) + stacked(todo, subcursor).boxes =~= done + (seq![top]
                    + stacked(todo, subcursor).boxes));
                done = done.push(top);
            }
            if is_block {
                let child_height = outer_extent(
                    self.children[i].size.content.h,
                    self.children[i].size.border.top,
                    self.children[i].size.border.bottom,
                );
                self.size.content.h = add_cells(self.size.content.h, child_height);
            }
            i += 1;
        }
        proof {
            assert(todo.len() == 0);
            assert(done + todo =~= done);
            assert(done + Seq::<BoxModel>::empty() =~= done);
        }
        let height = outer_extent(
            self.size.content.h,
            self.size.border.top,
            self.size.border.bottom,
        );
        cursor.y = add_cells(cursor.y, height);
        Some(LayoutRes::Normal)
    }

    /// Lays out a line at the cursor. Cut, it becomes two lines. There is no
    /// outcome where the layout of a child fails or the first child is
    /// rejected.
    pub fn layout_inline_container(&mut self, cursor: &mut BoxCursor) -> (res: Option<
        LayoutRes<DomBox>,
    >)
        ensures
            match res {
                Some(r) => {
                    &&& !lay_inline_container(old(self)@, *old(cursor)).failed
                    &&& final(self)@ == lay_inline_container(old(self)@, *old(cursor)).node
                    &&& *final(cursor) == lay_inline_container(old(self)@, *old(cursor)).cursor
                    &&& r@ == lay_inline_container(old(self)@, *old(cursor)).res
                    &&& outcome_ok(old(self)@, final(self)@, r@)
                },
                None => lay_inline_container(old(self)@, *old(cursor)).failed,
            },
        decreases old(self)@.weight(), 1int,
    {
        self.size.content.w = line_width_at(cursor, &self.size.border);
        self.size.content.h = 1;
        self.size.content.x = add_cells(cursor.x, self.size.border.left);
        self.size.content.y = add_cells(cursor.y, self.size.border.top);
        let res = match self.inline_children_loop(LayoutRes::Normal, false) {
            Some(res) => res,
            None => {
                return None;
            },
        };
        let height = outer_extent(
            self.size.content.h,
            self.size.border.top,
            self.size.border.bottom,
        );
        cursor.y = add_cells(cursor.y, height);
        Some(res)
    }

    /// Lays out a text or an inline span at the cursor. A text wider than
    /// the room keeps the leading grapheme clusters that display no wider
    /// than the room, or its first cluster where that alone is wider, and
    /// hands out the rest as its continuation, to be placed right after it.
    /// A text that stays is as wide as it displays. There is no outcome for
    /// a box of another kind, nor where the layout of a child of a span
    /// fails.
    pub fn layout_inline(&mut self, cursor: &mut BoxCursor) -> (res: Option<LayoutRes<DomBox>>)
        ensures
            match res {
                Some(r) => {
                    &&& old(self)@.is_inline_leaf()
                    &&& !lay_inline(old(self)@, *old(cursor)).failed
                    &&& final(self)@ == lay_inline(old(self)@, *old(cursor)).node
                    &&& *final(cursor) == lay_inline(old(self)@, *old(cursor)).cursor
                    &&& r@ == lay_inline(old(self)@, *old(cursor)).res
                    &&& outcome_ok(old(self)@, final(self)@, r@)
                    &&& old(self)@.kind is Text ==> text_fitted(
                        old(self)@,
                        *old(cursor),
                        final(self)@,
                        r@,
                    )
                },
                None => !old(self)@.is_inline_leaf() || lay_inline(old(self)@, *old(cursor)).failed,
            },
        decreases old(self)@.weight(), 1int,
    {
        let mut res = LayoutRes::Normal;
        self.size.content.h = 1;
        self.size.content.x = add_cells(cursor.x, self.size.border.left);
        self.size.content.y = add_cells(cursor.y, self.size.border.top);
        self.size.content.w = inline_room_at(cursor, &self.size.border);
        let size = self.size;
        let style = self.style;
        let mut fitted: Option<u16> = None;
        match &mut self.kind {
            BoxKind::Text(text) => {
                let width = str_width(text.as_str());
                proof {
                    lemma_text_width(old(self)@, *old(cursor));
                }
                if size.content.w == 0 {
                    res = LayoutRes::Reject;
                } else if width > size.content.w as usize {
                    let (pos, kept_width) = find_cut(text.as_str(), size.content.w);
                    let remains = split_at_in_place(text, pos);
                    let next = DomBox {
                        kind: BoxKind::Text(remains),
                        size,
                        style,
                        children: Vec::new(),
                    };
                    proof {
                        assert(next@.children =~= Seq::<BoxModel>::empty());
                        assert(weights(next@.children) == 0);
                    }
                    res = LayoutRes::CutHere(next);
                    fitted = Some(
                        if kept_width > 0xffff {
                            0xffff
                        } else {
                            kept_width as u16
                        },
                    );
                } else {
                    fitted = Some(width as u16);
                }
            },
            BoxKind::Inline => {},
            _ => {
                return None;
            },
        }
        match fitted {
            Some(width) => {
                self.size.content.w = width;
            },
            None => {},
        }
        let is_span = match self.kind {
            BoxKind::Inline => true,
            _ => false,
        };
        if is_span {
            res = match self.inline_children_loop(res, true) {
                Some(res) => res,
                None => {
                    return None;
                },
            };
        }
        cursor.x = add_cells(cursor.x, self.size.content.w);
        Some(res)
    }
}

/// The cursor at which the children of a block, a header or a bullet at the
/// cursor `c` begin.
pub open spec fn block_start(b: BoxModel, c: BoxCursor) -> BoxCursor {
    inner_cursor(placed(b.size, c, block_width(c, b.size.border), 0))
}

/// The cursor at which the children of a list at the cursor `c` begin.
pub open spec fn list_start(b: BoxModel, c: BoxCursor) -> BoxCursor {
    inner_cursor(placed(b.size, c, line_width(c, b.size.border), 0))
}

/// Where to cut a text that is wider than the room, and how wide what stays
/// in front of the cut displays.
fn find_cut(text: &str, room: u16) -> (cut: (usize, usize))
    requires
        text@.len() > 0,
    ensures
        cut.0 == text_cut(text@, room),
        cut.1 == display_width(text_before(text@, cut.0 as int)),
        is_char_boundary(encode_utf8(text@), cut.0 as int),
        0 < cut.0 <= byte_len(text@),
{
    let len = text.as_bytes().len();
    let mut count: usize = 1;
    let mut offset = findsplit(text, 1);
    let mut width = width_before(text, offset);
    if width > room as usize {
        return (offset, width);
    }
    loop
        invariant_except_break
            kept_clusters(text@, room, 1) == kept_clusters(text@, room, count as nat),
        invariant
            text@.len() > 0,
            len == byte_len(text@),
            count >= 1,
            front_fits(text@, 1, room),
            offset == cut_offset(text@, count as nat),
            0 < offset <= len,
            is_char_boundary(encode_utf8(text@), offset as int),
            offset < len <==> count < grapheme_starts(text@).len(),
            offset < len ==> count <= offset,
            width == display_width(text_before(text@, offset as int)),
        ensures
            kept_clusters(text@, room, 1) == count,
        decreases grapheme_starts(text@).len() - count,
    {
        if offset >= len {
            break ;
        }
        let next = findsplit(text, count + 1);
        let next_width = width_before(text, next);
        if next_width > room as usize {
            break ;
        }
        count += 1;
        offset = next;
        width = next_width;
    }
    (offset, width)
}

} // verus!
