//! The tree-to-layout driver: one rectangle per tree node, children folded
//! into a row, the row stacked under its parent shape, and the reparenting
//! depth chosen so that the scene graph keeps one edge per tree edge.

use vstd::prelude::*;
use vstd::math::{min, max};
use crate::model::{
    Drawable, DrawView, Node, NodeView, Shape, ShapeV, Style, empty_view, lemma_node_view_list,
};
use crate::bounds::{
    low_x, high_x, low_y, high_y, pos_inf, neg_inf, within, lemma_bounds_within,
    lemma_within_bounds,
};
use crate::translate::translated;
use crate::bounds::lemma_div2_window;
use crate::combine::{
    above_spec, beside_top_spec, above, beside_align_top, comb_limit, lemma_beside_top_adjacent,
    lemma_above_bounds,
};
use crate::connect::{node_count, node_count_list};

verus! {

/// Largest horizontal or vertical offset the driver accepts.
pub open spec fn off_limit() -> int {
    0x10_0000
}

/// Largest tree (total node count) the driver accepts.
pub open spec fn size_limit() -> int {
    0x10_0000
}

/// Largest child count of any one node the driver accepts; the reparenting
/// depth of the stack combinator must fit in a byte.
pub open spec fn arity_limit() -> int {
    256
}

/// Total number of nodes of the input tree.
pub open spec fn tree_size(t: NodeView) -> nat
    decreases t, 0int,
{
    1 + tree_size_list(t.subs)
}

pub open spec fn tree_size_list(s: Seq<NodeView>) -> nat
    decreases s, 1int,
{
    if s.len() == 0 {
        0
    } else {
        tree_size_list(s.drop_last()) + tree_size(s.last())
    }
}

/// No node of the tree has more children than the reparenting depth can
/// count.
pub open spec fn arity_ok(t: NodeView) -> bool
    decreases t, 0int,
{
    t.subs.len() <= arity_limit() && arity_ok_list(t.subs)
}

pub open spec fn arity_ok_list(s: Seq<NodeView>) -> bool
    decreases s, 1int,
{
    s.len() == 0 || (arity_ok_list(s.drop_last()) && arity_ok(s.last()))
}

/// Width budget: an upper bound, by construction, on how far the layout of
/// `t` extends to the right when rows use horizontal offset `c`.
pub open spec fn wb(t: NodeView, c: int) -> int
    decreases t, 0int,
{
    wb_list(t.subs, c)
}

pub open spec fn wb_list(s: Seq<NodeView>, c: int) -> int
    decreases s, 1int,
{
    if s.len() == 0 {
        0
    } else {
        wb_list(s.drop_last(), c) + wb(s.last(), c) + c
    }
}

/// Height budget: an upper bound on the vertical spread of the layout of
/// `t` when stacks use vertical offset `c`.
pub open spec fn hb(t: NodeView, c: int) -> int
    decreases t, 0int,
{
    if t.subs.len() == 0 {
        0
    } else {
        c + hb_list(t.subs, c)
    }
}

pub open spec fn hb_list(s: Seq<NodeView>, c: int) -> int
    decreases s, 1int,
{
    if s.len() == 0 {
        0
    } else {
        max(hb_list(s.drop_last(), c), hb(s.last(), c))
    }
}

/// The view of the rectangle primitive the driver builds for one tree
/// node: side length `side`, filled dark red for a leaf and black
/// otherwise, at the origin, without children.
pub open spec fn rect_view(side: int, leaf: bool) -> DrawView {
    DrawView {
        shape: Some(ShapeV::Rectangle { width: side, height: side }),
        style: if leaf {
            Style::Filled { red: 128, green: 0, blue: 0 }
        } else {
            Style::Filled { red: 0, green: 0, blue: 0 }
        },
        x: 0,
        y: 0,
        subs: Seq::empty(),
    }
}

/// The composed scene graph for the whole tree `t`: the children folded
/// left to right into a top-aligned row, the rectangle stacked above that
/// row, with reparenting depth one less than the child count.
pub open spec fn layout_spec(t: NodeView, side: int, ox: int, oy: int) -> DrawView
    decreases t, 0int,
{
    let rect = rect_view(side, t.subs.len() == 0);
    let row = row_spec(t.subs, side, ox, oy);
    let depth: int = if t.subs.len() == 0 {
        0
    } else {
        t.subs.len() - 1
    };
    above_spec(row, rect, oy, depth)
}

/// The top-aligned row of the layouts of a list of trees, folded left to
/// right starting from the empty placeholder.
pub open spec fn row_spec(s: Seq<NodeView>, side: int, ox: int, oy: int) -> DrawView
    decreases s, 1int,
{
    if s.len() == 0 {
        empty_view()
    } else {
        beside_top_spec(
            row_spec(s.drop_last(), side, ox, oy),
            layout_spec(s.last(), side, ox, oy),
            ox,
        )
    }
}

/// Sizes are positive, budgets are nonnegative and grow with the list.
pub proof fn lemma_budgets_nonneg(t: NodeView, c: int)
    requires
        0 <= c,
    ensures
        0 <= wb(t, c),
        0 <= hb(t, c),
        1 <= tree_size(t),
    decreases t, 0int,
{
    lemma_budgets_nonneg_list(t.subs, c);
}

pub proof fn lemma_budgets_nonneg_list(s: Seq<NodeView>, c: int)
    requires
        0 <= c,
    ensures
        0 <= wb_list(s, c),
        0 <= hb_list(s, c),
        s.len() <= tree_size_list(s),
    decreases s, 1int,
{
    if s.len() > 0 {
        lemma_budgets_nonneg_list(s.drop_last(), c);
        lemma_budgets_nonneg(s.last(), c);
    }
}

/// Budgets are bounded by the tree size times the offset.
pub proof fn lemma_budget_size(t: NodeView, c: int)
    requires
        0 <= c,
    ensures
        wb(t, c) <= (tree_size(t) - 1) * c,
        hb(t, c) <= tree_size(t) * c,
    decreases t, 0int,
{
    lemma_budget_size_list(t.subs, c);
    let szl = tree_size_list(t.subs) as int;
    if t.subs.len() == 0 {
        assert(wb(t, c) == 0);
        assert((tree_size(t) - 1) * c == 0) by (nonlinear_arith)
            requires tree_size(t) == 1;
    } else {
        assert(tree_size(t) * c == szl * c + c) by (nonlinear_arith)
            requires tree_size(t) == 1 + szl;
    }
}

pub proof fn lemma_budget_size_list(s: Seq<NodeView>, c: int)
    requires
        0 <= c,
    ensures
        wb_list(s, c) <= tree_size_list(s) * c,
        hb_list(s, c) <= tree_size_list(s) * c,
    decreases s, 1int,
{
    if s.len() == 0 {
        assert(tree_size_list(s) * c == 0) by (nonlinear_arith)
            requires tree_size_list(s) == 0;
    } else {
        let a = tree_size_list(s.drop_last()) as int;
        let b = tree_size(s.last()) as int;
        lemma_budget_size_list(s.drop_last(), c);
        lemma_budget_size(s.last(), c);
        lemma_budgets_nonneg_list(s.drop_last(), c);
        lemma_budgets_nonneg(s.last(), c);
        assert(tree_size_list(s) * c == a * c + b * c) by (nonlinear_arith)
            requires tree_size_list(s) == a + b;
        assert(a * c >= 0) by (nonlinear_arith)
            requires a >= 0, c >= 0;
        assert(b * c >= c) by (nonlinear_arith)
            requires b >= 1, c >= 0;
        assert(b * c == (b - 1) * c + c) by (nonlinear_arith);
        assert(hb_list(s, c) == max(hb_list(s.drop_last(), c), hb(s.last(), c)));
    }
}

/// The layout of any accepted tree is anchored at the left edge `x == 0`,
/// extends right no farther than the width budget, reaches up no farther
/// than the height budget, and never below `y == 0` by more than its own
/// spread; and it always carries a shape.
pub proof fn lemma_layout_box(t: NodeView, side: int, ox: int, oy: int)
    requires
        0 <= ox <= off_limit(),
        0 <= oy <= off_limit(),
        tree_size(t) <= size_limit(),
    ensures
        ({
            let l = layout_spec(t, side, ox, oy);
            &&& l.shape is Some
            &&& low_x(l) == 0
            &&& 0 <= high_x(l) <= wb(t, ox)
            &&& -hb(t, oy) <= low_y(l) <= 0
            &&& high_y(l) - low_y(l) <= hb(t, oy)
        }),
    decreases t, 0int,
{
    let l = layout_spec(t, side, ox, oy);
    let rect = rect_view(side, t.subs.len() == 0);
    let row = row_spec(t.subs, side, ox, oy);
    lemma_budgets_nonneg(t, ox);
    lemma_budgets_nonneg(t, oy);
    lemma_budgets_nonneg_list(t.subs, ox);
    lemma_budgets_nonneg_list(t.subs, oy);
    assert(crate::bounds::low_x_list(Seq::<DrawView>::empty()) == pos_inf());
    assert(crate::bounds::high_x_list(Seq::<DrawView>::empty()) == neg_inf());
    assert(crate::bounds::low_y_list(Seq::<DrawView>::empty()) == pos_inf());
    assert(crate::bounds::high_y_list(Seq::<DrawView>::empty()) == neg_inf());
    assert(low_x(rect) == 0);
    assert(high_x(rect) == 0);
    assert(low_y(rect) == 0);
    assert(high_y(rect) == 0);
    if t.subs.len() == 0 {
        assert(row == empty_view());
        assert(l == rect);
    } else {
        lemma_row_box(t.subs, side, ox, oy);
        lemma_budget_size_list(t.subs, ox);
        lemma_budget_size_list(t.subs, oy);
        let szl = tree_size_list(t.subs) as int;
        assert(szl * ox <= size_limit() * off_limit()) by (nonlinear_arith)
            requires 0 <= szl <= size_limit(), 0 <= ox <= off_limit();
        assert(szl * oy <= size_limit() * off_limit()) by (nonlinear_arith)
            requires 0 <= szl <= size_limit(), 0 <= oy <= off_limit();
        let depth: int = t.subs.len() - 1;
        assert(row.shape is Some);
        lemma_above_bounds(row, rect, oy, depth);
        let dx = crate::bounds::center_x(row) - crate::bounds::center_x(rect);
        let dy = low_y(row) - high_y(rect) - oy;
        let moved = translated(rect, dx, dy);
        assert(crate::bounds::center_x(rect) == 0);
        lemma_div2_window(high_x(row) + low_x(row));
        assert(0 <= dx <= high_x(row));
        assert(moved.subs =~= Seq::<DrawView>::empty());
        assert(low_x(moved) == dx);
        assert(high_x(moved) == dx);
        assert(low_y(moved) == dy);
        assert(high_y(moved) == dy);
        assert(low_x(l) == min(low_x(moved), low_x(row)));
        assert(high_x(l) == max(high_x(moved), high_x(row)));
        assert(low_y(l) == min(low_y(moved), low_y(row)));
        assert(high_y(l) == max(high_y(moved), high_y(row)));
    }
}

/// The row of an accepted list of trees is either the empty placeholder or
/// a shaped drawable anchored at `x == 0` inside its own budgets.
pub proof fn lemma_row_box(s: Seq<NodeView>, side: int, ox: int, oy: int)
    requires
        0 <= ox <= off_limit(),
        0 <= oy <= off_limit(),
        tree_size_list(s) <= size_limit(),
    ensures
        ({
            let r = row_spec(s, side, ox, oy);
            &&& s.len() == 0 ==> r == empty_view()
            &&& s.len() > 0 ==> {
                &&& r.shape is Some
                &&& low_x(r) == 0
                &&& 0 <= high_x(r) <= wb_list(s, ox)
                &&& -hb_list(s, oy) <= low_y(r) <= 0
                &&& high_y(r) - low_y(r) <= hb_list(s, oy)
            }
        }),
    decreases s, 1int,
{
    if s.len() > 0 {
        let r = row_spec(s, side, ox, oy);
        let prev = row_spec(s.drop_last(), side, ox, oy);
        let built = layout_spec(s.last(), side, ox, oy);
        lemma_budgets_nonneg_list(s.drop_last(), ox);
        lemma_budgets_nonneg_list(s.drop_last(), oy);
        lemma_budgets_nonneg(s.last(), ox);
        lemma_budgets_nonneg(s.last(), oy);
        lemma_budgets_nonneg_list(s, 0);
        assert(tree_size(s.last()) <= tree_size_list(s));
        lemma_row_box(s.drop_last(), side, ox, oy);
        lemma_layout_box(s.last(), side, ox, oy);
        if s.drop_last().len() == 0 {
            assert(prev == empty_view());
            assert(r == built);
            assert(wb_list(s, ox) == wb(s.last(), ox) + ox);
            assert(hb_list(s, oy) == max(0, hb(s.last(), oy)));
        } else {
            lemma_budget_size_list(s.drop_last(), ox);
            lemma_budget_size_list(s.drop_last(), oy);
            lemma_budget_size(s.last(), ox);
            lemma_budget_size(s.last(), oy);
            let szp = tree_size_list(s.drop_last()) as int;
            let szb = tree_size(s.last()) as int;
            assert(szp * ox <= size_limit() * off_limit()) by (nonlinear_arith)
                requires 0 <= szp <= size_limit(), 0 <= ox <= off_limit();
            assert(szp * oy <= size_limit() * off_limit()) by (nonlinear_arith)
                requires 0 <= szp <= size_limit(), 0 <= oy <= off_limit();
            assert(szb * ox <= size_limit() * off_limit()) by (nonlinear_arith)
                requires 0 <= szb <= size_limit(), 0 <= ox <= off_limit();
            assert(szb * oy <= size_limit() * off_limit()) by (nonlinear_arith)
                requires 0 <= szb <= size_limit(), 0 <= oy <= off_limit();
            assert((szb - 1) * ox <= szb * ox) by (nonlinear_arith)
                requires 0 <= ox, 1 <= szb;
            lemma_bounds_within(prev, comb_limit());
            lemma_bounds_within(built, comb_limit());
            lemma_beside_top_adjacent(prev, built, ox);
            assert(low_x(r) == min(low_x(prev), high_x(prev) + ox));
            assert(high_x(r) == max(high_x(prev), high_x(prev) + ox + (high_x(built) - low_x(
                built,
            ))));
            assert(low_y(r) == low_y(prev));
            assert(high_y(r) == max(high_y(prev), low_y(prev) + (high_y(built) - low_y(built))));
        }
    }
}

/// Coordinates of the layout of an accepted tree stay well inside the
/// combinators' working range.
pub proof fn lemma_layout_within(t: NodeView, side: int, ox: int, oy: int)
    requires
        0 <= ox <= off_limit(),
        0 <= oy <= off_limit(),
        tree_size(t) <= size_limit(),
    ensures
        within(layout_spec(t, side, ox, oy), comb_limit()),
{
    let l = layout_spec(t, side, ox, oy);
    lemma_layout_box(t, side, ox, oy);
    lemma_budget_size(t, ox);
    lemma_budget_size(t, oy);
    lemma_budgets_nonneg(t, ox);
    lemma_budgets_nonneg(t, oy);
    let sz = tree_size(t) as int;
    assert(sz * ox <= size_limit() * off_limit()) by (nonlinear_arith)
        requires 0 <= sz <= size_limit(), 0 <= ox <= off_limit();
    assert(sz * oy <= size_limit() * off_limit()) by (nonlinear_arith)
        requires 0 <= sz <= size_limit(), 0 <= oy <= off_limit();
    assert((sz - 1) * ox <= sz * ox) by (nonlinear_arith)
        requires 0 <= ox, 1 <= sz;
    if tree_size(t) == 1 {
        assert(layout_spec(t, side, ox, oy).shape is Some);
    }
    lemma_bounds_within(l, comb_limit());
}

/// The row of an accepted list stays well inside the combinators' working
/// range too.
pub proof fn lemma_row_within(s: Seq<NodeView>, side: int, ox: int, oy: int)
    requires
        0 <= ox <= off_limit(),
        0 <= oy <= off_limit(),
        tree_size_list(s) <= size_limit(),
    ensures
        within(row_spec(s, side, ox, oy), comb_limit()),
{
    let r = row_spec(s, side, ox, oy);
    lemma_row_box(s, side, ox, oy);
    if s.len() == 0 {
        assert(r == empty_view());
        assert(crate::bounds::within_list(Seq::<DrawView>::empty(), comb_limit()));
    } else {
        lemma_budget_size_list(s, ox);
        lemma_budget_size_list(s, oy);
        lemma_budgets_nonneg_list(s, ox);
        lemma_budgets_nonneg_list(s, oy);
        let sz = tree_size_list(s) as int;
        assert(sz * ox <= size_limit() * off_limit()) by (nonlinear_arith)
            requires 0 <= sz <= size_limit(), 0 <= ox <= off_limit();
        assert(sz * oy <= size_limit() * off_limit()) by (nonlinear_arith)
            requires 0 <= sz <= size_limit(), 0 <= oy <= off_limit();
        lemma_bounds_within(r, comb_limit());
    }
}

/// Return a black square at (0, 0).
pub fn square(side_len: u32) -> (r: Drawable)
    ensures
        r@ == rect_view(side_len as int, false),
{
    let rect = Drawable {
        shape: Some(Shape::Rectangle { width: side_len, height: side_len }),
        style: Style::Filled { red: 0, green: 0, blue: 0 },
        x: 0,
        y: 0,
        subs: Vec::new(),
    };
    proof {
        assert(rect@.subs =~= Seq::<DrawView>::empty());
        assert(rect@ =~~= rect_view(side_len as int, false));
    }
    rect
}

/// Produce an image of the given tree: one rectangle per tree node, leaves
/// filled dark red, composed by the row and stack combinators with the
/// given offsets. The result is exactly the composed scene graph that
/// `layout_spec` describes.
pub fn draw_nodes(n: Node, side_len: u32, x_offset: i64, y_offset: i64) -> (r: Drawable)
    requires
        0 <= x_offset <= off_limit(),
        0 <= y_offset <= off_limit(),
        tree_size(n@) <= size_limit(),
        arity_ok(n@),
    ensures
        r@ == layout_spec(n@, side_len as int, x_offset as int, y_offset as int),
    decreases n, 0int,
{
    let ghost t = n@;
    proof {
        lemma_node_view_list(n.subs@);
        lemma_budgets_nonneg_list(t.subs, 0);
    }
    let mut n = n;
    let num = n.subs.len();
    let depth: u8 = if num == 0 {
        0
    } else {
        (num - 1) as u8
    };
    let mut rect = square(side_len);
    if num == 0 {
        rect.style = Style::Filled { red: 128, green: 0, blue: 0 };
        proof {
            assert(rect@ =~~= rect_view(side_len as int, true));
        }
    }
    let tree = draw_row(&mut n.subs, side_len, x_offset, y_offset);
    proof {
        lemma_row_within(t.subs, side_len as int, x_offset as int, y_offset as int);
        assert(within(rect@, comb_limit())) by {
            assert(crate::bounds::within_list(Seq::<DrawView>::empty(), comb_limit()));
        }
    }
    above(tree, rect, y_offset, depth)
}

/// Fold the layouts of a list of trees into one top-aligned row, left to
/// right, starting from the empty placeholder.
fn draw_row(lon: &mut Vec<Node>, side_len: u32, x_offset: i64, y_offset: i64) -> (r: Drawable)
    requires
        0 <= x_offset <= off_limit(),
        0 <= y_offset <= off_limit(),
        tree_size_list(crate::model::node_view_list(old(lon)@)) <= size_limit(),
        arity_ok_list(crate::model::node_view_list(old(lon)@)),
    ensures
        r@ == row_spec(
            crate::model::node_view_list(old(lon)@),
            side_len as int,
            x_offset as int,
            y_offset as int,
        ),
    decreases old(lon)@, 1int,
{
    let ghost s = crate::model::node_view_list(old(lon)@);
    proof {
        lemma_node_view_list(old(lon)@);
    }
    if lon.len() == 0 {
        let empty = Drawable::new();
        proof {
            assert(row_spec(s, side_len as int, x_offset as int, y_offset as int)
                == empty_view());
        }
        return empty;
    }
    let node = lon.pop().unwrap();
    proof {
        assert(lon@ =~= old(lon)@.drop_last());
        assert(crate::model::node_view_list(lon@) == s.drop_last()) by {
            lemma_node_view_list(old(lon)@);
            lemma_node_view_list(lon@);
            assert(crate::model::node_view_list(lon@) =~= s.drop_last());
        }
        assert(node@ == s.last());
        lemma_budgets_nonneg_list(s.drop_last(), 0);
        lemma_budgets_nonneg(s.last(), 0);
    }
    let rest = draw_row(lon, side_len, x_offset, y_offset);
    proof {
        assert(decreases_to!(old(lon)@ => old(lon)@[old(lon)@.len() - 1]));
        assert(tree_size(node@) <= tree_size_list(s));
    }
    let built = draw_nodes(node, side_len, x_offset, y_offset);
    proof {
        lemma_row_within(s.drop_last(), side_len as int, x_offset as int, y_offset as int);
        lemma_layout_within(s.last(), side_len as int, x_offset as int, y_offset as int);
    }
    beside_align_top(rest, built, x_offset)
}

proof fn lemma_nc_push(s: Seq<DrawView>, v: DrawView)
    ensures
        node_count_list(s.push(v)) == node_count_list(s) + node_count(v),
{
    assert(s.push(v).drop_last() =~= s);
    assert(s.push(v).last() == v);
}

proof fn lemma_nc_concat(a: Seq<DrawView>, b: Seq<DrawView>)
    ensures
        node_count_list(a + b) == node_count_list(a) + node_count_list(b),
    decreases b,
{
    if b.len() == 0 {
        assert(a + b =~= a);
    } else {
        lemma_nc_concat(a, b.drop_last());
        lemma_nc_push(a + b.drop_last(), b.last());
        assert((a + b.drop_last()).push(b.last()) =~= a + b);
        lemma_nc_push(b.drop_last(), b.last());
        assert(b.drop_last().push(b.last()) =~= b);
    }
}

proof fn lemma_nc_reverse(s: Seq<DrawView>)
    ensures
        node_count_list(s.reverse()) == node_count_list(s),
    decreases s,
{
    if s.len() > 0 {
        lemma_nc_reverse(s.drop_last());
        lemma_nc_concat(seq![s.last()], s.drop_last().reverse());
        assert(s.reverse() =~= seq![s.last()] + s.drop_last().reverse());
        assert(seq![s.last()].drop_last() =~= Seq::<DrawView>::empty());
        assert(node_count_list(Seq::<DrawView>::empty()) == 0);
        lemma_nc_push(s.drop_last(), s.last());
        assert(s.drop_last().push(s.last()) =~= s);
    }
}

proof fn lemma_nc_translated(v: DrawView, dx: int, dy: int)
    ensures
        node_count(translated(v, dx, dy)) == node_count(v),
    decreases v, 0int,
{
    lemma_nc_translated_list(v.subs, dx, dy);
}

proof fn lemma_nc_translated_list(s: Seq<DrawView>, dx: int, dy: int)
    ensures
        node_count_list(crate::translate::translated_list(s, dx, dy)) == node_count_list(s),
    decreases s, 1int,
{
    if s.len() > 0 {
        lemma_nc_translated_list(s.drop_last(), dx, dy);
        lemma_nc_translated(s.last(), dx, dy);
        lemma_nc_push(
            crate::translate::translated_list(s.drop_last(), dx, dy),
            translated(s.last(), dx, dy),
        );
    }
}

/// One scene-graph node per tree node: the driver introduces no extra
/// drawables and loses none, so the stack combinator's reparenting exactly
/// undoes the nesting the row fold created.
pub proof fn lemma_layout_count(t: NodeView, side: int, ox: int, oy: int)
    requires
        0 <= ox <= off_limit(),
        0 <= oy <= off_limit(),
        tree_size(t) <= size_limit(),
    ensures
        node_count(layout_spec(t, side, ox, oy)) == tree_size(t),
    decreases t, 0int,
{
    let l = layout_spec(t, side, ox, oy);
    let rect = rect_view(side, t.subs.len() == 0);
    let row = row_spec(t.subs, side, ox, oy);
    assert(node_count_list(Seq::<DrawView>::empty()) == 0);
    assert(node_count(rect) == 1);
    lemma_budgets_nonneg_list(t.subs, 0);
    if t.subs.len() == 0 {
        assert(l == rect);
        assert(tree_size_list(t.subs) == 0);
    } else {
        lemma_row_box(t.subs, side, ox, oy);
        lemma_row_count(t.subs, side, ox, oy);
        let depth: int = t.subs.len() - 1;
        let dx = crate::bounds::center_x(row) - crate::bounds::center_x(rect);
        let dy = low_y(row) - high_y(rect) - oy;
        let moved = translated(rect, dx, dy);
        lemma_nc_translated(rect, dx, dy);
        assert(moved.subs =~= Seq::<DrawView>::empty());
        let n0 = row.subs.len() as int;
        let k = min(depth, n0);
        let kept_base = DrawView { subs: row.subs.take(n0 - k), ..row };
        let taken = row.subs.skip(n0 - k).reverse();
        assert(l.subs == (moved.subs + taken).push(kept_base));
        lemma_nc_push(moved.subs + taken, kept_base);
        lemma_nc_concat(moved.subs, taken);
        lemma_nc_reverse(row.subs.skip(n0 - k));
        lemma_nc_concat(row.subs.take(n0 - k), row.subs.skip(n0 - k));
        assert(row.subs.take(n0 - k) + row.subs.skip(n0 - k) =~= row.subs);
        assert(node_count(l) == 1 + node_count_list(row.subs) + 1);
        assert(node_count(row) == 1 + node_count_list(row.subs));
    }
}

/// A nonempty row holds exactly the nodes of the trees it lays out.
pub proof fn lemma_row_count(s: Seq<NodeView>, side: int, ox: int, oy: int)
    requires
        0 <= ox <= off_limit(),
        0 <= oy <= off_limit(),
        tree_size_list(s) <= size_limit(),
        s.len() > 0,
    ensures
        node_count(row_spec(s, side, ox, oy)) == tree_size_list(s),
    decreases s, 1int,
{
    let r = row_spec(s, side, ox, oy);
    let prev = row_spec(s.drop_last(), side, ox, oy);
    let built = layout_spec(s.last(), side, ox, oy);
    lemma_budgets_nonneg_list(s.drop_last(), 0);
    lemma_budgets_nonneg(s.last(), 0);
    lemma_row_box(s.drop_last(), side, ox, oy);
    lemma_layout_box(s.last(), side, ox, oy);
    lemma_layout_count(s.last(), side, ox, oy);
    if s.drop_last().len() == 0 {
        assert(prev == empty_view());
        assert(r == built);
    } else {
        lemma_row_count(s.drop_last(), side, ox, oy);
        let dx = high_x(prev) - low_x(built) + ox;
        let dy = low_y(prev) - low_y(built);
        lemma_nc_translated(built, dx, dy);
        assert(r.subs == prev.subs.push(translated(built, dx, dy)));
        lemma_nc_push(prev.subs, translated(built, dx, dy));
    }
}

/// The edge count invariant: for any accepted tree, the connector
/// generator applied to the driver's layout yields exactly one line per
/// tree edge — the total node count less one — never more, never fewer.
pub proof fn lemma_driver_edge_count(t: NodeView, side: int, ox: int, oy: int, loff: int)
    requires
        0 <= ox <= off_limit(),
        0 <= oy <= off_limit(),
        tree_size(t) <= size_limit(),
    ensures
        crate::connect::line_count(
            crate::connect::lines_for(layout_spec(t, side, ox, oy), loff),
        ) == tree_size(t) - 1,
{
    let l = layout_spec(t, side, ox, oy);
    lemma_layout_count(t, side, ox, oy);
    crate::connect::lemma_lines_count(l, loff);
    crate::connect::lemma_edge_node_count(l);
}

/// A childless tree node lays out as exactly one leaf-styled rectangle,
/// and the connector generator draws no lines for it.
pub proof fn lemma_leaf_layout(t: NodeView, side: int, ox: int, oy: int, loff: int)
    requires
        t.subs.len() == 0,
    ensures
        layout_spec(t, side, ox, oy) == rect_view(side, true),
        crate::connect::line_count(
            crate::connect::lines_for(rect_view(side, true), loff),
        ) == 0,
{
    let rect = rect_view(side, true);
    crate::connect::lemma_lines_count(rect, loff);
    assert(crate::connect::edge_count_list(Seq::<DrawView>::empty()) == 0);
}

} // verus!
