//! The row and stack combinators: placing one subtree beside another and
//! stacking a shape above its children's row, with the bounded reparenting
//! step that restores one scene-graph edge per true tree edge.

use vstd::prelude::*;
use vstd::math::{min, max};
use crate::model::{Drawable, DrawView, lemma_draw_view_list};
use crate::bounds::{
    low_x, high_x, low_y, high_y, low_x_list, high_x_list, low_y_list, high_y_list, pos_inf,
    neg_inf, within, within_list, get_bounds, center_x, center_y, lemma_within_bounds,
    lemma_within_widen, lemma_bounds_list_push, lemma_bounds_list_own, lemma_div2_shift,
    lemma_div2_window,
};
use crate::translate::{
    translated, translated_list, move_with_subs, get_center, move_limit, center_limit,
    lemma_translated_bounds, lemma_translated_within,
};

verus! {

/// Largest coordinate magnitude the combinators accept; leaves room for the
/// translation deltas they compute.
pub open spec fn comb_limit() -> int {
    0x0800_0000_0000_0000
}

/// `v` with one more child appended at the end of its child list.
pub open spec fn with_child(v: DrawView, c: DrawView) -> DrawView {
    DrawView { subs: v.subs.push(c), ..v }
}

/// The row combinator with vertical-center alignment: `v1` shifted so its
/// left edge sits `off` right of `v0`'s right edge and the two boxes share
/// a vertical center, then appended as `v0`'s last child. An operand
/// without a shape is the identity: the other operand comes back unchanged.
pub open spec fn beside_spec(v0: DrawView, v1: DrawView, off: int) -> DrawView {
    if v1.shape is None {
        v0
    } else if v0.shape is None {
        v1
    } else {
        with_child(
            v0,
            translated(v1, high_x(v0) - low_x(v1) + off, center_y(v0) - center_y(v1)),
        )
    }
}

/// The row combinator with top alignment: as `beside_spec`, but the two
/// boxes share their top edge instead of their vertical center.
pub open spec fn beside_top_spec(v0: DrawView, v1: DrawView, off: int) -> DrawView {
    if v1.shape is None {
        v0
    } else if v0.shape is None {
        v1
    } else {
        with_child(v0, translated(v1, high_x(v0) - low_x(v1) + off, low_y(v0) - low_y(v1)))
    }
}

/// The stack combinator: `v1` shifted so the two boxes share a horizontal
/// center and `v1`'s bottom edge sits `off` above `v0`'s top edge; then the
/// last `depth` children of `v0` move, one at a time from the end, to the
/// end of `v1`'s child list, and `v0` itself becomes `v1`'s final child.
/// An operand without a shape is the identity.
pub open spec fn above_spec(v0: DrawView, v1: DrawView, off: int, depth: int) -> DrawView {
    if v1.shape is None {
        v0
    } else if v0.shape is None {
        v1
    } else {
        let moved = translated(v1, center_x(v0) - center_x(v1), low_y(v0) - high_y(v1) - off);
        let n0 = v0.subs.len() as int;
        let k = min(depth, n0);
        let kept_base = DrawView { subs: v0.subs.take(n0 - k), ..v0 };
        let taken = v0.subs.skip(n0 - k).reverse();
        DrawView { subs: (moved.subs + taken).push(kept_base), ..moved }
    }
}

/// Transfer up to `depth` of `d1`'s subs to `d0`, last first, and return
/// `d0` so extended; `d1` keeps its first subs.
fn inherit(d0: Drawable, d1: &mut Drawable, depth: u8) -> (r: Drawable)
    ensures
        ({
            let n = old(d1)@.subs.len() as int;
            let k = min(depth as int, n);
            &&& r@ == (DrawView { subs: d0@.subs + old(d1)@.subs.skip(n - k).reverse(), ..d0@ })
            &&& final(d1)@ == (DrawView { subs: old(d1)@.subs.take(n - k), ..old(d1)@ })
        }),
    decreases depth,
{
    let ghost q = old(d1)@.subs;
    let ghost n = old(d1)@.subs.len() as int;
    proof {
        lemma_draw_view_list(d1.subs@);
        lemma_draw_view_list(d0.subs@);
    }
    if d1.subs.len() == 0 || depth == 0 {
        proof {
            let k = min(depth as int, n);
            assert(q.skip(n - k).reverse() =~= Seq::<DrawView>::empty());
            assert(d0@.subs + q.skip(n - k).reverse() =~= d0@.subs);
            assert(d0@ =~~= (DrawView { subs: d0@.subs + q.skip(n - k).reverse(), ..d0@ }));
            assert(q.take(n - k) =~= q);
            assert(old(d1)@ =~~= (DrawView { subs: q.take(n - k), ..old(d1)@ }));
        }
        return d0;
    }
    let ghost g0 = d0@;
    let last = d1.subs.pop().unwrap();
    let mut d0 = d0;
    d0.subs.push(last);
    proof {
        lemma_draw_view_list(d1.subs@);
        lemma_draw_view_list(d0.subs@);
        assert(d1.subs@ =~= old(d1).subs@.drop_last());
        assert(d1@.subs =~= q.drop_last());
        assert(d0@.subs =~= g0.subs.push(last@));
        assert(d0@ =~~= (DrawView { subs: g0.subs.push(last@), ..g0 }));
    }
    let r = inherit(d0, d1, depth - 1);
    proof {
        let m = n - 1;
        let k2 = min(depth as int - 1, m);
        let k = min(depth as int, n);
        assert(k == k2 + 1);
        assert(r@.subs =~= (g0.subs.push(last@)) + q.drop_last().skip(m - k2).reverse());
        assert(last@ == q.last());
        assert forall|i: int| 0 <= i < k2 implies #[trigger] q.drop_last().skip(m - k2).reverse()[i]
            == q.skip(n - k).reverse()[i + 1] by {
            assert(q.drop_last().skip(m - k2).reverse()[i] == q.drop_last().skip(m - k2)[k2 - 1
                - i]);
            assert(q.drop_last().skip(m - k2)[k2 - 1 - i] == q[m - k2 + k2 - 1 - i]);
            assert(q.skip(n - k).reverse()[i + 1] == q.skip(n - k)[k - 1 - (i + 1)]);
            assert(q.skip(n - k)[k - 2 - i] == q[n - k + k - 2 - i]);
        }
        assert(q.skip(n - k).reverse()[0] == q.skip(n - k)[k - 1]);
        assert(q.skip(n - k)[k - 1] == q[n - 1]);
        assert(r@.subs =~= g0.subs + q.skip(n - k).reverse());
        assert(r@ =~~= (DrawView { subs: g0.subs + q.skip(n - k).reverse(), ..g0 }));
        assert(final(d1)@.subs =~= q.take(n - k));
        assert(final(d1)@ =~~= (DrawView { subs: q.take(n - k), ..old(d1)@ }));
    }
    r
}

/// Move d1 beside d0, sharing a vertical center, and parent d1 to d0: d1's
/// left edge comes to sit `offset` right of d0's right edge. An operand
/// without a shape is returned unchanged as the identity.
pub fn beside(d0: Drawable, d1: Drawable, offset: i64) -> (r: Drawable)
    requires
        within(d0@, comb_limit()),
        within(d1@, comb_limit()),
        -comb_limit() <= offset <= comb_limit(),
    ensures
        r@ == beside_spec(d0@, d1@, offset as int),
{
    if d1.shape.is_none() {
        return d0;
    }
    if d0.shape.is_none() {
        return d1;
    }
    proof {
        lemma_within_bounds(d0@, comb_limit());
        lemma_within_bounds(d1@, comb_limit());
        lemma_within_widen(d0@, comb_limit(), center_limit());
        lemma_within_widen(d1@, comb_limit(), center_limit());
        lemma_within_widen(d1@, comb_limit(), move_limit());
    }
    let right_d0 = get_bounds(&d0).right;
    let left_d1 = get_bounds(&d1).left;
    let center_y_d0 = get_center(&d0).1;
    let center_y_d1 = get_center(&d1).1;
    let ghost v0 = d0@;
    let ghost v1 = d1@;
    let target_x = right_d0 - left_d1 + offset;
    let target_y = center_y_d0 - center_y_d1;
    let d1 = move_with_subs(d1, target_x, target_y);
    let mut d0 = d0;
    let ghost ps = d0.subs@;
    d0.subs.push(d1);
    proof {
        assert(d0.subs@.drop_last() =~= ps);
        assert(d0@.subs == crate::model::draw_view_list(ps).push(d1@));
        assert(d1@ == translated(v1, high_x(v0) - low_x(v1) + offset, center_y(v0) - center_y(
            v1,
        )));
        assert(d0@ =~~= beside_spec(v0, v1, offset as int));
    }
    d0
}

/// Move d1 beside d0, sharing their top edge, and parent d1 to d0: d1's
/// left edge comes to sit `offset` right of d0's right edge. An operand
/// without a shape is returned unchanged as the identity.
pub fn beside_align_top(d0: Drawable, d1: Drawable, offset: i64) -> (r: Drawable)
    requires
        within(d0@, comb_limit()),
        within(d1@, comb_limit()),
        -comb_limit() <= offset <= comb_limit(),
    ensures
        r@ == beside_top_spec(d0@, d1@, offset as int),
{
    if d1.shape.is_none() {
        return d0;
    }
    if d0.shape.is_none() {
        return d1;
    }
    proof {
        lemma_within_bounds(d0@, comb_limit());
        lemma_within_bounds(d1@, comb_limit());
        lemma_within_widen(d1@, comb_limit(), move_limit());
    }
    let d0_bounds = get_bounds(&d0);
    let d1_bounds = get_bounds(&d1);
    let ghost v0 = d0@;
    let ghost v1 = d1@;
    let target_x = d0_bounds.right - d1_bounds.left + offset;
    let target_y = d0_bounds.top - d1_bounds.top;
    let d1 = move_with_subs(d1, target_x, target_y);
    let mut d0 = d0;
    let ghost ps = d0.subs@;
    d0.subs.push(d1);
    proof {
        assert(d0.subs@.drop_last() =~= ps);
        assert(d0@.subs == crate::model::draw_view_list(ps).push(d1@));
        assert(d1@ == translated(v1, high_x(v0) - low_x(v1) + offset, low_y(v0) - low_y(v1)));
        assert(d0@ =~~= beside_top_spec(v0, v1, offset as int));
    }
    d0
}

/// Move d1 above d0 and parent d0 to d1: d1 is shifted so the two bounding
/// boxes share a horizontal center and d1's bottom edge sits `offset` above
/// d0's top edge; then `depth` of d0's subs, taken from the end, move to
/// d1's child list, and d0 itself becomes d1's final child. An operand
/// without a shape is returned unchanged as the identity.
pub fn above(d0: Drawable, d1: Drawable, offset: i64, depth: u8) -> (r: Drawable)
    requires
        within(d0@, comb_limit()),
        within(d1@, comb_limit()),
        -comb_limit() <= offset <= comb_limit(),
    ensures
        r@ == above_spec(d0@, d1@, offset as int, depth as int),
{
    if d1.shape.is_none() {
        return d0;
    }
    if d0.shape.is_none() {
        return d1;
    }
    proof {
        lemma_within_bounds(d0@, comb_limit());
        lemma_within_bounds(d1@, comb_limit());
        lemma_within_widen(d0@, comb_limit(), center_limit());
        lemma_within_widen(d1@, comb_limit(), center_limit());
        lemma_within_widen(d1@, comb_limit(), move_limit());
    }
    let top_d0 = get_bounds(&d0).top;
    let bottom_d1 = get_bounds(&d1).bottom;
    let center_x_d0 = get_center(&d0).0;
    let center_x_d1 = get_center(&d1).0;
    let ghost v0 = d0@;
    let ghost v1 = d1@;
    let target_x = center_x_d0 - center_x_d1;
    let target_y = top_d0 - bottom_d1 - offset;
    let d1 = move_with_subs(d1, target_x, target_y);
    let ghost moved = d1@;
    let mut d0 = d0;
    let mut d1 = inherit(d1, &mut d0, depth);
    let ghost ps = d1.subs@;
    d1.subs.push(d0);
    proof {
        let n0 = v0.subs.len() as int;
        let k = min(depth as int, n0);
        assert(moved == translated(v1, center_x(v0) - center_x(v1), low_y(v0) - high_y(v1)
            - offset));
        assert(d1.subs@.drop_last() =~= ps);
        assert(d1@.subs == crate::model::draw_view_list(ps).push(d0@));
        assert(crate::model::draw_view_list(ps) == moved.subs + v0.subs.skip(n0 - k).reverse());
        assert(d0@ == (DrawView { subs: v0.subs.take(n0 - k), ..v0 }));
        assert(d1@ =~~= above_spec(v0, v1, offset as int, depth as int));
    }
    d1
}

/// Row adjacency, top alignment: after the combination, the translated copy
/// of `v1` (the new last child) has its left edge exactly `off` right of
/// `v0`'s right edge and shares `v0`'s top edge; the combined box follows.
pub proof fn lemma_beside_top_adjacent(v0: DrawView, v1: DrawView, off: int)
    requires
        v0.shape is Some,
        v1.shape is Some,
        within(v0, comb_limit()),
        within(v1, comb_limit()),
        -comb_limit() <= off <= comb_limit(),
    ensures
        ({
            let r = beside_top_spec(v0, v1, off);
            let m = r.subs.last();
            &&& low_x(m) == high_x(v0) + off
            &&& low_y(m) == low_y(v0)
            &&& high_x(m) == high_x(v0) + off + (high_x(v1) - low_x(v1))
            &&& high_y(m) == low_y(v0) + (high_y(v1) - low_y(v1))
            &&& low_x(r) == min(low_x(v0), high_x(v0) + off)
            &&& high_x(r) == max(high_x(v0), high_x(v0) + off + (high_x(v1) - low_x(v1)))
            &&& low_y(r) == low_y(v0)
            &&& high_y(r) == max(high_y(v0), low_y(v0) + (high_y(v1) - low_y(v1)))
        }),
{
    lemma_within_bounds(v0, comb_limit());
    lemma_within_bounds(v1, comb_limit());
    let dx = high_x(v0) - low_x(v1) + off;
    let dy = low_y(v0) - low_y(v1);
    lemma_translated_bounds(v1, dx, dy, comb_limit());
    let m = translated(v1, dx, dy);
    let r = beside_top_spec(v0, v1, off);
    lemma_bounds_list_push(v0.subs, m);
    assert(r.subs.last() == m);
    assert(low_x(r) == min(v0.x, min(low_x_list(v0.subs), low_x(m))));
    lemma_bounds_node_own_all(v0, m);
}

/// Row alignment, vertical centers: after the centered combination, the
/// translated copy of `v1` shares `v0`'s vertical center exactly.
pub proof fn lemma_beside_centered(v0: DrawView, v1: DrawView, off: int)
    requires
        v0.shape is Some,
        v1.shape is Some,
        within(v0, comb_limit()),
        within(v1, comb_limit()),
        -comb_limit() <= off <= comb_limit(),
    ensures
        ({
            let r = beside_spec(v0, v1, off);
            let m = r.subs.last();
            &&& low_x(m) == high_x(v0) + off
            &&& center_y(m) == center_y(v0)
        }),
{
    lemma_within_bounds(v0, comb_limit());
    lemma_within_bounds(v1, comb_limit());
    let dx = high_x(v0) - low_x(v1) + off;
    let dy = center_y(v0) - center_y(v1);
    lemma_translated_bounds(v1, dx, dy, comb_limit());
    let m = translated(v1, dx, dy);
    assert(beside_spec(v0, v1, off).subs.last() == m);
    lemma_div2_shift(high_y(v1) + low_y(v1), dy);
    assert(center_y(m) == (high_y(v1) + dy + (low_y(v1) + dy)) / 2);
}

/// Helper: pulling the own-position term through the child-list fold.
proof fn lemma_bounds_node_own_all(v0: DrawView, m: DrawView)
    ensures
        low_x(with_child(v0, m)) == min(low_x(v0), low_x(m)),
        high_x(with_child(v0, m)) == max(high_x(v0), high_x(m)),
        low_y(with_child(v0, m)) == min(low_y(v0), low_y(m)),
        high_y(with_child(v0, m)) == max(high_y(v0), high_y(m)),
{
    lemma_bounds_list_push(v0.subs, m);
}

/// The stack combinator reparents children but moves no position: its
/// result's bounding box is the union of `v0`'s box and the translated
/// `v1`'s box.
pub proof fn lemma_above_bounds(v0: DrawView, v1: DrawView, off: int, depth: int)
    requires
        v0.shape is Some,
        v1.shape is Some,
        0 <= depth,
    ensures
        ({
            let moved = translated(v1, center_x(v0) - center_x(v1), low_y(v0) - high_y(v1) - off);
            let r = above_spec(v0, v1, off, depth);
            &&& low_x(r) == min(low_x(moved), low_x(v0))
            &&& high_x(r) == max(high_x(moved), high_x(v0))
            &&& low_y(r) == min(low_y(moved), low_y(v0))
            &&& high_y(r) == max(high_y(moved), high_y(v0))
        }),
{
    let moved = translated(v1, center_x(v0) - center_x(v1), low_y(v0) - high_y(v1) - off);
    let r = above_spec(v0, v1, off, depth);
    let n0 = v0.subs.len() as int;
    let k = min(depth, n0);
    let kept_base = DrawView { subs: v0.subs.take(n0 - k), ..v0 };
    let taken = v0.subs.skip(n0 - k).reverse();
    crate::bounds::lemma_bounds_list_split(v0.subs, n0 - k);
    crate::bounds::lemma_bounds_list_reverse(v0.subs.skip(n0 - k));
    crate::bounds::lemma_bounds_list_concat(moved.subs, taken);
    lemma_bounds_list_push(moved.subs + taken, kept_base);
    assert(r.subs == (moved.subs + taken).push(kept_base));
    assert(low_x(kept_base) == min(v0.x, low_x_list(v0.subs.take(n0 - k))));
    assert(low_x(r) == min(moved.x, low_x_list(r.subs)));
}

/// Stack adjacency: after `above`, the combined subtree keeps `v0`'s
/// horizontal center exactly, and the vertical gap between the translated
/// `v1`'s bottom edge and `v0`'s top edge is exactly `off`.
pub proof fn lemma_above_adjacent(v0: DrawView, v1: DrawView, off: int, depth: int)
    requires
        v0.shape is Some,
        v1.shape is Some,
        0 <= depth,
        within(v0, comb_limit()),
        within(v1, comb_limit()),
        -comb_limit() <= off <= comb_limit(),
    ensures
        ({
            let moved = translated(v1, center_x(v0) - center_x(v1), low_y(v0) - high_y(v1) - off);
            let r = above_spec(v0, v1, off, depth);
            &&& center_x(moved) == center_x(v0)
            &&& low_y(v0) - high_y(moved) == off
            &&& center_x(r) == center_x(v0)
        }),
{
    lemma_within_bounds(v0, comb_limit());
    lemma_within_bounds(v1, comb_limit());
    let dx = center_x(v0) - center_x(v1);
    let dy = low_y(v0) - high_y(v1) - off;
    lemma_translated_bounds(v1, dx, dy, comb_limit());
    let moved = translated(v1, dx, dy);
    lemma_div2_shift(high_x(v1) + low_x(v1), dx);
    assert(center_x(moved) == (high_x(v1) + dx + (low_x(v1) + dx)) / 2);
    assert(center_x(moved) == center_x(v0));
    lemma_above_bounds(v0, v1, off, depth);
    let r = above_spec(v0, v1, off, depth);
    assert(low_x(r) == min(low_x(moved), low_x(v0)));
    assert(high_x(r) == max(high_x(moved), high_x(v0)));
    lemma_div2_window(high_x(v0) + low_x(v0));
    lemma_div2_window(high_x(moved) + low_x(moved));
    let c = center_x(v0);
    assert(2 * c <= high_x(v0) + low_x(v0) <= 2 * c + 1);
    assert(2 * c <= high_x(moved) + low_x(moved) <= 2 * c + 1);
    assert(2 * c <= high_x(r) + low_x(r) <= 2 * c + 1);
    vstd::arithmetic::div_mod::lemma_fundamental_div_mod_converse(
        high_x(r) + low_x(r),
        2,
        c,
        high_x(r) + low_x(r) - 2 * c,
    );
}

} // verus!
