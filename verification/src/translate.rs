//! The translator and the center calculator: rigid translation of a
//! drawable and all its descendants, and the center point derived from the
//! bounding box.

use vstd::prelude::*;
use vstd::math::{min, max};
use vstd::arithmetic::div_mod::{lemma_fundamental_div_mod, lemma_fundamental_div_mod_converse};
use crate::model::{Drawable, DrawView, lemma_draw_view_list};
use crate::bounds::{
    low_x, high_x, low_y, high_y, low_x_list, high_x_list, low_y_list, high_y_list, pos_inf,
    neg_inf, within, within_list, lemma_within_member, get_bounds, center_x, center_y,
    lemma_within_bounds,
};

verus! {

/// The view with every position in the subtree shifted by `(dx, dy)`.
/// Shapes, styles and structure are untouched; line endpoints stored inside
/// shapes do not move, exactly as the translator leaves them alone.
pub open spec fn translated(v: DrawView, dx: int, dy: int) -> DrawView
    decreases v,
{
    DrawView {
        shape: v.shape,
        style: v.style,
        x: v.x + dx,
        y: v.y + dy,
        subs: translated_list(v.subs, dx, dy),
    }
}

pub open spec fn translated_list(s: Seq<DrawView>, dx: int, dy: int) -> Seq<DrawView>
    decreases s,
{
    if s.len() == 0 {
        Seq::empty()
    } else {
        translated_list(s.drop_last(), dx, dy).push(translated(s.last(), dx, dy))
    }
}

/// Translating a list translates it element by element.
pub proof fn lemma_translated_list(s: Seq<DrawView>, dx: int, dy: int)
    ensures
        translated_list(s, dx, dy).len() == s.len(),
        forall|i: int|
            0 <= i < s.len() ==> translated_list(s, dx, dy)[i] == translated(s[i], dx, dy),
    decreases s,
{
    if s.len() > 0 {
        lemma_translated_list(s.drop_last(), dx, dy);
    }
}

/// Translation invariance of bounds: the bounding box of the translated
/// subtree is the original box shifted by exactly `(dx, dy)`, for every
/// drawable whose coordinates fit in `[-b, b]` and every finite delta.
pub proof fn lemma_translated_bounds(v: DrawView, dx: int, dy: int, b: int)
    requires
        within(v, b),
        0 <= b < pos_inf(),
        neg_inf() < dx - b,
        dx + b < pos_inf(),
        neg_inf() < dy - b,
        dy + b < pos_inf(),
    ensures
        low_x(translated(v, dx, dy)) == low_x(v) + dx,
        high_x(translated(v, dx, dy)) == high_x(v) + dx,
        low_y(translated(v, dx, dy)) == low_y(v) + dy,
        high_y(translated(v, dx, dy)) == high_y(v) + dy,
    decreases v,
{
    lemma_translated_bounds_list(v.subs, dx, dy, b);
}

pub proof fn lemma_translated_bounds_list(s: Seq<DrawView>, dx: int, dy: int, b: int)
    requires
        within_list(s, b),
        0 <= b < pos_inf(),
        neg_inf() < dx - b,
        dx + b < pos_inf(),
        neg_inf() < dy - b,
        dy + b < pos_inf(),
    ensures
        s.len() == 0 ==> translated_list(s, dx, dy).len() == 0,
        s.len() > 0 ==> low_x_list(translated_list(s, dx, dy)) == low_x_list(s) + dx,
        s.len() > 0 ==> high_x_list(translated_list(s, dx, dy)) == high_x_list(s) + dx,
        s.len() > 0 ==> low_y_list(translated_list(s, dx, dy)) == low_y_list(s) + dy,
        s.len() > 0 ==> high_y_list(translated_list(s, dx, dy)) == high_y_list(s) + dy,
    decreases s,
{
    if s.len() > 0 {
        lemma_translated_bounds_list(s.drop_last(), dx, dy, b);
        lemma_translated_bounds(s.last(), dx, dy, b);
        crate::bounds::lemma_within_bounds(s.last(), b);
        crate::bounds::lemma_bounds_list_push(
            translated_list(s.drop_last(), dx, dy),
            translated(s.last(), dx, dy),
        );
        assert(translated_list(s.drop_last(), dx, dy).push(translated(s.last(), dx, dy))
            == translated_list(s, dx, dy));
        if s.drop_last().len() == 0 {
            reveal_with_fuel(low_x_list, 2);
            reveal_with_fuel(high_x_list, 2);
            reveal_with_fuel(low_y_list, 2);
            reveal_with_fuel(high_y_list, 2);
            assert(low_x_list(s) == low_x(s.last()));
            assert(high_x_list(s) == high_x(s.last()));
            assert(low_y_list(s) == low_y(s.last()));
            assert(high_y_list(s) == high_y(s.last()));
            assert(low_x_list(translated_list(s.drop_last(), dx, dy)) == pos_inf());
            assert(low_x_list(translated_list(s, dx, dy)) == low_x(s.last()) + dx);
            assert(high_x_list(translated_list(s, dx, dy)) == high_x(s.last()) + dx);
            assert(low_y_list(translated_list(s, dx, dy)) == low_y(s.last()) + dy);
            assert(high_y_list(translated_list(s, dx, dy)) == high_y(s.last()) + dy);
        } else {
            assert(low_x_list(s) == min(low_x_list(s.drop_last()), low_x(s.last())));
            assert(high_x_list(s) == max(high_x_list(s.drop_last()), high_x(s.last())));
            assert(low_y_list(s) == min(low_y_list(s.drop_last()), low_y(s.last())));
            assert(high_y_list(s) == max(high_y_list(s.drop_last()), high_y(s.last())));
            assert(low_x_list(translated_list(s, dx, dy)) == min(
                low_x_list(s.drop_last()) + dx,
                low_x(s.last()) + dx,
            ));
            assert(high_x_list(translated_list(s, dx, dy)) == max(
                high_x_list(s.drop_last()) + dx,
                high_x(s.last()) + dx,
            ));
            assert(low_y_list(translated_list(s, dx, dy)) == min(
                low_y_list(s.drop_last()) + dy,
                low_y(s.last()) + dy,
            ));
            assert(high_y_list(translated_list(s, dx, dy)) == max(
                high_y_list(s.drop_last()) + dy,
                high_y(s.last()) + dy,
            ));
        }
    }
}

/// Translation keeps coordinates within a widened bound.
pub proof fn lemma_translated_within(v: DrawView, dx: int, dy: int, b: int, c: int)
    requires
        within(v, b),
        -c <= dx - b,
        dx + b <= c,
        -c <= dy - b,
        dy + b <= c,
    ensures
        within(translated(v, dx, dy), c),
    decreases v,
{
    lemma_translated_within_list(v.subs, dx, dy, b, c);
}

pub proof fn lemma_translated_within_list(s: Seq<DrawView>, dx: int, dy: int, b: int, c: int)
    requires
        within_list(s, b),
        -c <= dx - b,
        dx + b <= c,
        -c <= dy - b,
        dy + b <= c,
    ensures
        within_list(translated_list(s, dx, dy), c),
    decreases s,
{
    if s.len() > 0 {
        lemma_translated_within_list(s.drop_last(), dx, dy, b, c);
        lemma_translated_within(s.last(), dx, dy, b, c);
        let q = translated_list(s.drop_last(), dx, dy).push(translated(s.last(), dx, dy));
        assert(q.drop_last() =~= translated_list(s.drop_last(), dx, dy));
        assert(q.last() == translated(s.last(), dx, dy));
    }
}

/// Largest coordinate magnitude the translator accepts; leaves room for the
/// shifted coordinates inside `i64`.
pub open spec fn move_limit() -> int {
    0x2000_0000_0000_0000
}

fn translate_rec(d: &mut Drawable, x: i64, y: i64)
    requires
        within(old(d)@, move_limit()),
        -move_limit() <= x <= move_limit(),
        -move_limit() <= y <= move_limit(),
    ensures
        final(d)@ == translated(old(d)@, x as int, y as int),
    decreases *old(d),
{
    proof {
        lemma_draw_view_list(old(d).subs@);
    }
    d.x = d.x + x;
    d.y = d.y + y;
    let n = d.subs.len();
    for i in 0..n
        invariant
            n == d.subs.len(),
            n == old(d).subs@.len(),
            d.shape == old(d).shape,
            d.style == old(d).style,
            d.x == old(d).x + x,
            d.y == old(d).y + y,
            -move_limit() <= x <= move_limit(),
            -move_limit() <= y <= move_limit(),
            within(old(d)@, move_limit()),
            forall|j: int| i <= j < n ==> d.subs@[j] == old(d).subs@[j],
            forall|j: int|
                0 <= j < i ==> d.subs@[j]@ == translated(old(d).subs@[j]@, x as int, y as int),
        decreases n - i,
    {
        proof {
            lemma_draw_view_list(old(d).subs@);
            lemma_within_member(old(d)@.subs, move_limit(), i as int);
            assert(d.subs@[i as int] == old(d).subs@[i as int]);
            assert(decreases_to!(*old(d) => old(d).subs@[i as int]));
        }
        translate_rec(&mut d.subs[i], x, y);
    }
    proof {
        lemma_draw_view_list(d.subs@);
        lemma_draw_view_list(old(d).subs@);
        lemma_translated_list(old(d)@.subs, x as int, y as int);
        assert(d@.subs =~= translated_list(old(d)@.subs, x as int, y as int));
        assert(d@ =~= translated(old(d)@, x as int, y as int));
    }
}

/// Move a drawing and its subs by some x and y: every position in the
/// subtree shifts by exactly `(x, y)`; shape, style and structure stay.
pub fn move_with_subs(d: Drawable, x: i64, y: i64) -> (r: Drawable)
    requires
        within(d@, move_limit()),
        -move_limit() <= x <= move_limit(),
        -move_limit() <= y <= move_limit(),
    ensures
        r@ == translated(d@, x as int, y as int),
{
    let mut d = d;
    translate_rec(&mut d, x, y);
    d
}

/// Translating by nothing changes nothing.
pub proof fn lemma_translated_zero(v: DrawView)
    ensures
        translated(v, 0, 0) == v,
    decreases v,
{
    lemma_translated_zero_list(v.subs);
    assert(translated(v, 0, 0) =~~= v);
}

pub proof fn lemma_translated_zero_list(s: Seq<DrawView>)
    ensures
        translated_list(s, 0, 0) == s,
    decreases s,
{
    if s.len() == 0 {
        assert(translated_list(s, 0, 0) =~= s);
    } else {
        lemma_translated_zero_list(s.drop_last());
        lemma_translated_zero(s.last());
        assert(translated_list(s, 0, 0) =~= s);
    }
}

/// Largest coordinate magnitude the center calculator accepts.
pub open spec fn center_limit() -> int {
    0x1000_0000_0000_0000
}

/// The midpoint between `lo` and `hi` computed without overflow equals the
/// floor of their average.
proof fn lemma_midpoint(lo: int, hi: int)
    requires
        lo <= hi,
    ensures
        lo + (hi - lo) / 2 == (hi + lo) / 2,
{
    let m = hi - lo;
    lemma_fundamental_div_mod(m, 2);
    lemma_fundamental_div_mod_converse(hi + lo, 2, lo + m / 2, m % 2);
}

/// Return the center (x, y) of a drawing: the midpoint of its bounding box
/// on each axis, rounded down.
pub fn get_center(d: &Drawable) -> (c: (i64, i64))
    requires
        within(d@, center_limit()),
    ensures
        c.0 == center_x(d@),
        c.1 == center_y(d@),
{
    proof {
        lemma_within_bounds(d@, center_limit());
    }
    let bounds = get_bounds(d);
    let half_w = (bounds.right - bounds.left) / 2;
    let half_h = (bounds.bottom - bounds.top) / 2;
    proof {
        lemma_midpoint(low_x(d@), high_x(d@));
        lemma_midpoint(low_y(d@), high_y(d@));
    }
    (bounds.left + half_w, bounds.top + half_h)
}

/// Move a drawing to the center of the canvas: after the call its bounding
/// box is centered on the canvas point `(width / 2 - side_len / 2,
/// height / 2 - side_len / 2)`.
pub fn center(d: Drawable, width: i64, height: i64, side_len: i64) -> (r: Drawable)
    requires
        within(d@, center_limit()),
        0 <= width <= center_limit(),
        0 <= height <= center_limit(),
        0 <= side_len <= center_limit(),
    ensures
        r@ == translated(
            d@,
            width / 2 - side_len / 2 - center_x(d@),
            height / 2 - side_len / 2 - center_y(d@),
        ),
{
    proof {
        lemma_within_bounds(d@, center_limit());
    }
    let cntr_x = width / 2 - side_len / 2;
    let cntr_y = height / 2 - side_len / 2;
    let d_center = get_center(&d);
    let target_x = cntr_x - d_center.0;
    let target_y = cntr_y - d_center.1;
    proof {
        crate::bounds::lemma_within_widen(d@, center_limit(), move_limit());
    }
    move_with_subs(d, target_x, target_y)
}

/// The canvas centerer hits its target exactly: after centering, the
/// drawing's center is the canvas point `(width / 2 - side_len / 2,
/// height / 2 - side_len / 2)`; so centering a second time with the same
/// canvas computes a zero delta and is a no-op.
pub proof fn lemma_center_idempotent(v: DrawView, width: int, height: int, side_len: int)
    requires
        within(v, center_limit()),
        0 <= width <= center_limit(),
        0 <= height <= center_limit(),
        0 <= side_len <= center_limit(),
    ensures
        ({
            let r = translated(
                v,
                width / 2 - side_len / 2 - center_x(v),
                height / 2 - side_len / 2 - center_y(v),
            );
            &&& center_x(r) == width / 2 - side_len / 2
            &&& center_y(r) == height / 2 - side_len / 2
            &&& translated(r, width / 2 - side_len / 2 - center_x(r), height / 2 - side_len / 2
                - center_y(r)) == r
        }),
{
    lemma_within_bounds(v, center_limit());
    let tx = width / 2 - side_len / 2 - center_x(v);
    let ty = height / 2 - side_len / 2 - center_y(v);
    lemma_translated_bounds(v, tx, ty, center_limit());
    let r = translated(v, tx, ty);
    crate::bounds::lemma_div2_shift(high_x(v) + low_x(v), tx);
    crate::bounds::lemma_div2_shift(high_y(v) + low_y(v), ty);
    assert(center_x(r) == (high_x(v) + tx + (low_x(v) + tx)) / 2);
    assert(center_y(r) == (high_y(v) + ty + (low_y(v) + ty)) / 2);
    lemma_translated_zero(r);
}

} // verus!
