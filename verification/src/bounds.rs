//! The bounds engine and the translator: bounding boxes over a drawable and
//! all its descendants, rigid translation of a subtree, and the centers
//! derived from bounds.

use vstd::prelude::*;
use vstd::math::{min, max};
use crate::model::{Bounds, Drawable, DrawView, lemma_draw_view_list};

verus! {

/// One more than any coordinate a drawable can hold: the seed of the
/// minimum folds, dominated by every real position.
pub open spec fn pos_inf() -> int {
    0x8000_0000_0000_0000
}

/// One less than any coordinate a drawable can hold: the seed of the
/// maximum folds.
pub open spec fn neg_inf() -> int {
    -0x8000_0000_0000_0001
}

/// Smallest x over a drawable's own position and all its descendants'.
pub open spec fn low_x(v: DrawView) -> int
    decreases v,
{
    min(v.x, low_x_list(v.subs))
}

pub open spec fn low_x_list(s: Seq<DrawView>) -> int
    decreases s,
{
    if s.len() == 0 {
        pos_inf()
    } else {
        min(low_x_list(s.drop_last()), low_x(s.last()))
    }
}

/// Largest x over a drawable's own position and all its descendants'.
pub open spec fn high_x(v: DrawView) -> int
    decreases v,
{
    max(v.x, high_x_list(v.subs))
}

pub open spec fn high_x_list(s: Seq<DrawView>) -> int
    decreases s,
{
    if s.len() == 0 {
        neg_inf()
    } else {
        max(high_x_list(s.drop_last()), high_x(s.last()))
    }
}

/// Smallest y over a drawable's own position and all its descendants'.
pub open spec fn low_y(v: DrawView) -> int
    decreases v,
{
    min(v.y, low_y_list(v.subs))
}

pub open spec fn low_y_list(s: Seq<DrawView>) -> int
    decreases s,
{
    if s.len() == 0 {
        pos_inf()
    } else {
        min(low_y_list(s.drop_last()), low_y(s.last()))
    }
}

/// Largest y over a drawable's own position and all its descendants'.
pub open spec fn high_y(v: DrawView) -> int
    decreases v,
{
    max(v.y, high_y_list(v.subs))
}

pub open spec fn high_y_list(s: Seq<DrawView>) -> int
    decreases s,
{
    if s.len() == 0 {
        neg_inf()
    } else {
        max(high_y_list(s.drop_last()), high_y(s.last()))
    }
}

/// Shifting a number by a multiple of two shifts the floored half.
pub proof fn lemma_div2_shift(m: int, d: int)
    ensures
        (m + 2 * d) / 2 == m / 2 + d,
{
    vstd::arithmetic::div_mod::lemma_fundamental_div_mod(m, 2);
    vstd::arithmetic::div_mod::lemma_fundamental_div_mod_converse(m + 2 * d, 2, m / 2 + d, m % 2);
}

/// A floored half pins its argument into a two-wide window.
pub proof fn lemma_div2_window(m: int)
    ensures
        2 * (m / 2) <= m <= 2 * (m / 2) + 1,
{
    vstd::arithmetic::div_mod::lemma_fundamental_div_mod(m, 2);
}

/// Horizontal center of a view's bounding box.
pub open spec fn center_x(v: DrawView) -> int {
    (high_x(v) + low_x(v)) / 2
}

/// Vertical center of a view's bounding box.
pub open spec fn center_y(v: DrawView) -> int {
    (high_y(v) + low_y(v)) / 2
}

/// All positions in the subtree rooted at `v`: the root's own position
/// followed by those of the children, one entry per scene-graph node.
pub open spec fn positions(v: DrawView) -> Seq<(int, int)>
    decreases v,
{
    seq![(v.x, v.y)] + positions_list(v.subs)
}

pub open spec fn positions_list(s: Seq<DrawView>) -> Seq<(int, int)>
    decreases s,
{
    if s.len() == 0 {
        Seq::empty()
    } else {
        positions_list(s.drop_last()) + positions(s.last())
    }
}

/// `(px, py)` is the position of the view's root or of one of its
/// descendants.
pub open spec fn has_pos(v: DrawView, px: int, py: int) -> bool {
    positions(v).contains((px, py))
}

/// Every coordinate of the view's root and descendants lies in `[-b, b]`.
pub open spec fn within(v: DrawView, b: int) -> bool
    decreases v,
{
    &&& -b <= v.x <= b
    &&& -b <= v.y <= b
    &&& within_list(v.subs, b)
}

pub open spec fn within_list(s: Seq<DrawView>, b: int) -> bool
    decreases s,
{
    s.len() == 0 || (within_list(s.drop_last(), b) && within(s.last(), b))
}

/// Every member of a coordinate-bounded list is coordinate-bounded.
pub proof fn lemma_within_member(s: Seq<DrawView>, b: int, i: int)
    requires
        within_list(s, b),
        0 <= i < s.len(),
    ensures
        within(s[i], b),
    decreases s,
{
    if i == s.len() - 1 {
        assert(s.last() == s[i]);
    } else {
        lemma_within_member(s.drop_last(), b, i);
        assert(s.drop_last()[i] == s[i]);
    }
}

/// A looser bound still holds.
pub proof fn lemma_within_widen(v: DrawView, b: int, c: int)
    requires
        within(v, b),
        b <= c,
    ensures
        within(v, c),
    decreases v,
{
    lemma_within_widen_list(v.subs, b, c);
}

pub proof fn lemma_within_widen_list(s: Seq<DrawView>, b: int, c: int)
    requires
        within_list(s, b),
        b <= c,
    ensures
        within_list(s, c),
    decreases s,
{
    if s.len() > 0 {
        lemma_within_widen_list(s.drop_last(), b, c);
        lemma_within_widen(s.last(), b, c);
    }
}

/// Coordinate-bounded drawables have a coordinate-bounded box.
pub proof fn lemma_within_bounds(v: DrawView, b: int)
    requires
        within(v, b),
        0 <= b,
    ensures
        -b <= low_x(v) <= high_x(v) <= b,
        -b <= low_y(v) <= high_y(v) <= b,
        low_x(v) <= v.x <= high_x(v),
        low_y(v) <= v.y <= high_y(v),
    decreases v,
{
    lemma_within_bounds_list(v.subs, b);
}

pub proof fn lemma_within_bounds_list(s: Seq<DrawView>, b: int)
    requires
        within_list(s, b),
        0 <= b,
    ensures
        -b <= low_x_list(s),
        high_x_list(s) <= b || high_x_list(s) == neg_inf(),
        -b <= low_y_list(s),
        high_y_list(s) <= b || high_y_list(s) == neg_inf(),
        low_x_list(s) <= b || low_x_list(s) == pos_inf(),
        neg_inf() <= high_x_list(s),
        low_y_list(s) <= b || low_y_list(s) == pos_inf(),
        neg_inf() <= high_y_list(s),
    decreases s,
{
    if s.len() > 0 {
        lemma_within_bounds_list(s.drop_last(), b);
        lemma_within_bounds(s.last(), b);
    }
}

/// The converse: a box inside `[-b, b]` keeps every coordinate in range.
pub proof fn lemma_bounds_within(v: DrawView, b: int)
    requires
        0 <= b,
        -b <= low_x(v),
        high_x(v) <= b,
        -b <= low_y(v),
        high_y(v) <= b,
    ensures
        within(v, b),
    decreases v,
{
    lemma_bounds_list_own(v.subs);
    lemma_bounds_within_list(v.subs, b);
}

pub proof fn lemma_bounds_within_list(s: Seq<DrawView>, b: int)
    requires
        0 <= b,
        -b <= low_x_list(s) || low_x_list(s) == pos_inf(),
        high_x_list(s) <= b || high_x_list(s) == neg_inf(),
        -b <= low_y_list(s) || low_y_list(s) == pos_inf(),
        high_y_list(s) <= b || high_y_list(s) == neg_inf(),
    ensures
        within_list(s, b),
    decreases s,
{
    if s.len() > 0 {
        let t = s.drop_last();
        let l = s.last();
        lemma_bounds_list_own(t);
        lemma_bounds_node_own(l);
        assert(low_x_list(s) == min(low_x_list(t), low_x(l)));
        assert(high_x_list(s) == max(high_x_list(t), high_x(l)));
        assert(low_y_list(s) == min(low_y_list(t), low_y(l)));
        assert(high_y_list(s) == max(high_y_list(t), high_y(l)));
        assert(-b <= low_x(l) || low_x(l) == pos_inf());
        assert(low_x(l) <= pos_inf());
        assert(-b <= low_x(l));
        assert(high_x(l) <= b);
        assert(-b <= low_y(l));
        assert(high_y(l) <= b);
        lemma_bounds_within_list(t, b);
        lemma_bounds_within(l, b);
    }
}

/// Extending a list by one drawable folds that drawable's bounds into the
/// list's bounds.
pub proof fn lemma_bounds_list_push(s: Seq<DrawView>, v: DrawView)
    ensures
        low_x_list(s.push(v)) == min(low_x_list(s), low_x(v)),
        high_x_list(s.push(v)) == max(high_x_list(s), high_x(v)),
        low_y_list(s.push(v)) == min(low_y_list(s), low_y(v)),
        high_y_list(s.push(v)) == max(high_y_list(s), high_y(v)),
{
    assert(s.push(v).drop_last() =~= s);
    assert(s.push(v).last() == v);
}

/// A position held by some member of a list is a position of the list; the
/// returned index says which member.
pub proof fn lemma_pos_list_find(s: Seq<DrawView>, p: (int, int)) -> (i: int)
    requires
        positions_list(s).contains(p),
    ensures
        0 <= i < s.len(),
        positions(s[i]).contains(p),
    decreases s,
{
    let a = positions_list(s.drop_last());
    let b = positions(s.last());
    let k = choose|k: int| 0 <= k < positions_list(s).len() && positions_list(s)[k] == p;
    if k < a.len() {
        assert(a[k] == p);
        assert(a.contains(p));
        let i = lemma_pos_list_find(s.drop_last(), p);
        assert(s.drop_last()[i] == s[i]);
        i
    } else {
        assert(b[k - a.len()] == p);
        assert(b.contains(p));
        s.len() - 1
    }
}

/// A position of one member of a list is a position of the whole list.
pub proof fn lemma_pos_list_member(s: Seq<DrawView>, i: int, p: (int, int))
    requires
        0 <= i < s.len(),
        positions(s[i]).contains(p),
    ensures
        positions_list(s).contains(p),
    decreases s,
{
    let a = positions_list(s.drop_last());
    let b = positions(s.last());
    if i == s.len() - 1 {
        let k = choose|k: int| 0 <= k < b.len() && b[k] == p;
        assert(positions_list(s)[a.len() + k] == p);
    } else {
        assert(s.drop_last()[i] == s[i]);
        lemma_pos_list_member(s.drop_last(), i, p);
        let k = choose|k: int| 0 <= k < a.len() && a[k] == p;
        assert(positions_list(s)[k] == p);
    }
}

/// The bounding box bounds every position in the subtree: for any position
/// the view holds, `low_x <= px <= high_x` and `low_y <= py <= high_y`.
pub proof fn lemma_bounds_contain(v: DrawView, px: int, py: int)
    requires
        has_pos(v, px, py),
    ensures
        low_x(v) <= px <= high_x(v),
        low_y(v) <= py <= high_y(v),
    decreases v,
{
    let p = (px, py);
    let own = seq![(v.x, v.y)];
    let rest = positions_list(v.subs);
    let k = choose|k: int| 0 <= k < positions(v).len() && positions(v)[k] == p;
    if k == 0 {
        lemma_bounds_list_own(v.subs);
    } else {
        assert(rest[k - 1] == p);
        assert(rest.contains(p));
        let i = lemma_pos_list_find(v.subs, p);
        lemma_bounds_contain(v.subs[i], px, py);
        lemma_bounds_list_member(v.subs, i);
    }
}

/// A list's bounds fold is no tighter than any single member's bounds.
pub proof fn lemma_bounds_list_member(s: Seq<DrawView>, i: int)
    requires
        0 <= i < s.len(),
    ensures
        low_x_list(s) <= low_x(s[i]),
        high_x_list(s) >= high_x(s[i]),
        low_y_list(s) <= low_y(s[i]),
        high_y_list(s) >= high_y(s[i]),
    decreases s,
{
    if i == s.len() - 1 {
        assert(s.last() == s[i]);
    } else {
        lemma_bounds_list_member(s.drop_last(), i);
        assert(s.drop_last()[i] == s[i]);
    }
}

/// Trivial width facts: a box never extends past the sentinels, and the
/// root's own position keeps every bound on the proper side of them.
pub proof fn lemma_bounds_list_own(s: Seq<DrawView>)
    ensures
        low_x_list(s) <= pos_inf(),
        high_x_list(s) >= neg_inf(),
        low_y_list(s) <= pos_inf(),
        high_y_list(s) >= neg_inf(),
    decreases s,
{
    if s.len() > 0 {
        lemma_bounds_list_own(s.drop_last());
    }
}

/// Every coordinate of the view lies strictly between the two sentinels, as
/// the view of any machine drawable does.
pub open spec fn coords_ok(v: DrawView) -> bool
    decreases v,
{
    &&& neg_inf() < v.x < pos_inf()
    &&& neg_inf() < v.y < pos_inf()
    &&& coords_ok_list(v.subs)
}

pub open spec fn coords_ok_list(s: Seq<DrawView>) -> bool
    decreases s,
{
    s.len() == 0 || (coords_ok_list(s.drop_last()) && coords_ok(s.last()))
}

/// Every member of a machine-ranged list is machine-ranged.
pub proof fn lemma_coords_ok_member(s: Seq<DrawView>, i: int)
    requires
        coords_ok_list(s),
        0 <= i < s.len(),
    ensures
        coords_ok(s[i]),
    decreases s,
{
    if i == s.len() - 1 {
        assert(s.last() == s[i]);
    } else {
        lemma_coords_ok_member(s.drop_last(), i);
        assert(s.drop_last()[i] == s[i]);
    }
}

/// The view of a drawable holds machine coordinates only.
pub proof fn lemma_view_coords_ok(d: Drawable)
    ensures
        coords_ok(d@),
    decreases d,
{
    lemma_view_coords_ok_list(d.subs@);
    assert(d@.subs == crate::model::draw_view_list(d.subs@));
}

pub proof fn lemma_view_coords_ok_list(s: Seq<Drawable>)
    ensures
        coords_ok_list(crate::model::draw_view_list(s)),
    decreases s,
{
    if s.len() > 0 {
        lemma_view_coords_ok_list(s.drop_last());
        lemma_view_coords_ok(s.last());
        assert(crate::model::draw_view_list(s).drop_last() =~= crate::model::draw_view_list(
            s.drop_last(),
        ));
    }
}

/// A position of a child is a position of the parent.
pub proof fn lemma_has_pos_child(v: DrawView, i: int, px: int, py: int)
    requires
        0 <= i < v.subs.len(),
        has_pos(v.subs[i], px, py),
    ensures
        has_pos(v, px, py),
{
    lemma_pos_list_member(v.subs, i, (px, py));
    let rest = positions_list(v.subs);
    let k = choose|k: int| 0 <= k < rest.len() && rest[k] == (px, py);
    assert(positions(v)[k + 1] == (px, py));
}

/// Each side of the bounding box is attained: some position in the subtree
/// has x equal to `low_x`, some has x equal to `high_x`, and likewise for y.
pub proof fn lemma_bounds_attained(v: DrawView)
    requires
        coords_ok(v),
    ensures
        exists|p: (int, int)| #[trigger] has_pos(v, p.0, p.1) && p.0 == low_x(v),
        exists|p: (int, int)| #[trigger] has_pos(v, p.0, p.1) && p.0 == high_x(v),
        exists|p: (int, int)| #[trigger] has_pos(v, p.0, p.1) && p.1 == low_y(v),
        exists|p: (int, int)| #[trigger] has_pos(v, p.0, p.1) && p.1 == high_y(v),
    decreases v,
{
    lemma_bounds_list_own(v.subs);
    assert(positions(v)[0] == (v.x, v.y));
    assert(has_pos(v, v.x, v.y));
    if low_x(v) == v.x {
        assert(has_pos(v, v.x, v.y) && (v.x, v.y).0 == low_x(v));
    } else {
        let i = lemma_low_x_list_attained(v.subs);
        lemma_coords_ok_member(v.subs, i);
        lemma_bounds_attained(v.subs[i]);
        let p = choose|p: (int, int)| #[trigger] has_pos(v.subs[i], p.0, p.1) && p.0 == low_x(
            v.subs[i],
        );
        lemma_has_pos_child(v, i, p.0, p.1);
    }
    if high_x(v) == v.x {
        assert(has_pos(v, v.x, v.y) && (v.x, v.y).0 == high_x(v));
    } else {
        let i = lemma_high_x_list_attained(v.subs);
        lemma_coords_ok_member(v.subs, i);
        lemma_bounds_attained(v.subs[i]);
        let p = choose|p: (int, int)| #[trigger] has_pos(v.subs[i], p.0, p.1) && p.0 == high_x(
            v.subs[i],
        );
        lemma_has_pos_child(v, i, p.0, p.1);
    }
    if low_y(v) == v.y {
        assert(has_pos(v, v.x, v.y) && (v.x, v.y).1 == low_y(v));
    } else {
        let i = lemma_low_y_list_attained(v.subs);
        lemma_coords_ok_member(v.subs, i);
        lemma_bounds_attained(v.subs[i]);
        let p = choose|p: (int, int)| #[trigger] has_pos(v.subs[i], p.0, p.1) && p.1 == low_y(
            v.subs[i],
        );
        lemma_has_pos_child(v, i, p.0, p.1);
    }
    if high_y(v) == v.y {
        assert(has_pos(v, v.x, v.y) && (v.x, v.y).1 == high_y(v));
    } else {
        let i = lemma_high_y_list_attained(v.subs);
        lemma_coords_ok_member(v.subs, i);
        lemma_bounds_attained(v.subs[i]);
        let p = choose|p: (int, int)| #[trigger] has_pos(v.subs[i], p.0, p.1) && p.1 == high_y(
            v.subs[i],
        );
        lemma_has_pos_child(v, i, p.0, p.1);
    }
}

/// When a list's `low_x` fold beats the sentinel, some member attains it.
proof fn lemma_low_x_list_attained(s: Seq<DrawView>) -> (i: int)
    requires
        low_x_list(s) < pos_inf(),
    ensures
        0 <= i < s.len(),
        low_x(s[i]) == low_x_list(s),
    decreases s,
{
    if s.len() > 0 && low_x(s.last()) == low_x_list(s) {
        s.len() - 1
    } else {
        let i = lemma_low_x_list_attained(s.drop_last());
        assert(s.drop_last()[i] == s[i]);
        i
    }
}

proof fn lemma_high_x_list_attained(s: Seq<DrawView>) -> (i: int)
    requires
        high_x_list(s) > neg_inf(),
    ensures
        0 <= i < s.len(),
        high_x(s[i]) == high_x_list(s),
    decreases s,
{
    if s.len() > 0 && high_x(s.last()) == high_x_list(s) {
        s.len() - 1
    } else {
        let i = lemma_high_x_list_attained(s.drop_last());
        assert(s.drop_last()[i] == s[i]);
        i
    }
}

proof fn lemma_low_y_list_attained(s: Seq<DrawView>) -> (i: int)
    requires
        low_y_list(s) < pos_inf(),
    ensures
        0 <= i < s.len(),
        low_y(s[i]) == low_y_list(s),
    decreases s,
{
    if s.len() > 0 && low_y(s.last()) == low_y_list(s) {
        s.len() - 1
    } else {
        let i = lemma_low_y_list_attained(s.drop_last());
        assert(s.drop_last()[i] == s[i]);
        i
    }
}

proof fn lemma_high_y_list_attained(s: Seq<DrawView>) -> (i: int)
    requires
        high_y_list(s) > neg_inf(),
    ensures
        0 <= i < s.len(),
        high_y(s[i]) == high_y_list(s),
    decreases s,
{
    if s.len() > 0 && high_y(s.last()) == high_y_list(s) {
        s.len() - 1
    } else {
        let i = lemma_high_y_list_attained(s.drop_last());
        assert(s.drop_last()[i] == s[i]);
        i
    }
}

/// Folding one more element into a prefix of a list's bounds.
proof fn lemma_bounds_list_step(s: Seq<DrawView>, i: int)
    requires
        0 <= i < s.len(),
    ensures
        low_x_list(s.take(i + 1)) == min(low_x_list(s.take(i)), low_x(s[i])),
        high_x_list(s.take(i + 1)) == max(high_x_list(s.take(i)), high_x(s[i])),
        low_y_list(s.take(i + 1)) == min(low_y_list(s.take(i)), low_y(s[i])),
        high_y_list(s.take(i + 1)) == max(high_y_list(s.take(i)), high_y(s[i])),
{
    assert(s.take(i + 1) =~= s.take(i).push(s[i]));
    lemma_bounds_list_push(s.take(i), s[i]);
}

/// Each bound stays on its sentinel's side of the fold.
pub proof fn lemma_bounds_node_own(v: DrawView)
    ensures
        low_x(v) <= pos_inf(),
        high_x(v) >= neg_inf(),
        low_y(v) <= pos_inf(),
        high_y(v) >= neg_inf(),
{
    lemma_bounds_list_own(v.subs);
}

/// Bounds of a single-element list are the element's bounds.
pub proof fn lemma_bounds_list_one(v: DrawView)
    ensures
        low_x_list(seq![v]) == low_x(v),
        high_x_list(seq![v]) == high_x(v),
        low_y_list(seq![v]) == low_y(v),
        high_y_list(seq![v]) == high_y(v),
{
    lemma_bounds_node_own(v);
    assert(seq![v].drop_last() =~= Seq::<DrawView>::empty());
    assert(seq![v].last() == v);
    assert(low_x_list(Seq::<DrawView>::empty()) == pos_inf());
    assert(high_x_list(Seq::<DrawView>::empty()) == neg_inf());
    assert(low_y_list(Seq::<DrawView>::empty()) == pos_inf());
    assert(high_y_list(Seq::<DrawView>::empty()) == neg_inf());
}

/// Bounds of a concatenation fold the bounds of the two parts.
pub proof fn lemma_bounds_list_concat(a: Seq<DrawView>, b: Seq<DrawView>)
    ensures
        low_x_list(a + b) == min(low_x_list(a), low_x_list(b)),
        high_x_list(a + b) == max(high_x_list(a), high_x_list(b)),
        low_y_list(a + b) == min(low_y_list(a), low_y_list(b)),
        high_y_list(a + b) == max(high_y_list(a), high_y_list(b)),
    decreases b,
{
    lemma_bounds_list_own(a);
    lemma_bounds_list_own(b);
    if b.len() == 0 {
        assert(a + b =~= a);
    } else {
        lemma_bounds_list_concat(a, b.drop_last());
        lemma_bounds_list_push(a + b.drop_last(), b.last());
        assert((a + b.drop_last()).push(b.last()) =~= a + b);
        lemma_bounds_list_push(b.drop_last(), b.last());
        assert(b.drop_last().push(b.last()) =~= b);
    }
}

/// Reversing a list leaves its bounds unchanged.
pub proof fn lemma_bounds_list_reverse(s: Seq<DrawView>)
    ensures
        low_x_list(s.reverse()) == low_x_list(s),
        high_x_list(s.reverse()) == high_x_list(s),
        low_y_list(s.reverse()) == low_y_list(s),
        high_y_list(s.reverse()) == high_y_list(s),
    decreases s,
{
    if s.len() > 0 {
        lemma_bounds_list_reverse(s.drop_last());
        lemma_bounds_list_one(s.last());
        lemma_bounds_list_concat(seq![s.last()], s.drop_last().reverse());
        assert(s.reverse() =~= seq![s.last()] + s.drop_last().reverse());
        lemma_bounds_list_push(s.drop_last(), s.last());
        assert(s.drop_last().push(s.last()) =~= s);
    }
}

/// Splitting a list at any point splits its bounds fold.
pub proof fn lemma_bounds_list_split(s: Seq<DrawView>, m: int)
    requires
        0 <= m <= s.len(),
    ensures
        low_x_list(s) == min(low_x_list(s.take(m)), low_x_list(s.skip(m))),
        high_x_list(s) == max(high_x_list(s.take(m)), high_x_list(s.skip(m))),
        low_y_list(s) == min(low_y_list(s.take(m)), low_y_list(s.skip(m))),
        high_y_list(s) == max(high_y_list(s.take(m)), high_y_list(s.skip(m))),
{
    lemma_bounds_list_concat(s.take(m), s.skip(m));
    assert(s.take(m) + s.skip(m) =~= s);
}

/// Produce the bounding box of a drawable and its subs: the exact minima
/// and maxima, over the whole subtree, of the x and y positions.
pub fn get_bounds(d: &Drawable) -> (r: Bounds)
    ensures
        r.top == low_y(d@),
        r.bottom == high_y(d@),
        r.right == high_x(d@),
        r.left == low_x(d@),
    decreases *d,
{
    proof {
        lemma_draw_view_list(d.subs@);
    }
    let mut top = d.y;
    let mut bottom = d.y;
    let mut right = d.x;
    let mut left = d.x;
    let n = d.subs.len();
    for i in 0..n
        invariant
            n == d.subs.len(),
            top == min(d@.y, low_y_list(d@.subs.take(i as int))),
            bottom == max(d@.y, high_y_list(d@.subs.take(i as int))),
            right == max(d@.x, high_x_list(d@.subs.take(i as int))),
            left == min(d@.x, low_x_list(d@.subs.take(i as int))),
        decreases n - i,
    {
        proof {
            lemma_draw_view_list(d.subs@);
        }
        let b = get_bounds(&d.subs[i]);
        proof {
            lemma_bounds_list_step(d@.subs, i as int);
        }
        if b.top < top {
            top = b.top;
        }
        if b.bottom > bottom {
            bottom = b.bottom;
        }
        if b.right > right {
            right = b.right;
        }
        if b.left < left {
            left = b.left;
        }
    }
    proof {
        assert(d@.subs.take(n as int) =~= d@.subs);
    }
    Bounds { top, bottom, right, left }
}

} // verus!
