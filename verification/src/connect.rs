//! The connector generator: one line per (parent, immediate child) pair of
//! the positioned scene graph.

use vstd::prelude::*;
use crate::model::{Drawable, DrawView, Shape, ShapeV, Style, lemma_draw_view_list};
use crate::bounds::{within, within_list, lemma_within_member, lemma_within_bounds};
use crate::combine::comb_limit;

verus! {

/// Style of every connector line: a black stroke, five units wide.
pub open spec fn line_style() -> Style {
    Style::Stroked { width: 5, red: 0, green: 0, blue: 0 }
}

/// The view of a connector line from `(x1, y1)` to `(x2, y2)`: a line shape
/// at the origin with no children.
pub open spec fn line_view(x1: int, y1: int, x2: int, y2: int) -> DrawView {
    DrawView {
        shape: Some(ShapeV::Line { x1, y1, x2, y2 }),
        style: line_style(),
        x: 0,
        y: 0,
        subs: Seq::empty(),
    }
}

/// Add a black line to the canvas from start to end.
pub fn draw_line(start: (i64, i64), end: (i64, i64)) -> (r: Drawable)
    ensures
        r@ == line_view(start.0 as int, start.1 as int, end.0 as int, end.1 as int),
{
    let d = Drawable {
        shape: Some(Shape::Line { x1: start.0, y1: start.1, x2: end.0, y2: end.1 }),
        style: Style::Stroked { width: 5, red: 0, green: 0, blue: 0 },
        x: 0,
        y: 0,
        subs: Vec::new(),
    };
    proof {
        assert(d@.subs =~= Seq::<DrawView>::empty());
        assert(d@ =~~= line_view(start.0 as int, start.1 as int, end.0 as int, end.1 as int));
    }
    d
}

/// The lines from a node to each of its direct children: for child `i`, a
/// line from `(x + off, y + 2 off)` to `(child.x + off, child.y)`.
pub open spec fn child_lines(v: DrawView, off: int) -> Seq<DrawView> {
    Seq::new(
        v.subs.len(),
        |i: int| line_view(v.x + off, v.y + 2 * off, v.subs[i].x + off, v.subs[i].y),
    )
}

/// The connector drawing for one node: its own child lines, then one
/// container holding the connector drawings of its children in order.
pub open spec fn lines_for(v: DrawView, off: int) -> DrawView
    decreases v, 0int,
{
    DrawView {
        shape: None,
        style: Style::Plain,
        x: 0,
        y: 0,
        subs: child_lines(v, off).push(lines_list(v.subs, off)),
    }
}

/// The container holding the connector drawings of a list of nodes.
pub open spec fn lines_list(s: Seq<DrawView>, off: int) -> DrawView
    decreases s, 2int,
{
    DrawView { shape: None, style: Style::Plain, x: 0, y: 0, subs: lines_list_subs(s, off) }
}

pub open spec fn lines_list_subs(s: Seq<DrawView>, off: int) -> Seq<DrawView>
    decreases s, 1int,
{
    if s.len() == 0 {
        Seq::empty()
    } else {
        lines_list_subs(s.drop_last(), off).push(lines_for(s.last(), off))
    }
}

pub proof fn lemma_lines_list_subs(s: Seq<DrawView>, off: int)
    ensures
        lines_list_subs(s, off).len() == s.len(),
        forall|i: int| 0 <= i < s.len() ==> lines_list_subs(s, off)[i] == lines_for(s[i], off),
    decreases s,
{
    if s.len() > 0 {
        lemma_lines_list_subs(s.drop_last(), off);
    }
}

/// Number of line-shaped nodes in a scene graph.
pub open spec fn line_count(v: DrawView) -> nat
    decreases v, 0int,
{
    (match v.shape {
        Some(ShapeV::Line { .. }) => 1nat,
        _ => 0nat,
    }) + line_count_list(v.subs)
}

pub open spec fn line_count_list(s: Seq<DrawView>) -> nat
    decreases s, 1int,
{
    if s.len() == 0 {
        0
    } else {
        line_count_list(s.drop_last()) + line_count(s.last())
    }
}

/// Number of nodes in a scene graph, the root included.
pub open spec fn node_count(v: DrawView) -> nat
    decreases v, 0int,
{
    1 + node_count_list(v.subs)
}

pub open spec fn node_count_list(s: Seq<DrawView>) -> nat
    decreases s, 1int,
{
    if s.len() == 0 {
        0
    } else {
        node_count_list(s.drop_last()) + node_count(s.last())
    }
}

/// Number of (parent, immediate child) pairs in a scene graph.
pub open spec fn edge_count(v: DrawView) -> nat
    decreases v, 0int,
{
    v.subs.len() + edge_count_list(v.subs)
}

pub open spec fn edge_count_list(s: Seq<DrawView>) -> nat
    decreases s, 1int,
{
    if s.len() == 0 {
        0
    } else {
        edge_count_list(s.drop_last()) + edge_count(s.last())
    }
}

/// Any scene graph holds exactly one fewer parent/child edge than it holds
/// nodes, whatever its fan-out shape.
pub proof fn lemma_edge_node_count(v: DrawView)
    ensures
        edge_count(v) + 1 == node_count(v),
    decreases v, 0int,
{
    lemma_edge_node_count_list(v.subs);
}

pub proof fn lemma_edge_node_count_list(s: Seq<DrawView>)
    ensures
        edge_count_list(s) + s.len() == node_count_list(s),
    decreases s, 1int,
{
    if s.len() > 0 {
        lemma_edge_node_count_list(s.drop_last());
        lemma_edge_node_count(s.last());
    }
}

/// A list in which every entry counts one line counts its length.
proof fn lemma_line_count_ones(s: Seq<DrawView>)
    requires
        forall|i: int| 0 <= i < s.len() ==> line_count(#[trigger] s[i]) == 1,
    ensures
        line_count_list(s) == s.len(),
    decreases s,
{
    if s.len() > 0 {
        assert(forall|i: int|
            0 <= i < s.drop_last().len() ==> line_count(#[trigger] s.drop_last()[i]) == 1);
        lemma_line_count_ones(s.drop_last());
        assert(s.last() == s[s.len() - 1]);
    }
}

/// The edge count invariant of the connector generator: its output holds
/// exactly one line per (parent, immediate child) pair of its input.
pub proof fn lemma_lines_count(v: DrawView, off: int)
    ensures
        line_count(lines_for(v, off)) == edge_count(v),
    decreases v, 0int,
{
    let cl = child_lines(v, off);
    assert(line_count_list(Seq::<DrawView>::empty()) == 0);
    assert forall|i: int| 0 <= i < cl.len() implies line_count(#[trigger] cl[i]) == 1 by {
        assert(cl[i].subs =~= Seq::<DrawView>::empty());
    }
    lemma_line_count_ones(cl);
    lemma_bounds_push_count(cl, lines_list(v.subs, off));
    lemma_lines_count_list(v.subs, off);
}

pub proof fn lemma_lines_count_list(s: Seq<DrawView>, off: int)
    ensures
        line_count(lines_list(s, off)) == edge_count_list(s),
    decreases s, 1int,
{
    if s.len() == 0 {
        assert(lines_list_subs(s, off) =~= Seq::<DrawView>::empty());
        assert(line_count_list(Seq::<DrawView>::empty()) == 0);
    } else {
        lemma_lines_count_list(s.drop_last(), off);
        lemma_lines_count(s.last(), off);
        lemma_bounds_push_count(
            lines_list_subs(s.drop_last(), off),
            lines_for(s.last(), off),
        );
    }
}

/// Pushing one drawable onto a list adds its line count to the fold.
proof fn lemma_bounds_push_count(s: Seq<DrawView>, v: DrawView)
    ensures
        line_count_list(s.push(v)) == line_count_list(s) + line_count(v),
{
    assert(s.push(v).drop_last() =~= s);
    assert(s.push(v).last() == v);
}

/// Produce a drawing of the lines connecting the nodes on a given tree:
/// exactly one line per (parent, immediate child) pair reachable from `d`.
pub fn draw_lines(d: &Drawable, offset: i64) -> (r: Drawable)
    requires
        within(d@, comb_limit()),
        -comb_limit() <= offset <= comb_limit(),
    ensures
        r@ == lines_for(d@, offset as int),
    decreases *d,
{
    proof {
        lemma_draw_view_list(d.subs@);
        lemma_within_bounds(d@, comb_limit());
    }
    let mut output = Drawable::new();
    let n = d.subs.len();
    for i in 0..n
        invariant
            n == d.subs.len(),
            within(d@, comb_limit()),
            -comb_limit() <= offset <= comb_limit(),
            output.shape is None,
            output.style == Style::Plain,
            output.x == 0,
            output.y == 0,
            crate::model::draw_view_list(output.subs@) =~= child_lines(d@, offset as int).take(
                i as int,
            ),
        decreases n - i,
    {
        proof {
            lemma_draw_view_list(d.subs@);
            lemma_within_member(d@.subs, comb_limit(), i as int);
        }
        let start = (d.x + offset, d.y + offset * 2);
        let end = (d.subs[i].x + offset, d.subs[i].y);
        let ghost ps = output.subs@;
        let line = draw_line(start, end);
        output.subs.push(line);
        proof {
            assert(output.subs@.drop_last() =~= ps);
            assert(crate::model::draw_view_list(output.subs@)
                == crate::model::draw_view_list(ps).push(line@));
            assert(child_lines(d@, offset as int).take(i + 1) =~= child_lines(
                d@,
                offset as int,
            ).take(i as int).push(child_lines(d@, offset as int)[i as int]));
        }
    }
    let rest = draw_lines_list(&d.subs, offset);
    let ghost ps = output.subs@;
    output.subs.push(rest);
    proof {
        assert(output.subs@.drop_last() =~= ps);
        assert(crate::model::draw_view_list(output.subs@) == crate::model::draw_view_list(
            ps,
        ).push(rest@));
        assert(child_lines(d@, offset as int).take(n as int) =~= child_lines(d@, offset as int));
        assert(output@ =~~= lines_for(d@, offset as int));
    }
    output
}

/// Returns the lines connecting a list of nodes and their children.
fn draw_lines_list(lod: &Vec<Drawable>, offset: i64) -> (r: Drawable)
    requires
        within_list(crate::model::draw_view_list(lod@), comb_limit()),
        -comb_limit() <= offset <= comb_limit(),
    ensures
        r@ == lines_list(crate::model::draw_view_list(lod@), offset as int),
    decreases lod@,
{
    let ghost vs = crate::model::draw_view_list(lod@);
    proof {
        lemma_draw_view_list(lod@);
    }
    let mut output = Drawable::new();
    let n = lod.len();
    for i in 0..n
        invariant
            n == lod.len(),
            vs == crate::model::draw_view_list(lod@),
            within_list(vs, comb_limit()),
            -comb_limit() <= offset <= comb_limit(),
            output.shape is None,
            output.style == Style::Plain,
            output.x == 0,
            output.y == 0,
            crate::model::draw_view_list(output.subs@) =~= lines_list_subs(vs, offset as int).take(
                i as int,
            ),
        decreases n - i,
    {
        proof {
            lemma_draw_view_list(lod@);
            lemma_within_member(vs, comb_limit(), i as int);
            assert(decreases_to!(lod@ => lod@[i as int]));
        }
        let ghost ps = output.subs@;
        let result = draw_lines(&lod[i], offset);
        output.subs.push(result);
        proof {
            lemma_lines_list_subs(vs, offset as int);
            assert(output.subs@.drop_last() =~= ps);
            assert(crate::model::draw_view_list(output.subs@)
                == crate::model::draw_view_list(ps).push(result@));
            assert(lines_list_subs(vs, offset as int).take(i + 1) =~= lines_list_subs(
                vs,
                offset as int,
            ).take(i as int).push(lines_list_subs(vs, offset as int)[i as int]));
        }
    }
    proof {
        lemma_lines_list_subs(vs, offset as int);
        assert(lines_list_subs(vs, offset as int).take(n as int) =~= lines_list_subs(
            vs,
            offset as int,
        ));
        assert(output@ =~~= lines_list(vs, offset as int));
    }
    output
}

} // verus!
