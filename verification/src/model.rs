//! The data model: scene-graph drawables, abstract tree nodes, bounding
//! boxes, and their mathematical views.

use vstd::prelude::*;

verus! {

/// Geometry of a single drawable: a rectangle of a given pixel size, or a
/// straight line segment between two absolute points.
#[derive(Clone, Copy, PartialEq, Eq, Structural, Debug)]
pub enum Shape {
    Rectangle { width: u32, height: u32 },
    Line { x1: i64, y1: i64, x2: i64, y2: i64 },
}

/// Visual style of a drawable: no paint at all (the default for bare
/// containers), a solid fill, or a stroked outline of a given width.
#[derive(Clone, Copy, PartialEq, Eq, Structural, Debug)]
pub enum Style {
    Plain,
    Filled { red: u8, green: u8, blue: u8 },
    Stroked { width: u32, red: u8, green: u8, blue: u8 },
}

/// A scene-graph node: an optional shape at an absolute position, a style,
/// and an ordered list of child drawables. A drawable without a shape is the
/// empty placeholder that the combinators treat as an identity element.
#[derive(Debug)]
pub struct Drawable {
    pub shape: Option<Shape>,
    pub style: Style,
    pub x: i64,
    pub y: i64,
    pub subs: Vec<Drawable>,
}

/// An abstract input tree node: nothing but an ordered list of children.
#[derive(Debug, PartialEq, Eq)]
pub struct Node {
    pub subs: Vec<Node>,
}

/// The bounding box of a drawable and its descendants. `top` and `left` are
/// the smallest y and x over all positions in the subtree, `bottom` and
/// `right` the largest.
#[derive(Clone, Copy, PartialEq, Eq, Structural, Debug)]
pub struct Bounds {
    pub top: i64,
    pub bottom: i64,
    pub right: i64,
    pub left: i64,
}

/// Mathematical view of a `Shape`, with unbounded integer coordinates.
pub enum ShapeV {
    Rectangle { width: int, height: int },
    Line { x1: int, y1: int, x2: int, y2: int },
}

/// Mathematical view of a `Drawable`.
#[verifier::ext_equal]
pub struct DrawView {
    pub shape: Option<ShapeV>,
    pub style: Style,
    pub x: int,
    pub y: int,
    pub subs: Seq<DrawView>,
}

/// Mathematical view of a `Node`.
#[verifier::ext_equal]
pub struct NodeView {
    pub subs: Seq<NodeView>,
}

pub open spec fn shape_view(s: Shape) -> ShapeV {
    match s {
        Shape::Rectangle { width, height } => ShapeV::Rectangle {
            width: width as int,
            height: height as int,
        },
        Shape::Line { x1, y1, x2, y2 } => ShapeV::Line {
            x1: x1 as int,
            y1: y1 as int,
            x2: x2 as int,
            y2: y2 as int,
        },
    }
}

pub open spec fn opt_shape_view(s: Option<Shape>) -> Option<ShapeV> {
    match s {
        Option::None => Option::None,
        Option::Some(sh) => Option::Some(shape_view(sh)),
    }
}

pub open spec fn draw_view(d: Drawable) -> DrawView
    decreases d,
{
    DrawView {
        shape: opt_shape_view(d.shape),
        style: d.style,
        x: d.x as int,
        y: d.y as int,
        subs: draw_view_list(d.subs@),
    }
}

pub open spec fn draw_view_list(s: Seq<Drawable>) -> Seq<DrawView>
    decreases s,
{
    if s.len() == 0 {
        Seq::empty()
    } else {
        draw_view_list(s.drop_last()).push(draw_view(s.last()))
    }
}

impl View for Drawable {
    type V = DrawView;

    open spec fn view(&self) -> DrawView {
        draw_view(*self)
    }
}

pub open spec fn node_view(n: Node) -> NodeView
    decreases n,
{
    NodeView { subs: node_view_list(n.subs@) }
}

pub open spec fn node_view_list(s: Seq<Node>) -> Seq<NodeView>
    decreases s,
{
    if s.len() == 0 {
        Seq::empty()
    } else {
        node_view_list(s.drop_last()).push(node_view(s.last()))
    }
}

impl View for Node {
    type V = NodeView;

    open spec fn view(&self) -> NodeView {
        node_view(*self)
    }
}

/// The view of a list of drawables is the list of their views, element by
/// element.
pub proof fn lemma_draw_view_list(s: Seq<Drawable>)
    ensures
        draw_view_list(s).len() == s.len(),
        forall|i: int| 0 <= i < s.len() ==> draw_view_list(s)[i] == draw_view(s[i]),
    decreases s,
{
    if s.len() > 0 {
        lemma_draw_view_list(s.drop_last());
    }
}

/// The view of a list of nodes is the list of their views, element by
/// element.
pub proof fn lemma_node_view_list(s: Seq<Node>)
    ensures
        node_view_list(s).len() == s.len(),
        forall|i: int| 0 <= i < s.len() ==> node_view_list(s)[i] == node_view(s[i]),
    decreases s,
{
    if s.len() > 0 {
        lemma_node_view_list(s.drop_last());
    }
}

impl Drawable {
    /// A fresh empty drawable: no shape, no style, at the origin, without
    /// children. The combinators treat it as their identity element.
    pub fn new() -> (r: Drawable)
        ensures
            r@ == empty_view(),
    {
        Drawable { shape: None, style: Style::Plain, x: 0, y: 0, subs: Vec::new() }
    }
}

impl Clone for Node {
    /// Return a clone of this node: a fully independent deep copy whose
    /// view equals the original's.
    fn clone(&self) -> (res: Node)
        ensures
            res@ == self@,
        decreases *self,
    {
        proof {
            lemma_node_view_list(self.subs@);
        }
        let mut subs: Vec<Node> = Vec::new();
        let n = self.subs.len();
        for i in 0..n
            invariant
                n == self.subs.len(),
                node_view_list(subs@) =~= self@.subs.take(i as int),
            decreases n - i,
        {
            proof {
                lemma_node_view_list(self.subs@);
            }
            let ghost ps = subs@;
            let c = self.subs[i].clone();
            subs.push(c);
            proof {
                assert(subs@.drop_last() =~= ps);
                assert(node_view_list(subs@) == node_view_list(ps).push(c@));
                assert(self@.subs.take(i + 1) =~= self@.subs.take(i as int).push(
                    self@.subs[i as int],
                ));
            }
        }
        let res = Node { subs };
        proof {
            assert(self@.subs.take(n as int) =~= self@.subs);
            assert(res@ =~~= self@);
        }
        res
    }
}

/// The view of `Drawable::new()`.
pub open spec fn empty_view() -> DrawView {
    DrawView { shape: None, style: Style::Plain, x: 0, y: 0, subs: Seq::empty() }
}

} // verus!
