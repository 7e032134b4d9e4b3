use render_tree::{
    above, beside, beside_align_top, center, draw_line, draw_lines, draw_nodes, get_bounds,
    get_center, move_with_subs, square, Drawable, Node, Shape, Style,
};

/// A unit rectangle drawable at the given position, as the geometry
/// library's `rect().with_xy(x, y)` would build it.
fn rect_at(x: i64, y: i64) -> Drawable {
    Drawable {
        shape: Some(Shape::Rectangle { width: 1, height: 1 }),
        style: Style::Filled { red: 0, green: 0, blue: 0 },
        x,
        y,
        subs: vec![],
    }
}

/// Number of line-shaped nodes anywhere in the scene graph.
fn count_lines(d: &Drawable) -> usize {
    let own = match d.shape {
        Some(Shape::Line { .. }) => 1,
        _ => 0,
    };
    let mut total = own;
    for sub in &d.subs {
        total += count_lines(sub);
    }
    total
}

fn leaf() -> Node {
    Node { subs: vec![] }
}

#[test]
fn test_get_center() {
    let mut r0 = rect_at(0, 3);
    let r1 = rect_at(4, 1);

    r0.subs.push(r1);
    let result0 = get_center(&r0);

    assert_eq!(result0.0, 2);
    assert_eq!(result0.1, 2);
}

#[test]
fn test_get_bounds() {
    let r0 = rect_at(25, 3);
    let mut r1 = rect_at(40, 12);
    let mut r2 = rect_at(15, 8);
    let mut r3 = rect_at(8, 8);

    r1.subs.push(r0);
    r2.subs.push(r1);
    r3.subs.push(r2);

    let result0 = get_bounds(&r3);

    assert_eq!(result0.right, 40);
    assert_eq!(result0.left, 8);
    assert_eq!(result0.top, 3);
    assert_eq!(result0.bottom, 12);
}

#[test]
fn test_square_is_black_rectangle_at_origin() {
    let s = square(20);
    assert_eq!(s.shape, Some(Shape::Rectangle { width: 20, height: 20 }));
    assert_eq!(s.style, Style::Filled { red: 0, green: 0, blue: 0 });
    assert_eq!(s.x, 0);
    assert_eq!(s.y, 0);
    assert!(s.subs.is_empty());
}

#[test]
fn test_move_with_subs_shifts_every_position() {
    let mut parent = rect_at(10, 20);
    parent.subs.push(rect_at(-5, 7));
    let moved = move_with_subs(parent, 3, -4);
    assert_eq!((moved.x, moved.y), (13, 16));
    assert_eq!((moved.subs[0].x, moved.subs[0].y), (-2, 3));
    let b = get_bounds(&moved);
    assert_eq!((b.left, b.right, b.top, b.bottom), (-2, 13, 3, 16));
}

#[test]
fn test_beside_align_top_adjacency() {
    let mut a = rect_at(0, 0);
    a.subs.push(rect_at(6, 2));
    let mut b = rect_at(100, 50);
    b.subs.push(rect_at(103, 57));
    let combined = beside_align_top(a, b, 25);
    // The moved copy of b is the new last child of a.
    let moved = combined.subs.last().unwrap();
    let mb = get_bounds(moved);
    // b's left edge lands offset units right of a's right edge, tops equal.
    assert_eq!(mb.left, 6 + 25);
    assert_eq!(mb.top, 0);
    // The whole box: a untouched, b shifted rigidly (width 3, height 7).
    assert_eq!(mb.right, 6 + 25 + 3);
    assert_eq!(mb.bottom, 0 + 7);
    assert_eq!((combined.x, combined.y), (0, 0));
}

#[test]
fn test_beside_centers_align() {
    let a = rect_at(0, 10);
    let b = rect_at(0, 0);
    let combined = beside(a, b, 4);
    let moved = combined.subs.last().unwrap();
    // Single points: centers coincide, left edge sits 4 right of a's right.
    assert_eq!((moved.x, moved.y), (4, 10));
}

#[test]
fn test_beside_empty_is_identity() {
    let a = rect_at(2, 3);
    let combined = beside_align_top(Drawable::new(), a, 25);
    assert_eq!((combined.x, combined.y), (2, 3));
    assert!(combined.subs.is_empty());
    let b = rect_at(5, 6);
    let combined2 = beside_align_top(b, Drawable::new(), 25);
    assert_eq!((combined2.x, combined2.y), (5, 6));
    assert!(combined2.subs.is_empty());
}

#[test]
fn test_above_adjacency_and_reparenting() {
    // A base row: root at (0, 0) with one nested child at (10, 0).
    let mut base = rect_at(0, 0);
    base.subs.push(rect_at(10, 0));
    let top = rect_at(0, 0);
    let combined = above(base, top, 50, 1);
    // The result is rooted at the moved top shape: centered over the base
    // row (center x = 5) and 50 units above its top edge.
    assert_eq!((combined.x, combined.y), (5, -50));
    // Reparenting depth 1 pulled the base's last child up; the base itself
    // comes last. Positions never change during reparenting.
    assert_eq!(combined.subs.len(), 2);
    assert_eq!((combined.subs[0].x, combined.subs[0].y), (10, 0));
    assert_eq!((combined.subs[1].x, combined.subs[1].y), (0, 0));
    assert!(combined.subs[1].subs.is_empty());
    let b = get_bounds(&combined);
    assert_eq!((b.left, b.right, b.top, b.bottom), (0, 10, -50, 0));
}

#[test]
fn test_center_on_canvas() {
    let d = rect_at(0, 0);
    let centered = center(d, 512, 512, 20);
    assert_eq!((centered.x, centered.y), (246, 246));
    // Centering twice with the same canvas is a no-op after the first call.
    let twice = center(centered, 512, 512, 20);
    assert_eq!((twice.x, twice.y), (246, 246));
}

#[test]
fn test_draw_line_endpoints() {
    let d = draw_line((3, 4), (7, -9));
    assert_eq!(d.shape, Some(Shape::Line { x1: 3, y1: 4, x2: 7, y2: -9 }));
    assert_eq!(d.style, Style::Stroked { width: 5, red: 0, green: 0, blue: 0 });
    assert_eq!((d.x, d.y), (0, 0));
    assert!(d.subs.is_empty());
}

#[test]
fn test_draw_lines_endpoints() {
    let mut parent = rect_at(100, 40);
    parent.subs.push(rect_at(130, 90));
    let lines = draw_lines(&parent, 10);
    assert_eq!(count_lines(&lines), 1);
    assert_eq!(
        lines.subs[0].shape,
        Some(Shape::Line { x1: 110, y1: 60, x2: 140, y2: 90 })
    );
}

#[test]
fn test_leaf_node_layout() {
    // A single childless tree node: one leaf-styled rectangle, no lines.
    let drawn = draw_nodes(leaf(), 20, 25, 50);
    assert_eq!(drawn.shape, Some(Shape::Rectangle { width: 20, height: 20 }));
    assert_eq!(drawn.style, Style::Filled { red: 128, green: 0, blue: 0 });
    assert_eq!((drawn.x, drawn.y), (0, 0));
    assert!(drawn.subs.is_empty());
    let lines = draw_lines(&drawn, 10);
    assert_eq!(count_lines(&lines), 0);
}

#[test]
fn test_edge_count_matches_tree() {
    // Root with two children; the first child has three children: 6 nodes.
    let t = Node {
        subs: vec![
            Node { subs: vec![leaf(), leaf(), leaf()] },
            leaf(),
        ],
    };
    let drawn = draw_nodes(t, 20, 25, 50);
    let lines = draw_lines(&drawn, 10);
    assert_eq!(count_lines(&lines), 5);
}

#[test]
fn test_edge_count_chain() {
    // A chain of four nodes: three edges, whatever the fan-out shape.
    let t = Node { subs: vec![Node { subs: vec![Node { subs: vec![leaf()] }] }] };
    let drawn = draw_nodes(t, 20, 25, 50);
    let lines = draw_lines(&drawn, 10);
    assert_eq!(count_lines(&lines), 3);
}

#[test]
fn test_driver_reparents_row() {
    // Three leaf children: the root rectangle ends up with three direct
    // children, leaves top-aligned and spaced by the horizontal offset.
    let t = Node { subs: vec![leaf(), leaf(), leaf()] };
    let drawn = draw_nodes(t, 20, 25, 50);
    assert_eq!(drawn.style, Style::Filled { red: 0, green: 0, blue: 0 });
    assert_eq!(drawn.subs.len(), 3);
    // Row spans x 0..50, so the parent sits at its center, 50 above.
    assert_eq!((drawn.x, drawn.y), (25, -50));
    let mut xs: Vec<i64> = drawn.subs.iter().map(|d| d.x).collect();
    xs.sort();
    assert_eq!(xs, vec![0, 25, 50]);
    for sub in &drawn.subs {
        assert_eq!(sub.y, 0);
        assert_eq!(sub.style, Style::Filled { red: 128, green: 0, blue: 0 });
    }
}

#[test]
fn test_clone_is_deep_and_equal() {
    let t = Node { subs: vec![Node { subs: vec![leaf()] }, leaf()] };
    let copy = t.clone();
    assert_eq!(copy, t);
    // The copy is independent: growing it leaves the original alone.
    let mut copy = copy;
    copy.subs.push(leaf());
    assert_eq!(t.subs.len(), 2);
    assert_eq!(copy.subs.len(), 3);
}
