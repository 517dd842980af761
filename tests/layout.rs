use druid_graphviz_layout::graph::{
    Arrow, Element, GraphError, Orientation, Point, VisualGraph, MAX_NODES, MAX_RANK, MAX_SIZE,
    NODE_MARGIN, ROW_MARGIN,
};
use druid_graphviz_layout::placer::{rows_in_order, Placer};

fn two_nodes(orientation: Orientation) -> (VisualGraph, usize, usize) {
    let mut vg = VisualGraph::new(orientation);
    let a = vg.add_node(Element::create(100, 100, 0)).unwrap();
    let b = vg.add_node(Element::create(100, 100, 1)).unwrap();
    vg.add_edge(Arrow::new(false), a, b).unwrap();
    (vg, a, b)
}

fn diamond() -> (VisualGraph, [usize; 4]) {
    let mut vg = VisualGraph::new(Orientation::TopToBottom);
    let a = vg.add_node(Element::create(100, 100, 0)).unwrap();
    let b = vg.add_node(Element::create(100, 100, 1)).unwrap();
    let c = vg.add_node(Element::create(100, 100, 1)).unwrap();
    let d = vg.add_node(Element::create(100, 100, 2)).unwrap();
    vg.add_edge(Arrow::new(false), a, b).unwrap();
    vg.add_edge(Arrow::new(false), a, c).unwrap();
    vg.add_edge(Arrow::new(false), b, d).unwrap();
    vg.add_edge(Arrow::new(true), c, d).unwrap();
    (vg, [a, b, c, d])
}

fn wide_graph() -> VisualGraph {
    let mut vg = VisualGraph::new(Orientation::TopToBottom);
    let sizes = [(30, 10), (200, 50), (0, 0), (75, 120), (10, 10), (90, 40), (60, 60)];
    let ranks = [0, 0, 1, 1, 1, 2, 3];
    for k in 0..sizes.len() {
        vg.add_node(Element::create(sizes[k].0, sizes[k].1, ranks[k])).unwrap();
    }
    let edges = [(0, 2), (0, 3), (1, 4), (1, 5), (2, 5), (3, 6), (4, 6), (0, 6)];
    for (s, d) in edges {
        vg.add_edge(Arrow::new(false), s, d).unwrap();
    }
    vg
}

fn assert_rows_apart(vg: &VisualGraph) {
    for row in &vg.rows {
        for i in 0..row.len() {
            for j in i + 1..row.len() {
                let a = vg.nodes[row[i]];
                let b = vg.nodes[row[j]];
                assert!(a.pos.x + a.size.x + NODE_MARGIN <= b.pos.x);
            }
        }
    }
}

#[test]
fn two_nodes_top_to_bottom() {
    let (mut vg, a, b) = two_nodes(Orientation::TopToBottom);
    vg.prepare_render(false, false);
    let ea = vg.element(a);
    let eb = vg.element(b);
    assert_eq!(ea.rank, 0);
    assert_eq!(eb.rank, 1);
    assert!(eb.pos.y >= ea.pos.y + ea.size.y + ROW_MARGIN);
    assert_eq!(ea.pos, Point::new(0, 0));
    assert_eq!(eb.pos, Point::new(0, 140));
    let path = vg.edge_path(0);
    assert_eq!(path[0], Point::new(50, 100));
    assert_eq!(path[path.len() - 1], Point::new(50, 140));
}

#[test]
fn two_nodes_left_to_right() {
    let (mut vg, a, b) = two_nodes(Orientation::LeftToRight);
    vg.prepare_render(false, false);
    let ea = vg.element(a);
    let eb = vg.element(b);
    assert_eq!(vg.orientation(), Orientation::LeftToRight);
    assert!(eb.pos.x >= ea.pos.x + ea.size.x + ROW_MARGIN);
    assert_eq!(ea.pos.y, eb.pos.y);
    let path = vg.edge_path(0);
    assert_eq!(path[0], Point::new(100, 50));
    assert_eq!(path[path.len() - 1], Point::new(140, 50));
    for k in 0..path.len() - 1 {
        assert!(path[k].x <= path[k + 1].x);
    }
}

#[test]
fn diamond_is_balanced() {
    let (mut vg, [a, b, c, d]) = diamond();
    vg.prepare_render(false, false);
    let (ea, eb, ec, ed) = (vg.element(a), vg.element(b), vg.element(c), vg.element(d));
    assert_eq!(eb.rank, ec.rank);
    assert!(ed.rank > eb.rank && ed.rank > ec.rank);
    assert!(ea.rank < eb.rank);
    let center = |e: Element| e.pos.x + e.size.x / 2;
    let (lo, hi) = if center(eb) <= center(ec) { (center(eb), center(ec)) } else { (center(ec), center(eb)) };
    assert!(lo <= center(ed) && center(ed) <= hi);
    assert_eq!(eb.pos.x, 0);
    assert_eq!(ec.pos.x, 120);
    assert_eq!(ea.pos.x, 60);
    assert_eq!(ed.pos.x, 60);
    assert_eq!(eb.pos.y, ec.pos.y);
}

#[test]
fn single_node_at_origin() {
    let mut vg = VisualGraph::new(Orientation::TopToBottom);
    let a = vg.add_node(Element::create(30, 40, 0)).unwrap();
    vg.prepare_render(false, false);
    assert_eq!(vg.element(a).pos, Point::new(0, 0));
    assert_eq!(vg.element(a).size, Point::new(30, 40));
    assert_eq!(vg.rows, vec![vec![a]]);
}

#[test]
fn empty_graph_lays_out() {
    let mut vg = VisualGraph::new(Orientation::LeftToRight);
    vg.prepare_render(false, false);
    assert_eq!(vg.num_nodes(), 0);
    assert!(vg.rows.is_empty());
}

#[test]
fn layout_is_deterministic() {
    let mut g1 = wide_graph();
    let mut g2 = wide_graph();
    g1.prepare_render(false, false);
    g2.prepare_render(false, false);
    assert_eq!(g1.nodes, g2.nodes);
    assert_eq!(g1.rows, g2.rows);
    for e in 0..g1.num_edges() {
        assert_eq!(g1.edge_path(e), g2.edge_path(e));
    }
}

#[test]
fn rows_stay_apart_after_every_phase() {
    let mut g = wide_graph();
    g.prepare_render(false, true);
    assert_rows_apart(&g);
    assert!(rows_in_order(&g));
    let mut h = wide_graph();
    h.prepare_render(false, false);
    assert_rows_apart(&h);
    assert!(rows_in_order(&h));
}

#[test]
fn nodes_of_a_row_never_overlap() {
    let mut g = wide_graph();
    g.prepare_render(false, false);
    for row in &g.rows {
        for i in 0..row.len() {
            for j in 0..row.len() {
                if i != j {
                    let a = g.nodes[row[i]];
                    let b = g.nodes[row[j]];
                    let apart_x = a.pos.x + a.size.x <= b.pos.x || b.pos.x + b.size.x <= a.pos.x;
                    let apart_y = a.pos.y + a.size.y <= b.pos.y || b.pos.y + b.size.y <= a.pos.y;
                    assert!(apart_x || apart_y);
                }
            }
        }
    }
}

#[test]
fn edge_paths_run_downward() {
    let mut g = wide_graph();
    g.prepare_render(false, false);
    for e in 0..g.num_edges() {
        let a = &g.edges[e];
        let s = g.nodes[a.src];
        let d = g.nodes[a.dst];
        let p = &a.path;
        assert!(p.len() >= 2);
        assert_eq!(p[0], Point::new(s.pos.x + s.size.x / 2, s.pos.y + s.size.y));
        assert_eq!(p[p.len() - 1], Point::new(d.pos.x + d.size.x / 2, d.pos.y));
        for k in 0..p.len() - 1 {
            assert!(p[k].y <= p[k + 1].y);
        }
    }
}

#[test]
fn skip_refinement_leaves_paths_empty() {
    let (mut vg, a, b) = two_nodes(Orientation::TopToBottom);
    vg.prepare_render(false, true);
    assert!(vg.edge_path(0).is_empty());
    assert_eq!(vg.element(a).pos, Point::new(0, 0));
    assert_eq!(vg.element(b).pos, Point::new(0, 140));
}

#[test]
fn placer_lays_out_borrowed_graph() {
    let (mut vg, _a, b) = two_nodes(Orientation::TopToBottom);
    {
        let mut placer = Placer::new(&mut vg);
        placer.druid_graphviz_layout(false);
    }
    assert_eq!(vg.element(b).pos, Point::new(0, 140));
    assert_eq!(vg.edge_path(0).len(), 4);
}

#[test]
fn transpose_twice_is_identity() {
    let mut g = wide_graph();
    g.prepare_render(false, false);
    let nodes = g.nodes.clone();
    let paths: Vec<Vec<Point>> = (0..g.num_edges()).map(|e| g.edge_path(e).clone()).collect();
    g.transpose();
    assert_eq!(g.orientation(), Orientation::LeftToRight);
    assert_eq!(g.nodes[1].pos, Point::new(nodes[1].pos.y, nodes[1].pos.x));
    assert_eq!(g.nodes[1].size, Point::new(50, 200));
    g.transpose();
    assert_eq!(g.orientation(), Orientation::TopToBottom);
    assert_eq!(g.nodes, nodes);
    for e in 0..g.num_edges() {
        assert_eq!(g.edge_path(e), &paths[e]);
    }
}

#[test]
fn long_edges_are_shortened() {
    let mut vg = VisualGraph::new(Orientation::TopToBottom);
    let a = vg.add_node(Element::create(10, 10, 0)).unwrap();
    let b = vg.add_node(Element::create(10, 10, 3)).unwrap();
    let c = vg.add_node(Element::create(10, 10, 4)).unwrap();
    let d = vg.add_node(Element::create(10, 10, 4)).unwrap();
    vg.add_edge(Arrow::new(false), a, b).unwrap();
    vg.add_edge(Arrow::new(false), a, c).unwrap();
    vg.add_edge(Arrow::new(false), a, d).unwrap();
    vg.prepare_render(false, false);
    // `a` has more successors than predecessors and moves down toward them;
    // each of them has one predecessor and moves up toward it.
    assert_eq!(vg.element(a).rank, 1);
    assert_eq!(vg.element(b).rank, 2);
    assert_eq!(vg.element(c).rank, 2);
    assert_eq!(vg.element(d).rank, 2);
    assert_eq!(vg.rows, vec![vec![], vec![a], vec![b, c, d]]);
}

#[test]
fn add_edge_rejects_bad_handles() {
    let (mut vg, a, b) = two_nodes(Orientation::TopToBottom);
    assert_eq!(vg.add_edge(Arrow::new(false), 7, b), Err(GraphError::BadHandle(7)));
    assert_eq!(vg.add_edge(Arrow::new(false), a, 9), Err(GraphError::BadHandle(9)));
    assert_eq!(vg.num_edges(), 1);
}

#[test]
fn add_edge_rejects_backward_edges() {
    let (mut vg, a, b) = two_nodes(Orientation::TopToBottom);
    assert_eq!(vg.add_edge(Arrow::new(false), b, a), Err(GraphError::NotForward));
    assert_eq!(vg.add_edge(Arrow::new(false), a, a), Err(GraphError::NotForward));
    assert_eq!(vg.add_edge(Arrow::new(false), a, b), Ok(1));
}

#[test]
fn add_node_rejects_bad_nodes() {
    let mut vg = VisualGraph::new(Orientation::TopToBottom);
    assert_eq!(vg.add_node(Element::create(MAX_SIZE + 1, 1, 0)), Err(GraphError::InvalidSize));
    assert_eq!(vg.add_node(Element::create(1, 1, MAX_RANK + 1)), Err(GraphError::RankTooLarge));
    assert_eq!(vg.add_node(Element::create(MAX_SIZE, 0, MAX_RANK)), Ok(0));
    assert_eq!(vg.num_nodes(), 1);
}

#[test]
fn add_node_stops_at_capacity() {
    let mut vg = VisualGraph::new(Orientation::TopToBottom);
    for k in 0..MAX_NODES {
        assert_eq!(vg.add_node(Element::create(0, 0, 0)), Ok(k));
    }
    assert_eq!(vg.add_node(Element::create(0, 0, 0)), Err(GraphError::TooManyNodes));
}

#[test]
fn zero_size_nodes_are_placed() {
    let mut vg = VisualGraph::new(Orientation::TopToBottom);
    let a = vg.add_node(Element::create(0, 0, 0)).unwrap();
    let b = vg.add_node(Element::create(0, 0, 0)).unwrap();
    vg.prepare_render(false, false);
    assert_eq!(vg.element(a).pos.x + NODE_MARGIN, vg.element(b).pos.x);
}

#[test]
fn first_pass_positions() {
    let mut g = wide_graph();
    g.prepare_render(false, true);
    assert_eq!(g.rows, vec![vec![0, 1], vec![2, 3, 4], vec![5, 6]]);
    let expected = [(0, 0), (50, 0), (0, 90), (20, 90), (115, 90), (0, 250), (110, 250)];
    for (v, (x, y)) in expected.iter().enumerate() {
        assert_eq!(g.element(v).pos, Point::new(*x, *y));
    }
}
