use druid_graphviz_layout::backend::{
    DrawRectInfo, DruidCtxWriter, GraphvizWidget, Stroke, StyleAttr, VisualGraphData,
};
use druid_graphviz_layout::graph::{Arrow, Element, Orientation, Point, VisualGraph};

#[test]
fn writer_starts_empty() {
    let w = DruidCtxWriter::new();
    assert!(w.rects.is_empty() && w.arrows.is_empty() && w.clips.is_empty());
    assert_eq!(w.view_size, Point::zero());
    assert!(w.write(100, 100).is_empty());
}

#[test]
fn rect_grows_view() {
    let mut w = DruidCtxWriter::new();
    w.draw_rect(Point::new(10, 20), Point::new(30, 40), &StyleAttr::simple(), None);
    assert_eq!(w.view_size, Point::new(45, 65));
    w.draw_rect(Point::new(0, 0), Point::new(5, 5), &StyleAttr::simple(), Some(0));
    assert_eq!(w.view_size, Point::new(45, 65));
    assert_eq!(w.rects[1], DrawRectInfo {
            xy: Point::new(0, 0),
            size: Point::new(5, 5),
            look: StyleAttr::simple(),
            clip: Some(0)
        });
}

#[test]
fn grow_window_saturates() {
    let mut w = DruidCtxWriter::new();
    w.grow_window(Point::new(u64::MAX - 2, 1), Point::new(0, 1));
    assert_eq!(w.view_size, Point::new(u64::MAX, 7));
}

#[test]
fn texts_and_lines_do_not_grow_view() {
    let mut w = DruidCtxWriter::new();
    w.draw_text(Point::new(500, 500), "label", &StyleAttr::simple());
    w.draw_line(Point::new(0, 0), Point::new(900, 900), &StyleAttr::simple());
    assert_eq!(w.view_size, Point::zero());
    assert_eq!(w.texts[0].text, "label");
}

#[test]
fn clips_get_consecutive_handles() {
    let mut w = DruidCtxWriter::new();
    assert_eq!(w.create_clip(Point::new(1, 2), Point::new(3, 4), 5), 0);
    assert_eq!(w.create_clip(Point::new(1, 2), Point::new(3, 4), 6), 1);
    assert_eq!(w.clips[1].rounded_px, 6);
}

#[test]
fn arrow_points_grow_view() {
    let mut w = DruidCtxWriter::new();
    let path = [(Point::new(0, 0), Point::new(10, 20)), (Point::new(30, 95), Point::new(40, 50))];
    w.draw_arrow(&path, true, (false, true), &StyleAttr::simple(), "x");
    assert_eq!(w.view_size, Point::new(45, 100));
    assert_eq!(w.arrows[0].paths, path.to_vec());
    assert!(w.arrows[0].dashed);
}

#[test]
fn write_scales_into_window() {
    let mut w = DruidCtxWriter::new();
    w.draw_rect(Point::new(0, 0), Point::new(95, 45), &StyleAttr::simple(), None);
    w.draw_circle(Point::new(50, 10), Point::new(10, 20), &StyleAttr::simple());
    let path = [(Point::new(0, 0), Point::new(0, 0)), (Point::new(50, 50), Point::new(50, 50))];
    w.draw_arrow(&path, false, (false, true), &StyleAttr::simple(), "");
    w.draw_text(Point::new(20, 40), "t", &StyleAttr::simple());
    let out = w.write(200, 400);
    assert_eq!(out.len(), 4);
    assert_eq!(out[0], Stroke::Rect { x0: 0, y0: 0, x1: 190, y1: 180 });
    assert_eq!(out[1], Stroke::Ellipse { cx: 100, cy: 40, rx: 20, ry: 80 });
    assert_eq!(
        out[2],
        Stroke::Curve {
            start: Point::new(0, 0),
            c1: Point::new(0, 0),
            c2: Point::new(100, 200),
            end: Point::new(100, 200),
            quads: vec![]
        }
    );
    assert_eq!(out[3], Stroke::Text { x: 40, y: 160, text: "t".to_string() });
}

#[test]
fn render_draws_every_node_and_edge() {
    let mut vg = VisualGraph::new(Orientation::TopToBottom);
    let a = vg.add_node(Element::create(100, 100, 0)).unwrap();
    let b = vg.add_node(Element::create(100, 100, 1)).unwrap();
    vg.add_edge(Arrow::new(true), a, b).unwrap();
    vg.prepare_render(false, false);
    let mut w = DruidCtxWriter::new();
    vg.render(&StyleAttr::simple(), &mut w);
    assert_eq!(w.rects[0].look, StyleAttr::simple());
    assert_eq!(w.rects.len(), 2);
    assert_eq!(w.rects[1].xy, Point::new(0, 140));
    assert_eq!(w.arrows.len(), 1);
    assert!(w.arrows[0].dashed);
    assert_eq!(w.arrows[0].paths[0].0, Point::new(50, 100));
    assert_eq!(w.view_size, Point::new(105, 245));
}

#[test]
fn widget_data_holds_graph() {
    let _widget = GraphvizWidget::new();
    let mut vg = VisualGraph::new(Orientation::LeftToRight);
    vg.add_node(Element::create(1, 2, 0)).unwrap();
    let data = VisualGraphData::new(vg);
    assert_eq!(data.graph.num_nodes(), 1);
    assert_eq!(data.graph.orientation(), Orientation::LeftToRight);
}

#[test]
fn rect_scaling_is_scale_free() {
    let mut w1 = DruidCtxWriter::new();
    w1.draw_rect(Point::new(0, 0), Point::new(10, 10), &StyleAttr::simple(), None);
    w1.view_size = Point::new(30, 30);
    let mut w2 = DruidCtxWriter::new();
    w2.draw_rect(Point::new(0, 0), Point::new(20, 20), &StyleAttr::simple(), None);
    w2.view_size = Point::new(60, 60);
    assert_eq!(w1.write(30, 30), vec![Stroke::Rect { x0: 0, y0: 0, x1: 10, y1: 10 }]);
    assert_eq!(w1.write(30, 30), w2.write(30, 30));
}

#[test]
fn arrow_curve_with_quadratic_pieces() {
    let mut w = DruidCtxWriter::new();
    let path = [
        (Point::new(0, 0), Point::new(10, 10)),
        (Point::new(20, 20), Point::new(30, 30)),
        (Point::new(40, 40), Point::new(95, 95)),
    ];
    w.draw_arrow(&path, false, (false, true), &StyleAttr::simple(), "");
    w.draw_line(Point::new(10, 0), Point::new(0, 10), &StyleAttr::simple());
    let out = w.write(100, 100);
    assert_eq!(out.len(), 2);
    assert_eq!(out[0], Stroke::Line { x0: 10, y0: 0, x1: 0, y1: 10 });
    assert_eq!(
        out[1],
        Stroke::Curve {
            start: Point::new(0, 0),
            c1: Point::new(10, 10),
            c2: Point::new(20, 20),
            end: Point::new(30, 30),
            quads: vec![(Point::new(40, 40), Point::new(95, 95))]
        }
    );
}
