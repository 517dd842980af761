//! A recording render backend: it collects the draw calls of a laid-out
//! graph, tracks the extent of what was drawn, and scales the recorded
//! shapes into a window of a given size.

use vstd::prelude::*;
use crate::graph::{Point, VisualGraph};

verus! {

/// The widget that shows a graph; it holds no state of its own.
pub struct GraphvizWidget {}

impl GraphvizWidget {
    pub fn new() -> (r: Self)
        ensures
            r == (GraphvizWidget {}),
    {
        GraphvizWidget {}
    }
}

/// The data that a widget shows: one graph.
pub struct VisualGraphData {
    pub graph: VisualGraph,
}

impl VisualGraphData {
    pub fn new(graph: VisualGraph) -> (r: Self)
        ensures
            r.graph == graph,
    {
        VisualGraphData { graph }
    }
}

/// How a shape looks; the layout never reads it, a painter does.
#[derive(Clone, Copy, Debug, PartialEq, Eq, Structural)]
pub struct StyleAttr {
    pub line_color: u32,
    pub line_width: usize,
    pub fill_color: Option<u32>,
    pub rounded: usize,
    pub font_size: usize,
}

impl StyleAttr {
    /// Black lines of width 2 on a white fill, square corners, 15 point text.
    pub fn simple() -> (r: StyleAttr)
        ensures
            r == (StyleAttr {
                line_color: 0x0000_00ff,
                line_width: 2,
                fill_color: Some(0xffff_ffff),
                rounded: 0,
                font_size: 15,
            }),
    {
        StyleAttr {
            line_color: 0x0000_00ff,
            line_width: 2,
            fill_color: Some(0xffff_ffff),
            rounded: 0,
            font_size: 15,
        }
    }
}

#[derive(Clone, Copy, Debug, PartialEq, Eq, Structural)]
pub struct DrawRectInfo {
    pub xy: Point,
    pub size: Point,
    pub look: StyleAttr,
    pub clip: Option<usize>,
}

#[derive(Clone, Copy, Debug, PartialEq, Eq, Structural)]
pub struct DrawCircleInfo {
    pub xy: Point,
    pub size: Point,
    pub look: StyleAttr,
}

pub struct DrawTextInfo {
    pub xy: Point,
    pub text: String,
    pub look: StyleAttr,
}

pub struct DrawArrowInfo {
    pub paths: Vec<(Point, Point)>,
    pub dashed: bool,
    pub head: (bool, bool),
    pub look: StyleAttr,
    pub text: String,
}

#[derive(Clone, Copy, Debug, PartialEq, Eq, Structural)]
pub struct DrawLineInfo {
    pub start: Point,
    pub stop: Point,
    pub look: StyleAttr,
}

#[derive(Clone, Copy, Debug, PartialEq, Eq, Structural)]
pub struct ClipInfo {
    pub xy: Point,
    pub size: Point,
    pub rounded_px: usize,
}

/// One shape in window coordinates, ready to be painted.
#[derive(Debug, PartialEq, Eq)]
pub enum Stroke {
    Rect { x0: u64, y0: u64, x1: u64, y1: u64 },
    Ellipse { cx: u64, cy: u64, rx: u64, ry: u64 },
    Line { x0: u64, y0: u64, x1: u64, y1: u64 },
    Curve { start: Point, c1: Point, c2: Point, end: Point, quads: Vec<(Point, Point)> },
    Text { x: u64, y: u64, text: String },
}

/// Records draw calls; the handle of a clip is its index in `clips`.
pub struct DruidCtxWriter {
    pub rects: Vec<DrawRectInfo>,
    pub circles: Vec<DrawCircleInfo>,
    pub texts: Vec<DrawTextInfo>,
    pub arrows: Vec<DrawArrowInfo>,
    pub lines: Vec<DrawLineInfo>,
    pub clips: Vec<ClipInfo>,
    pub view_size: Point,
}

/// `a + b + 5`, or the largest `u64` where that does not fit.
pub open spec fn reach(a: u64, b: u64) -> u64 {
    if a + b + 5 <= u64::MAX {
        (a + b + 5) as u64
    } else {
        u64::MAX
    }
}

pub open spec fn max_u64(a: u64, b: u64) -> u64 {
    if a >= b { a } else { b }
}

/// The view grown to hold `point` plus `size` and a border of 5.
pub open spec fn grown(view: Point, point: Point, size: Point) -> Point {
    Point {
        x: max_u64(view.x, reach(point.x, size.x)),
        y: max_u64(view.y, reach(point.y, size.y)),
    }
}

/// The view grown by both points of every vector pair of `path`, in order.
pub open spec fn grown_by_path(view: Point, path: Seq<(Point, Point)>) -> Point
    decreases path.len(),
{
    if path.len() == 0 {
        view
    } else {
        let v = grown_by_path(view, path.drop_last());
        let z = Point { x: 0, y: 0 };
        grown(grown(v, path.last().0, z), path.last().1, z)
    }
}

/// `v * extent / max_vs`, or the largest `u64` where that does not fit.
pub open spec fn scaled(v: u64, max_vs: u64, extent: u64) -> u64 {
    if (v as int) * (extent as int) / (max_vs as int) <= u64::MAX {
        ((v as int) * (extent as int) / (max_vs as int)) as u64
    } else {
        u64::MAX
    }
}

fn reach_of(a: u64, b: u64) -> (r: u64)
    ensures
        r == reach(a, b),
{
    if a <= u64::MAX - 5 && b <= u64::MAX - 5 - a {
        a + b + 5
    } else {
        u64::MAX
    }
}

fn scale(v: u64, max_vs: u64, extent: u64) -> (r: u64)
    requires
        max_vs > 0,
    ensures
        r == scaled(v, max_vs, extent),
{
    assert((v as int) * (extent as int) <= u64::MAX * u64::MAX) by (nonlinear_arith)
        requires
            v <= u64::MAX,
            extent <= u64::MAX,
    ;
    let p: u128 = v as u128 * extent as u128;
    let q: u128 = p / max_vs as u128;
    if q <= u64::MAX as u128 {
        q as u64
    } else {
        u64::MAX
    }
}

pub open spec fn scaled_pt(p: Point, max_vs: u64, width: u64, height: u64) -> Point {
    Point { x: scaled(p.x, max_vs, width), y: scaled(p.y, max_vs, height) }
}

/// `a + b`, or the largest `u64` where that does not fit.
pub open spec fn end_of(a: u64, b: u64) -> u64 {
    if a + b <= u64::MAX {
        (a + b) as u64
    } else {
        u64::MAX
    }
}

pub open spec fn rect_stroke(r: DrawRectInfo, max_vs: u64, width: u64, height: u64) -> Stroke {
    Stroke::Rect {
        x0: scaled(r.xy.x, max_vs, width),
        y0: scaled(r.xy.y, max_vs, height),
        x1: scaled(end_of(r.xy.x, r.size.x), max_vs, width),
        y1: scaled(end_of(r.xy.y, r.size.y), max_vs, height),
    }
}

pub open spec fn circle_stroke(c: DrawCircleInfo, max_vs: u64, width: u64, height: u64) -> Stroke {
    Stroke::Ellipse {
        cx: scaled(c.xy.x, max_vs, width),
        cy: scaled(c.xy.y, max_vs, height),
        rx: scaled(c.size.x, max_vs, width),
        ry: scaled(c.size.y, max_vs, height),
    }
}

pub open spec fn line_stroke(l: DrawLineInfo, max_vs: u64, width: u64, height: u64) -> Stroke {
    Stroke::Line {
        x0: scaled(l.start.x, max_vs, width),
        y0: scaled(l.start.y, max_vs, height),
        x1: scaled(l.stop.x, max_vs, width),
        y1: scaled(l.stop.y, max_vs, height),
    }
}

pub open spec fn scaled_pair(p: (Point, Point), max_vs: u64, width: u64, height: u64) -> (Point, Point) {
    (scaled_pt(p.0, max_vs, width, height), scaled_pt(p.1, max_vs, width, height))
}

/// `s` is the curve of arrow `a`: from the first point, with the exit vector
/// and the first entry vector as control points, to the second point; then a
/// quadratic piece for each further vector pair.
pub open spec fn arrow_stroke_ok(s: Stroke, a: DrawArrowInfo, max_vs: u64, width: u64, height: u64) -> bool {
    match s {
        Stroke::Curve { start, c1, c2, end, quads } => {
            &&& start == scaled_pt(a.paths@[0].0, max_vs, width, height)
            &&& c1 == scaled_pt(a.paths@[0].1, max_vs, width, height)
            &&& c2 == scaled_pt(a.paths@[1].0, max_vs, width, height)
            &&& end == scaled_pt(a.paths@[1].1, max_vs, width, height)
            &&& quads@ == a.paths@.subrange(2, a.paths@.len() as int).map_values(
                |p: (Point, Point)| scaled_pair(p, max_vs, width, height),
            )
        },
        _ => false,
    }
}

pub open spec fn text_stroke_ok(s: Stroke, t: DrawTextInfo, max_vs: u64, width: u64, height: u64) -> bool {
    match s {
        Stroke::Text { x, y, text } => {
            &&& x == scaled(t.xy.x, max_vs, width)
            &&& y == scaled(t.xy.y, max_vs, height)
            &&& text@ == t.text@
        },
        _ => false,
    }
}

fn end_of_exec(a: u64, b: u64) -> (r: u64)
    ensures
        r == end_of(a, b),
{
    if a <= u64::MAX - b {
        a + b
    } else {
        u64::MAX
    }
}

fn scale_pt(p: Point, max_vs: u64, width: u64, height: u64) -> (r: Point)
    requires
        max_vs > 0,
    ensures
        r == scaled_pt(p, max_vs, width, height),
{
    Point { x: scale(p.x, max_vs, width), y: scale(p.y, max_vs, height) }
}

impl DruidCtxWriter {
    pub fn new() -> (r: Self)
        ensures
            r.rects@.len() == 0,
            r.circles@.len() == 0,
            r.texts@.len() == 0,
            r.arrows@.len() == 0,
            r.lines@.len() == 0,
            r.clips@.len() == 0,
            r.view_size == (Point { x: 0, y: 0 }),
    {
        DruidCtxWriter {
            rects: Vec::new(),
            circles: Vec::new(),
            texts: Vec::new(),
            arrows: Vec::new(),
            lines: Vec::new(),
            clips: Vec::new(),
            view_size: Point { x: 0, y: 0 },
        }
    }

    /// Grows the view to include `point` plus `size` and a border.
    pub fn grow_window(&mut self, point: Point, size: Point)
        ensures
            final(self).view_size == grown(old(self).view_size, point, size),
            final(self).rects == old(self).rects,
            final(self).circles == old(self).circles,
            final(self).texts == old(self).texts,
            final(self).arrows == old(self).arrows,
            final(self).lines == old(self).lines,
            final(self).clips == old(self).clips,
    {
        let rx = reach_of(point.x, size.x);
        let ry = reach_of(point.y, size.y);
        if rx > self.view_size.x {
            self.view_size.x = rx;
        }
        if ry > self.view_size.y {
            self.view_size.y = ry;
        }
    }

    pub fn draw_rect(&mut self, xy: Point, size: Point, look: &StyleAttr, clip: Option<usize>)
        ensures
            final(self).rects@ == old(self).rects@.push(DrawRectInfo { xy, size, look: *look, clip }),
            final(self).view_size == grown(old(self).view_size, xy, size),
            final(self).circles == old(self).circles,
            final(self).arrows == old(self).arrows,
            final(self).lines == old(self).lines,
            final(self).texts == old(self).texts,
            final(self).clips == old(self).clips,
    {
        self.grow_window(xy, size);
        self.rects.push(DrawRectInfo { xy, size, look: *look, clip });
    }

    pub fn draw_circle(&mut self, xy: Point, size: Point, look: &StyleAttr)
        ensures
            final(self).circles@ == old(self).circles@.push(DrawCircleInfo { xy, size, look: *look }),
            final(self).view_size == grown(old(self).view_size, xy, size),
            final(self).rects == old(self).rects,
            final(self).arrows == old(self).arrows,
            final(self).lines == old(self).lines,
            final(self).texts == old(self).texts,
            final(self).clips == old(self).clips,
    {
        self.grow_window(xy, size);
        self.circles.push(DrawCircleInfo { xy, size, look: *look });
    }

    /// Records a text; texts do not grow the view.
    pub fn draw_text(&mut self, xy: Point, text: &str, look: &StyleAttr)
        ensures
            final(self).texts@.len() == old(self).texts@.len() + 1,
            final(self).texts@.last().xy == xy,
            final(self).texts@.last().text@ == text@,
            final(self).texts@.last().look == *look,
            final(self).texts@.drop_last() == old(self).texts@,
            final(self).view_size == old(self).view_size,
            final(self).rects == old(self).rects,
            final(self).circles == old(self).circles,
            final(self).arrows == old(self).arrows,
            final(self).lines == old(self).lines,
            final(self).clips == old(self).clips,
    {
        let t = text.to_string();
        self.texts.push(DrawTextInfo { xy, text: t, look: *look });
        assert(self.texts@.drop_last() =~= old(self).texts@);
    }

    /// Records an arrow. `path` is a list of vectors: the first is the exit
    /// vector from the first point, the others are entry vectors into the
    /// following points. Every point of it grows the view.
    pub fn draw_arrow(
        &mut self,
        path: &[(Point, Point)],
        dashed: bool,
        head: (bool, bool),
        look: &StyleAttr,
        text: &str,
    )
        ensures
            final(self).arrows@.len() == old(self).arrows@.len() + 1,
            final(self).arrows@.last().paths@ == path@,
            final(self).arrows@.last().dashed == dashed,
            final(self).arrows@.last().head == head,
            final(self).arrows@.last().text@ == text@,
            final(self).arrows@.last().look == *look,
            final(self).arrows@.drop_last() == old(self).arrows@,
            final(self).view_size == grown_by_path(old(self).view_size, path@),
            final(self).rects == old(self).rects,
            final(self).circles == old(self).circles,
            final(self).lines == old(self).lines,
            final(self).texts == old(self).texts,
            final(self).clips == old(self).clips,
    {
        let mut paths: Vec<(Point, Point)> = Vec::new();
        let mut i: usize = 0;
        while i < path.len()
            invariant
                i <= path@.len(),
                paths@ == path@.subrange(0, i as int),
                self.view_size == grown_by_path(old(self).view_size, path@.subrange(0, i as int)),
                self.rects == old(self).rects,
                self.circles == old(self).circles,
                self.texts == old(self).texts,
                self.arrows == old(self).arrows,
                self.lines == old(self).lines,
                self.clips == old(self).clips,
            decreases path@.len() - i,
        {
            let (a, b) = path[i];
            self.grow_window(a, Point { x: 0, y: 0 });
            self.grow_window(b, Point { x: 0, y: 0 });
            paths.push((a, b));
            assert(paths@ =~= path@.subrange(0, i + 1));
            assert(path@.subrange(0, i + 1).drop_last() =~= path@.subrange(0, i as int));
            i = i + 1;
        }
        assert(paths@ =~= path@);
        assert(path@.subrange(0, path@.len() as int) =~= path@);
        self.arrows.push(DrawArrowInfo { paths, dashed, head, look: *look, text: text.to_string() });
        assert(self.arrows@.drop_last() =~= old(self).arrows@);
    }

    fn rect_strokes(&self, max_vs: u64, width: u64, height: u64) -> (out: Vec<Stroke>)
        requires
            max_vs > 0,
        ensures
            out@.len() == self.rects@.len(),
            forall|k: int|
                0 <= k < out@.len() ==> out@[k] == rect_stroke(#[trigger] self.rects@[k], max_vs, width, height),
    {
        let mut out: Vec<Stroke> = Vec::new();
        let mut i: usize = 0;
        while i < self.rects.len()
            invariant
                max_vs > 0,
                i <= self.rects@.len(),
                out@.len() == i,
                forall|k: int|
                    0 <= k < i ==> out@[k] == rect_stroke(#[trigger] self.rects@[k], max_vs, width, height),
            decreases self.rects@.len() - i,
        {
            let e = self.rects[i];
            let sx = scale(e.xy.x, max_vs, width);
            let sy = scale(e.xy.y, max_vs, height);
            let ex = scale(end_of_exec(e.xy.x, e.size.x), max_vs, width);
            let ey = scale(end_of_exec(e.xy.y, e.size.y), max_vs, height);
            out.push(Stroke::Rect { x0: sx, y0: sy, x1: ex, y1: ey });
            i = i + 1;
        }
        out
    }

    fn circle_strokes(&self, max_vs: u64, width: u64, height: u64) -> (out: Vec<Stroke>)
        requires
            max_vs > 0,
        ensures
            out@.len() == self.circles@.len(),
            forall|k: int|
                0 <= k < out@.len() ==> out@[k] == circle_stroke(#[trigger] self.circles@[k], max_vs, width, height),
    {
        let mut out: Vec<Stroke> = Vec::new();
        let mut i: usize = 0;
        while i < self.circles.len()
            invariant
                max_vs > 0,
                i <= self.circles@.len(),
                out@.len() == i,
                forall|k: int|
                    0 <= k < i ==> out@[k] == circle_stroke(#[trigger] self.circles@[k], max_vs, width, height),
            decreases self.circles@.len() - i,
        {
            let e = self.circles[i];
            let c = scale_pt(e.xy, max_vs, width, height);
            let rx = scale(e.size.x, max_vs, width);
            let ry = scale(e.size.y, max_vs, height);
            out.push(Stroke::Ellipse { cx: c.x, cy: c.y, rx, ry });
            i = i + 1;
        }
        out
    }

    fn line_strokes(&self, max_vs: u64, width: u64, height: u64) -> (out: Vec<Stroke>)
        requires
            max_vs > 0,
        ensures
            out@.len() == self.lines@.len(),
            forall|k: int|
                0 <= k < out@.len() ==> out@[k] == line_stroke(#[trigger] self.lines@[k], max_vs, width, height),
    {
        let mut out: Vec<Stroke> = Vec::new();
        let mut i: usize = 0;
        while i < self.lines.len()
            invariant
                max_vs > 0,
                i <= self.lines@.len(),
                out@.len() == i,
                forall|k: int|
                    0 <= k < i ==> out@[k] == line_stroke(#[trigger] self.lines@[k], max_vs, width, height),
            decreases self.lines@.len() - i,
        {
            let e = self.lines[i];
            let a = scale_pt(e.start, max_vs, width, height);
            let b = scale_pt(e.stop, max_vs, width, height);
            out.push(Stroke::Line { x0: a.x, y0: a.y, x1: b.x, y1: b.y });
            i = i + 1;
        }
        out
    }

    fn arrow_strokes(&self, max_vs: u64, width: u64, height: u64) -> (out: Vec<Stroke>)
        requires
            max_vs > 0,
            forall|k: int| 0 <= k < self.arrows@.len() ==> (#[trigger] self.arrows@[k]).paths@.len() >= 2,
        ensures
            out@.len() == self.arrows@.len(),
            forall|k: int|
                0 <= k < out@.len() ==> arrow_stroke_ok(out@[k], #[trigger] self.arrows@[k], max_vs, width, height),
    {
        let mut out: Vec<Stroke> = Vec::new();
        let mut i: usize = 0;
        while i < self.arrows.len()
            invariant
                max_vs > 0,
                forall|k: int| 0 <= k < self.arrows@.len() ==> (#[trigger] self.arrows@[k]).paths@.len() >= 2,
                i <= self.arrows@.len(),
                out@.len() == i,
                forall|k: int|
                    0 <= k < i ==> arrow_stroke_ok(out@[k], #[trigger] self.arrows@[k], max_vs, width, height),
            decreases self.arrows@.len() - i,
        {
            let paths = &self.arrows[i].paths;
            assert(paths@.len() >= 2);
            let start = scale_pt(paths[0].0, max_vs, width, height);
            let c1 = scale_pt(paths[0].1, max_vs, width, height);
            let c2 = scale_pt(paths[1].0, max_vs, width, height);
            let end = scale_pt(paths[1].1, max_vs, width, height);
            let mut quads: Vec<(Point, Point)> = Vec::new();
            let mut j: usize = 2;
            while j < paths.len()
                invariant
                    max_vs > 0,
                    2 <= j <= paths@.len(),
                    quads@ == paths@.subrange(2, j as int).map_values(
                        |p: (Point, Point)| scaled_pair(p, max_vs, width, height),
                    ),
                decreases paths@.len() - j,
            {
                let p1 = scale_pt(paths[j].0, max_vs, width, height);
                let p2 = scale_pt(paths[j].1, max_vs, width, height);
                quads.push((p1, p2));
                assert(quads@ =~= paths@.subrange(2, j + 1).map_values(
                    |p: (Point, Point)| scaled_pair(p, max_vs, width, height),
                ));
                j = j + 1;
            }
            out.push(Stroke::Curve { start, c1, c2, end, quads });
            i = i + 1;
        }
        out
    }

    fn text_strokes(&self, max_vs: u64, width: u64, height: u64) -> (out: Vec<Stroke>)
        requires
            max_vs > 0,
        ensures
            out@.len() == self.texts@.len(),
            forall|k: int|
                0 <= k < out@.len() ==> text_stroke_ok(out@[k], #[trigger] self.texts@[k], max_vs, width, height),
    {
        let mut out: Vec<Stroke> = Vec::new();
        let mut i: usize = 0;
        while i < self.texts.len()
            invariant
                max_vs > 0,
                i <= self.texts@.len(),
                out@.len() == i,
                forall|k: int|
                    0 <= k < i ==> text_stroke_ok(out@[k], #[trigger] self.texts@[k], max_vs, width, height),
            decreases self.texts@.len() - i,
        {
            let p = scale_pt(self.texts[i].xy, max_vs, width, height);
            let text = self.texts[i].text.clone();
            out.push(Stroke::Text { x: p.x, y: p.y, text });
            i = i + 1;
        }
        out
    }

    /// The recorded shapes scaled into a window of `width` by `height`: a
    /// coordinate `v` becomes `v * extent / max_vs`, where `max_vs` is the
    /// larger side of the view. Rectangles, circles, lines, arrows and texts
    /// come in that order, one stroke each. Nothing is drawn while the view
    /// is empty. Every arrow needs an exit and an entry vector.
    pub fn write(&self, width: u64, height: u64) -> (out: Vec<Stroke>)
        requires
            forall|k: int| 0 <= k < self.arrows@.len() ==> (#[trigger] self.arrows@[k]).paths@.len() >= 2,
        ensures
            self.view_size.x == 0 && self.view_size.y == 0 ==> out@.len() == 0,
            self.view_size.x > 0 || self.view_size.y > 0 ==> {
                let max_vs = max_u64(self.view_size.x, self.view_size.y);
                let nr = self.rects@.len() as int;
                let nc = self.circles@.len() as int;
                let nl = self.lines@.len() as int;
                let na = self.arrows@.len() as int;
                let nt = self.texts@.len() as int;
                &&& out@.len() == nr + nc + nl + na + nt
                &&& forall|k: int|
                    0 <= k < nr ==> out@[k] == rect_stroke(#[trigger] self.rects@[k], max_vs, width, height)
                &&& forall|k: int|
                    0 <= k < nc ==> out@[nr + k] == circle_stroke(
                        #[trigger] self.circles@[k],
                        max_vs,
                        width,
                        height,
                    )
                &&& forall|k: int|
                    0 <= k < nl ==> out@[nr + nc + k] == line_stroke(
                        #[trigger] self.lines@[k],
                        max_vs,
                        width,
                        height,
                    )
                &&& forall|k: int|
                    0 <= k < na ==> arrow_stroke_ok(
                        out@[nr + nc + nl + k],
                        #[trigger] self.arrows@[k],
                        max_vs,
                        width,
                        height,
                    )
                &&& forall|k: int|
                    0 <= k < nt ==> text_stroke_ok(
                        out@[nr + nc + nl + na + k],
                        #[trigger] self.texts@[k],
                        max_vs,
                        width,
                        height,
                    )
            },
    {
        let max_vs = if self.view_size.x >= self.view_size.y {
            self.view_size.x
        } else {
            self.view_size.y
        };
        if max_vs == 0 {
            return Vec::new();
        }
        let mut out = self.rect_strokes(max_vs, width, height);
        let mut c = self.circle_strokes(max_vs, width, height);
        let mut l = self.line_strokes(max_vs, width, height);
        let mut a = self.arrow_strokes(max_vs, width, height);
        let mut t = self.text_strokes(max_vs, width, height);
        let ghost (r0, c0, l0, a0, t0) = (out@, c@, l@, a@, t@);
        out.append(&mut c);
        out.append(&mut l);
        out.append(&mut a);
        out.append(&mut t);
        assert(out@ == r0 + c0 + l0 + a0 + t0);
        out
    }

    /// Records a line; lines do not grow the view.
    pub fn draw_line(&mut self, start: Point, stop: Point, look: &StyleAttr)
        ensures
            final(self).lines@ == old(self).lines@.push(DrawLineInfo { start, stop, look: *look }),
            final(self).view_size == old(self).view_size,
            final(self).rects == old(self).rects,
            final(self).circles == old(self).circles,
            final(self).arrows == old(self).arrows,
            final(self).texts == old(self).texts,
            final(self).clips == old(self).clips,
    {
        self.lines.push(DrawLineInfo { start, stop, look: *look });
    }

    /// Records a clip region and returns its handle, the number of clips
    /// recorded before it.
    pub fn create_clip(&mut self, xy: Point, size: Point, rounded_px: usize) -> (r: usize)
        ensures
            r == old(self).clips@.len(),
            final(self).clips@ == old(self).clips@.push(ClipInfo { xy, size, rounded_px }),
            final(self).view_size == old(self).view_size,
            final(self).rects == old(self).rects,
            final(self).circles == old(self).circles,
            final(self).arrows == old(self).arrows,
            final(self).lines == old(self).lines,
            final(self).texts == old(self).texts,
    {
        let handle = self.clips.len();
        self.clips.push(ClipInfo { xy, size, rounded_px });
        handle
    }
}

impl VisualGraph {
    /// Issues one rectangle for every node and one arrow, with its head at
    /// the destination, for every edge, in handle order, all in style `look`.
    pub fn render(&self, look: &StyleAttr, w: &mut DruidCtxWriter)
        ensures
            final(w).rects@.len() == old(w).rects@.len() + self@.nodes.len(),
            forall|k: int|
                0 <= k < self@.nodes.len() ==> final(w).rects@[old(w).rects@.len() + k] == (DrawRectInfo {
                    xy: (#[trigger] self@.nodes[k]).pos,
                    size: self@.nodes[k].size,
                    look: *look,
                    clip: None,
                }),
            final(w).arrows@.len() == old(w).arrows@.len() + self@.edges.len(),
            forall|e: int|
                0 <= e < self@.edges.len() ==> final(w).arrows@[old(w).arrows@.len() + e].dashed == (
                #[trigger] self@.edges[e]).dashed && final(w).arrows@[old(w).arrows@.len() + e].paths@
                    == self@.edges[e].path.map_values(|p: Point| (p, p)),
    {
        let n = self.nodes.len();
        let mut v: usize = 0;
        while v < n
            invariant
                n == self@.nodes.len(),
                v <= n,
                w.rects@.len() == old(w).rects@.len() + v,
                forall|k: int| 0 <= k < old(w).rects@.len() ==> w.rects@[k] == old(w).rects@[k],
                forall|k: int|
                    0 <= k < v ==> w.rects@[old(w).rects@.len() + k] == (DrawRectInfo {
                        xy: (#[trigger] self@.nodes[k]).pos,
                        size: self@.nodes[k].size,
                        look: *look,
                        clip: None,
                    }),
                w.arrows == old(w).arrows,
            decreases n - v,
        {
            let e = self.nodes[v];
            w.draw_rect(e.pos, e.size, look, None);
            v = v + 1;
        }
        let m = self.edges.len();
        let mut i: usize = 0;
        while i < m
            invariant
                m == self@.edges.len(),
                i <= m,
                w.rects@.len() == old(w).rects@.len() + n,
                n == self@.nodes.len(),
                forall|k: int|
                    0 <= k < n ==> w.rects@[old(w).rects@.len() + k] == (DrawRectInfo {
                        xy: (#[trigger] self@.nodes[k]).pos,
                        size: self@.nodes[k].size,
                        look: *look,
                        clip: None,
                    }),
                w.arrows@.len() == old(w).arrows@.len() + i,
                forall|e: int|
                    0 <= e < i ==> w.arrows@[old(w).arrows@.len() + e].dashed == (
                    #[trigger] self@.edges[e]).dashed && w.arrows@[old(w).arrows@.len() + e].paths@
                        == self@.edges[e].path.map_values(|p: Point| (p, p)),
            decreases m - i,
        {
            let path = &self.edges[i].path;
            let mut pairs: Vec<(Point, Point)> = Vec::new();
            let mut k: usize = 0;
            while k < path.len()
                invariant
                    k <= path@.len(),
                    pairs@ == path@.subrange(0, k as int).map_values(|p: Point| (p, p)),
                decreases path@.len() - k,
            {
                pairs.push((path[k], path[k]));
                assert(pairs@ =~= path@.subrange(0, k + 1).map_values(|p: Point| (p, p)));
                k = k + 1;
            }
            assert(pairs@ =~= self@.edges[i as int].path.map_values(|p: Point| (p, p)));
            let ghost before = w.arrows@;
            w.draw_arrow(pairs.as_slice(), self.edges[i].dashed, (false, true), look, "");
            proof {
                assert forall|e: int| 0 <= e < i + 1 implies w.arrows@[old(w).arrows@.len() + e].dashed == (
                    #[trigger] self@.edges[e]).dashed && w.arrows@[old(w).arrows@.len() + e].paths@
                        == self@.edges[e].path.map_values(|p: Point| (p, p)) by {
                    if e < i {
                        assert(w.arrows@[old(w).arrows@.len() + e] == before[old(w).arrows@.len() + e]);
                    }
                }
            }
            i = i + 1;
        }
    }
}

} // verus!
