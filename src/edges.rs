//! The edge router: gives every edge a path that fits the final coordinates.

use vstd::prelude::*;
use crate::graph::{Arrow, Element, Point, VisualGraph};

verus! {

/// The route from `s` down to `t`: out of the middle of the lower side of
/// `s`, straight down to halfway, across, and down into the middle of the
/// upper side of `t`.
pub open spec fn elbow(s: Element, t: Element) -> Seq<Point> {
    let b = s.bottom_center();
    let e = t.top_center();
    let ym = (b.y + (e.y - b.y) / 2) as u64;
    seq![b, Point { x: b.x, y: ym }, Point { x: e.x, y: ym }, e]
}

/// Routes every edge from the middle of its source's lower side down to the
/// middle of its destination's upper side, bending twice halfway between.
#[verifier::rlimit(30)]
pub fn edge_fixer(g: &mut VisualGraph)
    requires
        old(g).wf(),
        old(g)@.stacked(),
    ensures
        final(g).wf(),
        final(g)@.orientation == old(g)@.orientation,
        final(g)@.nodes == old(g)@.nodes,
        final(g)@.rows == old(g)@.rows,
        final(g)@.edges.len() == old(g)@.edges.len(),
        forall|e: int|
            0 <= e < final(g)@.edges.len() ==> (#[trigger] final(g)@.edges[e]).src == old(g)@.edges[e].src
                && final(g)@.edges[e].dst == old(g)@.edges[e].dst && final(g)@.edges[e].dashed == old(
                g,
            )@.edges[e].dashed,
        final(g)@.routed(),
        forall|e: int|
            0 <= e < final(g)@.edges.len() ==> (#[trigger] final(g)@.edges[e]).path == elbow(
                final(g)@.nodes[final(g)@.edges[e].src as int],
                final(g)@.nodes[final(g)@.edges[e].dst as int],
            ),
{
    let m = g.edges.len();
    let mut e: usize = 0;
    while e < m
        invariant
            m == g@.edges.len(),
            m == old(g)@.edges.len(),
            e <= m,
            g@.nodes == old(g)@.nodes,
            g@.rows == old(g)@.rows,
            g@.orientation == old(g)@.orientation,
            old(g).wf(),
            old(g)@.stacked(),
            forall|k: int|
                0 <= k < m ==> (#[trigger] g@.edges[k]).src == old(g)@.edges[k].src && g@.edges[k].dst
                    == old(g)@.edges[k].dst && g@.edges[k].dashed == old(g)@.edges[k].dashed,
            forall|k: int|
                0 <= k < e ==> {
                    let a = #[trigger] g@.edges[k];
                    &&& a.path == elbow(g@.nodes[a.src as int], g@.nodes[a.dst as int])
                    &&& a.path.len() >= 2
                    &&& a.path[0] == g@.nodes[a.src as int].bottom_center()
                    &&& a.path[a.path.len() - 1] == g@.nodes[a.dst as int].top_center()
                    &&& forall|q: int| 0 <= q < a.path.len() - 1 ==> (#[trigger] a.path[q]).y <= a.path[q + 1].y
                },
        decreases m - e,
    {
        let src = g.edges[e].src;
        let dst = g.edges[e].dst;
        proof {
            assert(g@.edges[e as int].src == src && g@.edges[e as int].dst == dst);
            assert(old(g)@.edges[e as int].src == src && old(g)@.edges[e as int].dst == dst);
            assert(old(g)@.edge_ok(old(g)@.edges[e as int]));
            assert(g@.nodes[src as int].valid());
            assert(g@.nodes[dst as int].valid());
        }
        let s = g.nodes[src];
        let t = g.nodes[dst];
        let x0 = s.pos.x + s.size.x / 2;
        let y0 = s.pos.y + s.size.y;
        let x1 = t.pos.x + t.size.x / 2;
        let y1 = t.pos.y;
        assert(y0 <= y1);
        let ym = y0 + (y1 - y0) / 2;
        let mut path: Vec<Point> = Vec::new();
        path.push(Point { x: x0, y: y0 });
        path.push(Point { x: x0, y: ym });
        path.push(Point { x: x1, y: ym });
        path.push(Point { x: x1, y: y1 });
        let ghost path_view = path@;
        assert(path_view =~= elbow(g@.nodes[src as int], g@.nodes[dst as int]));
        assert(path_view[0] == g@.nodes[src as int].bottom_center());
        assert(path_view[3] == g@.nodes[dst as int].top_center());
        assert(forall|q: int| 0 <= q < path_view.len() - 1 ==> (#[trigger] path_view[q]).y <= path_view[q + 1].y);
        let a = Arrow { src, dst, dashed: g.edges[e].dashed, path };
        assert(a.dashed == old(g)@.edges[e as int].dashed);
        assert(a@.path == path_view);
        let ghost before = g.edges@;
        let ghost bv = g@.edges;
        let ghost av = a@;
        g.edges.set(e, a);
        proof {
            assert(g.edges@ == before.update(e as int, a));
            assert forall|k: int| 0 <= k < m && k != e implies g@.edges[k] == bv[k] by {
                assert(g@.edges[k] == before[k]@);
            }
            assert(g@.edges[e as int] == av);
            assert forall|k: int| 0 <= k < m implies (#[trigger] g@.edges[k]).src == old(g)@.edges[k].src
                && g@.edges[k].dst == old(g)@.edges[k].dst && g@.edges[k].dashed == old(
                g,
            )@.edges[k].dashed by {
                if k != e {
                    assert(g@.edges[k] == bv[k]);
                } else {
                    assert(g@.edges[k] == av);
                }
            }
            assert forall|k: int| 0 <= k < e + 1 implies {
                let a = #[trigger] g@.edges[k];
                &&& a.path == elbow(g@.nodes[a.src as int], g@.nodes[a.dst as int])
                &&& a.path.len() >= 2
                &&& a.path[0] == g@.nodes[a.src as int].bottom_center()
                &&& a.path[a.path.len() - 1] == g@.nodes[a.dst as int].top_center()
                &&& forall|q: int| 0 <= q < a.path.len() - 1 ==> (#[trigger] a.path[q]).y <= a.path[q + 1].y
            } by {
                if k != e {
                    assert(g@.edges[k] == bv[k]);
                } else {
                    assert(g@.edges[k] == av);
                }
            }
        }
        e = e + 1;
    }
    proof {
        assert forall|k: int| 0 <= k < g@.edges.len() implies g@.edge_ok(#[trigger] g@.edges[k]) by {
            assert(old(g)@.edge_ok(old(g)@.edges[k]));
        }
    }
}

} // verus!
