//! The placer: runs the layout phases in order on one graph.

use vstd::prelude::*;
use crate::bk::{bal_at, bk, lemma_bal_same, min_bal_upto, same_skeleton};
use crate::edges::{edge_fixer, elbow};
use crate::graph::{
    lemma_rows_unique, Element, Point, ROW_SPAN, lemma_separated_no_overlap, lemma_transpose_involution, lemma_transposed_wf, GraphView, VisualGraph,
};
use crate::rows::{build_rows, move_between_rows};
use crate::rows::{lemma_settled_same, settled};
use crate::simple::{lemma_offsets_same, lemma_row_tops_same, offset, row_top, simple};

verus! {

/// Positions exactly as the first coordinate pass gives them.
pub open spec fn first_pass_positions(g: GraphView) -> bool {
    &&& forall|r: int, k: int|
        0 <= r < g.rows.len() && 0 <= k < g.rows[r].len() ==> g.nodes[#[trigger] g.rows[r][k] as int].pos.x
            == offset(g, r, k)
    &&& forall|v: int|
        0 <= v < g.nodes.len() ==> (#[trigger] g.nodes[v]).pos.y == row_top(g, g.nodes[v].rank as int)
}

/// The place of node `v` in its row.
pub open spec fn row_index(h: GraphView, v: int) -> int {
    choose|i: int|
        0 <= i < h.rows[h.nodes[v].rank as int].len() && h.rows[h.nodes[v].rank as int][i] == v
}

/// `h` with every node moved to where the first coordinate pass puts it.
pub open spec fn with_first_pass(h: GraphView) -> GraphView {
    GraphView {
        nodes: Seq::new(
            h.nodes.len(),
            |v: int|
                Element {
                    pos: Point {
                        x: offset(h, h.nodes[v].rank as int, row_index(h, v)) as u64,
                        y: row_top(h, h.nodes[v].rank as int) as u64,
                    },
                    ..h.nodes[v]
                },
        ),
        ..h
    }
}

/// `g` is a layout of `o`: the same nodes, sizes, edge ends and orientation;
/// ranks where no node can move, the given ranks kept where none could move
/// already, one row per rank up to the highest; paths kept when refinement
/// is skipped; and, in
/// top-to-bottom coordinates, rows kept apart and stacked, with every edge
/// routed and the balanced coordinates of the first pass's positions unless
/// refinement was skipped, and otherwise the positions of the first pass.
pub open spec fn laid_out(o: GraphView, g: GraphView, skip_refinement: bool) -> bool {
    &&& g.wf()
    &&& g.rows_ok()
    &&& g.rows_tight()
    &&& g.orientation == o.orientation
    &&& g.nodes.len() == o.nodes.len()
    &&& g.edges.len() == o.edges.len()
    &&& forall|v: int| 0 <= v < g.nodes.len() ==> (#[trigger] g.nodes[v]).size == o.nodes[v].size
    &&& forall|e: int|
        0 <= e < g.edges.len() ==> (#[trigger] g.edges[e]).src == o.edges[e].src && g.edges[e].dst
            == o.edges[e].dst
    &&& settled(g)
    &&& settled(o) ==> forall|v: int| 0 <= v < g.nodes.len() ==> (#[trigger] g.nodes[v]).rank == o.nodes[v].rank
    &&& skip_refinement ==> g.edges == o.edges
    &&& forall|e: int| 0 <= e < g.edges.len() ==> (#[trigger] g.edges[e]).dashed == o.edges[e].dashed
    &&& !skip_refinement ==> forall|e: int|
        0 <= e < g.edges.len() ==> (#[trigger] g.normal().edges[e]).path == elbow(
            g.normal().nodes[g.edges[e].src as int],
            g.normal().nodes[g.edges[e].dst as int],
        )
    &&& g.normal().separated()
    &&& g.normal().stacked()
    &&& !skip_refinement ==> g.normal().routed()
    &&& skip_refinement ==> first_pass_positions(g.normal())
    &&& forall|v: int|
        0 <= v < g.nodes.len() ==> (#[trigger] g.normal().nodes[v]).pos.y == row_top(
            g.normal(),
            g.normal().nodes[v].rank as int,
        )
    &&& !skip_refinement ==> forall|v: int|
        0 <= v < g.nodes.len() ==> (#[trigger] g.normal().nodes[v]).pos.x == bal_at(
            with_first_pass(g.normal()),
            v,
        ) - min_bal_upto(with_first_pass(g.normal()), g.nodes.len() as int)
}

/// Once a layout has run, in either orientation, no two nodes of one row
/// overlap.
pub proof fn lemma_laid_out_rows_do_not_overlap(g: GraphView, r: int, i: int, j: int)
    requires
        g.wf(),
        g.rows_ok(),
        g.normal().separated(),
        0 <= r < g.rows.len(),
        0 <= i < g.rows[r].len(),
        0 <= j < g.rows[r].len(),
        i != j,
    ensures
        !GraphView::overlap(g.nodes[g.rows[r][i] as int], g.nodes[g.rows[r][j] as int]),
{
    lemma_transposed_wf(g);
    lemma_separated_no_overlap(g.normal(), r, i, j);
}

/// Whether, within every row, each node ends `NODE_MARGIN` before every later
/// node of the row begins.
pub fn rows_in_order(g: &VisualGraph) -> (r: bool)
    requires
        g.wf(),
        g@.rows_ok(),
    ensures
        r == g@.separated(),
{
    let nrows = g.rows.len();
    let mut r: usize = 0;
    while r < nrows
        invariant
            g.wf(),
            g@.rows_ok(),
            nrows == g@.rows.len(),
            r <= nrows,
            forall|q: int, i: int, j: int|
                0 <= q < r && 0 <= i < j < g@.rows[q].len() ==> g@.nodes[#[trigger] g@.rows[
                    q][i] as int].pos.x + g@.nodes[g@.rows[q][i] as int].size.x + crate::graph::NODE_MARGIN
                    <= g@.nodes[#[trigger] g@.rows[q][j] as int].pos.x,
        decreases nrows - r,
    {
        let len = g.rows[r].len();
        let mut i: usize = 0;
        while i < len
            invariant
                g.wf(),
                g@.rows_ok(),
                nrows == g@.rows.len(),
                r < nrows,
                len == g@.rows[r as int].len(),
                i <= len,
                forall|q: int, i1: int, j1: int|
                    0 <= q < r && 0 <= i1 < j1 < g@.rows[q].len() ==> g@.nodes[#[trigger] g@.rows[
                        q][i1] as int].pos.x + g@.nodes[g@.rows[q][i1] as int].size.x
                        + crate::graph::NODE_MARGIN <= g@.nodes[#[trigger] g@.rows[q][j1] as int].pos.x,
                forall|i1: int, j1: int|
                    0 <= i1 < i && i1 < j1 < len ==> g@.nodes[#[trigger] g@.rows[r as int][
                        i1] as int].pos.x + g@.nodes[g@.rows[r as int][i1] as int].size.x
                        + crate::graph::NODE_MARGIN <= g@.nodes[#[trigger] g@.rows[r as int][
                        j1] as int].pos.x,
            decreases len - i,
        {
            let a = g.nodes[g.rows[r][i]];
            assert(a.valid());
            let mut j: usize = i + 1;
            while j < len
                invariant
                    g.wf(),
                    g@.rows_ok(),
                    nrows == g@.rows.len(),
                    r < nrows,
                    len == g@.rows[r as int].len(),
                    i < len,
                    i < j <= len,
                    a == g@.nodes[g@.rows[r as int][i as int] as int],
                    a.valid(),
                    forall|j1: int|
                        i < j1 < j ==> a.pos.x + a.size.x + crate::graph::NODE_MARGIN <= g@.nodes[
                            #[trigger] g@.rows[r as int][j1] as int].pos.x,
                decreases len - j,
            {
                let b = g.nodes[g.rows[r][j]];
                if a.pos.x + a.size.x + crate::graph::NODE_MARGIN > b.pos.x {
                    return false;
                }
                j = j + 1;
            }
            i = i + 1;
        }
        r = r + 1;
    }
    true
}

/// Lays out one graph that it borrows exclusively for its lifetime.
pub struct Placer<'a> {
    pub vg: &'a mut VisualGraph,
}

impl<'a> Placer<'a> {
    pub fn new(vg: &'a mut VisualGraph) -> (r: Self)
        ensures
            *r.vg == *old(vg),
            *final(vg) == *final(r.vg),
    {
        Placer { vg }
    }

    /// Runs every phase on the borrowed graph; with
    /// `no_druid_graphviz_layout` the balancing and the routing are left out.
    pub fn druid_graphviz_layout(&mut self, no_druid_graphviz_layout: bool)
        requires
            old(self).vg.wf(),
        ensures
            laid_out(old(self).vg@, final(self).vg@, no_druid_graphviz_layout),
    {
        self.vg.layout(no_druid_graphviz_layout);
    }
}

impl VisualGraph {
    /// Entry point of the layout: runs every phase, as a `Placer` does.
    /// `debug` asks for no other coordinates: the result is the same.
    pub fn prepare_render(&mut self, debug: bool, skip_refinement: bool)
        requires
            old(self).wf(),
        ensures
            laid_out(old(self)@, final(self)@, skip_refinement),
    {
        self.layout(skip_refinement);
    }

    /// Rows and first coordinates of a graph laid out top to bottom.
    #[verifier::rlimit(100)]
    fn arrange(&mut self)
        requires
            old(self).wf(),
            old(self)@.orientation.spec_is_top_to_bottom(),
        ensures
            laid_out(old(self)@, final(self)@, true),
            forall|v: int| 0 <= v < final(self)@.nodes.len() ==> (#[trigger] final(self)@.nodes[v]).pos.x <= ROW_SPAN,
    {
        move_between_rows(self);
        let ghost m1 = self@;
        build_rows(self);
        simple(self);
        let ok = rows_in_order(self);
        assert(ok);
        proof {
            let f = self@;
            assert(f.normal() == f);
            lemma_settled_same(m1, f);
            assert(f.edges == old(self)@.edges);
        }
    }

    /// Balanced coordinates and routed edges for a graph laid out top to bottom.
    fn refine(&mut self)
        requires
            old(self).wf(),
            old(self)@.rows_ok(),
            old(self)@.separated(),
            old(self)@.stacked(),
            forall|v: int| 0 <= v < old(self)@.nodes.len() ==> (#[trigger] old(self)@.nodes[v]).pos.x <= ROW_SPAN,
        ensures
            refined(old(self)@, final(self)@),
    {
        bk(self);
        let ok = rows_in_order(self);
        assert(ok);
        edge_fixer(self);
    }

    /// Runs every phase on a graph laid out top to bottom.
    fn layout_top_down(&mut self, skip_refinement: bool)
        requires
            old(self).wf(),
            old(self)@.orientation.spec_is_top_to_bottom(),
        ensures
            laid_out(old(self)@, final(self)@, skip_refinement),
    {
        self.arrange();
        if !skip_refinement {
            let ghost mid = self@;
            self.refine();
            proof {
                lemma_refined(old(self)@, mid, self@);
            }
        }
    }

    /// Runs the whole layout in top-to-bottom coordinates: the graph is
    /// transposed before and after when it is laid out left to right. With
    /// `skip_refinement` only the rows and the first coordinates are made.
    pub fn layout(&mut self, skip_refinement: bool)
        requires
            old(self).wf(),
        ensures
            laid_out(old(self)@, final(self)@, skip_refinement),
    {
        let need_transpose = !self.orientation().is_top_to_bottom();
        if need_transpose {
            proof {
                lemma_transposed_wf(self@);
            }
            self.transpose();
            self.layout_top_down(skip_refinement);
            let ghost inner = self@;
            proof {
                lemma_transposed_wf(self@);
            }
            self.transpose();
            proof {
                lemma_laid_out_transposed(old(self)@, inner, skip_refinement);
            }
        } else {
            self.layout_top_down(skip_refinement);
        }
    }
}

/// `f` is `m` with balanced coordinates and routed edges.
pub open spec fn refined(m: GraphView, f: GraphView) -> bool {
    &&& f.wf()
    &&& f.rows == m.rows
    &&& f.orientation == m.orientation
    &&& f.nodes.len() == m.nodes.len()
    &&& forall|v: int|
        0 <= v < f.nodes.len() ==> (#[trigger] f.nodes[v]).size == m.nodes[v].size && f.nodes[v].rank
            == m.nodes[v].rank && f.nodes[v].pos.y == m.nodes[v].pos.y
    &&& f.edges.len() == m.edges.len()
    &&& forall|e: int|
        0 <= e < f.edges.len() ==> (#[trigger] f.edges[e]).src == m.edges[e].src && f.edges[e].dst
            == m.edges[e].dst && f.edges[e].dashed == m.edges[e].dashed && f.edges[e].path == elbow(
            f.nodes[f.edges[e].src as int],
            f.nodes[f.edges[e].dst as int],
        )
    &&& f.separated()
    &&& f.stacked()
    &&& f.routed()
    &&& forall|v: int|
        0 <= v < f.nodes.len() ==> (#[trigger] f.nodes[v]).pos.x == bal_at(m, v) - min_bal_upto(
            m,
            m.nodes.len() as int,
        )
}

/// Refining the first pass of a layout gives a layout with refinement.
#[verifier::rlimit(60)]
proof fn lemma_refined(o: GraphView, mid: GraphView, f: GraphView)
    requires
        laid_out(o, mid, true),
        mid.orientation.spec_is_top_to_bottom(),
        refined(mid, f),
    ensures
        laid_out(o, f, false),
{
    assert(mid.normal() == mid);
    assert(f.normal() == f);
    lemma_settled_same(mid, f);
    let h = with_first_pass(f);
    assert forall|v: int| 0 <= v < f.nodes.len() implies h.nodes[v] == #[trigger] mid.nodes[v] by {
        let r = f.nodes[v].rank as int;
        assert(mid.nodes[v].rank == r);
        assert(exists|i: int| 0 <= i < mid.rows[r].len() && #[trigger] mid.rows[r][i] == v);
        let i = row_index(f, v);
        assert(mid.rows[r][i] == v);
        lemma_offsets_same(mid, f, r, i);
        lemma_row_tops_same(mid, f, r);
    }
    assert(h.nodes =~= mid.nodes);
    lemma_bal_same(h, mid);
    assert forall|v: int| 0 <= v < f.nodes.len() implies (#[trigger] f.nodes[v]).pos.y == row_top(
        f,
        f.nodes[v].rank as int,
    ) by {
        lemma_row_tops_same(mid, f, f.nodes[v].rank as int);
    }
    if f.nodes.len() > 0 {
        let w = choose|v: int| 0 <= v < mid.nodes.len() && #[trigger] mid.nodes[v].rank == mid.rows.len() - 1;
        assert(f.nodes[w].rank == f.rows.len() - 1);
    }
}

/// What a layout fixes of its result in top-to-bottom coordinates.
pub open spec fn fixed_normal(n: GraphView, skip_refinement: bool) -> bool {
    &&& n.rows_ok()
    &&& forall|v: int|
        0 <= v < n.nodes.len() ==> (#[trigger] n.nodes[v]).pos.y == row_top(n, n.nodes[v].rank as int)
    &&& skip_refinement ==> first_pass_positions(n)
    &&& !skip_refinement ==> forall|v: int|
        0 <= v < n.nodes.len() ==> (#[trigger] n.nodes[v]).pos.x == bal_at(with_first_pass(n), v)
            - min_bal_upto(with_first_pass(n), n.nodes.len() as int)
    &&& !skip_refinement ==> forall|e: int|
        0 <= e < n.edges.len() ==> (#[trigger] n.edges[e]).path == elbow(
            n.nodes[n.edges[e].src as int],
            n.nodes[n.edges[e].dst as int],
        )
}

#[verifier::rlimit(60)]
proof fn lemma_normals_equal(n1: GraphView, n2: GraphView, skip_refinement: bool)
    requires
        fixed_normal(n1, skip_refinement),
        fixed_normal(n2, skip_refinement),
        n1.rows == n2.rows,
        n1.orientation == n2.orientation,
        n1.nodes.len() == n2.nodes.len(),
        forall|v: int|
            0 <= v < n1.nodes.len() ==> (#[trigger] n1.nodes[v]).size == n2.nodes[v].size && n1.nodes[v].rank
                == n2.nodes[v].rank,
        n1.edges.len() == n2.edges.len(),
        forall|e: int|
            0 <= e < n1.edges.len() ==> (#[trigger] n1.edges[e]).src == n2.edges[e].src && n1.edges[e].dst
                == n2.edges[e].dst && n1.edges[e].dashed == n2.edges[e].dashed,
        skip_refinement ==> n1.edges == n2.edges,
    ensures
        n1 == n2,
{
    assert forall|v: int| 0 <= v < n1.nodes.len() implies (#[trigger] n1.nodes[v]).pos.y == n2.nodes[v].pos.y by {
        lemma_row_tops_same(n1, n2, n1.nodes[v].rank as int);
    }
    if skip_refinement {
        assert forall|v: int| 0 <= v < n1.nodes.len() implies (#[trigger] n1.nodes[v]).pos.x == n2.nodes[v].pos.x by {
            let r = n1.nodes[v].rank as int;
            let i = choose|i: int| 0 <= i < n1.rows[r].len() && #[trigger] n1.rows[r][i] == v;
            assert(n1.rows[r][i] == v);
            lemma_offsets_same(n1, n2, r, i);
        }
    } else {
        let h1 = with_first_pass(n1);
        let h2 = with_first_pass(n2);
        assert forall|v: int| 0 <= v < n1.nodes.len() implies #[trigger] h1.nodes[v] == h2.nodes[v] by {
            let r = n1.nodes[v].rank as int;
            let i = row_index(n1, v);
            lemma_offsets_same(n1, n2, r, i);
            lemma_row_tops_same(n1, n2, r);
        }
        assert(h1.nodes =~= h2.nodes);
        lemma_bal_same(h1, h2);
    }
    assert(n1.nodes =~= n2.nodes);
    assert(n1.edges =~= n2.edges);
}

/// A layout is decided by its input: where no node of `o` can move (its
/// ranks are final), any two layouts of `o` with the same flag are equal.
#[verifier::rlimit(100)]
pub proof fn lemma_layout_deterministic(o: GraphView, g1: GraphView, g2: GraphView, skip_refinement: bool)
    requires
        settled(o),
        laid_out(o, g1, skip_refinement),
        laid_out(o, g2, skip_refinement),
    ensures
        g1 == g2,
{
    lemma_rows_unique(g1, g2);
    lemma_transposed_wf(g1);
    lemma_transposed_wf(g2);
    let n1 = g1.normal();
    let n2 = g2.normal();
    assert(fixed_normal(n1, skip_refinement));
    assert(fixed_normal(n2, skip_refinement));
    assert(n1.rows == n2.rows);
    assert(n1.orientation == n2.orientation);
    assert forall|v: int| 0 <= v < n1.nodes.len() implies (#[trigger] n1.nodes[v]).size == n2.nodes[v].size
        && n1.nodes[v].rank == n2.nodes[v].rank by {
        assert(g1.nodes[v].size == g2.nodes[v].size);
        assert(g1.nodes[v].rank == o.nodes[v].rank);
        assert(g2.nodes[v].rank == o.nodes[v].rank);
    }
    assert forall|e: int| 0 <= e < n1.edges.len() implies (#[trigger] n1.edges[e]).src == n2.edges[e].src
        && n1.edges[e].dst == n2.edges[e].dst && n1.edges[e].dashed == n2.edges[e].dashed by {
        assert(g1.edges[e].src == o.edges[e].src && g2.edges[e].src == o.edges[e].src);
        assert(g1.edges[e].dashed == o.edges[e].dashed && g2.edges[e].dashed == o.edges[e].dashed);
    }
    if skip_refinement {
        assert(n1.edges == n2.edges);
    }
    lemma_normals_equal(n1, n2, skip_refinement);
    if !g1.orientation.spec_is_top_to_bottom() {
        lemma_transpose_involution(g1);
        lemma_transpose_involution(g2);
    }
}

/// A left-to-right layout is the transpose of the top-to-bottom layout of
/// the transposed graph, where no node can move.
pub proof fn lemma_layout_through_transpose(o: GraphView, g: GraphView, h: GraphView, skip_refinement: bool)
    requires
        o.wf(),
        settled(o),
        !o.orientation.spec_is_top_to_bottom(),
        laid_out(o, g, skip_refinement),
        laid_out(o.transposed(), h, skip_refinement),
    ensures
        g == h.transposed(),
{
    lemma_laid_out_transposed(o, h, skip_refinement);
    lemma_layout_deterministic(o, g, h.transposed(), skip_refinement);
}

/// Laying out the transposed graph top to bottom and transposing the result
/// back lays out the graph itself.
proof fn lemma_laid_out_transposed(o: GraphView, g: GraphView, skip_refinement: bool)
    requires
        o.wf(),
        laid_out(o.transposed(), g, skip_refinement),
        g.orientation.spec_is_top_to_bottom(),
    ensures
        laid_out(o, g.transposed(), skip_refinement),
{
    let f = g.transposed();
    lemma_transposed_wf(g);
    lemma_transpose_involution(g);
    lemma_transpose_involution(o);
    assert(f.normal() == g);
    assert forall|v: int| 0 <= v < f.nodes.len() implies (#[trigger] f.nodes[v]).size == o.nodes[v].size by {
        assert(g.nodes[v].size == o.transposed().nodes[v].size);
    }
    assert forall|v: int| 0 <= v < f.nodes.len() implies (#[trigger] g.nodes[v]).rank == f.nodes[v].rank by {}
    assert forall|e: int| 0 <= e < f.edges.len() implies (#[trigger] g.edges[e]).src == f.edges[e].src
        && g.edges[e].dst == f.edges[e].dst by {}
    assert forall|e: int| 0 <= e < f.edges.len() implies (#[trigger] f.edges[e]).src == o.edges[e].src
        && f.edges[e].dst == o.edges[e].dst by {
        assert(g.edges[e].src == o.transposed().edges[e].src);
    }
    lemma_settled_same(g, f);
    if skip_refinement {
        assert(f.edges == o.transposed().transposed().edges);
    }
    assert forall|v: int| 0 <= v < o.nodes.len() implies (#[trigger] o.nodes[v]).rank
        == o.transposed().nodes[v].rank by {}
    assert forall|e: int| 0 <= e < o.edges.len() implies (#[trigger] o.edges[e]).src == o.transposed().edges[
        e].src && o.edges[e].dst == o.transposed().edges[e].dst by {}
    if settled(o) {
        lemma_settled_same(o, o.transposed());
    }
    if f.nodes.len() > 0 {
        let w = choose|v: int| 0 <= v < g.nodes.len() && #[trigger] g.nodes[v].rank == g.rows.len() - 1;
        assert(f.nodes[w].rank == f.rows.len() - 1);
    }
}

} // verus!
