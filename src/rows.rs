//! The row reconciler: moves nodes between rows to shorten edges, then
//! rebuilds the rows from the ranks.

use vstd::prelude::*;
use crate::graph::{Element, GraphView, VisualGraph, MAX_RANK};

verus! {

/// Same orientation and edges, and each node keeps its size and position.
pub open spec fn same_but_ranks(a: GraphView, b: GraphView) -> bool {
    &&& a.orientation == b.orientation
    &&& a.edges == b.edges
    &&& a.nodes.len() == b.nodes.len()
    &&& forall|v: int|
        0 <= v < a.nodes.len() ==> (#[trigger] a.nodes[v]).size == b.nodes[v].size && a.nodes[v].pos
            == b.nodes[v].pos
}

/// The total number of ranks crossed by the first `k` edges.
pub open spec fn span_upto(g: GraphView, k: int) -> int
    decreases k,
{
    if k <= 0 {
        0
    } else {
        span_upto(g, k - 1) + g.nodes[g.edges[k - 1].dst as int].rank - g.nodes[g.edges[k - 1].src as int].rank
    }
}

/// The total number of ranks crossed by all edges.
pub open spec fn span(g: GraphView) -> int {
    span_upto(g, g.edges.len() as int)
}

/// How many of the first `k` edges enter `v`.
pub open spec fn indeg_upto(g: GraphView, v: int, k: int) -> int
    decreases k,
{
    if k <= 0 {
        0
    } else {
        indeg_upto(g, v, k - 1) + if g.edges[k - 1].dst == v { 1int } else { 0int }
    }
}

/// How many of the first `k` edges leave `v`.
pub open spec fn outdeg_upto(g: GraphView, v: int, k: int) -> int
    decreases k,
{
    if k <= 0 {
        0
    } else {
        outdeg_upto(g, v, k - 1) + if g.edges[k - 1].src == v { 1int } else { 0int }
    }
}

/// Moving `v` one rank down lengthens each edge into it by one and shortens
/// each edge out of it by one; moving it up does the reverse.
proof fn lemma_span_moved(g: GraphView, h: GraphView, v: int, k: int, down: bool)
    requires
        g.edges == h.edges,
        g.nodes.len() == h.nodes.len(),
        0 <= v < g.nodes.len(),
        forall|e: int| 0 <= e < g.edges.len() ==> g.edges[e].src != g.edges[e].dst,
        forall|e: int|
            0 <= e < g.edges.len() ==> g.edges[e].src < g.nodes.len() && g.edges[e].dst < g.nodes.len(),
        forall|u: int| 0 <= u < g.nodes.len() && u != v ==> h.nodes[u].rank == g.nodes[u].rank,
        down ==> h.nodes[v].rank == g.nodes[v].rank + 1,
        !down ==> h.nodes[v].rank + 1 == g.nodes[v].rank,
        0 <= k <= g.edges.len(),
    ensures
        down ==> span_upto(h, k) == span_upto(g, k) + indeg_upto(g, v, k) - outdeg_upto(g, v, k),
        !down ==> span_upto(h, k) == span_upto(g, k) - indeg_upto(g, v, k) + outdeg_upto(g, v, k),
    decreases k,
{
    if k > 0 {
        lemma_span_moved(g, h, v, k - 1, down);
    }
}

/// Whether the reconciler would move `v`: down, where more edges leave it
/// than enter it and every successor lies more than one rank below; or up,
/// where more edges enter it than leave it and every predecessor lies more
/// than one rank above.
pub open spec fn can_move(g: GraphView, v: int) -> bool {
    let m = g.edges.len() as int;
    let rk = g.nodes[v].rank;
    let n_in = indeg_upto(g, v, m);
    let n_out = outdeg_upto(g, v, m);
    ||| n_out > n_in && forall|e: int|
        0 <= e < m && (#[trigger] g.edges[e]).src == v ==> rk + 1 < g.nodes[g.edges[e].dst as int].rank
    ||| n_in > n_out && rk >= 1 && forall|e: int|
        0 <= e < m && (#[trigger] g.edges[e]).dst == v ==> g.nodes[g.edges[e].src as int].rank + 1 < rk
}

/// No node can move.
pub open spec fn settled(g: GraphView) -> bool {
    forall|v: int| 0 <= v < g.nodes.len() ==> !#[trigger] can_move(g, v)
}

proof fn lemma_degrees_same(g1: GraphView, g2: GraphView, v: int, k: int)
    requires
        g1.edges.len() == g2.edges.len(),
        forall|e: int|
            0 <= e < g1.edges.len() ==> (#[trigger] g1.edges[e]).src == g2.edges[e].src && g1.edges[e].dst
                == g2.edges[e].dst,
        0 <= k <= g1.edges.len(),
    ensures
        indeg_upto(g1, v, k) == indeg_upto(g2, v, k),
        outdeg_upto(g1, v, k) == outdeg_upto(g2, v, k),
    decreases k,
{
    if k > 0 {
        lemma_degrees_same(g1, g2, v, k - 1);
        assert(g1.edges[k - 1].src == g2.edges[k - 1].src);
    }
}

/// Whether a node can move depends only on the ranks and the edges' ends.
pub proof fn lemma_settled_same(g1: GraphView, g2: GraphView)
    requires
        g1.wf(),
        settled(g1),
        g1.nodes.len() == g2.nodes.len(),
        forall|v: int| 0 <= v < g1.nodes.len() ==> (#[trigger] g1.nodes[v]).rank == g2.nodes[v].rank,
        g1.edges.len() == g2.edges.len(),
        forall|e: int|
            0 <= e < g1.edges.len() ==> (#[trigger] g1.edges[e]).src == g2.edges[e].src && g1.edges[e].dst
                == g2.edges[e].dst,
    ensures
        settled(g2),
{
    assert forall|v: int| 0 <= v < g2.nodes.len() implies !#[trigger] can_move(g2, v) by {
        lemma_degrees_same(g1, g2, v, g1.edges.len() as int);
        assert(!can_move(g1, v));
        assert forall|e: int| 0 <= e < g1.edges.len() implies g1.nodes[(#[trigger] g1.edges[e]).dst as int].rank
            == g2.nodes[g2.edges[e].dst as int].rank && g1.nodes[g1.edges[e].src as int].rank == g2.nodes[
            g2.edges[e].src as int].rank by {
            assert(g1.edge_ok(g1.edges[e]));
        }
    }
}

/// Where every edge runs forward, each crosses at least one rank.
proof fn lemma_span_nonneg(g: GraphView, k: int)
    requires
        g.wf(),
        0 <= k <= g.edges.len(),
    ensures
        span_upto(g, k) >= 0,
    decreases k,
{
    if k > 0 {
        lemma_span_nonneg(g, k - 1);
        assert(g.edge_ok(g.edges[k - 1]));
    }
}

/// In- and out-degree of `v`, the lowest rank among its successors, and one
/// more than the highest rank among its predecessors (0 without any).
fn neighbor_info(g: &VisualGraph, v: usize) -> (r: (usize, usize, u64, u64))
    requires
        g.wf(),
        v < g@.nodes.len(),
    ensures
        forall|e: int|
            0 <= e < g@.edges.len() && (#[trigger] g@.edges[e]).src == v ==> r.2 <= g@.nodes[g@.edges[
                e].dst as int].rank,
        forall|e: int|
            0 <= e < g@.edges.len() && (#[trigger] g@.edges[e]).dst == v ==> g@.nodes[g@.edges[
                e].src as int].rank + 1 <= r.3,
        r.2 <= MAX_RANK + 1,
        r.0 == indeg_upto(g@, v as int, g@.edges.len() as int),
        r.1 == outdeg_upto(g@, v as int, g@.edges.len() as int),
        r.1 > 0 ==> exists|e: int|
            0 <= e < g@.edges.len() && (#[trigger] g@.edges[e]).src == v && g@.nodes[g@.edges[
                e].dst as int].rank == r.2,
        r.0 > 0 ==> exists|e: int|
            0 <= e < g@.edges.len() && (#[trigger] g@.edges[e]).dst == v && g@.nodes[g@.edges[
                e].src as int].rank + 1 == r.3,
{
    let mut indeg: usize = 0;
    let mut outdeg: usize = 0;
    let mut min_succ: u64 = MAX_RANK + 1;
    let mut max_pred: u64 = 0;
    let m = g.edges.len();
    let mut e: usize = 0;
    let ghost mut wo: int = 0;
    let ghost mut wi: int = 0;
    while e < m
        invariant
            g.wf(),
            v < g@.nodes.len(),
            m == g@.edges.len(),
            0 <= e <= m,
            outdeg == 0 ==> min_succ == MAX_RANK + 1,
            indeg == 0 ==> max_pred == 0,
            outdeg > 0 ==> 0 <= wo < e && g@.edges[wo].src == v && g@.nodes[g@.edges[wo].dst as int].rank
                == min_succ,
            indeg > 0 ==> 0 <= wi < e && g@.edges[wi].dst == v && g@.nodes[g@.edges[wi].src as int].rank
                + 1 == max_pred,
            indeg <= e,
            outdeg <= e,
            indeg == indeg_upto(g@, v as int, e as int),
            outdeg == outdeg_upto(g@, v as int, e as int),
            min_succ <= MAX_RANK + 1,
            forall|k: int|
                0 <= k < e && (#[trigger] g@.edges[k]).src == v ==> min_succ <= g@.nodes[g@.edges[
                    k].dst as int].rank,
            forall|k: int|
                0 <= k < e && (#[trigger] g@.edges[k]).dst == v ==> g@.nodes[g@.edges[
                    k].src as int].rank + 1 <= max_pred,
        decreases m - e,
    {
        let src = g.edges[e].src;
        let dst = g.edges[e].dst;
        assert(g@.edges[e as int].src == src && g@.edges[e as int].dst == dst);
        assert(g@.edge_ok(g@.edges[e as int]));
        assert(g@.nodes[dst as int].valid() && g@.nodes[src as int].valid());
        if src == v {
            outdeg = outdeg + 1;
            let rk = g.nodes[dst].rank;
            if rk < min_succ {
                min_succ = rk;
                proof {
                    wo = e as int;
                }
            }
        }
        if dst == v {
            indeg = indeg + 1;
            let rk = g.nodes[src].rank + 1;
            if rk > max_pred {
                max_pred = rk;
                proof {
                    wi = e as int;
                }
            }
        }
        e = e + 1;
    }
    (indeg, outdeg, min_succ, max_pred)
}

/// Gives node `v` the rank `rank`, where every edge stays forward.
fn set_rank(g: &mut VisualGraph, v: usize, rank: u64)
    requires
        old(g).wf(),
        v < old(g)@.nodes.len(),
        rank <= MAX_RANK,
        forall|e: int|
            0 <= e < old(g)@.edges.len() && (#[trigger] old(g)@.edges[e]).src == v ==> rank < old(
                g,
            )@.nodes[old(g)@.edges[e].dst as int].rank,
        forall|e: int|
            0 <= e < old(g)@.edges.len() && (#[trigger] old(g)@.edges[e]).dst == v ==> old(
                g,
            )@.nodes[old(g)@.edges[e].src as int].rank < rank,
    ensures
        final(g).wf(),
        same_but_ranks(final(g)@, old(g)@),
        final(g)@.rows == old(g)@.rows,
        final(g)@.nodes == old(g)@.nodes.update(v as int, Element { rank, ..old(g)@.nodes[v as int] }),
{
    let old_e = g.nodes[v];
    let e = Element { size: old_e.size, pos: old_e.pos, rank };
    g.nodes.set(v, e);
    proof {
        assert forall|k: int| 0 <= k < g@.edges.len() implies g@.edge_ok(#[trigger] g@.edges[k]) by {
            assert(old(g)@.edge_ok(old(g)@.edges[k]));
        }
        assert forall|k: int| 0 <= k < g@.nodes.len() implies #[trigger] g@.nodes[k].valid() by {
            assert(old(g)@.nodes[k].valid());
        }
    }
}

/// One pass over all nodes; returns whether any node moved.
fn reconcile_round(g: &mut VisualGraph) -> (moved: bool)
    requires
        old(g).wf(),
    ensures
        final(g).wf(),
        same_but_ranks(final(g)@, old(g)@),
        final(g)@.rows == old(g)@.rows,
        span(final(g)@) <= span(old(g)@),
        moved ==> span(final(g)@) < span(old(g)@),
        !moved ==> final(g)@ == old(g)@ && settled(final(g)@),
        settled(old(g)@) ==> !moved,
{
    let n = g.nodes.len();
    let mut moved = false;
    let mut v: usize = 0;
    while v < n
        invariant
            g.wf(),
            n == g@.nodes.len(),
            same_but_ranks(g@, old(g)@),
            g@.rows == old(g)@.rows,
            0 <= v <= n,
            span(g@) <= span(old(g)@),
            moved ==> span(g@) < span(old(g)@),
            !moved ==> g@ == old(g)@,
            !moved ==> forall|u: int| 0 <= u < v ==> !#[trigger] can_move(g@, u),
            settled(old(g)@) ==> !moved,
        decreases n - v,
    {
        let (indeg, outdeg, min_succ, max_pred) = neighbor_info(g, v);
        let rank = g.nodes[v].rank;
        assert(g@.nodes[v as int].valid());
        let ghost before = g@;
        proof {
            assert forall|e: int| 0 <= e < before.edges.len() implies before.edges[e].src != before.edges[e].dst
                && before.edges[e].src < before.nodes.len() && before.edges[e].dst < before.nodes.len() by {
                assert(before.edge_ok(before.edges[e]));
            }
        }
        if outdeg > indeg && rank + 1 < min_succ {
            assert(can_move(before, v as int));
            set_rank(g, v, rank + 1);
            proof {
                lemma_span_moved(before, g@, v as int, before.edges.len() as int, true);
            }
            moved = true;
        } else if indeg > outdeg && rank >= 1 && max_pred < rank {
            assert(can_move(before, v as int));
            proof {
                assert forall|e: int|
                    0 <= e < g@.edges.len() && (#[trigger] g@.edges[e]).src == v implies rank - 1 < g@.nodes[
                    g@.edges[e].dst as int].rank by {
                    assert(g@.edge_ok(g@.edges[e]));
                }
            }
            set_rank(g, v, rank - 1);
            proof {
                lemma_span_moved(before, g@, v as int, before.edges.len() as int, false);
            }
            moved = true;
        } else {
            proof {
                if outdeg > indeg {
                    let e = choose|e: int|
                        0 <= e < g@.edges.len() && (#[trigger] g@.edges[e]).src == v && g@.nodes[
                            g@.edges[e].dst as int].rank == min_succ;
                    assert(g@.edges[e].src == v);
                }
                if indeg > outdeg && rank >= 1 {
                    let e = choose|e: int|
                        0 <= e < g@.edges.len() && (#[trigger] g@.edges[e]).dst == v && g@.nodes[
                            g@.edges[e].src as int].rank + 1 == max_pred;
                    assert(g@.edges[e].dst == v);
                }
                assert(!can_move(g@, v as int));
            }
        }
        v = v + 1;
    }
    moved
}

/// Moves nodes toward the side with more neighbours, round after round,
/// while every edge keeps running to a later rank. A node moves only where
/// that shortens the edges in all, so the total span falls with every round
/// that moves a node; the rounds stop when no node can move.
pub fn move_between_rows(g: &mut VisualGraph)
    requires
        old(g).wf(),
    ensures
        final(g).wf(),
        same_but_ranks(final(g)@, old(g)@),
        final(g)@.rows == old(g)@.rows,
        span(final(g)@) <= span(old(g)@),
        settled(final(g)@),
        settled(old(g)@) ==> final(g)@ == old(g)@,
{
    loop
        invariant
            g.wf(),
            same_but_ranks(g@, old(g)@),
            g@.rows == old(g)@.rows,
            span(g@) <= span(old(g)@),
            settled(old(g)@) ==> g@ == old(g)@,
        ensures
            g.wf(),
            same_but_ranks(g@, old(g)@),
            g@.rows == old(g)@.rows,
            span(g@) <= span(old(g)@),
            settled(g@),
            settled(old(g)@) ==> g@ == old(g)@,
        decreases span(g@),
    {
        proof {
            lemma_span_nonneg(g@, g@.edges.len() as int);
        }
        let moved = reconcile_round(g);
        proof {
            lemma_span_nonneg(g@, g@.edges.len() as int);
        }
        if !moved {
            break;
        }
    }
}

/// Highest rank of any node, and 0 for a graph without nodes.
fn max_rank(g: &VisualGraph) -> (r: u64)
    requires
        g.wf(),
    ensures
        r <= MAX_RANK,
        forall|v: int| 0 <= v < g@.nodes.len() ==> (#[trigger] g@.nodes[v]).rank <= r,
        g@.nodes.len() > 0 ==> exists|v: int| 0 <= v < g@.nodes.len() && (#[trigger] g@.nodes[v]).rank == r,
{
    let mut best: u64 = 0;
    let mut v: usize = 0;
    let ghost mut w: int = 0;
    while v < g.nodes.len()
        invariant
            g.wf(),
            0 <= v <= g@.nodes.len(),
            best <= MAX_RANK,
            v > 0 ==> 0 <= w < v && g@.nodes[w].rank == best,
            forall|u: int| 0 <= u < v ==> (#[trigger] g@.nodes[u]).rank <= best,
        decreases g@.nodes.len() - v,
    {
        assert(g@.nodes[v as int].valid());
        if g.nodes[v].rank > best || v == 0 {
            best = g.nodes[v].rank;
            proof {
                w = v as int;
            }
        }
        v = v + 1;
    }
    proof {
        if g@.nodes.len() > 0 {
            assert(g@.nodes[w].rank == best);
        }
    }
    best
}

/// Rebuilds the rows from the ranks: row `r` lists the nodes of rank `r` in
/// increasing handle order.
pub fn build_rows(g: &mut VisualGraph)
    requires
        old(g).wf(),
    ensures
        final(g).wf(),
        final(g)@.rows_ok(),
        final(g)@.rows_tight(),
        final(g)@.orientation == old(g)@.orientation,
        final(g)@.nodes == old(g)@.nodes,
        final(g)@.edges == old(g)@.edges,
{
    let n = g.nodes.len();
    let mut rows: Vec<Vec<usize>> = Vec::new();
    let ghost mut wit: int = 0;
    if n > 0 {
        let top = max_rank(g);
        proof {
            wit = choose|v: int| 0 <= v < g@.nodes.len() && (#[trigger] g@.nodes[v]).rank == top;
        }
        let mut r: u64 = 0;
        while r <= top
            invariant
                top <= MAX_RANK,
                r <= top + 1,
                rows@.len() == r,
                forall|k: int| 0 <= k < rows@.len() ==> (#[trigger] rows@[k])@.len() == 0,
            decreases top + 1 - r,
        {
            rows.push(Vec::new());
            r = r + 1;
        }
    }
    let nrows = rows.len();
    let ghost mut slot: Seq<int> = Seq::empty();
    let mut v: usize = 0;
    while v < n
        invariant
            g.wf(),
            n == g@.nodes.len(),
            0 <= v <= n,
            rows@.len() == nrows,
            n > 0 ==> forall|u: int| 0 <= u < n ==> (#[trigger] g@.nodes[u]).rank < nrows,
            n > 0 ==> 0 <= wit < n && g@.nodes[wit].rank == nrows - 1,
            n == 0 ==> nrows == 0,
            forall|r: int, i: int|
                0 <= r < nrows && 0 <= i < rows@[r]@.len() ==> {
                    &&& #[trigger] rows@[r]@[i] < v
                    &&& g@.nodes[rows@[r]@[i] as int].rank == r
                },
            forall|r: int, i: int, j: int|
                0 <= r < nrows && 0 <= i < j < rows@[r]@.len() ==> #[trigger] rows@[r]@[i]
                    < #[trigger] rows@[r]@[j],
            slot.len() == v,
            forall|u: int|
                0 <= u < v ==> 0 <= #[trigger] slot[u] < rows@[g@.nodes[u].rank as int]@.len()
                    && rows@[g@.nodes[u].rank as int]@[slot[u]] == u,
        decreases n - v,
    {
        let rk = g.nodes[v].rank as usize;
        let ghost before = rows@;
        assert(rk as int == g@.nodes[v as int].rank);
        rows[rk].push(v);
        proof {
            assert(rows@[rk as int]@ == before[rk as int]@.push(v));
            assert forall|r: int| 0 <= r < nrows && r != rk implies rows@[r]@ == before[r]@ by {}
            assert forall|r: int, i: int, j: int|
                0 <= r < nrows && 0 <= i < j < rows@[r]@.len() implies #[trigger] rows@[r]@[i]
                    < #[trigger] rows@[r]@[j] by {
                if r == rk as int && j == before[r]@.len() {
                    assert(before[r]@[i] < v);
                }
            }
            slot = slot.push(before[rk as int]@.len() as int);
            assert forall|u: int| 0 <= u < v + 1 implies 0 <= #[trigger] slot[u] < rows@[
                g@.nodes[u].rank as int]@.len() && rows@[g@.nodes[u].rank as int]@[slot[u]] == u by {
            }
        }
        v = v + 1;
    }
    g.rows = rows;
    proof {
        assert forall|k: int| 0 <= k < g@.edges.len() implies g@.edge_ok(#[trigger] g@.edges[k]) by {
            assert(old(g)@.edge_ok(old(g)@.edges[k]));
        }
        assert forall|u: int| 0 <= u < n implies {
            &&& #[trigger] g@.nodes[u].rank < g@.rows.len()
            &&& exists|i: int|
                0 <= i < g@.rows[g@.nodes[u].rank as int].len() && #[trigger] g@.rows[g@.nodes[
                    u].rank as int][i] == u
        } by {
            assert(g@.rows[g@.nodes[u].rank as int][slot[u]] == u);
        }
    }
}

} // verus!
