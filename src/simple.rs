//! The first coordinate pass: consecutive positions within each row, rows
//! stacked by their heights.

use vstd::prelude::*;
use crate::graph::{
    lemma_row_len, GraphView, Point, VisualGraph, MAX_NODES, MAX_RANK, MAX_SIZE, NODE_MARGIN, ROW_MARGIN, ROW_SPAN,
};

verus! {

/// Where entry `i` of row `r` begins: the widths of the entries before it,
/// each followed by `NODE_MARGIN`.
pub open spec fn offset(g: GraphView, r: int, i: int) -> int
    decreases i,
{
    if i <= 0 {
        0
    } else {
        offset(g, r, i - 1) + g.nodes[g.rows[r][i - 1] as int].size.x + NODE_MARGIN
    }
}

/// The greatest height among the first `i` entries of row `r`, or 0.
pub open spec fn tallest(g: GraphView, r: int, i: int) -> int
    decreases i,
{
    if i <= 0 {
        0
    } else {
        let h = g.nodes[g.rows[r][i - 1] as int].size.y as int;
        let t = tallest(g, r, i - 1);
        if h > t { h } else { t }
    }
}

/// The top of row `r`: the heights of the rows above it, each followed by
/// `ROW_MARGIN`.
pub open spec fn row_top(g: GraphView, r: int) -> int
    decreases r,
{
    if r <= 0 {
        0
    } else {
        row_top(g, r - 1) + tallest(g, r - 1, g.rows[r - 1].len() as int) + ROW_MARGIN
    }
}

/// Two graphs with the same rows and node sizes have the same offsets and
/// row heights.
pub proof fn lemma_offsets_same(g1: GraphView, g2: GraphView, r: int, i: int)
    requires
        g1.rows_ok(),
        g1.rows == g2.rows,
        g1.nodes.len() == g2.nodes.len(),
        forall|v: int| 0 <= v < g1.nodes.len() ==> (#[trigger] g1.nodes[v]).size == g2.nodes[v].size,
        0 <= r < g1.rows.len(),
        0 <= i <= g1.rows[r].len(),
    ensures
        offset(g1, r, i) == offset(g2, r, i),
        tallest(g1, r, i) == tallest(g2, r, i),
    decreases i,
{
    if i > 0 {
        lemma_offsets_same(g1, g2, r, i - 1);
        assert(g1.rows[r][i - 1] < g1.nodes.len());
        assert(g1.nodes[g1.rows[r][i - 1] as int].size == g2.nodes[g2.rows[r][i - 1] as int].size);
    }
}

/// Two graphs with the same rows and node sizes have the same row tops.
pub proof fn lemma_row_tops_same(g1: GraphView, g2: GraphView, r: int)
    requires
        g1.rows_ok(),
        g1.rows == g2.rows,
        g1.nodes.len() == g2.nodes.len(),
        forall|v: int| 0 <= v < g1.nodes.len() ==> (#[trigger] g1.nodes[v]).size == g2.nodes[v].size,
        0 <= r <= g1.rows.len(),
    ensures
        row_top(g1, r) == row_top(g2, r),
    decreases r,
{
    if r > 0 {
        lemma_row_tops_same(g1, g2, r - 1);
        lemma_offsets_same(g1, g2, r - 1, g1.rows[r - 1].len() as int);
    }
}

/// Places each row's nodes left to right, `NODE_MARGIN` apart, and gives
/// the row the top that follows the previous rows' heights and `ROW_MARGIN`.
#[verifier::rlimit(80)]
pub fn simple(g: &mut VisualGraph)
    requires
        old(g).wf(),
        old(g)@.rows_ok(),
    ensures
        final(g).wf(),
        final(g)@.rows_ok(),
        final(g)@.same_but_pos(old(g)@),
        final(g)@.separated(),
        final(g)@.stacked(),
        forall|v: int| 0 <= v < final(g)@.nodes.len() ==> (#[trigger] final(g)@.nodes[v]).pos.x <= ROW_SPAN,
        forall|r: int, k: int|
            0 <= r < final(g)@.rows.len() && 0 <= k < final(g)@.rows[r].len() ==> final(g)@.nodes[
                #[trigger] final(g)@.rows[r][k] as int].pos.x == offset(final(g)@, r, k),
        forall|v: int|
            0 <= v < final(g)@.nodes.len() ==> (#[trigger] final(g)@.nodes[v]).pos.y == row_top(
                final(g)@,
                final(g)@.nodes[v].rank as int,
            ),
{
    let nrows = g.rows.len();
    let mut top: u64 = 0;
    let mut r: usize = 0;
    proof {
        if nrows > 0 {
            assert(g@.rows[0].len() <= g@.nodes.len()) by { lemma_row_len(g@, 0); }
        }
    }
    while r < nrows
        invariant
            g.wf(),
            g@.rows_ok(),
            g@.same_but_pos(old(g)@),
            nrows == g@.rows.len(),
            r <= nrows,
            top <= r * (MAX_SIZE + ROW_MARGIN),
            top == row_top(old(g)@, r as int),
            forall|q: int, k: int|
                0 <= q < r && 0 <= k < g@.rows[q].len() ==> g@.nodes[#[trigger] g@.rows[q][k] as int].pos.x
                    == offset(old(g)@, q, k),
            forall|a: int|
                0 <= a < g@.nodes.len() && (#[trigger] g@.nodes[a]).rank < r ==> g@.nodes[a].pos.y
                    == row_top(old(g)@, g@.nodes[a].rank as int),
            forall|a: int|
                0 <= a < g@.nodes.len() && (#[trigger] g@.nodes[a]).rank < r ==> g@.nodes[a].pos.y
                    + g@.nodes[a].size.y + ROW_MARGIN <= top && g@.nodes[a].pos.x <= ROW_SPAN,
            forall|a: int, b: int|
                0 <= a < g@.nodes.len() && 0 <= b < g@.nodes.len() && (#[trigger] g@.nodes[a]).rank
                    < (#[trigger] g@.nodes[b]).rank < r ==> g@.nodes[a].pos.y + g@.nodes[a].size.y
                    + ROW_MARGIN <= g@.nodes[b].pos.y,
            forall|a: int, b: int|
                0 <= a < g@.nodes.len() && 0 <= b < g@.nodes.len() && (#[trigger] g@.nodes[a]).rank
                    == (#[trigger] g@.nodes[b]).rank < r ==> g@.nodes[a].pos.y == g@.nodes[b].pos.y,
            forall|q: int, i: int, j: int|
                0 <= q < r && 0 <= i < j < g@.rows[q].len() ==> g@.nodes[#[trigger] g@.rows[
                    q][i] as int].pos.x + g@.nodes[g@.rows[q][i] as int].size.x + NODE_MARGIN
                    <= g@.nodes[#[trigger] g@.rows[q][j] as int].pos.x,
        decreases nrows - r,
    {
        proof {
            assert((r as int) * (MAX_SIZE + ROW_MARGIN) <= MAX_RANK * (MAX_SIZE + ROW_MARGIN))
                by (nonlinear_arith)
                requires
                    r <= MAX_RANK,
            ;
            lemma_row_len(g@, r as int);
            if g@.rows[r as int].len() > 0 {
                assert(g@.nodes[g@.rows[r as int][0] as int].rank == r);
                assert(g@.nodes[g@.rows[r as int][0] as int].valid());
            }
        }
        let len = g.rows[r].len();
        let mut cur: u64 = 0;
        let mut maxh: u64 = 0;
        let mut i: usize = 0;
        while i < len
            invariant
                g.wf(),
                g@.rows_ok(),
                g@.same_but_pos(old(g)@),
                nrows == g@.rows.len(),
                r < nrows,
                len == g@.rows[r as int].len(),
                len <= MAX_NODES,
                r <= MAX_RANK,
                i <= len,
                top <= r * (MAX_SIZE + ROW_MARGIN),
                top <= MAX_RANK * (MAX_SIZE + ROW_MARGIN),
                top == row_top(old(g)@, r as int),
                cur == offset(old(g)@, r as int, i as int),
                maxh == tallest(old(g)@, r as int, i as int),
                forall|k: int|
                    0 <= k < i ==> g@.nodes[#[trigger] g@.rows[r as int][k] as int].pos.x == offset(
                        old(g)@,
                        r as int,
                        k,
                    ),
                forall|q: int, k: int|
                    0 <= q < r && 0 <= k < g@.rows[q].len() ==> g@.nodes[#[trigger] g@.rows[q][k] as int].pos.x
                        == offset(old(g)@, q, k),
                forall|a: int|
                    0 <= a < g@.nodes.len() && (#[trigger] g@.nodes[a]).rank < r ==> g@.nodes[a].pos.y
                        == row_top(old(g)@, g@.nodes[a].rank as int),
                cur <= i * (MAX_SIZE + NODE_MARGIN),
                maxh <= MAX_SIZE,
                forall|k: int|
                    0 <= k < i ==> {
                        &&& g@.nodes[#[trigger] g@.rows[r as int][k] as int].pos.y == top
                        &&& g@.nodes[g@.rows[r as int][k] as int].size.y <= maxh
                        &&& g@.nodes[g@.rows[r as int][k] as int].pos.x <= ROW_SPAN
                        &&& g@.nodes[g@.rows[r as int][k] as int].pos.x + g@.nodes[g@.rows[
                            r as int][k] as int].size.x + NODE_MARGIN <= cur
                    },
                forall|a: int|
                    0 <= a < g@.nodes.len() && (#[trigger] g@.nodes[a]).rank < r ==> g@.nodes[a].pos.y
                        + g@.nodes[a].size.y + ROW_MARGIN <= top && g@.nodes[a].pos.x <= ROW_SPAN,
                forall|a: int, b: int|
                    0 <= a < g@.nodes.len() && 0 <= b < g@.nodes.len() && (#[trigger] g@.nodes[a]).rank
                        < (#[trigger] g@.nodes[b]).rank < r ==> g@.nodes[a].pos.y + g@.nodes[a].size.y
                        + ROW_MARGIN <= g@.nodes[b].pos.y,
                forall|a: int, b: int|
                    0 <= a < g@.nodes.len() && 0 <= b < g@.nodes.len() && (#[trigger] g@.nodes[a]).rank
                        == (#[trigger] g@.nodes[b]).rank < r ==> g@.nodes[a].pos.y == g@.nodes[b].pos.y,
                forall|q: int, i1: int, j1: int|
                    0 <= q < r && 0 <= i1 < j1 < g@.rows[q].len() ==> g@.nodes[#[trigger] g@.rows[
                        q][i1] as int].pos.x + g@.nodes[g@.rows[q][i1] as int].size.x + NODE_MARGIN
                        <= g@.nodes[#[trigger] g@.rows[q][j1] as int].pos.x,
                forall|i1: int, j1: int|
                    0 <= i1 < j1 < i ==> g@.nodes[#[trigger] g@.rows[r as int][i1] as int].pos.x
                        + g@.nodes[g@.rows[r as int][i1] as int].size.x + NODE_MARGIN <= g@.nodes[
                        #[trigger] g@.rows[r as int][j1] as int].pos.x,
            decreases len - i,
        {
            let v = g.rows[r][i];
            proof {
                assert(g@.nodes[v as int].valid());
                assert((i as int) * (MAX_SIZE + NODE_MARGIN) <= MAX_NODES * (MAX_SIZE + NODE_MARGIN))
                    by (nonlinear_arith)
                    requires
                        i < len,
                        len <= MAX_NODES,
                ;
                assert forall|k: int| 0 <= k < i implies #[trigger] g@.rows[r as int][k] != v by {
                    assert(g@.rows[r as int][k] < g@.rows[r as int][i as int]);
                }
            }
            let w = g.nodes[v].size.x;
            let h = g.nodes[v].size.y;
            g.set_pos(v, Point { x: cur, y: top });
            proof {
                assert((i as int + 1) * (MAX_SIZE + NODE_MARGIN) == i * (MAX_SIZE + NODE_MARGIN)
                    + (MAX_SIZE + NODE_MARGIN)) by (nonlinear_arith);
            }
            cur = cur + w + NODE_MARGIN;
            if h > maxh {
                maxh = h;
            }
            i = i + 1;
        }
        proof {
            assert forall|a: int|
                0 <= a < g@.nodes.len() && (#[trigger] g@.nodes[a]).rank == r implies g@.nodes[a].pos.y
                    == top && g@.nodes[a].size.y <= maxh by {
                let k = choose|k: int|
                    0 <= k < g@.rows[r as int].len() && #[trigger] g@.rows[r as int][k] == a;
                assert(g@.rows[r as int][k] == a);
            }
            assert(((r as int) + 1) * (MAX_SIZE + ROW_MARGIN) == r * (MAX_SIZE + ROW_MARGIN)
                + (MAX_SIZE + ROW_MARGIN)) by (nonlinear_arith);
        }
        top = top + maxh + ROW_MARGIN;
        r = r + 1;
    }
    proof {
        assert forall|q: int, k: int|
            0 <= q < g@.rows.len() && 0 <= k < g@.rows[q].len() implies g@.nodes[
            #[trigger] g@.rows[q][k] as int].pos.x == offset(g@, q, k) by {
            lemma_offsets_same(old(g)@, g@, q, k);
        }
        assert forall|v: int| 0 <= v < g@.nodes.len() implies (#[trigger] g@.nodes[v]).pos.y == row_top(
            g@,
            g@.nodes[v].rank as int,
        ) by {
            lemma_row_tops_same(old(g)@, g@, g@.nodes[v].rank as int);
        }
    }
}

} // verus!
