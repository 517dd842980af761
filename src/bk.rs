//! Balanced coordinate assignment in the manner of Brandes and Koepf: four
//! directional passes align each node with the median of its neighbours in
//! the rows already placed, and the four results are balanced per node.

use vstd::prelude::*;
use crate::graph::{
    lemma_row_len, GraphView, Point, VisualGraph, MAX_COORD, MAX_NODES, MAX_SIZE, NODE_MARGIN, ROW_SPAN,
};

verus! {

/// Width of one node plus its gap, the most that one placement moves a bound.
pub const STEP: u64 = MAX_SIZE + NODE_MARGIN;

/// Each coordinate of `xs` lies within the range of the passes.
pub open spec fn in_range(xs: Seq<i64>) -> bool {
    forall|v: int| 0 <= v < xs.len() ==> -(ROW_SPAN as int) <= #[trigger] xs[v] <= 2 * ROW_SPAN
}

/// The entries `lo..hi` of row `r` are `NODE_MARGIN` apart under `xs`.
pub open spec fn row_feasible(g: GraphView, xs: Seq<i64>, r: int, lo: int, hi: int) -> bool {
    forall|i: int, j: int|
        lo <= i < j < hi ==> xs[#[trigger] g.rows[r][i] as int] + g.nodes[g.rows[r][i] as int].size.x
            + NODE_MARGIN <= xs[#[trigger] g.rows[r][j] as int]
}

/// Every row but `skip` is `NODE_MARGIN` apart under `xs`.
pub open spec fn feasible_except(g: GraphView, xs: Seq<i64>, skip: int) -> bool {
    forall|q: int|
        0 <= q < g.rows.len() && q != skip ==> #[trigger] row_feasible(g, xs, q, 0, g.rows[q].len() as int)
}

/// What a pass may assume of the graph.
pub open spec fn ready(g: GraphView) -> bool {
    &&& g.wf()
    &&& g.rows_ok()
}

/// Changing the coordinate of a node of row `r` leaves every other row as it was.
proof fn lemma_other_row(g: GraphView, xs: Seq<i64>, v: int, val: i64, r: int, q: int)
    requires
        ready(g),
        xs.len() == g.nodes.len(),
        0 <= v < xs.len(),
        0 <= q < g.rows.len(),
        g.nodes[v].rank == r,
        q != r,
        row_feasible(g, xs, q, 0, g.rows[q].len() as int),
    ensures
        row_feasible(g, xs.update(v, val), q, 0, g.rows[q].len() as int),
{
    let ys = xs.update(v, val);
    assert forall|i: int, j: int| 0 <= i < j < g.rows[q].len() implies ys[#[trigger] g.rows[q][i] as int]
        + g.nodes[g.rows[q][i] as int].size.x + NODE_MARGIN <= ys[#[trigger] g.rows[q][j] as int] by {
        assert(g.nodes[g.rows[q][i] as int].rank == q);
        assert(g.nodes[g.rows[q][j] as int].rank == q);
        assert(ys[g.rows[q][i] as int] == xs[g.rows[q][i] as int]);
        assert(ys[g.rows[q][j] as int] == xs[g.rows[q][j] as int]);
    }
}

/// How many of the first `q` values are below `c`.
pub open spec fn count_lt(vals: Seq<i64>, c: i64, q: int) -> int
    decreases q,
{
    if q <= 0 {
        0
    } else {
        count_lt(vals, c, q - 1) + if vals[q - 1] < c { 1int } else { 0int }
    }
}

/// How many of the first `q` values are at most `c`.
pub open spec fn count_le(vals: Seq<i64>, c: i64, q: int) -> int
    decreases q,
{
    if q <= 0 {
        0
    } else {
        count_le(vals, c, q - 1) + if vals[q - 1] <= c { 1int } else { 0int }
    }
}

/// `c` is the `t`-th smallest of `vals`, counting from zero: at most `t`
/// values lie below it and more than `t` lie at or below it.
pub open spec fn is_order_stat(vals: Seq<i64>, t: int, c: i64) -> bool {
    count_lt(vals, c, vals.len() as int) <= t < count_le(vals, c, vals.len() as int)
}

/// The first of `vals[j..]` that is the `t`-th smallest, or `vals[0]`.
pub open spec fn order_stat_from(vals: Seq<i64>, t: int, j: int) -> i64
    decreases vals.len() - j,
{
    if j < 0 || j >= vals.len() {
        vals[0]
    } else if is_order_stat(vals, t, vals[j]) {
        vals[j]
    } else {
        order_stat_from(vals, t, j + 1)
    }
}

/// The `t`-th smallest of `vals`, counting from zero, found by counting.
fn order_statistic(vals: &Vec<i64>, t: usize) -> (r: i64)
    requires
        vals@.len() > 0,
    ensures
        r == order_stat_from(vals@, t as int, 0),
        (exists|j: int| 0 <= j < vals@.len() && is_order_stat(vals@, t as int, #[trigger] vals@[j]))
            ==> is_order_stat(vals@, t as int, r),
        exists|j: int| 0 <= j < vals@.len() && r == vals@[j],
{
    let k = vals.len();
    let mut j: usize = 0;
    while j < k
        invariant
            k == vals@.len(),
            k > 0,
            j <= k,
            order_stat_from(vals@, t as int, 0) == order_stat_from(vals@, t as int, j as int),
            forall|i: int| 0 <= i < j ==> !is_order_stat(vals@, t as int, #[trigger] vals@[i]),
        decreases k - j,
    {
        let c = vals[j];
        let mut lt: usize = 0;
        let mut le: usize = 0;
        let mut q: usize = 0;
        while q < k
            invariant
                k == vals@.len(),
                q <= k,
                lt <= q,
                le <= q,
                c == vals@[j as int],
                j < k,
                lt == count_lt(vals@, c, q as int),
                le == count_le(vals@, c, q as int),
            decreases k - q,
        {
            if vals[q] < c {
                lt = lt + 1;
            }
            if vals[q] <= c {
                le = le + 1;
            }
            q = q + 1;
        }
        if lt <= t && t < le {
            return c;
        }
        j = j + 1;
    }
    vals[0]
}

/// The neighbour of `v` that edge `e` names on the side already placed, or
/// `v` itself where the edge does not touch that side of `v`.
pub open spec fn placed_end(g: GraphView, v: int, down: bool, e: int) -> int {
    if down && g.edges[e].dst == v {
        g.edges[e].src as int
    } else if !down && g.edges[e].src == v {
        g.edges[e].dst as int
    } else {
        v
    }
}

/// Centres, under `xs`, of the placed neighbours that the first `k` edges name.
pub open spec fn centers(g: GraphView, xs: Seq<i64>, v: int, down: bool, k: int) -> Seq<i64>
    decreases k,
{
    if k <= 0 {
        Seq::empty()
    } else {
        let c = centers(g, xs, v, down, k - 1);
        let nb = placed_end(g, v, down, k - 1);
        if nb != v {
            c.push((xs[nb] + g.nodes[nb].size.x / 2) as i64)
        } else {
            c
        }
    }
}

/// Centres of the neighbours of `v` on the side already placed: sources of
/// its incoming edges when going down, targets of its outgoing edges else.
fn neighbor_centers(g: &VisualGraph, xs: &Vec<i64>, v: usize, down: bool) -> (r: Vec<i64>)
    requires
        ready(g@),
        xs@.len() == g@.nodes.len(),
        in_range(xs@),
        v < g@.nodes.len(),
    ensures
        r@ == centers(g@, xs@, v as int, down, g@.edges.len() as int),
        forall|k: int| 0 <= k < r@.len() ==> -(ROW_SPAN as int) <= #[trigger] r@[k] <= 2 * ROW_SPAN + MAX_SIZE,
{
    let mut out: Vec<i64> = Vec::new();
    let m = g.edges.len();
    let mut e: usize = 0;
    while e < m
        invariant
            ready(g@),
            xs@.len() == g@.nodes.len(),
            in_range(xs@),
            m == g@.edges.len(),
            e <= m,
            out@ == centers(g@, xs@, v as int, down, e as int),
            forall|k: int|
                0 <= k < out@.len() ==> -(ROW_SPAN as int) <= #[trigger] out@[k] <= 2 * ROW_SPAN + MAX_SIZE,
        decreases m - e,
    {
        let src = g.edges[e].src;
        let dst = g.edges[e].dst;
        assert(g@.edges[e as int].src == src && g@.edges[e as int].dst == dst);
        assert(g@.edge_ok(g@.edges[e as int]));
        let nb: usize = if down && dst == v {
            src
        } else if !down && src == v {
            dst
        } else {
            v
        };
        assert(nb == placed_end(g@, v as int, down, e as int));
        if nb != v {
            assert(g@.nodes[nb as int].valid());
            let c = xs[nb] + (g.nodes[nb].size.x / 2) as i64;
            out.push(c);
        }
        e = e + 1;
    }
    out
}

/// `d` kept within `0..=ROW_SPAN`.
pub open spec fn clamp_span(d: int) -> int {
    if d < 0 {
        0
    } else if d > ROW_SPAN {
        ROW_SPAN as int
    } else {
        d
    }
}

/// Where `v` would like to stand under `xs`: its centre under the median
/// centre of its placed neighbours (the upper median for `upper`), or where
/// it stands when it has none; kept within `0..=ROW_SPAN`.
pub open spec fn desired_x(g: GraphView, xs: Seq<i64>, v: int, down: bool, upper: bool) -> int {
    let cs = centers(g, xs, v, down, g.edges.len() as int);
    if cs.len() == 0 {
        clamp_span(xs[v] as int)
    } else {
        let t: int = if upper { cs.len() as int / 2 } else { (cs.len() as int - 1) / 2 };
        clamp_span(order_stat_from(cs, t, 0) - g.nodes[v].size.x / 2)
    }
}

/// Where `v` would like to stand: its centre under the median centre of its
/// placed neighbours (the lower median for `upper == false`), or where it
/// stands when it has none; kept within `0..=ROW_SPAN`.
fn desired(g: &VisualGraph, xs: &Vec<i64>, v: usize, down: bool, upper: bool) -> (r: i64)
    requires
        ready(g@),
        xs@.len() == g@.nodes.len(),
        in_range(xs@),
        v < g@.nodes.len(),
    ensures
        0 <= r <= ROW_SPAN,
        r == desired_x(g@, xs@, v as int, down, upper),
{
    let cs = neighbor_centers(g, xs, v, down);
    let d: i64 = if cs.len() == 0 {
        xs[v]
    } else {
        let t: usize = if upper { cs.len() / 2 } else { (cs.len() - 1) / 2 };
        let med = order_statistic(&cs, t);
        assert(g@.nodes[v as int].valid());
        med - (g.nodes[v].size.x / 2) as i64
    };
    if d < 0 {
        0
    } else if d > ROW_SPAN as i64 {
        ROW_SPAN as i64
    } else {
        d
    }
}

/// Every row is `NODE_MARGIN` apart under `xs`.
pub open spec fn feasible(g: GraphView, xs: Seq<i64>) -> bool {
    feasible_except(g, xs, -1)
}

/// Sets `xs[v]` for a node `v` of row `r`, keeping every other row as it was.
fn set_x(g: &VisualGraph, xs: &mut Vec<i64>, r: usize, v: usize, x: i64)
    requires
        ready(g@),
        old(xs)@.len() == g@.nodes.len(),
        v < g@.nodes.len(),
        g@.nodes[v as int].rank == r,
        feasible_except(g@, old(xs)@, r as int),
    ensures
        final(xs)@ == old(xs)@.update(v as int, x),
        feasible_except(g@, final(xs)@, r as int),
{
    let ghost before = xs@;
    xs.set(v, x);
    proof {
        assert forall|q: int| 0 <= q < g@.rows.len() && q != r as int implies #[trigger] row_feasible(
            g@,
            xs@,
            q,
            0,
            g@.rows[q].len() as int,
        ) by {
            lemma_other_row(g@, before, v as int, x, r as int, q);
        }
    }
}

/// Coordinates, and the least start left for the next node, once the first
/// `i` entries of row `r` are placed from the left, starting from `xs`.
pub open spec fn left_state(g: GraphView, xs: Seq<i64>, r: int, down: bool, i: int) -> (Seq<i64>, int)
    decreases i,
{
    if i <= 0 {
        (xs, 0)
    } else {
        let (ys, cur) = left_state(g, xs, r, down, i - 1);
        let v = g.rows[r][i - 1] as int;
        let d = desired_x(g, ys, v, down, false);
        let x = if d > cur { d } else { cur };
        (ys.update(v, x as i64), x + g.nodes[v].size.x + NODE_MARGIN)
    }
}

/// Coordinates, and the greatest end left for the next node, once the last
/// `c` entries of row `r` are placed from the right, starting from `xs`.
pub open spec fn right_state(g: GraphView, xs: Seq<i64>, r: int, down: bool, c: int) -> (Seq<i64>, int)
    decreases c,
{
    if c <= 0 {
        (xs, ROW_SPAN + STEP)
    } else {
        let (ys, cur) = right_state(g, xs, r, down, c - 1);
        let v = g.rows[r][g.rows[r].len() - c] as int;
        let d = desired_x(g, ys, v, down, true);
        let limit = cur - g.nodes[v].size.x - NODE_MARGIN;
        let x = if d < limit { d } else { limit };
        (ys.update(v, x as i64), x)
    }
}

/// Places row `r` from its first node to its last: each node as near to its
/// desired position as the node before it allows.
fn place_row_left(g: &VisualGraph, xs: &mut Vec<i64>, r: usize, down: bool)
    requires
        ready(g@),
        r < g@.rows.len(),
        old(xs)@.len() == g@.nodes.len(),
        in_range(old(xs)@),
        feasible_except(g@, old(xs)@, r as int),
    ensures
        final(xs)@.len() == g@.nodes.len(),
        in_range(final(xs)@),
        feasible(g@, final(xs)@),
        final(xs)@ == left_state(g@, old(xs)@, r as int, down, g@.rows[r as int].len() as int).0,
{
    proof {
        lemma_row_len(g@, r as int);
    }
    let len = g.rows[r].len();
    let mut cur: i64 = 0;
    let mut i: usize = 0;
    while i < len
        invariant
            xs@ == left_state(g@, old(xs)@, r as int, down, i as int).0,
            cur == left_state(g@, old(xs)@, r as int, down, i as int).1,
            ready(g@),
            r < g@.rows.len(),
            len == g@.rows[r as int].len(),
            len <= MAX_NODES,
            i <= len,
            xs@.len() == g@.nodes.len(),
            in_range(xs@),
            feasible_except(g@, xs@, r as int),
            row_feasible(g@, xs@, r as int, 0, i as int),
            0 <= cur <= ROW_SPAN + i * STEP,
            forall|k: int|
                0 <= k < i ==> xs@[#[trigger] g@.rows[r as int][k] as int] + g@.nodes[g@.rows[
                    r as int][k] as int].size.x + NODE_MARGIN <= cur,
        decreases len - i,
    {
        let v = g.rows[r][i];
        proof {
            assert(g@.nodes[v as int].valid());
            assert((i as int) * STEP <= MAX_NODES * STEP) by (nonlinear_arith)
                requires
                    i < len,
                    len <= MAX_NODES,
            ;
            assert((i as int + 1) * STEP == i * STEP + STEP) by (nonlinear_arith);
            assert forall|k: int| 0 <= k < i implies #[trigger] g@.rows[r as int][k] != v by {
                assert(g@.rows[r as int][k] < g@.rows[r as int][i as int]);
            }
        }
        let d = desired(g, xs, v, down, false);
        let x = if d > cur { d } else { cur };
        let ghost before = xs@;
        set_x(g, xs, r, v, x);
        proof {
            assert forall|k: int| 0 <= k < i implies xs@[#[trigger] g@.rows[r as int][k] as int]
                == before[g@.rows[r as int][k] as int] by {}
        }
        cur = x + g.nodes[v].size.x as i64 + NODE_MARGIN as i64;
        i = i + 1;
    }
}

/// Places row `r` from its last node to its first: each node as near to its
/// desired position as the node after it allows.
fn place_row_right(g: &VisualGraph, xs: &mut Vec<i64>, r: usize, down: bool)
    requires
        ready(g@),
        r < g@.rows.len(),
        old(xs)@.len() == g@.nodes.len(),
        in_range(old(xs)@),
        feasible_except(g@, old(xs)@, r as int),
    ensures
        final(xs)@.len() == g@.nodes.len(),
        in_range(final(xs)@),
        feasible(g@, final(xs)@),
        final(xs)@ == right_state(g@, old(xs)@, r as int, down, g@.rows[r as int].len() as int).0,
{
    proof {
        lemma_row_len(g@, r as int);
    }
    let len = g.rows[r].len();
    let mut cur: i64 = (ROW_SPAN + STEP) as i64;
    let mut c: usize = 0;
    while c < len
        invariant
            xs@ == right_state(g@, old(xs)@, r as int, down, c as int).0,
            cur == right_state(g@, old(xs)@, r as int, down, c as int).1,
            ready(g@),
            r < g@.rows.len(),
            len == g@.rows[r as int].len(),
            len <= MAX_NODES,
            c <= len,
            xs@.len() == g@.nodes.len(),
            in_range(xs@),
            feasible_except(g@, xs@, r as int),
            row_feasible(g@, xs@, r as int, len - c, len as int),
            -(c * STEP) <= cur <= ROW_SPAN + STEP,
            forall|k: int| len - c <= k < len ==> cur <= xs@[#[trigger] g@.rows[r as int][k] as int],
        decreases len - c,
    {
        let i = len - 1 - c;
        let v = g.rows[r][i];
        proof {
            assert(g@.nodes[v as int].valid());
            assert((c as int + 1) * STEP <= MAX_NODES * STEP) by (nonlinear_arith)
                requires
                    c < len,
                    len <= MAX_NODES,
            ;
            assert((c as int + 1) * STEP == c * STEP + STEP) by (nonlinear_arith);
            assert forall|k: int| i < k < len implies #[trigger] g@.rows[r as int][k] != v by {
                assert(g@.rows[r as int][i as int] < g@.rows[r as int][k]);
            }
        }
        let d = desired(g, xs, v, down, true);
        let limit = cur - g.nodes[v].size.x as i64 - NODE_MARGIN as i64;
        let x = if d < limit { d } else { limit };
        let ghost before = xs@;
        set_x(g, xs, r, v, x);
        proof {
            assert forall|k: int| i < k < len implies xs@[#[trigger] g@.rows[r as int][k] as int]
                == before[g@.rows[r as int][k] as int] by {}
        }
        cur = x;
        c = c + 1;
    }
}

/// The coordinates along the rows that `g` gives its nodes.
pub open spec fn init_xs(g: GraphView) -> Seq<i64> {
    Seq::new(g.nodes.len(), |v: int| g.nodes[v].pos.x as i64)
}

/// Coordinates after the first `t` rows of a pass are placed.
pub open spec fn pass_rows(g: GraphView, down: bool, left: bool, t: int) -> Seq<i64>
    decreases t,
{
    if t <= 0 {
        init_xs(g)
    } else {
        let xs = pass_rows(g, down, left, t - 1);
        let r = if down { t - 1 } else { g.rows.len() - t };
        if left {
            left_state(g, xs, r, down, g.rows[r].len() as int).0
        } else {
            right_state(g, xs, r, down, g.rows[r].len() as int).0
        }
    }
}

/// The result of one directional pass over every row.
pub open spec fn pass_x(g: GraphView, down: bool, left: bool) -> Seq<i64> {
    pass_rows(g, down, left, g.rows.len() as int)
}

/// One directional pass: rows top to bottom (`down`) or bottom to top, each
/// row placed from its first node (`left`) or from its last; the result maps
/// every node to its coordinate along the rows.
fn pass(g: &VisualGraph, down: bool, left: bool) -> (xs: Vec<i64>)
    requires
        ready(g@),
        g@.separated(),
        forall|v: int| 0 <= v < g@.nodes.len() ==> (#[trigger] g@.nodes[v]).pos.x <= ROW_SPAN,
    ensures
        xs@.len() == g@.nodes.len(),
        in_range(xs@),
        feasible(g@, xs@),
        xs@ == pass_x(g@, down, left),
{
    let n = g.nodes.len();
    let mut xs: Vec<i64> = Vec::new();
    let mut v: usize = 0;
    while v < n
        invariant
            ready(g@),
            n == g@.nodes.len(),
            v <= n,
            xs@.len() == v,
            forall|v: int| 0 <= v < g@.nodes.len() ==> (#[trigger] g@.nodes[v]).pos.x <= ROW_SPAN,
            forall|u: int| 0 <= u < v ==> #[trigger] xs@[u] == g@.nodes[u].pos.x,
        decreases n - v,
    {
        xs.push(g.nodes[v].pos.x as i64);
        v = v + 1;
    }
    proof {
        assert forall|q: int| 0 <= q < g@.rows.len() && q != -1 implies #[trigger] row_feasible(
            g@,
            xs@,
            q,
            0,
            g@.rows[q].len() as int,
        ) by {
            assert forall|i: int, j: int| 0 <= i < j < g@.rows[q].len() implies xs@[
                #[trigger] g@.rows[q][i] as int] + g@.nodes[g@.rows[q][i] as int].size.x + NODE_MARGIN
                <= xs@[#[trigger] g@.rows[q][j] as int] by {
                assert(g@.nodes[g@.rows[q][i] as int].pos.x + g@.nodes[g@.rows[q][i] as int].size.x
                    + NODE_MARGIN <= g@.nodes[g@.rows[q][j] as int].pos.x);
            }
        }
    }
    assert(xs@ =~= init_xs(g@));
    let nrows = g.rows.len();
    let mut t: usize = 0;
    while t < nrows
        invariant
            xs@ == pass_rows(g@, down, left, t as int),
            ready(g@),
            nrows == g@.rows.len(),
            t <= nrows,
            xs@.len() == g@.nodes.len(),
            in_range(xs@),
            feasible(g@, xs@),
        decreases nrows - t,
    {
        let r = if down { t } else { nrows - 1 - t };
        if left {
            place_row_left(g, &mut xs, r, down);
        } else {
            place_row_right(g, &mut xs, r, down);
        }
        t = t + 1;
    }
    xs
}

pub open spec fn lo(a: int, b: int) -> int {
    if a <= b { a } else { b }
}

pub open spec fn hi(a: int, b: int) -> int {
    if a <= b { b } else { a }
}

/// The sum of the two middle values of four.
pub open spec fn middle_sum(a: int, b: int, c: int, d: int) -> int {
    hi(lo(a, b), lo(c, d)) + lo(hi(a, b), hi(c, d))
}

/// The mean of the two middle values of four, moved up by `ROW_SPAN`.
pub open spec fn balanced(a: int, b: int, c: int, d: int) -> int {
    (middle_sum(a, b, c, d) + 2 * ROW_SPAN) / 2
}

/// Where each of four values is at least `s` above another's, so is their
/// balanced value.
proof fn lemma_balanced_keeps_gap(
    a: int,
    b: int,
    c: int,
    d: int,
    a2: int,
    b2: int,
    c2: int,
    d2: int,
    s: int,
)
    requires
        a + s <= a2,
        b + s <= b2,
        c + s <= c2,
        d + s <= d2,
        middle_sum(a, b, c, d) + 2 * ROW_SPAN >= 0,
    ensures
        balanced(a, b, c, d) + s <= balanced(a2, b2, c2, d2),
{
    assert(middle_sum(a, b, c, d) + 2 * s <= middle_sum(a2, b2, c2, d2));
}

fn balanced_x(a: i64, b: i64, c: i64, d: i64) -> (r: i64)
    requires
        in_range(seq![a, b, c, d]),
    ensures
        r == balanced(a as int, b as int, c as int, d as int),
        0 <= r <= 3 * ROW_SPAN,
{
    proof {
        let s = seq![a, b, c, d];
        assert(-(ROW_SPAN as int) <= s[0] <= 2 * ROW_SPAN);
        assert(-(ROW_SPAN as int) <= s[1] <= 2 * ROW_SPAN);
        assert(-(ROW_SPAN as int) <= s[2] <= 2 * ROW_SPAN);
        assert(-(ROW_SPAN as int) <= s[3] <= 2 * ROW_SPAN);
    }
    let l1 = if a <= b { a } else { b };
    let h1 = if a <= b { b } else { a };
    let l2 = if c <= d { c } else { d };
    let h2 = if c <= d { d } else { c };
    let m1 = if l1 <= l2 { l2 } else { l1 };
    let m2 = if h1 <= h2 { h1 } else { h2 };
    (m1 + m2 + 2 * ROW_SPAN as i64) / 2
}

/// Same nodes and rows, and edges with the same ends.
pub open spec fn same_skeleton(g1: GraphView, g2: GraphView) -> bool {
    &&& g1.nodes == g2.nodes
    &&& g1.rows == g2.rows
    &&& g1.edges.len() == g2.edges.len()
    &&& forall|e: int|
        0 <= e < g1.edges.len() ==> (#[trigger] g1.edges[e]).src == g2.edges[e].src && g1.edges[e].dst
            == g2.edges[e].dst
}

proof fn lemma_centers_same(g1: GraphView, g2: GraphView, xs: Seq<i64>, v: int, down: bool, k: int)
    requires
        same_skeleton(g1, g2),
        k <= g1.edges.len(),
    ensures
        centers(g1, xs, v, down, k) == centers(g2, xs, v, down, k),
    decreases k,
{
    if k > 0 {
        lemma_centers_same(g1, g2, xs, v, down, k - 1);
        assert(g1.edges[k - 1].src == g2.edges[k - 1].src);
    }
}

proof fn lemma_left_same(g1: GraphView, g2: GraphView, xs: Seq<i64>, r: int, down: bool, i: int)
    requires
        same_skeleton(g1, g2),
    ensures
        left_state(g1, xs, r, down, i) == left_state(g2, xs, r, down, i),
    decreases i,
{
    if i > 0 {
        lemma_left_same(g1, g2, xs, r, down, i - 1);
        let ys = left_state(g1, xs, r, down, i - 1).0;
        lemma_centers_same(g1, g2, ys, g1.rows[r][i - 1] as int, down, g1.edges.len() as int);
    }
}

proof fn lemma_right_same(g1: GraphView, g2: GraphView, xs: Seq<i64>, r: int, down: bool, c: int)
    requires
        same_skeleton(g1, g2),
    ensures
        right_state(g1, xs, r, down, c) == right_state(g2, xs, r, down, c),
    decreases c,
{
    if c > 0 {
        lemma_right_same(g1, g2, xs, r, down, c - 1);
        let ys = right_state(g1, xs, r, down, c - 1).0;
        lemma_centers_same(g1, g2, ys, g1.rows[r][g1.rows[r].len() - c] as int, down, g1.edges.len() as int);
    }
}

proof fn lemma_pass_rows_same(g1: GraphView, g2: GraphView, down: bool, left: bool, t: int)
    requires
        same_skeleton(g1, g2),
    ensures
        pass_rows(g1, down, left, t) == pass_rows(g2, down, left, t),
    decreases t,
{
    if t > 0 {
        lemma_pass_rows_same(g1, g2, down, left, t - 1);
        let xs = pass_rows(g1, down, left, t - 1);
        let r = if down { t - 1 } else { g1.rows.len() - t };
        lemma_left_same(g1, g2, xs, r, down, g1.rows[r].len() as int);
        lemma_right_same(g1, g2, xs, r, down, g1.rows[r].len() as int);
    }
    assert(init_xs(g1) =~= init_xs(g2));
}

/// The passes, and so the balanced values, read only the nodes, the rows
/// and the ends of the edges.
pub proof fn lemma_bal_same(g1: GraphView, g2: GraphView)
    requires
        same_skeleton(g1, g2),
    ensures
        forall|v: int| #[trigger] bal_at(g1, v) == bal_at(g2, v),
        forall|u: int| #[trigger] min_bal_upto(g1, u) == min_bal_upto(g2, u),
{
    lemma_pass_rows_same(g1, g2, true, true, g1.rows.len() as int);
    lemma_pass_rows_same(g1, g2, true, false, g1.rows.len() as int);
    lemma_pass_rows_same(g1, g2, false, true, g1.rows.len() as int);
    lemma_pass_rows_same(g1, g2, false, false, g1.rows.len() as int);
    assert forall|u: int| #[trigger] min_bal_upto(g1, u) == min_bal_upto(g2, u) by {
        lemma_min_bal_same(g1, g2, u);
    }
}

proof fn lemma_min_bal_same(g1: GraphView, g2: GraphView, u: int)
    requires
        forall|v: int| #[trigger] bal_at(g1, v) == bal_at(g2, v),
    ensures
        min_bal_upto(g1, u) == min_bal_upto(g2, u),
    decreases u,
{
    if u > 1 {
        lemma_min_bal_same(g1, g2, u - 1);
    }
}

/// The balanced value of node `v`: the mean of the two middle results of
/// the four passes, moved up by `ROW_SPAN`.
pub open spec fn bal_at(g: GraphView, v: int) -> int {
    balanced(
        pass_x(g, true, true)[v] as int,
        pass_x(g, true, false)[v] as int,
        pass_x(g, false, true)[v] as int,
        pass_x(g, false, false)[v] as int,
    )
}

/// The least balanced value among the first `u` nodes (`3 * ROW_SPAN` for none).
pub open spec fn min_bal_upto(g: GraphView, u: int) -> int
    decreases u,
{
    if u <= 0 {
        3 * ROW_SPAN
    } else if u == 1 {
        bal_at(g, 0)
    } else {
        let m = min_bal_upto(g, u - 1);
        if bal_at(g, u - 1) < m { bal_at(g, u - 1) } else { m }
    }
}

/// Refines the coordinates along the rows: runs the four passes, takes for
/// each node the mean of its two middle results, and shifts all nodes so that
/// the leftmost stands at 0. Rows stay apart and the other axis is untouched.
#[verifier::rlimit(100)]
pub fn bk(g: &mut VisualGraph)
    requires
        ready(old(g)@),
        old(g)@.separated(),
        old(g)@.stacked(),
        forall|v: int| 0 <= v < old(g)@.nodes.len() ==> (#[trigger] old(g)@.nodes[v]).pos.x <= ROW_SPAN,
    ensures
        ready(final(g)@),
        final(g)@.same_but_pos(old(g)@),
        final(g)@.separated(),
        final(g)@.stacked(),
        forall|v: int|
            0 <= v < final(g)@.nodes.len() ==> (#[trigger] final(g)@.nodes[v]).pos.y == old(
                g,
            )@.nodes[v].pos.y,
        old(g)@.nodes.len() > 0 ==> exists|v: int|
            0 <= v < final(g)@.nodes.len() && (#[trigger] final(g)@.nodes[v]).pos.x == 0,
        forall|v: int|
            0 <= v < final(g)@.nodes.len() ==> (#[trigger] final(g)@.nodes[v]).pos.x == bal_at(old(g)@, v)
                - min_bal_upto(old(g)@, old(g)@.nodes.len() as int),
{
    let a = pass(g, true, true);
    let b = pass(g, true, false);
    let c = pass(g, false, true);
    let d = pass(g, false, false);
    let n = g.nodes.len();
    let mut hs: Vec<i64> = Vec::new();
    let mut v: usize = 0;
    while v < n
        invariant
            n == g@.nodes.len(),
            a@.len() == n && b@.len() == n && c@.len() == n && d@.len() == n,
            in_range(a@) && in_range(b@) && in_range(c@) && in_range(d@),
            v <= n,
            hs@.len() == v,
            forall|u: int|
                0 <= u < v ==> #[trigger] hs@[u] == balanced(
                    a@[u] as int,
                    b@[u] as int,
                    c@[u] as int,
                    d@[u] as int,
                ) && 0 <= hs@[u] <= 3 * ROW_SPAN,
        decreases n - v,
    {
        proof {
            let s = seq![a@[v as int], b@[v as int], c@[v as int], d@[v as int]];
            assert forall|k: int| 0 <= k < s.len() implies -(ROW_SPAN as int) <= #[trigger] s[k] <= 2
                * ROW_SPAN by {}
        }
        let h = balanced_x(a[v], b[v], c[v], d[v]);
        hs.push(h);
        v = v + 1;
    }
    let mut m: i64 = 3 * ROW_SPAN as i64;
    let mut at: usize = 0;
    let mut u: usize = 0;
    while u < n
        invariant
            n == hs@.len(),
            u <= n,
            at < n || n == 0,
            0 <= m <= 3 * ROW_SPAN,
            m == min_bal_upto(old(g)@, u as int),
            forall|k: int| 0 <= k < n ==> #[trigger] hs@[k] == bal_at(old(g)@, k),
            u > 0 ==> hs@[at as int] == m,
            forall|k: int| 0 <= k < u ==> m <= #[trigger] hs@[k],
            forall|k: int| 0 <= k < n ==> 0 <= #[trigger] hs@[k] <= 3 * ROW_SPAN,
        decreases n - u,
    {
        if hs[u] < m || u == 0 {
            m = hs[u];
            at = u;
        }
        u = u + 1;
    }
    let ghost g0 = g@;
    assert(feasible(g0, a@) && feasible(g0, b@) && feasible(g0, c@) && feasible(g0, d@));
    let mut w: usize = 0;
    while w < n
        invariant
            ready(g@),
            g@.same_but_pos(g0),
            n == g@.nodes.len(),
            n == hs@.len(),
            w <= n,
            0 <= m,
            forall|k: int| 0 <= k < n ==> m <= #[trigger] hs@[k] <= 3 * ROW_SPAN,
            forall|k: int| 0 <= k < n ==> (#[trigger] g@.nodes[k]).pos.y == g0.nodes[k].pos.y,
            forall|k: int| 0 <= k < w ==> (#[trigger] g@.nodes[k]).pos.x == hs@[k] - m,
        decreases n - w,
    {
        let y = g.nodes[w].pos.y;
        assert(g@.nodes[w as int].valid());
        assert(m <= hs@[w as int] <= 3 * ROW_SPAN);
        assert(3 * ROW_SPAN <= MAX_COORD);
        g.set_pos(w, Point { x: (hs[w] - m) as u64, y });
        w = w + 1;
    }
    proof {
        assert forall|r: int, i: int, j: int|
            0 <= r < g@.rows.len() && 0 <= i < j < g@.rows[r].len() implies g@.nodes[
            #[trigger] g@.rows[r][i] as int].pos.x + g@.nodes[g@.rows[r][i] as int].size.x + NODE_MARGIN
            <= g@.nodes[#[trigger] g@.rows[r][j] as int].pos.x by {
            let p = g@.rows[r][i] as int;
            let q = g@.rows[r][j] as int;
            let s = g@.nodes[p].size.x + NODE_MARGIN;
            assert(g0.rows[r][i] == p && g0.rows[r][j] == q);
            assert(g0.nodes[p].size == g@.nodes[p].size);
            assert(row_feasible(g0, a@, r, 0, g0.rows[r].len() as int));
            assert(row_feasible(g0, b@, r, 0, g0.rows[r].len() as int));
            assert(row_feasible(g0, c@, r, 0, g0.rows[r].len() as int));
            assert(row_feasible(g0, d@, r, 0, g0.rows[r].len() as int));
            lemma_balanced_keeps_gap(
                a@[p] as int,
                b@[p] as int,
                c@[p] as int,
                d@[p] as int,
                a@[q] as int,
                b@[q] as int,
                c@[q] as int,
                d@[q] as int,
                s,
            );
        }
        if n > 0 {
            assert(g@.nodes[at as int].pos.x == 0);
        }
    }
}

} // verus!
