//! The graph model: an arena of nodes and edges addressed by integer handles,
//! the rows that group nodes by rank, and the orientation transform.

use vstd::prelude::*;

verus! {

/// Largest accepted width or height of a node.
pub const MAX_SIZE: u64 = 0x1_0000_0000;

/// Largest accepted rank of a node.
pub const MAX_RANK: u64 = 0x10_0000;

/// Largest number of nodes that one graph holds.
pub const MAX_NODES: usize = 0x10_0000;

/// Largest coordinate that a node position may carry.
pub const MAX_COORD: u64 = 0x100_0000_0000_0000;

/// Least gap between two neighbours of one row.
pub const NODE_MARGIN: u64 = 20;

/// Least gap between two consecutive rows.
pub const ROW_MARGIN: u64 = 40;

/// Widest row that the first coordinate pass can produce.
pub const ROW_SPAN: u64 = 0x10_0000 * (MAX_SIZE + NODE_MARGIN);

/// Which axis carries the ranks.
#[derive(Clone, Copy, Debug, PartialEq, Eq, Structural)]
pub enum Orientation {
    TopToBottom,
    LeftToRight,
}

impl Orientation {
    pub open spec fn spec_is_top_to_bottom(self) -> bool {
        self == Orientation::TopToBottom
    }

    pub open spec fn flipped(self) -> Orientation {
        match self {
            Orientation::TopToBottom => Orientation::LeftToRight,
            Orientation::LeftToRight => Orientation::TopToBottom,
        }
    }

    pub fn is_top_to_bottom(&self) -> (r: bool)
        ensures
            r == self.spec_is_top_to_bottom(),
    {
        match self {
            Orientation::TopToBottom => true,
            Orientation::LeftToRight => false,
        }
    }

    pub fn flip(&self) -> (r: Orientation)
        ensures
            r == self.flipped(),
    {
        match self {
            Orientation::TopToBottom => Orientation::LeftToRight,
            Orientation::LeftToRight => Orientation::TopToBottom,
        }
    }
}

/// A point, or a size, in the graph's own coordinate space.
#[derive(Clone, Copy, Debug, PartialEq, Eq, Structural)]
pub struct Point {
    pub x: u64,
    pub y: u64,
}

impl Point {
    pub open spec fn swapped(self) -> Point {
        Point { x: self.y, y: self.x }
    }

    pub fn new(x: u64, y: u64) -> (r: Point)
        ensures
            r.x == x,
            r.y == y,
    {
        Point { x, y }
    }

    pub fn zero() -> (r: Point)
        ensures
            r.x == 0,
            r.y == 0,
    {
        Point { x: 0, y: 0 }
    }

    pub fn transpose(&self) -> (r: Point)
        ensures
            r == self.swapped(),
    {
        Point { x: self.y, y: self.x }
    }
}

/// One drawable vertex: its fixed size, its rank, and its top-left position.
#[derive(Clone, Copy, Debug, PartialEq, Eq, Structural)]
pub struct Element {
    pub size: Point,
    pub pos: Point,
    pub rank: u64,
}

impl Element {
    pub open spec fn swapped(self) -> Element {
        Element { size: self.size.swapped(), pos: self.pos.swapped(), rank: self.rank }
    }

    pub open spec fn bottom_center(self) -> Point {
        Point { x: (self.pos.x + self.size.x / 2) as u64, y: (self.pos.y + self.size.y) as u64 }
    }

    pub open spec fn top_center(self) -> Point {
        Point { x: (self.pos.x + self.size.x / 2) as u64, y: self.pos.y }
    }

    pub open spec fn valid(self) -> bool {
        &&& self.size.x <= MAX_SIZE
        &&& self.size.y <= MAX_SIZE
        &&& self.pos.x <= MAX_COORD
        &&& self.pos.y <= MAX_COORD
        &&& self.rank <= MAX_RANK
    }

    /// A node of the given size bound to the given rank, placed at the origin.
    pub fn create(width: u64, height: u64, rank: u64) -> (r: Element)
        ensures
            r.size == (Point { x: width, y: height }),
            r.pos == (Point { x: 0, y: 0 }),
            r.rank == rank,
    {
        Element { size: Point { x: width, y: height }, pos: Point { x: 0, y: 0 }, rank }
    }

    pub fn transpose(&self) -> (r: Element)
        ensures
            r == self.swapped(),
    {
        Element { size: self.size.transpose(), pos: self.pos.transpose(), rank: self.rank }
    }
}

/// One directed connection and its routed path.
#[derive(Debug)]
pub struct Arrow {
    pub src: usize,
    pub dst: usize,
    pub dashed: bool,
    pub path: Vec<Point>,
}

pub struct ArrowView {
    pub src: usize,
    pub dst: usize,
    pub dashed: bool,
    pub path: Seq<Point>,
}

impl ArrowView {
    pub open spec fn swapped(self) -> ArrowView {
        ArrowView {
            src: self.src,
            dst: self.dst,
            dashed: self.dashed,
            path: self.path.map_values(|p: Point| p.swapped()),
        }
    }
}

impl View for Arrow {
    type V = ArrowView;

    open spec fn view(&self) -> ArrowView {
        ArrowView { src: self.src, dst: self.dst, dashed: self.dashed, path: self.path@ }
    }
}

impl Arrow {
    /// An edge not yet attached to any node, with an empty path.
    pub fn new(dashed: bool) -> (r: Arrow)
        ensures
            r.dashed == dashed,
            r.path@.len() == 0,
    {
        Arrow { src: 0, dst: 0, dashed, path: Vec::new() }
    }
}

/// Why a node or an edge was refused.
#[derive(Clone, Copy, Debug, PartialEq, Eq, Structural)]
pub enum GraphError {
    /// The graph already holds `MAX_NODES` nodes.
    TooManyNodes,
    /// A width or height above `MAX_SIZE`, or a position above `MAX_COORD`.
    InvalidSize,
    /// A rank above `MAX_RANK`.
    RankTooLarge,
    /// An edge end that names no node of the graph.
    BadHandle(usize),
    /// An edge whose destination is not on a later rank than its source.
    NotForward,
}

/// The owned graph: node and edge arenas, and the rows by rank.
pub struct VisualGraph {
    pub orientation: Orientation,
    pub nodes: Vec<Element>,
    pub edges: Vec<Arrow>,
    pub rows: Vec<Vec<usize>>,
}

pub struct GraphView {
    pub orientation: Orientation,
    pub nodes: Seq<Element>,
    pub edges: Seq<ArrowView>,
    pub rows: Seq<Seq<usize>>,
}

impl View for VisualGraph {
    type V = GraphView;

    open spec fn view(&self) -> GraphView {
        GraphView {
            orientation: self.orientation,
            nodes: self.nodes@,
            edges: self.edges@.map_values(|a: Arrow| a@),
            rows: self.rows@.map_values(|r: Vec<usize>| r@),
        }
    }
}

impl GraphView {
    /// Both axes swapped: positions, sizes and paths; the orientation flipped.
    pub open spec fn transposed(self) -> GraphView {
        GraphView {
            orientation: self.orientation.flipped(),
            nodes: self.nodes.map_values(|e: Element| e.swapped()),
            edges: self.edges.map_values(|a: ArrowView| a.swapped()),
            rows: self.rows,
        }
    }

    pub open spec fn edge_ok(self, a: ArrowView) -> bool {
        &&& a.src < self.nodes.len()
        &&& a.dst < self.nodes.len()
        &&& self.nodes[a.src as int].rank < self.nodes[a.dst as int].rank
    }

    /// Row `r` lists, in increasing handle order, exactly the nodes of rank `r`.
    pub open spec fn rows_ok(self) -> bool {
        &&& self.rows.len() <= MAX_RANK + 1
        &&& forall|r: int, i: int|
            0 <= r < self.rows.len() && 0 <= i < self.rows[r].len() ==> {
                &&& #[trigger] self.rows[r][i] < self.nodes.len()
                &&& self.nodes[self.rows[r][i] as int].rank == r
            }
        &&& forall|r: int, i: int, j: int|
            0 <= r < self.rows.len() && 0 <= i < j < self.rows[r].len() ==> #[trigger] self.rows[r][i]
                < #[trigger] self.rows[r][j]
        &&& forall|v: int|
            0 <= v < self.nodes.len() ==> {
                &&& #[trigger] self.nodes[v].rank < self.rows.len()
                &&& exists|i: int|
                    0 <= i < self.rows[self.nodes[v].rank as int].len() && #[trigger] self.rows[self.nodes[
                        v].rank as int][i] == v
            }
    }

    /// The graph in top-to-bottom coordinates, whatever its orientation.
    pub open spec fn normal(self) -> GraphView {
        if self.orientation.spec_is_top_to_bottom() {
            self
        } else {
            self.transposed()
        }
    }

    /// There is no row past the highest rank.
    pub open spec fn rows_tight(self) -> bool {
        &&& self.nodes.len() == 0 ==> self.rows.len() == 0
        &&& self.nodes.len() > 0 ==> exists|v: int|
            0 <= v < self.nodes.len() && #[trigger] self.nodes[v].rank == self.rows.len() - 1
    }

    /// Within each row, every node ends, plus `NODE_MARGIN`, before any later
    /// node of the row begins.
    pub open spec fn separated(self) -> bool {
        forall|r: int, i: int, j: int|
            0 <= r < self.rows.len() && 0 <= i < j < self.rows[r].len() ==> self.nodes[#[trigger] self.rows[
                r][i] as int].pos.x + self.nodes[self.rows[r][i] as int].size.x + NODE_MARGIN
                <= self.nodes[#[trigger] self.rows[r][j] as int].pos.x
    }

    /// Bounding boxes of `a` and `b` share an inner point.
    pub open spec fn overlap(a: Element, b: Element) -> bool {
        &&& a.pos.x < b.pos.x + b.size.x
        &&& b.pos.x < a.pos.x + a.size.x
        &&& a.pos.y < b.pos.y + b.size.y
        &&& b.pos.y < a.pos.y + a.size.y
    }

    /// Every node of a lower rank ends, plus `ROW_MARGIN`, above every node of
    /// a higher rank; nodes of one rank share their top.
    pub open spec fn stacked(self) -> bool {
        &&& forall|a: int, b: int|
            0 <= a < self.nodes.len() && 0 <= b < self.nodes.len() && (#[trigger] self.nodes[a]).rank
                < (#[trigger] self.nodes[b]).rank ==> self.nodes[a].pos.y + self.nodes[a].size.y
                + ROW_MARGIN <= self.nodes[b].pos.y
        &&& forall|a: int, b: int|
            0 <= a < self.nodes.len() && 0 <= b < self.nodes.len() && (#[trigger] self.nodes[a]).rank
                == (#[trigger] self.nodes[b]).rank ==> self.nodes[a].pos.y == self.nodes[b].pos.y
    }

    /// Same graph but for the node positions.
    pub open spec fn same_but_pos(self, o: GraphView) -> bool {
        &&& self.orientation == o.orientation
        &&& self.edges == o.edges
        &&& self.rows == o.rows
        &&& self.nodes.len() == o.nodes.len()
        &&& forall|v: int|
            0 <= v < self.nodes.len() ==> (#[trigger] self.nodes[v]).size == o.nodes[v].size
                && self.nodes[v].rank == o.nodes[v].rank
    }

    /// Every edge's path leaves the middle of its source's lower side, enters
    /// the middle of its destination's upper side, and never goes back up.
    pub open spec fn routed(self) -> bool {
        forall|e: int|
            0 <= e < self.edges.len() ==> {
                let a = #[trigger] self.edges[e];
                &&& a.path.len() >= 2
                &&& a.path[0] == self.nodes[a.src as int].bottom_center()
                &&& a.path[a.path.len() - 1] == self.nodes[a.dst as int].top_center()
                &&& forall|k: int| 0 <= k < a.path.len() - 1 ==> (#[trigger] a.path[k]).y <= a.path[k + 1].y
            }
    }

    /// Every node valid, every edge joins two nodes and runs to a later rank.
    pub open spec fn wf(self) -> bool {
        &&& self.nodes.len() <= MAX_NODES
        &&& forall|i: int| 0 <= i < self.nodes.len() ==> #[trigger] self.nodes[i].valid()
        &&& forall|i: int| 0 <= i < self.edges.len() ==> self.edge_ok(#[trigger] self.edges[i])
    }
}

/// Two nodes of one row never overlap once the row is separated.
pub proof fn lemma_separated_no_overlap(g: GraphView, r: int, i: int, j: int)
    requires
        g.rows_ok(),
        g.separated(),
        0 <= r < g.rows.len(),
        0 <= i < g.rows[r].len(),
        0 <= j < g.rows[r].len(),
        i != j,
    ensures
        !GraphView::overlap(g.nodes[g.rows[r][i] as int], g.nodes[g.rows[r][j] as int]),
{
    if i < j {
        assert(g.rows[r][i] < g.rows[r][j]);
    } else {
        assert(g.rows[r][j] < g.rows[r][i]);
    }
}

/// A row has no more entries than the graph has nodes.
pub proof fn lemma_row_len(g: GraphView, r: int)
    requires
        g.rows_ok(),
        0 <= r < g.rows.len(),
    ensures
        g.rows[r].len() <= g.nodes.len(),
{
    let s = g.rows[r];
    if s.len() > 0 {
        assert forall|k: int| 0 <= k < s.len() implies k <= #[trigger] s[k] by {
            lemma_increasing_at_least_index(s, k);
        }
        assert(s[s.len() - 1] < g.nodes.len());
    }
}

proof fn lemma_increasing_at_least_index(s: Seq<usize>, k: int)
    requires
        forall|i: int, j: int| 0 <= i < j < s.len() ==> #[trigger] s[i] < #[trigger] s[j],
        0 <= k < s.len(),
    ensures
        k <= s[k],
    decreases k,
{
    if k > 0 {
        lemma_increasing_at_least_index(s, k - 1);
        assert(s[k - 1] < s[k]);
    }
}

pub open spec fn increasing(s: Seq<usize>) -> bool {
    forall|i: int, j: int| 0 <= i < j < s.len() ==> #[trigger] s[i] < #[trigger] s[j]
}

/// Every value of `a` is in `b`.
pub open spec fn within(a: Seq<usize>, b: Seq<usize>) -> bool {
    forall|i: int| 0 <= i < a.len() ==> #[trigger] b.contains(a[i])
}

proof fn lemma_sorted_prefix(s1: Seq<usize>, s2: Seq<usize>, k: int)
    requires
        increasing(s1),
        increasing(s2),
        within(s1, s2),
        within(s2, s1),
        0 <= k <= s1.len(),
        k <= s2.len(),
    ensures
        forall|i: int| 0 <= i < k ==> s1[i] == s2[i],
    decreases k,
{
    if k > 0 {
        lemma_sorted_prefix(s1, s2, k - 1);
        let a = s1[k - 1];
        let b = s2[k - 1];
        if a < b {
            assert(s2.contains(s1[k - 1]));
            let j = choose|j: int| 0 <= j < s2.len() && s2[j] == s1[k - 1];
            if j < k - 1 {
                assert(s1[j] < s1[k - 1]);
            } else if j > k - 1 {
                assert(s2[k - 1] < s2[j]);
            }
        } else if b < a {
            assert(s1.contains(s2[k - 1]));
            let j = choose|j: int| 0 <= j < s1.len() && s1[j] == s2[k - 1];
            if j < k - 1 {
                assert(s2[j] < s2[k - 1]);
            } else if j > k - 1 {
                assert(s1[k - 1] < s1[j]);
            }
        }
    }
}

/// Two increasing sequences that hold the same values are equal.
proof fn lemma_sorted_same(s1: Seq<usize>, s2: Seq<usize>)
    requires
        increasing(s1),
        increasing(s2),
        within(s1, s2),
        within(s2, s1),
    ensures
        s1 == s2,
{
    if s1.len() < s2.len() {
        lemma_sorted_prefix(s1, s2, s1.len() as int);
        assert(s1.contains(s2[s1.len() as int]));
        let j = choose|j: int| 0 <= j < s1.len() && s1[j] == s2[s1.len() as int];
        assert(s2[j] < s2[s1.len() as int]);
    } else if s2.len() < s1.len() {
        lemma_sorted_prefix(s1, s2, s2.len() as int);
        assert(s2.contains(s1[s2.len() as int]));
        let j = choose|j: int| 0 <= j < s2.len() && s2[j] == s1[s2.len() as int];
        assert(s1[j] < s1[s2.len() as int]);
    } else {
        lemma_sorted_prefix(s1, s2, s1.len() as int);
    }
    assert(s1 =~= s2);
}

/// The ranks decide the rows: two graphs whose nodes have the same ranks and
/// whose rows are right and end at the highest rank have the same rows.
pub proof fn lemma_rows_unique(g1: GraphView, g2: GraphView)
    requires
        g1.rows_ok(),
        g1.rows_tight(),
        g2.rows_ok(),
        g2.rows_tight(),
        g1.nodes.len() == g2.nodes.len(),
        forall|v: int| 0 <= v < g1.nodes.len() ==> (#[trigger] g1.nodes[v]).rank == g2.nodes[v].rank,
    ensures
        g1.rows == g2.rows,
{
    if g1.nodes.len() > 0 {
        let w1 = choose|v: int| 0 <= v < g1.nodes.len() && #[trigger] g1.nodes[v].rank == g1.rows.len() - 1;
        let w2 = choose|v: int| 0 <= v < g2.nodes.len() && #[trigger] g2.nodes[v].rank == g2.rows.len() - 1;
        assert(g2.nodes[w1].rank < g2.rows.len());
        assert(g1.nodes[w2].rank < g1.rows.len());
    }
    assert forall|r: int| 0 <= r < g1.rows.len() implies #[trigger] g1.rows[r] == g2.rows[r] by {
        let s1 = g1.rows[r];
        let s2 = g2.rows[r];
        assert forall|i: int| 0 <= i < s1.len() implies #[trigger] s2.contains(s1[i]) by {
            let v = s1[i] as int;
            assert(g1.rows[r][i] < g1.nodes.len());
            assert(g2.nodes[v].rank == r);
            let j = choose|j: int|
                0 <= j < g2.rows[g2.nodes[v].rank as int].len() && #[trigger] g2.rows[g2.nodes[
                    v].rank as int][j] == v;
            assert(s2[j] == s1[i]);
        }
        assert forall|i: int| 0 <= i < s2.len() implies #[trigger] s1.contains(s2[i]) by {
            let v = s2[i] as int;
            assert(g2.rows[r][i] < g2.nodes.len());
            assert(g1.nodes[v].rank == r);
            let j = choose|j: int|
                0 <= j < g1.rows[g1.nodes[v].rank as int].len() && #[trigger] g1.rows[g1.nodes[
                    v].rank as int][j] == v;
            assert(s1[j] == s2[i]);
        }
        assert(increasing(s1) && increasing(s2));
        lemma_sorted_same(s1, s2);
    }
    assert(g1.rows =~= g2.rows);
}

/// Swapping the axes keeps a graph well formed and its rows in place.
pub proof fn lemma_transposed_wf(g: GraphView)
    requires
        g.wf(),
    ensures
        g.transposed().wf(),
        g.rows_ok() ==> g.transposed().rows_ok(),
{
    let t = g.transposed();
    assert forall|i: int| 0 <= i < t.nodes.len() implies #[trigger] t.nodes[i].valid() by {
        assert(g.nodes[i].valid());
    }
    assert forall|i: int| 0 <= i < t.edges.len() implies t.edge_ok(#[trigger] t.edges[i]) by {
        assert(g.edge_ok(g.edges[i]));
    }
    if g.rows_ok() {
        assert forall|v: int| 0 <= v < t.nodes.len() implies {
            &&& #[trigger] t.nodes[v].rank < t.rows.len()
            &&& exists|i: int|
                0 <= i < t.rows[t.nodes[v].rank as int].len() && #[trigger] t.rows[t.nodes[
                    v].rank as int][i] == v
        } by {
            assert(g.nodes[v].rank == t.nodes[v].rank);
        }
    }
}

/// Swapping the axes twice gives back the same graph.
pub proof fn lemma_transpose_involution(g: GraphView)
    ensures
        g.transposed().transposed() == g,
{
    let t = g.transposed().transposed();
    assert(t.nodes =~= g.nodes);
    assert forall|i: int| 0 <= i < g.edges.len() implies t.edges[i] == g.edges[i] by {
        assert(t.edges[i].path =~= g.edges[i].path);
    }
    assert(t.edges =~= g.edges);
    assert(t == g);
}

impl VisualGraph {
    pub open spec fn wf(&self) -> bool {
        self@.wf()
    }

    pub fn new(orientation: Orientation) -> (r: VisualGraph)
        ensures
            r@.orientation == orientation,
            r@.nodes.len() == 0,
            r@.edges.len() == 0,
            r@.rows.len() == 0,
            r.wf(),
    {
        VisualGraph { orientation, nodes: Vec::new(), edges: Vec::new(), rows: Vec::new() }
    }

    pub fn num_nodes(&self) -> (r: usize)
        ensures
            r == self@.nodes.len(),
    {
        self.nodes.len()
    }

    pub fn num_edges(&self) -> (r: usize)
        ensures
            r == self@.edges.len(),
    {
        self.edges.len()
    }

    pub fn orientation(&self) -> (r: Orientation)
        ensures
            r == self@.orientation,
    {
        self.orientation
    }

    pub fn element(&self, handle: usize) -> (r: Element)
        requires
            handle < self@.nodes.len(),
        ensures
            r == self@.nodes[handle as int],
    {
        self.nodes[handle]
    }

    pub fn edge_path(&self, handle: usize) -> (r: &Vec<Point>)
        requires
            handle < self@.edges.len(),
        ensures
            r@ == self@.edges[handle as int].path,
    {
        &self.edges[handle].path
    }

    /// Adds a node and returns its handle, or says why the node is refused.
    pub fn add_node(&mut self, node: Element) -> (r: Result<usize, GraphError>)
        requires
            old(self).wf(),
        ensures
            final(self).wf(),
            final(self)@.orientation == old(self)@.orientation,
            final(self)@.edges == old(self)@.edges,
            final(self)@.rows == old(self)@.rows,
            old(self)@.nodes.len() >= MAX_NODES ==> r == Err::<usize, GraphError>(GraphError::TooManyNodes),
            old(self)@.nodes.len() < MAX_NODES && !(node.size.x <= MAX_SIZE && node.size.y <= MAX_SIZE
                && node.pos.x <= MAX_COORD && node.pos.y <= MAX_COORD)
                ==> r == Err::<usize, GraphError>(GraphError::InvalidSize),
            old(self)@.nodes.len() < MAX_NODES && node.size.x <= MAX_SIZE && node.size.y <= MAX_SIZE
                && node.pos.x <= MAX_COORD && node.pos.y <= MAX_COORD && node.rank > MAX_RANK
                ==> r == Err::<usize, GraphError>(GraphError::RankTooLarge),
            r.is_ok() <==> old(self)@.nodes.len() < MAX_NODES && node.valid(),
            r.is_ok() ==> r == Ok::<usize, GraphError>(old(self)@.nodes.len() as usize)
                && final(self)@.nodes == old(self)@.nodes.push(node),
            r.is_err() ==> final(self)@.nodes == old(self)@.nodes,
    {
        if self.nodes.len() >= MAX_NODES {
            return Err(GraphError::TooManyNodes);
        }
        if !(node.size.x <= MAX_SIZE && node.size.y <= MAX_SIZE && node.pos.x <= MAX_COORD
            && node.pos.y <= MAX_COORD) {
            return Err(GraphError::InvalidSize);
        }
        if node.rank > MAX_RANK {
            return Err(GraphError::RankTooLarge);
        }
        let h = self.nodes.len();
        self.nodes.push(node);
        proof {
            assert forall|i: int| 0 <= i < self@.edges.len() implies self@.edge_ok(
                #[trigger] self@.edges[i],
            ) by {
                assert(old(self)@.edge_ok(old(self)@.edges[i]));
            }
        }
        Ok(h)
    }

    /// Connects `src` to `dst` with `arrow` and returns the edge's handle, or
    /// says why the edge is refused.
    pub fn add_edge(&mut self, arrow: Arrow, src: usize, dst: usize) -> (r: Result<usize, GraphError>)
        requires
            old(self).wf(),
        ensures
            final(self).wf(),
            final(self)@.orientation == old(self)@.orientation,
            final(self)@.nodes == old(self)@.nodes,
            final(self)@.rows == old(self)@.rows,
            src >= old(self)@.nodes.len() ==> r == Err::<usize, GraphError>(GraphError::BadHandle(src)),
            src < old(self)@.nodes.len() && dst >= old(self)@.nodes.len()
                ==> r == Err::<usize, GraphError>(GraphError::BadHandle(dst)),
            src < old(self)@.nodes.len() && dst < old(self)@.nodes.len()
                && old(self)@.nodes[src as int].rank >= old(self)@.nodes[dst as int].rank
                ==> r == Err::<usize, GraphError>(GraphError::NotForward),
            r.is_ok() <==> src < old(self)@.nodes.len() && dst < old(self)@.nodes.len()
                && old(self)@.nodes[src as int].rank < old(self)@.nodes[dst as int].rank,
            r.is_ok() ==> r == Ok::<usize, GraphError>(old(self)@.edges.len() as usize)
                && final(self)@.edges == old(self)@.edges.push(
                (ArrowView { src, dst, dashed: arrow.dashed, path: Seq::empty() }),
            ),
            r.is_err() ==> final(self)@.edges == old(self)@.edges,
    {
        let n = self.nodes.len();
        if src >= n {
            return Err(GraphError::BadHandle(src));
        }
        if dst >= n {
            return Err(GraphError::BadHandle(dst));
        }
        if self.nodes[src].rank >= self.nodes[dst].rank {
            return Err(GraphError::NotForward);
        }
        let h = self.edges.len();
        let a = Arrow { src, dst, dashed: arrow.dashed, path: Vec::new() };
        self.edges.push(a);
        proof {
            assert(self@.edges =~= old(self)@.edges.push(
                (ArrowView { src, dst, dashed: arrow.dashed, path: Seq::empty() }),
            ));
        }
        Ok(h)
    }

    /// Moves node `v` to `pos`.
    pub fn set_pos(&mut self, v: usize, pos: Point)
        requires
            old(self).wf(),
            v < old(self)@.nodes.len(),
            pos.x <= MAX_COORD,
            pos.y <= MAX_COORD,
        ensures
            final(self).wf(),
            final(self)@.orientation == old(self)@.orientation,
            final(self)@.edges == old(self)@.edges,
            final(self)@.rows == old(self)@.rows,
            final(self)@.nodes == old(self)@.nodes.update(
                v as int,
                Element { pos, ..old(self)@.nodes[v as int] },
            ),
    {
        let old_e = self.nodes[v];
        self.nodes.set(v, Element { size: old_e.size, pos, rank: old_e.rank });
        proof {
            assert forall|k: int| 0 <= k < self@.edges.len() implies self@.edge_ok(
                #[trigger] self@.edges[k],
            ) by {
                assert(old(self)@.edge_ok(old(self)@.edges[k]));
            }
            assert forall|k: int| 0 <= k < self@.nodes.len() implies #[trigger] self@.nodes[k].valid() by {
                assert(old(self)@.nodes[k].valid());
            }
        }
    }

    /// Swaps the two axes of every node and path and flips the orientation.
    pub fn transpose(&mut self)
        ensures
            final(self)@ == old(self)@.transposed(),
    {
        self.orientation = self.orientation.flip();
        let n = self.nodes.len();
        let mut i: usize = 0;
        while i < n
            invariant
                n == self.nodes.len(),
                n == old(self)@.nodes.len(),
                0 <= i <= n,
                forall|k: int| 0 <= k < i ==> self.nodes[k] == old(self).nodes[k].swapped(),
                forall|k: int| i <= k < n ==> self.nodes[k] == old(self).nodes[k],
                self.edges == old(self).edges,
                self.rows == old(self).rows,
                self.orientation == old(self).orientation.flipped(),
            decreases n - i,
        {
            let e = self.nodes[i].transpose();
            self.nodes.set(i, e);
            i = i + 1;
        }
        assert(self@.nodes =~= old(self)@.transposed().nodes);
        let m = self.edges.len();
        let mut j: usize = 0;
        while j < m
            invariant
                m == self.edges.len(),
                m == old(self)@.edges.len(),
                0 <= j <= m,
                forall|k: int| 0 <= k < j ==> #[trigger] self.edges[k]@ == old(self).edges[k]@.swapped(),
                forall|k: int| j <= k < m ==> #[trigger] self.edges[k]@ == old(self).edges[k]@,
                self.rows == old(self).rows,
                self.orientation == old(self).orientation.flipped(),
                self@.nodes == old(self)@.transposed().nodes,
            decreases m - j,
        {
            let mut path: Vec<Point> = Vec::new();
            let len = self.edges[j].path.len();
            let mut t: usize = 0;
            while t < len
                invariant
                    j < m,
                    m == self.edges.len(),
                    m == old(self)@.edges.len(),
                    self.edges[j as int]@ == old(self).edges[j as int]@,
                    len == self.edges[j as int].path.len(),
                    0 <= t <= len,
                    path@.len() == t,
                    forall|q: int| 0 <= q < t ==> path@[q] == self.edges[j as int].path@[q].swapped(),
                decreases len - t,
            {
                let p = self.edges[j].path[t].transpose();
                path.push(p);
                t = t + 1;
            }
            let a = Arrow {
                src: self.edges[j].src,
                dst: self.edges[j].dst,
                dashed: self.edges[j].dashed,
                path,
            };
            assert(a@.path =~= old(self).edges[j as int]@.swapped().path);
            self.edges.set(j, a);
            j = j + 1;
        }
        proof {
            assert(self@.edges =~= old(self)@.transposed().edges);
            assert(self@.rows =~= old(self)@.transposed().rows);
        }
    }
}

} // verus!
