//! Board graphs: vertices, adjacency, precomputed distances and the moves each
//! faction may make.

use crate::game::paths::{
    adj_in_range, adj_view, bfs_levels, edge, is_walk, lemma_level_is_shortest, lemma_path_pred,
    lemma_path_step, lemma_reach_in_range, lemma_reach_mono, lemma_shortest_unique,
    lemma_unreached_no_path, levels_match, path_within, shortest_len, shortest_matches,
    slice_contains,
};
use vstd::prelude::*;

verus! {

/// The role a vertex plays on its board.
#[derive(Debug, Clone, Copy, PartialEq, Eq, Hash, Structural)]
pub enum NodeType {
    TargetCoop,
    Standard,
    Bottleneck,
    FoxStart,
}

/// A vertex of a board.
#[derive(Debug, Clone)]
pub struct Node {
    pub id: usize,
    pub name: String,
    pub row: usize,
    pub col: usize,
    pub node_type: NodeType,
    /// Horizontal position on the board artwork, in tenths of an artwork pixel.
    pub visual_x: u32,
    /// Vertical position on the board artwork, in tenths of an artwork pixel.
    pub visual_y: u32,
}

/// An undirected board graph with all-pairs shortest distances.
#[derive(Debug, Clone)]
pub struct Graph {
    pub nodes: Vec<Node>,
    pub adjacency: Vec<Vec<usize>>,
    /// `dist_matrix[s * n + t]` is the shortest distance from `s` to `t`, if any.
    pub dist_matrix: Vec<Option<usize>>,
}

/// `adj` with the edge `u -> v` added unless it is already there.
pub open spec fn link(adj: Seq<Seq<usize>>, u: usize, v: usize) -> Seq<Seq<usize>> {
    if adj[u as int].contains(v) {
        adj
    } else {
        adj.update(u as int, adj[u as int].push(v))
    }
}

/// `adj` with the undirected edge `e` added, when both its ends are vertices.
pub open spec fn add_edge(adj: Seq<Seq<usize>>, e: (usize, usize)) -> Seq<Seq<usize>> {
    if (e.0 as int) < adj.len() && (e.1 as int) < adj.len() {
        link(link(adj, e.0, e.1), e.1, e.0)
    } else {
        adj
    }
}

/// The adjacency lists of `n` vertices after adding `edges` in order.
pub open spec fn adjacency_from(n: nat, edges: Seq<(usize, usize)>) -> Seq<Seq<usize>>
    decreases edges.len(),
{
    if edges.len() == 0 {
        Seq::new(n, |i: int| Seq::<usize>::empty())
    } else {
        add_edge(adjacency_from(n, edges.drop_last()), edges.last())
    }
}

pub proof fn lemma_adjacency_from_in_range(n: nat, edges: Seq<(usize, usize)>)
    ensures
        adjacency_from(n, edges).len() == n,
        adj_in_range(adjacency_from(n, edges)),
    decreases edges.len(),
{
    if edges.len() > 0 {
        lemma_adjacency_from_in_range(n, edges.drop_last());
        let a = adjacency_from(n, edges.drop_last());
        let e = edges.last();
        if (e.0 as int) < a.len() && (e.1 as int) < a.len() {
            let a1 = link(a, e.0, e.1);
            assert(adj_in_range(a1)) by {
                assert forall|u: int, j: int| 0 <= u < a1.len() && 0 <= j < a1[u].len() implies (
                #[trigger] a1[u][j] as int) < a1.len() by {
                    if u == e.0 as int && !a[u].contains(e.1) && j == a[u].len() {
                    } else {
                        assert(a1[u][j] == a[u][j]);
                    }
                }
            }
            let a2 = link(a1, e.1, e.0);
            assert(adj_in_range(a2)) by {
                assert forall|u: int, j: int| 0 <= u < a2.len() && 0 <= j < a2[u].len() implies (
                #[trigger] a2[u][j] as int) < a2.len() by {
                    if u == e.1 as int && !a1[u].contains(e.0) && j == a1[u].len() {
                    } else {
                        assert(a2[u][j] == a1[u][j]);
                    }
                }
            }
        }
    }
}

/// Every edge of `adj` goes both ways.
pub open spec fn symmetric(adj: Seq<Seq<usize>>) -> bool {
    forall|u: usize, v: usize| #[trigger] edge(adj, u, v) ==> edge(adj, v, u)
}

/// The edges of `link(adj, u, v)` are those of `adj` and `u -> v`.
proof fn lemma_link_edges(adj: Seq<Seq<usize>>, u: usize, v: usize, x: usize, y: usize)
    requires
        (u as int) < adj.len(),
    ensures
        edge(link(adj, u, v), x, y) <==> (edge(adj, x, y) || (x == u && y == v)),
{
    let a1 = link(adj, u, v);
    if !adj[u as int].contains(v) {
        if x == u {
            if adj[u as int].contains(y) {
                let j = choose|j: int| 0 <= j < adj[u as int].len() && adj[u as int][j] == y;
                assert(a1[u as int][j] == y);
            }
            if a1[u as int].contains(y) {
                let j = choose|j: int| 0 <= j < a1[u as int].len() && a1[u as int][j] == y;
                if j < adj[u as int].len() {
                    assert(adj[u as int][j] == y);
                }
            }
            if y == v {
                assert(a1[u as int][adj[u as int].len() as int] == v);
            }
        }
    }
}

/// The boards are undirected: a graph built from a list of edges has every edge both
/// ways.
pub proof fn lemma_adjacency_symmetric(n: nat, edges: Seq<(usize, usize)>)
    ensures
        symmetric(adjacency_from(n, edges)),
    decreases edges.len(),
{
    if edges.len() > 0 {
        lemma_adjacency_symmetric(n, edges.drop_last());
        lemma_adjacency_from_in_range(n, edges.drop_last());
        let a = adjacency_from(n, edges.drop_last());
        let e = edges.last();
        if (e.0 as int) < a.len() && (e.1 as int) < a.len() {
            let a1 = link(a, e.0, e.1);
            let a2 = link(a1, e.1, e.0);
            assert forall|x: usize, y: usize| #[trigger] edge(a2, x, y) implies edge(a2, y, x) by {
                lemma_link_edges(a, e.0, e.1, x, y);
                lemma_link_edges(a1, e.1, e.0, x, y);
                lemma_link_edges(a, e.0, e.1, y, x);
                lemma_link_edges(a1, e.1, e.0, y, x);
            }
        }
    }
}

/// No adjacency list holds a vertex twice.
pub open spec fn no_repeats(adj: Seq<Seq<usize>>) -> bool {
    forall|u: int| 0 <= u < adj.len() ==> (#[trigger] adj[u]).no_duplicates()
}

/// Adding an edge never repeats a neighbour: a graph built from a list of edges holds
/// each neighbour once, however often the list names the edge.
pub proof fn lemma_adjacency_no_repeats(n: nat, edges: Seq<(usize, usize)>)
    ensures
        no_repeats(adjacency_from(n, edges)),
    decreases edges.len(),
{
    if edges.len() == 0 {
        assert forall|u: int| 0 <= u < n implies (#[trigger] adjacency_from(n, edges)[u]).no_duplicates() by {
            assert(adjacency_from(n, edges)[u] =~= Seq::<usize>::empty());
        }
    } else {
        lemma_adjacency_no_repeats(n, edges.drop_last());
        lemma_adjacency_from_in_range(n, edges.drop_last());
        let a = adjacency_from(n, edges.drop_last());
        let e = edges.last();
        if (e.0 as int) < a.len() && (e.1 as int) < a.len() {
            lemma_link_no_repeats(a, e.0, e.1);
            lemma_link_no_repeats(link(a, e.0, e.1), e.1, e.0);
        }
    }
}

proof fn lemma_link_no_repeats(adj: Seq<Seq<usize>>, u: usize, v: usize)
    requires
        (u as int) < adj.len(),
        no_repeats(adj),
    ensures
        no_repeats(link(adj, u, v)),
{
    let a1 = link(adj, u, v);
    assert forall|x: int| 0 <= x < a1.len() implies (#[trigger] a1[x]).no_duplicates() by {
        if x == u as int && !adj[u as int].contains(v) {
            let l = adj[u as int];
            let l2 = l.push(v);
            assert(a1[x] == l2);
            assert forall|i: int, j: int| 0 <= i < l2.len() && 0 <= j < l2.len() && i != j implies l2[i]
                != l2[j] by {
                if i < l.len() && j < l.len() {
                    assert(l.no_duplicates());
                } else if i == l.len() {
                    assert(l2[j] == l[j]);
                } else {
                    assert(l2[i] == l[i]);
                }
            }
        } else {
            assert(a1[x] == adj[x]);
        }
    }
}

/// `w` walked backwards.
pub open spec fn reversed(w: Seq<usize>) -> Seq<usize> {
    Seq::new(w.len(), |i: int| w[w.len() - 1 - i])
}

/// On an undirected board a walk can be walked backwards.
proof fn lemma_walk_reversed(adj: Seq<Seq<usize>>, s: usize, w: Seq<usize>)
    requires
        symmetric(adj),
        is_walk(adj, Seq::empty(), s, w),
    ensures
        is_walk(adj, Seq::empty(), w.last(), reversed(w)),
        reversed(w).last() == s,
        reversed(w).len() == w.len(),
{
    let r = reversed(w);
    let n = w.len();
    assert forall|i: int, j: int| 0 <= i && j == i + 1 && j < r.len() implies edge(adj, #[trigger] r[i], #[trigger] r[j]) by {
        let a = n - 1 - j;
        assert(w[a] == r[j] && w[a + 1] == r[i]);
        assert(edge(adj, w[a], w[a + 1]));
    }
    assert forall|i: int| 1 <= i < r.len() - 1 implies !Seq::<usize>::empty().contains(#[trigger] r[i]) by {
    }
}

/// Without obstacles, walks of a given length lead from `s` to `t` exactly when they
/// lead from `t` to `s`.
proof fn lemma_path_within_symmetric(adj: Seq<Seq<usize>>, s: usize, t: usize, k: nat)
    requires
        symmetric(adj),
    ensures
        path_within(adj, Seq::empty(), s, t, k) ==> path_within(adj, Seq::empty(), t, s, k),
{
    if path_within(adj, Seq::empty(), s, t, k) {
        let w = choose|w: Seq<usize>| #[trigger] is_walk(adj, Seq::empty(), s, w) && w.last() == t && w.len() <= k + 1;
        lemma_walk_reversed(adj, s, w);
        assert(is_walk(adj, Seq::empty(), t, reversed(w)));
    }
}

/// On an undirected board the distance from `s` to `t` is the distance from `t` to
/// `s`.
pub proof fn lemma_distance_symmetric(g: Graph, s: usize, t: usize)
    requires
        g.wf(),
        symmetric(g.adj()),
        (s as int) < g.nodes@.len(),
        (t as int) < g.nodes@.len(),
    ensures
        g.spec_distance(s, t) == g.spec_distance(t, s),
{
    let adj = g.adj();
    let e = Seq::<usize>::empty();
    assert(shortest_matches(adj, e, s, t, g.spec_distance(s, t)));
    assert(shortest_matches(adj, e, t, s, g.spec_distance(t, s)));
    assert forall|k: nat|
        #![trigger path_within(adj, e, s, t, k)]
        #![trigger path_within(adj, e, t, s, k)]
        path_within(adj, e, s, t, k) == path_within(adj, e, t, s, k) by {
        lemma_path_within_symmetric(adj, s, t, k);
        lemma_path_within_symmetric(adj, t, s, k);
    }
    match g.spec_distance(t, s) {
        Some(d) => {
            assert(path_within(adj, e, t, s, d as nat));
            assert(path_within(adj, e, s, t, d as nat));
        },
        None => {},
    }
    assert(shortest_matches(adj, e, s, t, g.spec_distance(t, s)));
    lemma_shortest_unique(adj, e, s, t, g.spec_distance(s, t));
    lemma_shortest_unique(adj, e, s, t, g.spec_distance(t, s));
}

/// A hound's moves are exactly the neighbours of its vertex that are vertices of
/// the board, are neither the fox's vertex, a hound's vertex nor a coop-type
/// vertex, are not the coop unless hounds may enter it, and, where hounds may not
/// retreat, lie on a row no lower than the hound's own: sideways and forward steps
/// stay legal.
pub proof fn lemma_hound_moves_exact(
    g: Graph,
    hound: usize,
    fox: usize,
    coop: usize,
    hounds: Seq<usize>,
    allow_retreat: bool,
    allow_in_coop: bool,
    t: usize,
)
    ensures
        g.spec_hound_moves(hound, fox, coop, hounds, allow_retreat, allow_in_coop).contains(t)
            <==> {
            &&& g.spec_neighbors(hound).contains(t)
            &&& (t as int) < g.nodes@.len()
            &&& t != fox
            &&& !hounds.contains(t)
            &&& g.nodes@[t as int].node_type != NodeType::TargetCoop
            &&& allow_in_coop || t != coop
            &&& allow_retreat || (hound as int) >= g.nodes@.len() || g.nodes@[t as int].row
                >= g.nodes@[hound as int].row
        },
{
    let nb = g.spec_neighbors(hound);
    let pred = hound_filter(g.nodes@, hound, fox, coop, hounds, allow_retreat, allow_in_coop);
    let moves = nb.filter(pred);
    if moves.contains(t) {
        let k = choose|k: int| 0 <= k < moves.len() && moves[k] == t;
        nb.lemma_filter_pred(pred, k);
        nb.lemma_filter_contains_rev(pred, t);
    }
    if nb.contains(t) && pred(t) {
        let k = choose|k: int| 0 <= k < nb.len() && nb[k] == t;
        nb.lemma_filter_contains(pred, k);
    }
}

/// The vertex may be entered by a hound moving from `hound` when the fox stands on
/// `fox`, the coop is `coop` and the hounds stand on `hounds`.
pub open spec fn hound_may_enter(
    nodes: Seq<Node>,
    hound: usize,
    fox: usize,
    coop: usize,
    hounds: Seq<usize>,
    allow_retreat: bool,
    allow_in_coop: bool,
    t: usize,
) -> bool {
    &&& t != fox
    &&& allow_in_coop || t != coop
    &&& !hounds.contains(t)
    &&& (t as int) < nodes.len()
    &&& nodes[t as int].node_type != NodeType::TargetCoop
    &&& allow_retreat || !((hound as int) < nodes.len() && nodes[t as int].row < nodes[hound as int].row)
}

/// Which neighbours a hound may move to.
pub open spec fn hound_filter(
    nodes: Seq<Node>,
    hound: usize,
    fox: usize,
    coop: usize,
    hounds: Seq<usize>,
    allow_retreat: bool,
    allow_in_coop: bool,
) -> spec_fn(usize) -> bool {
    |t: usize| hound_may_enter(nodes, hound, fox, coop, hounds, allow_retreat, allow_in_coop, t)
}

/// Which neighbours the fox may move to: those free of hounds.
pub open spec fn fox_filter(hounds: Seq<usize>) -> spec_fn(usize) -> bool {
    |t: usize| !hounds.contains(t)
}

/// Which vertices the fox may enter the board on.
pub open spec fn entry_filter(nodes: Seq<Node>, hounds: Seq<usize>, coop: usize) -> spec_fn(
    usize,
) -> bool {
    |t: usize|
        !hounds.contains(t) && t != coop && !((t as int) < nodes.len() && nodes[t as int].node_type
            == NodeType::TargetCoop)
}

/// `x` occurs in `v`.
pub fn vec_contains(v: &Vec<usize>, x: usize) -> (r: bool)
    ensures
        r == v@.contains(x),
{
    slice_contains(v.as_slice(), x)
}

/// The two strings hold the same characters.
pub fn str_equal(a: &str, b: &str) -> (r: bool)
    ensures
        r == (a@ == b@),
{
    let n = a.unicode_len();
    if n != b.unicode_len() {
        return false;
    }
    let mut i: usize = 0;
    while i < n
        invariant
            n == a@.len(),
            n == b@.len(),
            i <= n,
            forall|j: int| 0 <= j < i ==> a@[j] == b@[j],
        decreases n - i,
    {
        if a.get_char(i) != b.get_char(i) {
            return false;
        }
        i = i + 1;
    }
    assert(a@ =~= b@);
    true
}

proof fn lemma_square_index(s: int, t: int, n: int)
    requires
        0 <= s < n,
        0 <= t < n,
    ensures
        s * n + t < n * n,
        0 <= s * n + t,
{
    assert(s * n + t < (s + 1) * n) by (nonlinear_arith)
        requires
            0 <= t < n,
    ;
    assert((s + 1) * n <= n * n) by (nonlinear_arith)
        requires
            0 <= s < n,
    ;
    assert(0 <= s * n) by (nonlinear_arith)
        requires
            0 <= s,
            0 <= n,
    ;
}

proof fn lemma_row_index(s1: int, t1: int, s: int, n: int)
    requires
        0 <= s1 < s,
        0 <= t1 < n,
    ensures
        s1 * n + t1 < s * n,
        0 <= s1 * n + t1,
{
    assert(s1 * n + t1 < (s1 + 1) * n) by (nonlinear_arith)
        requires
            0 <= t1 < n,
    ;
    assert((s1 + 1) * n <= s * n) by (nonlinear_arith)
        requires
            0 <= s1 < s,
            0 <= n,
    ;
    assert(0 <= s1 * n) by (nonlinear_arith)
        requires
            0 <= s1,
            0 <= n,
    ;
}

/// The index of the last of `nodes` named `name`.
pub open spec fn spec_find_name(nodes: Seq<Node>, name: Seq<char>) -> Option<usize>
    decreases nodes.len(),
{
    if nodes.len() == 0 {
        None
    } else if nodes.last().name@ == name {
        Some((nodes.len() - 1) as usize)
    } else {
        spec_find_name(nodes.drop_last(), name)
    }
}

pub proof fn lemma_find_name_found(nodes: Seq<Node>, name: Seq<char>)
    requires
        nodes.len() <= usize::MAX,
    ensures
        spec_find_name(nodes, name) matches Some(i) ==> (i as int) < nodes.len() && nodes[i as int].name@
            == name,
    decreases nodes.len(),
{
    if nodes.len() > 0 && nodes.last().name@ != name {
        lemma_find_name_found(nodes.drop_last(), name);
        if let Some(i) = spec_find_name(nodes.drop_last(), name) {
            assert(nodes.drop_last()[i as int] == nodes[i as int]);
        }
    }
}

/// The index of the last of `nodes` named `name`, if any.
pub fn find_node_by_name(nodes: &Vec<Node>, name: &str) -> (r: Option<usize>)
    ensures
        r == spec_find_name(nodes@, name@),
        r matches Some(i) ==> (i as int) < nodes@.len() && nodes@[i as int].name@ == name@,
{
    let mut i = nodes.len();
    proof {
        lemma_find_name_found(nodes@, name@);
        assert(nodes@.take(nodes@.len() as int) =~= nodes@);
    }
    while i > 0
        invariant
            i <= nodes@.len(),
            spec_find_name(nodes@, name@) == spec_find_name(nodes@.take(i as int), name@),
        decreases i,
    {
        proof {
            assert(nodes@.take(i as int).drop_last() =~= nodes@.take(i - 1));
            assert(nodes@.take(i as int).last() == nodes@[i - 1]);
        }
        i = i - 1;
        if str_equal(nodes[i].name.as_str(), name) {
            return Some(i);
        }
    }
    None
}

impl Graph {
    /// The adjacency lists as sequences.
    pub open spec fn adj(&self) -> Seq<Seq<usize>> {
        adj_view(self.adjacency@)
    }

    pub open spec fn spec_node_count(&self) -> nat {
        self.nodes@.len()
    }

    /// The precomputed distance from `s` to `t`; `None` for a vertex outside the board.
    pub open spec fn spec_distance(&self, s: usize, t: usize) -> Option<usize> {
        let n = self.nodes@.len();
        if (s as int) < n && (t as int) < n {
            self.dist_matrix@[s * n + t]
        } else {
            None
        }
    }

    /// The shortest distance from `s` to `t` through vertices outside `obstacles`
    /// (`t` itself may be one); without obstacles, the precomputed distance.
    pub open spec fn spec_shortest_distance(&self, s: usize, t: usize, obstacles: Seq<usize>) -> Option<
        usize,
    > {
        let n = self.nodes@.len();
        if obstacles.len() == 0 {
            self.spec_distance(s, t)
        } else if s == t {
            Some(0)
        } else if !((s as int) < n && (t as int) < n) {
            None
        } else {
            shortest_len(self.adj(), obstacles, s, t)
        }
    }

    /// The neighbours of `id`; none for a vertex outside the board.
    pub open spec fn spec_neighbors(&self, id: usize) -> Seq<usize> {
        if (id as int) < self.adjacency@.len() {
            self.adj()[id as int]
        } else {
            Seq::empty()
        }
    }

    /// Adjacency lists and distances describe the vertices of this graph, and every
    /// stored distance is the true shortest distance.
    pub open spec fn wf(&self) -> bool {
        let n = self.nodes@.len();
        &&& self.adjacency@.len() == n
        &&& adj_in_range(self.adj())
        &&& self.dist_matrix@.len() == n * n
        &&& forall|s: usize, t: usize|
            (s as int) < n && (t as int) < n ==> shortest_matches(
                self.adj(),
                Seq::empty(),
                s,
                t,
                #[trigger] self.spec_distance(s, t),
            )
        &&& forall|s: usize, t: usize|
            #[trigger] self.spec_distance(s, t) matches Some(d) ==> (d as int) < n
    }

    /// The fox's moves from `fox` when the hounds stand on `hounds`.
    pub open spec fn spec_fox_moves(&self, fox: usize, hounds: Seq<usize>) -> Seq<usize> {
        self.spec_neighbors(fox).filter(fox_filter(hounds))
    }

    /// The vertices the fox may enter the board on.
    pub open spec fn spec_entry_moves(&self, hounds: Seq<usize>, coop: usize) -> Seq<usize> {
        self.nodes@.map_values(|n: Node| n.id).filter(entry_filter(self.nodes@, hounds, coop))
    }

    /// The moves of the hound standing on `hound`.
    pub open spec fn spec_hound_moves(
        &self,
        hound: usize,
        fox: usize,
        coop: usize,
        hounds: Seq<usize>,
        allow_retreat: bool,
        allow_in_coop: bool,
    ) -> Seq<usize> {
        self.spec_neighbors(hound).filter(
            hound_filter(self.nodes@, hound, fox, coop, hounds, allow_retreat, allow_in_coop),
        )
    }

    /// Builds a graph on `nodes` with the undirected `edges` whose ends are both
    /// vertices (each edge listed once per end, in order of first mention), and
    /// precomputes all shortest distances.
    pub fn new(nodes: Vec<Node>, edges: &[(usize, usize)]) -> (g: Self)
        ensures
            g.nodes@ == nodes@,
            g.adj() == adjacency_from(nodes@.len(), edges@),
            symmetric(g.adj()),
            no_repeats(g.adj()),
            g.wf(),
    {
        let n = nodes.len();
        let mut adjacency: Vec<Vec<usize>> = Vec::new();
        let mut i: usize = 0;
        while i < n
            invariant
                i <= n,
                adjacency@.len() == i,
                forall|j: int| 0 <= j < i ==> adjacency@[j]@ == Seq::<usize>::empty(),
            decreases n - i,
        {
            adjacency.push(Vec::new());
            i = i + 1;
        }
        assert(adj_view(adjacency@) =~= adjacency_from(n as nat, edges@.take(0)));
        let mut ei: usize = 0;
        while ei < edges.len()
            invariant
                ei <= edges@.len(),
                adjacency@.len() == n,
                adj_view(adjacency@) == adjacency_from(n as nat, edges@.take(ei as int)),
            decreases edges@.len() - ei,
        {
            let (u, v) = edges[ei];
            let ghost before = adj_view(adjacency@);
            proof {
                assert(edges@.take(ei + 1).drop_last() =~= edges@.take(ei as int));
                assert(edges@.take(ei + 1).last() == (u, v));
            }
            if u < n && v < n {
                if !vec_contains(&adjacency[u], v) {
                    adjacency[u].push(v);
                }
                let ghost mid = adj_view(adjacency@);
                proof {
                    assert(mid =~= link(before, u, v));
                }
                if !vec_contains(&adjacency[v], u) {
                    adjacency[v].push(u);
                }
                proof {
                    assert(adj_view(adjacency@) =~= link(mid, v, u));
                }
            }
            ei = ei + 1;
        }
        proof {
            assert(edges@.take(edges@.len() as int) =~= edges@);
            lemma_adjacency_from_in_range(n as nat, edges@);
            lemma_adjacency_symmetric(n as nat, edges@);
            lemma_adjacency_no_repeats(n as nat, edges@);
        }
        let ghost a = adj_view(adjacency@);
        let no_obstacles: Vec<usize> = Vec::new();
        let mut dist_matrix: Vec<Option<usize>> = Vec::new();
        let mut s: usize = 0;
        while s < n
            invariant
                n == nodes@.len(),
                adjacency@.len() == n,
                a == adj_view(adjacency@),
                adj_in_range(a),
                no_obstacles@ == Seq::<usize>::empty(),
                s <= n,
                dist_matrix@.len() == s * n,
                forall|s1: int, t1: int|
                    0 <= s1 < s && 0 <= t1 < n ==> shortest_matches(
                        a,
                        Seq::empty(),
                        s1 as usize,
                        t1 as usize,
                        #[trigger] dist_matrix@[s1 * n + t1],
                    ) && (dist_matrix@[s1 * n + t1] matches Some(d) ==> (d as int) < n),
            decreases n - s,
        {
            let levels = bfs_levels(&adjacency, s, no_obstacles.as_slice());
            let mut t: usize = 0;
            proof {
                assert(s * n + 0 == s * n);
            }
            while t < n
                invariant
                    n == nodes@.len(),
                        a.len() == n,
                    s < n,
                    t <= n,
                    dist_matrix@.len() == s * n + t,
                    levels_match(a, Seq::empty(), s, levels@),
                    forall|s1: int, t1: int|
                        0 <= s1 < s && 0 <= t1 < n ==> shortest_matches(
                            a,
                            Seq::empty(),
                            s1 as usize,
                            t1 as usize,
                            #[trigger] dist_matrix@[s1 * n + t1],
                        ) && (dist_matrix@[s1 * n + t1] matches Some(d) ==> (d as int) < n),
                    forall|t1: int|
                        0 <= t1 < t ==> shortest_matches(
                            a,
                            Seq::empty(),
                            s,
                            t1 as usize,
                            #[trigger] dist_matrix@[s * n + t1],
                        ) && (dist_matrix@[s * n + t1] matches Some(d) ==> (d as int) < n),
                decreases n - t,
            {
                let ghost before = dist_matrix@;
                let entry = levels[t];
                proof {
                    let tu = t as usize;
                    assert(levels@[tu as int] == entry);
                    match entry {
                        Some(d) => {
                            lemma_level_is_shortest(a, Seq::empty(), s, tu, d as nat);
                        },
                        None => {
                            lemma_unreached_no_path(a, Seq::empty(), s, tu);
                        },
                    }
                }
                dist_matrix.push(entry);
                proof {
                    assert forall|s1: int, t1: int| 0 <= s1 < s && 0 <= t1 < n implies #[trigger] dist_matrix@[s1
                        * n + t1] == before[s1 * n + t1] by {
                        lemma_row_index(s1, t1, s as int, n as int);
                    }
                    assert forall|t1: int| 0 <= t1 < t implies #[trigger] dist_matrix@[s * n + t1] == before[s * n
                        + t1] by {}
                    assert(dist_matrix@[s * n + t] == entry);
                }
                t = t + 1;
            }
            proof {
                assert((s + 1) * n == s * n + n) by (nonlinear_arith);
                assert forall|s1: int, t1: int| 0 <= s1 < s + 1 && 0 <= t1 < n implies shortest_matches(
                    a,
                    Seq::empty(),
                    s1 as usize,
                    t1 as usize,
                    #[trigger] dist_matrix@[s1 * n + t1],
                ) && (dist_matrix@[s1 * n + t1] matches Some(d) ==> (d as int) < n) by {
                    if s1 == s {
                    }
                }
            }
            s = s + 1;
        }
        let g = Graph { nodes, adjacency, dist_matrix };
        proof {
            assert forall|s1: usize, t1: usize| (s1 as int) < n && (t1 as int) < n implies shortest_matches(
                g.adj(),
                Seq::empty(),
                s1,
                t1,
                #[trigger] g.spec_distance(s1, t1),
            ) by {
                lemma_square_index(s1 as int, t1 as int, n as int);
                assert(g.spec_distance(s1, t1) == dist_matrix@[s1 * n + t1]);
            }
            assert forall|s1: usize, t1: usize| #[trigger] g.spec_distance(s1, t1) is Some implies (
            g.spec_distance(s1, t1)->0 as int) < n by {
                if (s1 as int) < n && (t1 as int) < n {
                    lemma_square_index(s1 as int, t1 as int, n as int);
                }
            }
        }
        g
    }

    pub fn node_count(&self) -> (r: usize)
        ensures
            r == self.nodes@.len(),
    {
        self.nodes.len()
    }

    /// The vertex with index `id`, if there is one.
    pub fn node(&self, id: usize) -> (r: Option<&Node>)
        ensures
            (id as int) < self.nodes@.len() ==> r == Some(&self.nodes@[id as int]),
            (id as int) >= self.nodes@.len() ==> r is None,
    {
        if id < self.nodes.len() {
            Some(&self.nodes[id])
        } else {
            None
        }
    }

    /// The index of the last vertex named `name`, if any vertex has that name.
    pub fn find_id_by_name(&self, name: &str) -> (r: Option<usize>)
        ensures
            r == spec_find_name(self.nodes@, name@),
            r matches Some(i) ==> (i as int) < self.nodes@.len() && self.nodes@[i as int].name@ == name@,
    {
        find_node_by_name(&self.nodes, name)
    }

    /// The neighbours of `node_id`; none for a vertex outside the board.
    pub fn neighbors(&self, node_id: usize) -> (r: &[usize])
        requires
            self.wf(),
        ensures
            r@ == self.spec_neighbors(node_id),
    {
        if node_id < self.adjacency.len() {
            self.adjacency[node_id].as_slice()
        } else {
            &[]
        }
    }

    /// Returns the precomputed shortest distance between two vertices.
    pub fn distance(&self, start: usize, target: usize) -> (r: Option<usize>)
        requires
            self.wf(),
        ensures
            r == self.spec_distance(start, target),
    {
        let n = self.nodes.len();
        if start < n && target < n {
            let total = self.dist_matrix.len();
            proof {
                lemma_square_index(start as int, target as int, n as int);
                assert((start as int) * (n as int) + (target as int) < self.dist_matrix@.len());
                assert((start as int) * (n as int) <= usize::MAX);
            }
            self.dist_matrix[start * n + target]
        } else {
            None
        }
    }

    /// Shortest distance from `start` to `target` through vertices outside
    /// `obstacles` (`target` itself may be one). Without obstacles this is the
    /// precomputed distance.
    pub fn shortest_distance(&self, start: usize, target: usize, obstacles: &[usize]) -> (r: Option<
        usize,
    >)
        requires
            self.wf(),
        ensures
            obstacles@.len() == 0 ==> r == self.spec_distance(start, target),
            obstacles@.len() > 0 && start == target ==> r == Some(0usize),
            obstacles@.len() > 0 && start != target && !((start as int) < self.nodes@.len() && (
            target as int) < self.nodes@.len()) ==> r is None,
            obstacles@.len() > 0 && start != target && (start as int) < self.nodes@.len() && (
            target as int) < self.nodes@.len() ==> shortest_matches(
                self.adj(),
                obstacles@,
                start,
                target,
                r,
            ),
            r matches Some(d) ==> (d as int) <= self.nodes@.len(),
            r == self.spec_shortest_distance(start, target, obstacles@),
    {
        if obstacles.len() == 0 {
            return self.distance(start, target);
        }
        if start == target {
            return Some(0);
        }
        let n = self.nodes.len();
        if start >= n || target >= n {
            return None;
        }
        let ghost a = self.adj();
        let ghost b = obstacles@;
        let levels = bfs_levels(&self.adjacency, start, obstacles);
        let mut best: Option<usize> = None;
        let mut u: usize = 0;
        while u < n
            invariant
                n == self.nodes@.len(),
                n == a.len(),
                a == self.adj(),
                b == obstacles@,
                self.wf(),
                (start as int) < n,
                (target as int) < n,
                u <= n,
                levels_match(a, b, start, levels@),
                best matches Some(d) ==> (d as int) <= n && exists|w: usize|
                    (w as int) < u && #[trigger] levels@[w as int] == Some((d - 1) as usize) && edge(
                        a,
                        w,
                        target,
                    ) && d >= 1,
                forall|w: usize|
                    (w as int) < u && edge(a, w, target) && #[trigger] levels@[w as int] is Some
                        ==> (best matches Some(d) && d <= levels@[w as int]->0 + 1),
            decreases n - u,
        {
            match levels[u] {
                Some(du) => {
                    if vec_contains(&self.adjacency[u], target) {
                        let cand = du + 1;
                        let better = match best {
                            Some(bd) => cand < bd,
                            None => true,
                        };
                        if better {
                            best = Some(cand);
                        }
                        proof {
                            assert(self.adjacency@[u as int]@ == a[u as int]);
                            assert(levels@[u as int] == Some(du));
                        }
                    }
                },
                None => {},
            }
            proof {
                assert(self.adjacency@[u as int]@ == a[u as int]);
            }
            u = u + 1;
        }
        proof {
            match best {
                Some(d) => {
                    let w = choose|w: usize|
                        (w as int) < u && #[trigger] levels@[w as int] == Some((d - 1) as usize) && edge(
                            a,
                            w,
                            target,
                        ) && d >= 1;
                    assert(levels@[w as int] == Some((d - 1) as usize));
                    lemma_path_step(a, b, start, w, target, d as nat);
                    assert forall|j: nat| j < d implies !#[trigger] path_within(a, b, start, target, j) by {
                        if path_within(a, b, start, target, j) {
                            let w2 = lemma_path_pred(a, b, start, target, j);
                            lemma_reach_in_range(a, b, start, w2, (j - 1) as nat);
                            let l2 = levels@[w2 as int];
                            if l2 is None {
                            } else {
                                let d2 = l2->0;
                                if d2 > j - 1 {
                                    lemma_reach_mono(a, b, start, w2, (j - 1) as nat, (d2 - 1) as nat);
                                }
                            }
                        }
                    }
                },
                None => {
                    assert forall|k: nat| !#[trigger] path_within(a, b, start, target, k) by {
                        if path_within(a, b, start, target, k) {
                            let w2 = lemma_path_pred(a, b, start, target, k);
                            lemma_reach_in_range(a, b, start, w2, (k - 1) as nat);
                            assert(levels@[w2 as int] is Some);
                        }
                    }
                },
            }
            lemma_shortest_unique(a, b, start, target, best);
        }
        best
    }

    /// The fox's legal destinations from `fox_pos`: neighbours not occupied by a hound.
    pub fn fox_legal_moves(&self, fox_pos: usize, hounds_pos: &[usize]) -> (r: Vec<usize>)
        requires
            self.wf(),
        ensures
            r@ == self.spec_fox_moves(fox_pos, hounds_pos@),
    {
        let nbrs = self.neighbors(fox_pos);
        let ghost pred = fox_filter(hounds_pos@);
        let mut r: Vec<usize> = Vec::new();
        let mut i: usize = 0;
        while i < nbrs.len()
            invariant
                i <= nbrs@.len(),
                pred == fox_filter(hounds_pos@),
                r@ == nbrs@.take(i as int).filter(pred),
            decreases nbrs@.len() - i,
        {
            let t = nbrs[i];
            proof {
                assert(nbrs@.take(i + 1) =~= nbrs@.take(i as int).push(t));
                nbrs@.take(i as int).lemma_filter_push(t, pred);
            }
            if !slice_contains(hounds_pos, t) {
                r.push(t);
            }
            i = i + 1;
        }
        proof {
            assert(nbrs@.take(nbrs@.len() as int) =~= nbrs@);
        }
        r
    }

    /// Every vertex the fox may enter the board on for its opening move: any vertex
    /// not occupied by a hound that is not the chicken coop.
    pub fn fox_entry_moves(&self, hounds_pos: &[usize], coop_pos: usize) -> (r: Vec<usize>)
        ensures
            r@ == self.spec_entry_moves(hounds_pos@, coop_pos),
    {
        let ghost ids = self.nodes@.map_values(|n: Node| n.id);
        let ghost pred = entry_filter(self.nodes@, hounds_pos@, coop_pos);
        let mut r: Vec<usize> = Vec::new();
        let mut i: usize = 0;
        while i < self.nodes.len()
            invariant
                i <= self.nodes@.len(),
                ids == self.nodes@.map_values(|n: Node| n.id),
                pred == entry_filter(self.nodes@, hounds_pos@, coop_pos),
                r@ == ids.take(i as int).filter(pred),
            decreases self.nodes@.len() - i,
        {
            let t = self.nodes[i].id;
            proof {
                assert(ids.take(i + 1) =~= ids.take(i as int).push(t));
                ids.take(i as int).lemma_filter_push(t, pred);
            }
            let is_coop_node = match self.node(t) {
                Some(nd) => nd.node_type == NodeType::TargetCoop,
                None => false,
            };
            if !slice_contains(hounds_pos, t) && t != coop_pos && !is_coop_node {
                r.push(t);
            }
            i = i + 1;
        }
        proof {
            assert(ids.take(ids.len() as int) =~= ids);
        }
        r
    }

    /// Legal destinations of the hound on `hound_pos`: free neighbours that are not
    /// the coop (unless `allow_in_coop`) and, unless `allow_retreat`, do not lie in a
    /// row nearer the coop than the hound's own.
    pub fn hound_legal_moves(
        &self,
        hound_pos: usize,
        fox_pos: usize,
        coop_pos: usize,
        hounds_pos: &[usize],
        allow_retreat: bool,
        allow_in_coop: bool,
    ) -> (r: Vec<usize>)
        requires
            self.wf(),
        ensures
            r@ == self.spec_hound_moves(
                hound_pos,
                fox_pos,
                coop_pos,
                hounds_pos@,
                allow_retreat,
                allow_in_coop,
            ),
    {
        let nbrs = self.neighbors(hound_pos);
        let ghost pred = hound_filter(
            self.nodes@,
            hound_pos,
            fox_pos,
            coop_pos,
            hounds_pos@,
            allow_retreat,
            allow_in_coop,
        );
        let current_row = match self.node(hound_pos) {
            Some(nd) => Some(nd.row),
            None => None,
        };
        let mut r: Vec<usize> = Vec::new();
        let mut i: usize = 0;
        while i < nbrs.len()
            invariant
                i <= nbrs@.len(),
                pred == hound_filter(
                    self.nodes@,
                    hound_pos,
                    fox_pos,
                    coop_pos,
                    hounds_pos@,
                    allow_retreat,
                    allow_in_coop,
                ),
                (hound_pos as int) < self.nodes@.len() ==> current_row == Some(
                    self.nodes@[hound_pos as int].row,
                ),
                (hound_pos as int) >= self.nodes@.len() ==> current_row is None,
                r@ == nbrs@.take(i as int).filter(pred),
            decreases nbrs@.len() - i,
        {
            let t = nbrs[i];
            proof {
                assert(nbrs@.take(i + 1) =~= nbrs@.take(i as int).push(t));
                nbrs@.take(i as int).lemma_filter_push(t, pred);
            }
            let mut ok = t != fox_pos && (allow_in_coop || t != coop_pos) && !slice_contains(
                hounds_pos,
                t,
            );
            if ok {
                match self.node(t) {
                    None => {
                        ok = false;
                    },
                    Some(target_node) => {
                        if target_node.node_type == NodeType::TargetCoop {
                            ok = false;
                        } else if !allow_retreat {
                            match current_row {
                                Some(cur) => {
                                    if target_node.row < cur {
                                        ok = false;
                                    }
                                },
                                None => {},
                            }
                        }
                    },
                }
            }
            if ok {
                r.push(t);
            }
            i = i + 1;
        }
        proof {
            assert(nbrs@.take(nbrs@.len() as int) =~= nbrs@);
        }
        r
    }
}

} // verus!
