//! Breadth-first search over adjacency lists, with blocked vertices, and the
//! reachability model that states what it computes.

use vstd::prelude::*;
use vstd::set_lib::*;

verus! {

/// The adjacency lists as mathematical sequences.
pub open spec fn adj_view(adj: Seq<Vec<usize>>) -> Seq<Seq<usize>> {
    adj.map_values(|v: Vec<usize>| v@)
}

/// Every listed neighbour is itself a vertex of the graph.
pub open spec fn adj_in_range(adj: Seq<Seq<usize>>) -> bool {
    forall|u: int, j: int|
        0 <= u < adj.len() && 0 <= j < adj[u].len() ==> (#[trigger] adj[u][j] as int) < adj.len()
}

/// There is an edge from `u` to `v`.
pub open spec fn edge(adj: Seq<Seq<usize>>, u: usize, v: usize) -> bool {
    (u as int) < adj.len() && adj[u as int].contains(v)
}
/// `w` is a walk from `s` along edges whose inner vertices all lie outside `blocked`.
pub open spec fn is_walk(adj: Seq<Seq<usize>>, blocked: Seq<usize>, s: usize, w: Seq<usize>) -> bool {
    &&& w.len() >= 1
    &&& w[0] == s
    &&& forall|i: int, j: int|
        #![trigger w[i], w[j]]
        0 <= i && j == i + 1 && j < w.len() ==> edge(adj, w[i], w[j])
    &&& forall|i: int| 1 <= i < w.len() - 1 ==> !blocked.contains(#[trigger] w[i])
}

/// `v` can be entered from `s` in at most `k` steps, every vertex entered on the way
/// (the start excepted) lying outside `blocked`.
pub open spec fn reach_within(
    adj: Seq<Seq<usize>>,
    blocked: Seq<usize>,
    s: usize,
    v: usize,
    k: nat,
) -> bool {
    exists|w: Seq<usize>|
        #[trigger] is_walk(adj, blocked, s, w) && w.last() == v && w.len() <= k + 1 && (w.len() == 1
            || !blocked.contains(v))
}

/// A walk of at most `k` steps leads from `s` to `t` whose inner vertices all lie
/// outside `blocked`; `t` itself may be blocked.
pub open spec fn path_within(
    adj: Seq<Seq<usize>>,
    blocked: Seq<usize>,
    s: usize,
    t: usize,
    k: nat,
) -> bool {
    exists|w: Seq<usize>| #[trigger] is_walk(adj, blocked, s, w) && w.last() == t && w.len() <= k + 1
}

/// `d` is the length of a shortest such walk.
pub open spec fn is_shortest(
    adj: Seq<Seq<usize>>,
    blocked: Seq<usize>,
    s: usize,
    t: usize,
    d: nat,
) -> bool {
    &&& path_within(adj, blocked, s, t, d)
    &&& forall|j: nat| j < d ==> !#[trigger] path_within(adj, blocked, s, t, j)
}

/// No such walk of any length exists.
pub open spec fn no_path(adj: Seq<Seq<usize>>, blocked: Seq<usize>, s: usize, t: usize) -> bool {
    forall|k: nat| !#[trigger] path_within(adj, blocked, s, t, k)
}

/// `r` is the shortest walk length from `s` to `t`, or `None` when `t` cannot be reached.
pub open spec fn shortest_matches(
    adj: Seq<Seq<usize>>,
    blocked: Seq<usize>,
    s: usize,
    t: usize,
    r: Option<usize>,
) -> bool {
    match r {
        Some(d) => is_shortest(adj, blocked, s, t, d as nat),
        None => no_path(adj, blocked, s, t),
    }
}

/// The shortest walk length from `s` to `t`, or `None` when there is no walk.
pub open spec fn shortest_len(adj: Seq<Seq<usize>>, blocked: Seq<usize>, s: usize, t: usize) -> Option<
    usize,
> {
    if exists|d: usize| is_shortest(adj, blocked, s, t, d as nat) {
        Some(choose|d: usize| is_shortest(adj, blocked, s, t, d as nat))
    } else {
        None
    }
}

/// A result that matches the shortest walk length is the shortest walk length.
pub proof fn lemma_shortest_unique(
    adj: Seq<Seq<usize>>,
    blocked: Seq<usize>,
    s: usize,
    t: usize,
    r: Option<usize>,
)
    requires
        shortest_matches(adj, blocked, s, t, r),
    ensures
        r == shortest_len(adj, blocked, s, t),
{
    match r {
        Some(d) => {
            assert(is_shortest(adj, blocked, s, t, d as nat));
            let d2 = choose|d2: usize| is_shortest(adj, blocked, s, t, d2 as nat);
            if d2 < d {
                assert(path_within(adj, blocked, s, t, d2 as nat));
            } else if d < d2 {
                assert(path_within(adj, blocked, s, t, d as nat));
            }
        },
        None => {
            if exists|d: usize| is_shortest(adj, blocked, s, t, d as nat) {
                let d2 = choose|d2: usize| is_shortest(adj, blocked, s, t, d2 as nat);
                assert(path_within(adj, blocked, s, t, d2 as nat));
            }
        },
    }
}

/// `v` is first entered after exactly `d` steps.
pub open spec fn first_level(
    adj: Seq<Seq<usize>>,
    blocked: Seq<usize>,
    s: usize,
    v: usize,
    d: nat,
) -> bool {
    &&& reach_within(adj, blocked, s, v, d)
    &&& d > 0 ==> !reach_within(adj, blocked, s, v, (d - 1) as nat)
}

/// `levels[v]` is the step at which a breadth-first search from `s` first enters `v`,
/// or `None` when it never does.
pub open spec fn levels_match(
    adj: Seq<Seq<usize>>,
    blocked: Seq<usize>,
    s: usize,
    levels: Seq<Option<usize>>,
) -> bool {
    &&& levels.len() == adj.len()
    &&& forall|v: usize|
        (v as int) < adj.len() ==> match #[trigger] levels[v as int] {
            Some(d) => (d as int) < adj.len() && first_level(adj, blocked, s, v, d as nat),
            None => forall|k: nat| !#[trigger] reach_within(adj, blocked, s, v, k),
        }
}

pub proof fn lemma_reach_start(adj: Seq<Seq<usize>>, blocked: Seq<usize>, s: usize, k: nat)
    ensures
        reach_within(adj, blocked, s, s, k),
{
    let w = seq![s];
    assert(is_walk(adj, blocked, s, w));
}

pub proof fn lemma_reach_mono(
    adj: Seq<Seq<usize>>,
    blocked: Seq<usize>,
    s: usize,
    v: usize,
    j: nat,
    k: nat,
)
    requires
        j <= k,
        reach_within(adj, blocked, s, v, j),
    ensures
        reach_within(adj, blocked, s, v, k),
{
}

/// A walk extended by one more edge into `v`.
proof fn lemma_walk_push(
    adj: Seq<Seq<usize>>,
    blocked: Seq<usize>,
    s: usize,
    w: Seq<usize>,
    v: usize,
)
    requires
        is_walk(adj, blocked, s, w),
        edge(adj, w.last(), v),
        w.len() == 1 || !blocked.contains(w.last()),
    ensures
        is_walk(adj, blocked, s, w.push(v)),
{
    let w2 = w.push(v);
    assert forall|i: int, j: int| 0 <= i && j == i + 1 && j < w2.len() implies edge(
        adj,
        #[trigger] w2[i],
        #[trigger] w2[j],
    ) by {
        if j < w.len() {
            assert(w2[i] == w[i] && w2[j] == w[j]);
        }
    }
    assert forall|i: int| 1 <= i < w2.len() - 1 implies !blocked.contains(#[trigger] w2[i]) by {
        if i < w.len() - 1 {
            assert(w2[i] == w[i]);
        }
    }
}

/// A walk with its last vertex removed.
proof fn lemma_walk_drop_last(adj: Seq<Seq<usize>>, blocked: Seq<usize>, s: usize, w: Seq<usize>)
    requires
        is_walk(adj, blocked, s, w),
        w.len() >= 2,
    ensures
        is_walk(adj, blocked, s, w.drop_last()),
        edge(adj, w.drop_last().last(), w.last()),
        w.drop_last().len() == 1 || !blocked.contains(w.drop_last().last()),
{
    let w2 = w.drop_last();
    assert forall|i: int, j: int| 0 <= i && j == i + 1 && j < w2.len() implies edge(
        adj,
        #[trigger] w2[i],
        #[trigger] w2[j],
    ) by {
        assert(w2[i] == w[i] && w2[j] == w[j]);
    }
    assert forall|i: int| 1 <= i < w2.len() - 1 implies !blocked.contains(#[trigger] w2[i]) by {
        assert(w2[i] == w[i]);
    }
    assert(w[w.len() - 2] == w2.last());
    assert(edge(adj, w[w.len() - 2], w[w.len() - 1]));
    if w2.len() >= 2 {
        assert(!blocked.contains(w[w.len() - 2]));
    }
}

pub proof fn lemma_reach_step(
    adj: Seq<Seq<usize>>,
    blocked: Seq<usize>,
    s: usize,
    u: usize,
    v: usize,
    k: nat,
)
    requires
        reach_within(adj, blocked, s, u, k),
        edge(adj, u, v),
        !blocked.contains(v),
    ensures
        reach_within(adj, blocked, s, v, k + 1),
{
    let w = choose|w: Seq<usize>|
        #[trigger] is_walk(adj, blocked, s, w) && w.last() == u && w.len() <= k + 1 && (w.len() == 1
            || !blocked.contains(u));
    lemma_walk_push(adj, blocked, s, w, v);
    assert(w.push(v).last() == v);
}

/// The vertex from which `v` was first entered.
pub proof fn lemma_reach_pred(
    adj: Seq<Seq<usize>>,
    blocked: Seq<usize>,
    s: usize,
    v: usize,
    k: nat,
) -> (u: usize)
    requires
        k > 0,
        reach_within(adj, blocked, s, v, k),
        !reach_within(adj, blocked, s, v, (k - 1) as nat),
    ensures
        reach_within(adj, blocked, s, u, (k - 1) as nat),
        edge(adj, u, v),
        !blocked.contains(v),
{
    let w = choose|w: Seq<usize>|
        #[trigger] is_walk(adj, blocked, s, w) && w.last() == v && w.len() <= k + 1 && (w.len() == 1
            || !blocked.contains(v));
    if w.len() <= k {
        assert(reach_within(adj, blocked, s, v, (k - 1) as nat));
    }
    lemma_walk_drop_last(adj, blocked, s, w);
    let w2 = w.drop_last();
    assert(is_walk(adj, blocked, s, w2));
    w2.last()
}

/// The vertex from which a walk enters `t`.
pub proof fn lemma_path_pred(
    adj: Seq<Seq<usize>>,
    blocked: Seq<usize>,
    s: usize,
    t: usize,
    k: nat,
) -> (u: usize)
    requires
        path_within(adj, blocked, s, t, k),
        t != s,
    ensures
        k > 0,
        reach_within(adj, blocked, s, u, (k - 1) as nat),
        edge(adj, u, t),
{
    let w = choose|w: Seq<usize>|
        #[trigger] is_walk(adj, blocked, s, w) && w.last() == t && w.len() <= k + 1;
    lemma_walk_drop_last(adj, blocked, s, w);
    let w2 = w.drop_last();
    assert(is_walk(adj, blocked, s, w2));
    w2.last()
}

/// A vertex reached within `k - 1` steps, followed by an edge into `t`, gives a walk
/// of at most `k` steps to `t`.
pub proof fn lemma_path_step(
    adj: Seq<Seq<usize>>,
    blocked: Seq<usize>,
    s: usize,
    u: usize,
    t: usize,
    k: nat,
)
    requires
        k > 0,
        reach_within(adj, blocked, s, u, (k - 1) as nat),
        edge(adj, u, t),
    ensures
        path_within(adj, blocked, s, t, k),
{
    let w = choose|w: Seq<usize>|
        #[trigger] is_walk(adj, blocked, s, w) && w.last() == u && w.len() <= k && (w.len() == 1
            || !blocked.contains(u));
    lemma_walk_push(adj, blocked, s, w, t);
    assert(w.push(t).last() == t);
}

pub proof fn lemma_reach_in_range(
    adj: Seq<Seq<usize>>,
    blocked: Seq<usize>,
    s: usize,
    v: usize,
    k: nat,
)
    requires
        (s as int) < adj.len(),
        adj_in_range(adj),
        reach_within(adj, blocked, s, v, k),
    ensures
        (v as int) < adj.len(),
{
    let w = choose|w: Seq<usize>|
        #[trigger] is_walk(adj, blocked, s, w) && w.last() == v && w.len() <= k + 1 && (w.len() == 1
            || !blocked.contains(v));
    if w.len() >= 2 {
        lemma_walk_drop_last(adj, blocked, s, w);
        let u = w.drop_last().last();
        let j = choose|j: int| 0 <= j < adj[u as int].len() && adj[u as int][j] == v;
        assert(adj[u as int][j] == v);
    }
}

/// A walk of at most `k` steps entering a vertex reaches it within `k` steps, unless
/// the vertex is blocked.
pub proof fn lemma_path_gives_reach(
    adj: Seq<Seq<usize>>,
    blocked: Seq<usize>,
    s: usize,
    t: usize,
    k: nat,
)
    requires
        path_within(adj, blocked, s, t, k),
        t == s || !blocked.contains(t),
    ensures
        reach_within(adj, blocked, s, t, k),
{
    if t == s {
        lemma_reach_start(adj, blocked, s, k);
    } else {
        let w = choose|w: Seq<usize>|
            #[trigger] is_walk(adj, blocked, s, w) && w.last() == t && w.len() <= k + 1;
        assert(is_walk(adj, blocked, s, w) && w.last() == t && w.len() <= k + 1);
    }
}

/// A vertex reached within `k` steps is the end of a walk of at most `k` steps.
pub proof fn lemma_reach_gives_path(
    adj: Seq<Seq<usize>>,
    blocked: Seq<usize>,
    s: usize,
    v: usize,
    k: nat,
)
    requires
        reach_within(adj, blocked, s, v, k),
    ensures
        path_within(adj, blocked, s, v, k),
{
    let w = choose|w: Seq<usize>|
        #[trigger] is_walk(adj, blocked, s, w) && w.last() == v && w.len() <= k + 1 && (w.len() == 1
            || !blocked.contains(v));
    assert(is_walk(adj, blocked, s, w));
}

/// A first entry level of an unblocked vertex is a shortest walk length.
pub proof fn lemma_level_is_shortest(
    adj: Seq<Seq<usize>>,
    blocked: Seq<usize>,
    s: usize,
    v: usize,
    d: nat,
)
    requires
        first_level(adj, blocked, s, v, d),
        v == s || !blocked.contains(v),
    ensures
        is_shortest(adj, blocked, s, v, d),
{
    lemma_reach_gives_path(adj, blocked, s, v, d);
    assert forall|i: nat| i < d implies !#[trigger] path_within(adj, blocked, s, v, i) by {
        if path_within(adj, blocked, s, v, i) {
            lemma_path_gives_reach(adj, blocked, s, v, i);
            lemma_reach_mono(adj, blocked, s, v, i, (d - 1) as nat);
        }
    }
}

/// A vertex that is never entered is the end of no walk.
pub proof fn lemma_unreached_no_path(
    adj: Seq<Seq<usize>>,
    blocked: Seq<usize>,
    s: usize,
    v: usize,
)
    requires
        forall|k: nat| !#[trigger] reach_within(adj, blocked, s, v, k),
        v == s || !blocked.contains(v),
    ensures
        no_path(adj, blocked, s, v),
{
    assert forall|k: nat| !#[trigger] path_within(adj, blocked, s, v, k) by {
        if path_within(adj, blocked, s, v, k) {
            lemma_path_gives_reach(adj, blocked, s, v, k);
        }
    }
}

/// Once no vertex sits on level `level`, the levels found so far are all there are.
proof fn lemma_levels_closed(
    adj: Seq<Seq<usize>>,
    blocked: Seq<usize>,
    s: usize,
    levels: Seq<Option<usize>>,
    level: nat,
    v: usize,
    k: nat,
)
    requires
        levels.len() == adj.len(),
        (s as int) < adj.len(),
        adj_in_range(adj),
        forall|w: usize|
            (w as int) < adj.len() ==> match #[trigger] levels[w as int] {
                Some(d) => d < level && reach_within(adj, blocked, s, w, d as nat),
                None => !reach_within(adj, blocked, s, w, level),
            },
        reach_within(adj, blocked, s, v, k),
    ensures
        (v as int) < adj.len(),
        levels[v as int] is Some,
    decreases k,
{
    lemma_reach_in_range(adj, blocked, s, v, k);
    if k <= level {
        lemma_reach_mono(adj, blocked, s, v, k, level);
        assert(levels[v as int] is Some);
    } else if reach_within(adj, blocked, s, v, (k - 1) as nat) {
        lemma_levels_closed(adj, blocked, s, levels, level, v, (k - 1) as nat);
    } else {
        let u = lemma_reach_pred(adj, blocked, s, v, k);
        lemma_levels_closed(adj, blocked, s, levels, level, u, (k - 1) as nat);
        let du = levels[u as int]->0;
        lemma_reach_step(adj, blocked, s, u, v, du as nat);
        lemma_reach_mono(adj, blocked, s, v, (du + 1) as nat, level);
        assert(levels[v as int] is Some);
    }
}

/// `x` occurs in `s`.
pub fn slice_contains(s: &[usize], x: usize) -> (r: bool)
    ensures
        r == s@.contains(x),
{
    let mut i: usize = 0;
    while i < s.len()
        invariant
            i <= s@.len(),
            forall|j: int| 0 <= j < i ==> s@[j] != x,
        decreases s@.len() - i,
    {
        if s[i] == x {
            return true;
        }
        i = i + 1;
    }
    false
}

/// Breadth-first search from `start` that never enters a vertex of `blocked`
/// (the start itself excepted): the step at which each vertex is first entered.
pub fn bfs_levels(adj: &Vec<Vec<usize>>, start: usize, blocked: &[usize]) -> (levels: Vec<
    Option<usize>,
>)
    requires
        (start as int) < adj@.len(),
        adj_in_range(adj_view(adj@)),
    ensures
        levels_match(adj_view(adj@), blocked@, start, levels@),
{
    let n = adj.len();
    let ghost a = adj_view(adj@);
    let ghost b = blocked@;
    let mut levels: Vec<Option<usize>> = Vec::new();
    let mut i: usize = 0;
    while i < n
        invariant
            i <= n,
            levels@.len() == i,
            forall|j: int| 0 <= j < i ==> levels@[j] is None,
        decreases n - i,
    {
        levels.push(None);
        i = i + 1;
    }
    levels.set(start, Some(0));
    let mut frontier: Vec<usize> = Vec::new();
    frontier.push(start);
    let mut level: usize = 0;
    let mut count: usize = 1;
    let ghost mut visited: Set<int> = Set::empty().insert(start as int);
    proof {
        lemma_reach_start(a, b, start, 0);
        assert forall|v: usize| (v as int) < n && v != start implies !reach_within(a, b, start, v, 0) by {
            if reach_within(a, b, start, v, 0) {
                let w = choose|w: Seq<usize>|
                    #[trigger] is_walk(a, b, start, w) && w.last() == v && w.len() <= 1 && (w.len() == 1
                        || !b.contains(v));
                assert(w[0] == start);
            }
        }
        assert(frontier@[0] == start);
        assert(visited.len() == 1);
    }
    while frontier.len() > 0
        invariant
            n == adj@.len(),
            n == a.len(),
            a == adj_view(adj@),
            b == blocked@,
            adj_in_range(a),
            (start as int) < n,
            levels@.len() == n,
            count <= n,
            level <= count,
            frontier@.len() > 0 ==> level < count,
            visited.finite(),
            visited.len() == count,
            forall|v: int| visited.contains(v) <==> (0 <= v < n && levels@[v] is Some),
            forall|v: usize|
                (v as int) < n ==> match #[trigger] levels@[v as int] {
                    Some(d) => d <= level && d < count && first_level(a, b, start, v, d as nat),
                    None => !reach_within(a, b, start, v, level as nat),
                },
            forall|j: int|
                0 <= j < frontier@.len() ==> (frontier@[j] as int) < n && levels@[frontier@[j] as int]
                    == Some(level),
            forall|v: usize|
                (v as int) < n && #[trigger] levels@[v as int] == Some(level) ==> frontier@.contains(v),
        decreases n - count, frontier@.len(),
    {
        let ghost old_levels = levels@;
        let ghost old_count = count;
        let mut next: Vec<usize> = Vec::new();
        let mut fi: usize = 0;
        while fi < frontier.len()
            invariant
                n == adj@.len(),
                n == a.len(),
                a == adj_view(adj@),
                b == blocked@,
                adj_in_range(a),
                (start as int) < n,
                    fi <= frontier@.len(),
                levels@.len() == n,
                old_levels.len() == n,
                level < old_count,
                old_count <= count,
                count <= n,
                count == old_count + next@.len(),
                visited.finite(),
                visited.len() == count,
                forall|v: int| visited.contains(v) <==> (0 <= v < n && levels@[v] is Some),
                forall|v: usize|
                    (v as int) < n ==> match #[trigger] old_levels[v as int] {
                        Some(d) => d <= level && d < old_count && first_level(a, b, start, v, d as nat),
                        None => !reach_within(a, b, start, v, level as nat),
                    },
                forall|j: int|
                    0 <= j < frontier@.len() ==> (frontier@[j] as int) < n
                        && old_levels[frontier@[j] as int] == Some(level),
                forall|v: int| 0 <= v < n && old_levels[v] is Some ==> levels@[v] == old_levels[v],
                forall|v: usize|
                    (v as int) < n && old_levels[v as int] is None && #[trigger] levels@[v as int]
                        is Some ==> levels@[v as int] == Some((level + 1) as usize) && reach_within(
                        a,
                        b,
                        start,
                        v,
                        (level + 1) as nat,
                    ) && next@.contains(v),
                forall|j: int|
                    0 <= j < next@.len() ==> (next@[j] as int) < n && old_levels[next@[j] as int]
                        is None && levels@[next@[j] as int] == Some((level + 1) as usize),
                forall|j: int, w: usize|
                    #![trigger edge(a, frontier@[j], w)]
                    0 <= j < fi && edge(a, frontier@[j], w) && !b.contains(w) ==> levels@[w as int]
                        is Some,
            decreases frontier@.len() - fi,
        {
            let u = frontier[fi];
            let nbrs = &adj[u];
            proof {
                assert(nbrs@ == a[u as int]);
                assert(reach_within(a, b, start, u, level as nat));
            }
            let mut ni: usize = 0;
            while ni < nbrs.len()
                invariant
                    n == adj@.len(),
                    n == a.len(),
                    a == adj_view(adj@),
                    b == blocked@,
                    adj_in_range(a),
                    (u as int) < n,
                    nbrs@ == a[u as int],
                    reach_within(a, b, start, u, level as nat),
                    fi < frontier@.len(),
                    frontier@[fi as int] == u,
                    ni <= nbrs@.len(),
                    levels@.len() == n,
                    old_levels.len() == n,
                    level < old_count,
                    old_count <= count,
                    count <= n,
                    count == old_count + next@.len(),
                    visited.finite(),
                    visited.len() == count,
                    forall|v: int| visited.contains(v) <==> (0 <= v < n && levels@[v] is Some),
                    forall|v: int| 0 <= v < n && old_levels[v] is Some ==> levels@[v] == old_levels[v],
                    forall|v: usize|
                        (v as int) < n && old_levels[v as int] is None && #[trigger] levels@[v as int]
                            is Some ==> levels@[v as int] == Some((level + 1) as usize) && reach_within(
                            a,
                            b,
                            start,
                            v,
                            (level + 1) as nat,
                        ) && next@.contains(v),
                    forall|j: int|
                        0 <= j < next@.len() ==> (next@[j] as int) < n && old_levels[next@[j] as int]
                            is None && levels@[next@[j] as int] == Some((level + 1) as usize),
                    forall|j: int, w: usize|
                        #![trigger edge(a, frontier@[j], w)]
                        0 <= j < fi && edge(a, frontier@[j], w) && !b.contains(w)
                            ==> levels@[w as int] is Some,
                    forall|k: int|
                        0 <= k < ni && !b.contains(nbrs@[k]) ==> #[trigger] levels@[nbrs@[k] as int]
                            is Some,
                decreases nbrs@.len() - ni,
            {
                let v = nbrs[ni];
                proof {
                    assert(a[u as int][ni as int] == v);
                }
                if levels[v].is_none() && !slice_contains(blocked, v) {
                    proof {
                        assert(!visited.contains(v as int));
                        lemma_int_range(0, n as int);
                        lemma_len_subset(visited.insert(v as int), set_int_range(0, n as int));
                        assert(edge(a, u, v));
                        lemma_reach_step(a, b, start, u, v, level as nat);
                        visited = visited.insert(v as int);
                    }
                    let ghost old_next = next@;
                    levels.set(v, Some(level + 1));
                    next.push(v);
                    count = count + 1;
                    proof {
                        assert(next@[next@.len() - 1] == v);
                        assert forall|x: usize| old_next.contains(x) implies next@.contains(x) by {
                            let k = choose|k: int| 0 <= k < old_next.len() && old_next[k] == x;
                            assert(next@[k] == x);
                        }
                    }
                }
                ni = ni + 1;
            }
            proof {
                assert forall|j: int, w: usize|
                    #![trigger edge(a, frontier@[j], w)]
                    0 <= j < fi + 1 && edge(a, frontier@[j], w) && !b.contains(w) implies levels@[w
                    as int] is Some by {
                    if j == fi {
                        let k = choose|k: int| 0 <= k < nbrs@.len() && nbrs@[k] == w;
                        assert(nbrs@[k] == w);
                    }
                }
            }
            fi = fi + 1;
        }
        proof {
            assert forall|v: usize| (v as int) < n implies match #[trigger] levels@[v as int] {
                Some(d) => d <= level + 1 && d < count && first_level(a, b, start, v, d as nat),
                None => !reach_within(a, b, start, v, (level + 1) as nat),
            } by {
                if old_levels[v as int] is Some {
                } else if levels@[v as int] is Some {
                    assert(next@.contains(v));
                } else {
                    if reach_within(a, b, start, v, (level + 1) as nat) {
                        if !reach_within(a, b, start, v, level as nat) {
                            let u = lemma_reach_pred(a, b, start, v, (level + 1) as nat);
                            lemma_reach_in_range(a, b, start, u, level as nat);
                            let du = old_levels[u as int]->0;
                            if du == level {
                                assert(levels@[u as int] == Some(level));
                                assert(frontier@.contains(u));
                                let j = choose|j: int| 0 <= j < frontier@.len() && frontier@[j] == u;
                                assert(levels@[v as int] is Some);
                            } else {
                                lemma_reach_step(a, b, start, u, v, du as nat);
                                lemma_reach_mono(a, b, start, v, (du + 1) as nat, level as nat);
                            }
                        }
                    }
                }
            }
            assert forall|v: usize|
                (v as int) < n && #[trigger] levels@[v as int] == Some((level + 1) as usize) implies next@.contains(
                v,
            ) by {
                if old_levels[v as int] is Some {
                }
            }
            if next@.len() > 0 {
                assert(count > old_count);
            }
        }
        frontier = next;
        level = level + 1;
    }
    proof {
        assert forall|v: usize| (v as int) < n implies match #[trigger] levels@[v as int] {
            Some(d) => (d as int) < a.len() && first_level(a, b, start, v, d as nat),
            None => forall|k: nat| !#[trigger] reach_within(a, b, start, v, k),
        } by {
            match levels@[v as int] {
                Some(d) => {
                    if d == level {
                        assert(frontier@.contains(v));
                    }
                },
                None => {
                    assert forall|k: nat| !#[trigger] reach_within(a, b, start, v, k) by {
                        if reach_within(a, b, start, v, k) {
                            assert forall|w: usize| (w as int) < a.len() implies match #[trigger] levels@[w
                                as int] {
                                Some(d) => d < level && reach_within(a, b, start, w, d as nat),
                                None => !reach_within(a, b, start, w, level as nat),
                            } by {
                                if levels@[w as int] == Some(level) {
                                    assert(frontier@.contains(w));
                                }
                            }
                            lemma_levels_closed(a, b, start, levels@, level as nat, v, k);
                        }
                    }
                },
            }
        }
    }
    levels
}

} // verus!
