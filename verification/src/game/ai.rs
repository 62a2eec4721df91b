//! The computer opponent: a static evaluation of positions and an alpha-beta
//! minimax search over them.

use crate::game::graph::{fox_filter, vec_contains, Graph};
use crate::game::state::{Difficulty, Faction, GameState, PieceMove};
use vstd::prelude::*;

verus! {

/// Score of a won position, from the fox's side.
pub const WIN_SCORE: i32 = 100_000;

/// A bound beyond every score.
pub const INF: i32 = 1_000_000;

/// Deepest search the library runs; it keeps every score inside `(-INF, INF)`.
pub const MAX_SEARCH_DEPTH: usize = 8000;

/// Largest board the search scores: on it every static score, and so every minimax
/// value, stays inside `(-INF, INF)`, where the window sentinels work. On a path of a
/// few more vertices, a fox beside the coop with the hounds at the far end already
/// scores `INF`, and the search no longer returns the minimax value.
pub const MAX_SEARCH_NODES: usize = 1800;

/// A well-formed board small enough for the search (see `MAX_SEARCH_NODES`).
pub open spec fn searchable(g: Graph) -> bool {
    g.wf() && g.nodes@.len() <= MAX_SEARCH_NODES
}

/// A compact copy of the position the search works on.
#[derive(Debug, Clone, Copy)]
pub struct BoardSnapshot {
    pub fox_pos: usize,
    pub fox_pending: bool,
    pub fox_has_left_start: bool,
    pub is_coop_start: bool,
    pub hounds_pos: [usize; 3],
    pub coop_pos: usize,
    pub current_turn: Faction,
    pub allow_hound_retreat: bool,
    pub allow_hounds_in_coop: bool,
}

impl BoardSnapshot {
    pub open spec fn hounds(self) -> Seq<usize> {
        self.hounds_pos@
    }

    /// The fox stands on the coop, having left it first when it started there.
    pub open spec fn spec_is_fox_win(self) -> bool {
        self.fox_pos == self.coop_pos && (!self.is_coop_start || self.fox_has_left_start)
    }

    /// The fox's legal destinations.
    pub open spec fn spec_fox_moves(self, g: Graph) -> Seq<usize> {
        if self.fox_pending {
            g.spec_entry_moves(self.hounds(), self.coop_pos)
        } else {
            g.spec_fox_moves(self.fox_pos, self.hounds())
        }
    }

    /// The legal destinations of hound `idx`.
    pub open spec fn spec_hound_moves(self, g: Graph, idx: int) -> Seq<usize> {
        g.spec_hound_moves(
            self.hounds()[idx],
            self.fox_pos,
            self.coop_pos,
            self.hounds(),
            self.allow_hound_retreat,
            self.allow_hounds_in_coop,
        )
    }

    /// The legal moves of the first `k` hounds as (hound, destination).
    pub open spec fn spec_hound_moves_upto(self, g: Graph, k: nat) -> Seq<(usize, usize)>
        decreases k,
    {
        if k == 0 {
            Seq::empty()
        } else {
            self.spec_hound_moves_upto(g, (k - 1) as nat) + self.spec_hound_moves(g, k - 1).map_values(
                |t: usize| ((k - 1) as usize, t),
            )
        }
    }

    /// Every legal hound move as (hound, destination), hound by hound.
    pub open spec fn spec_all_hound_moves(self, g: Graph) -> Seq<(usize, usize)> {
        self.spec_hound_moves_upto(g, 3)
    }

    /// The position after the fox moved to `to`.
    pub open spec fn spec_apply_fox(self, to: usize) -> BoardSnapshot {
        BoardSnapshot {
            fox_pos: to,
            fox_pending: false,
            fox_has_left_start: self.fox_has_left_start || to != self.coop_pos,
            current_turn: Faction::Hounds,
            ..self
        }
    }

    /// The position after hound `idx` moved to `to`.
    pub open spec fn spec_apply_hound(self, idx: usize, to: usize) -> BoardSnapshot {
        BoardSnapshot {
            hounds_pos: [
                if idx == 0 {
                    to
                } else {
                    self.hounds_pos[0]
                },
                if idx == 1 {
                    to
                } else {
                    self.hounds_pos[1]
                },
                if idx == 2 {
                    to
                } else {
                    self.hounds_pos[2]
                },
            ],
            current_turn: Faction::Fox,
            ..self
        }
    }

    /// The snapshot of a match: the first three hounds (missing ones on vertex 0),
    /// and the rules of its board.
    pub open spec fn spec_from_state(state: GameState) -> BoardSnapshot {
        let config = state.variant.spec_config();
        let h = state.hounds_pos@;
        BoardSnapshot {
            fox_pos: state.fox_pos,
            fox_pending: state.fox_pending,
            fox_has_left_start: state.fox_has_left_start,
            is_coop_start: config.fox_start_node@ == config.target_coop_node@,
            hounds_pos: [
                if h.len() > 0 {
                    h[0]
                } else {
                    0
                },
                if h.len() > 1 {
                    h[1]
                } else {
                    0
                },
                if h.len() > 2 {
                    h[2]
                } else {
                    0
                },
            ],
            coop_pos: state.coop_pos,
            current_turn: state.current_turn,
            allow_hound_retreat: config.allow_hound_retreat,
            allow_hounds_in_coop: config.allow_hounds_in_coop,
        }
    }

    /// The snapshot the search starts from.
    pub fn from_state(state: &GameState) -> (r: Self)
        ensures
            r == Self::spec_from_state(*state),
    {
        let config = state.variant.config();
        let mut hounds: [usize; 3] = [0, 0, 0];
        if state.hounds_pos.len() > 0 {
            hounds[0] = state.hounds_pos[0];
        }
        if state.hounds_pos.len() > 1 {
            hounds[1] = state.hounds_pos[1];
        }
        if state.hounds_pos.len() > 2 {
            hounds[2] = state.hounds_pos[2];
        }
        let r = BoardSnapshot {
            fox_pos: state.fox_pos,
            fox_pending: state.fox_pending,
            fox_has_left_start: state.fox_has_left_start,
            is_coop_start: crate::game::graph::str_equal(config.fox_start_node, config.target_coop_node),
            hounds_pos: hounds,
            coop_pos: state.coop_pos,
            current_turn: state.current_turn,
            allow_hound_retreat: config.allow_hound_retreat,
            allow_hounds_in_coop: config.allow_hounds_in_coop,
        };
        assert(r.hounds_pos =~= Self::spec_from_state(*state).hounds_pos);
        r
    }

    /// The fox's destination.
    pub fn active_target(&self) -> (r: usize)
        ensures
            r == self.coop_pos,
    {
        self.coop_pos
    }

    /// The fox has won: it stands on the coop, having left it first when it started there.
    pub fn is_fox_win(&self) -> (r: bool)
        ensures
            r == self.spec_is_fox_win(),
    {
        if self.fox_pos == self.coop_pos {
            if self.is_coop_start {
                self.fox_has_left_start
            } else {
                true
            }
        } else {
            false
        }
    }

    /// The fox's legal destinations: free non-coop vertices before it has entered the
    /// board, else free neighbours.
    pub fn fox_legal_moves(&self, graph: &Graph) -> (r: Vec<usize>)
        requires
            graph.wf(),
        ensures
            r@ == self.spec_fox_moves(*graph),
    {
        if self.fox_pending {
            graph.fox_entry_moves(&self.hounds_pos, self.coop_pos)
        } else {
            graph.fox_legal_moves(self.fox_pos, &self.hounds_pos)
        }
    }

    /// The legal destinations of hound `hound_idx`.
    pub fn hound_legal_moves(&self, graph: &Graph, hound_idx: usize) -> (r: Vec<usize>)
        requires
            graph.wf(),
            hound_idx < 3,
        ensures
            r@ == self.spec_hound_moves(*graph, hound_idx as int),
    {
        graph.hound_legal_moves(
            self.hounds_pos[hound_idx],
            self.fox_pos,
            self.coop_pos,
            &self.hounds_pos,
            self.allow_hound_retreat,
            self.allow_hounds_in_coop,
        )
    }

    /// Every legal hound move as (hound, destination), hound by hound.
    pub fn all_hound_moves(&self, graph: &Graph) -> (r: Vec<(usize, usize)>)
        requires
            graph.wf(),
        ensures
            r@ == self.spec_all_hound_moves(*graph),
    {
        let mut r: Vec<(usize, usize)> = Vec::new();
        let mut idx: usize = 0;
        while idx < 3
            invariant
                graph.wf(),
                idx <= 3,
                r@ == self.spec_hound_moves_upto(*graph, idx as nat),
            decreases 3 - idx,
        {
            let moves = self.hound_legal_moves(graph, idx);
            let ghost base = r@;
            let ghost k = (idx + 1) as nat;
            let mut j: usize = 0;
            while j < moves.len()
                invariant
                    graph.wf(),
                    idx < 3,
                    k == idx + 1,
                    moves@ == self.spec_hound_moves(*graph, idx as int),
                    base == self.spec_hound_moves_upto(*graph, idx as nat),
                    j <= moves@.len(),
                    r@ == base + moves@.take(j as int).map_values(|t: usize| ((k - 1) as usize, t)),
                decreases moves@.len() - j,
            {
                r.push((idx, moves[j]));
                proof {
                    assert(moves@.take(j + 1).map_values(|t: usize| ((k - 1) as usize, t)) =~= moves@.take(
                        j as int,
                    ).map_values(|t: usize| ((k - 1) as usize, t)).push((idx, moves@[j as int])));
                }
                j = j + 1;
            }
            proof {
                assert(moves@.take(moves@.len() as int) =~= moves@);
            }
            idx = idx + 1;
        }
        r
    }

    /// The position after the fox moved to `to`.
    pub fn apply_fox_move(&self, to: usize) -> (r: Self)
        ensures
            r == self.spec_apply_fox(to),
    {
        let fox_has_left_start = self.fox_has_left_start || (to != self.coop_pos);
        BoardSnapshot {
            fox_pos: to,
            fox_pending: false,
            fox_has_left_start,
            is_coop_start: self.is_coop_start,
            hounds_pos: self.hounds_pos,
            coop_pos: self.coop_pos,
            current_turn: Faction::Hounds,
            allow_hound_retreat: self.allow_hound_retreat,
            allow_hounds_in_coop: self.allow_hounds_in_coop,
        }
    }

    /// The position after hound `hound_idx` moved to `to`.
    pub fn apply_hound_move(&self, hound_idx: usize, to: usize) -> (r: Self)
        requires
            hound_idx < 3,
        ensures
            r == self.spec_apply_hound(hound_idx, to),
    {
        let mut new_hounds = self.hounds_pos;
        new_hounds[hound_idx] = to;
        let r = BoardSnapshot {
            fox_pos: self.fox_pos,
            fox_pending: self.fox_pending,
            fox_has_left_start: self.fox_has_left_start,
            is_coop_start: self.is_coop_start,
            hounds_pos: new_hounds,
            coop_pos: self.coop_pos,
            current_turn: Faction::Fox,
            allow_hound_retreat: self.allow_hound_retreat,
            allow_hounds_in_coop: self.allow_hounds_in_coop,
        };
        assert(r.hounds_pos =~= self.spec_apply_hound(hound_idx, to).hounds_pos);
        r
    }
}

/// `o` with `None` replaced by `default`.
pub open spec fn unwrap_or(o: Option<usize>, default: usize) -> int {
    match o {
        Some(d) => d as int,
        None => default as int,
    }
}

/// Bonus for a short walk to the coop that avoids the hounds.
pub open spec fn lane_score(lane: Option<usize>) -> int {
    match lane {
        Some(d) => if d == 1 {
            15_000
        } else if d == 2 {
            6_000
        } else if d == 3 {
            2_500
        } else if d <= 5 {
            (8 - d) * 300
        } else {
            0
        },
        None => 0,
    }
}

/// Penalty for a hound at distance `d` from the fox.
pub open spec fn threat_score(d: int) -> int {
    if d <= 1 {
        -450
    } else if d == 2 {
        -150
    } else {
        0
    }
}

/// Score of the fox's freedom of movement.
pub open spec fn mobility_score(moves: nat) -> int {
    if moves == 0 {
        -(WIN_SCORE as int)
    } else if moves == 1 {
        -2_000
    } else if moves == 2 {
        -350
    } else if moves == 3 {
        150
    } else {
        400
    }
}

/// The least known distance from the hounds `hs` to `target`, if any is known.
pub open spec fn min_hound_dist(g: Graph, hs: Seq<usize>, target: usize) -> Option<usize>
    decreases hs.len(),
{
    if hs.len() == 0 {
        None
    } else {
        let rest = min_hound_dist(g, hs.drop_last(), target);
        match g.spec_distance(hs.last(), target) {
            Some(d) => match rest {
                Some(m) => if d < m {
                    Some(d)
                } else {
                    Some(m)
                },
                None => Some(d),
            },
            None => rest,
        }
    }
}

/// Sum over the hounds `hs` of 30 per step of distance to the fox (10 steps when unknown).
pub open spec fn pursuit_total(g: Graph, hs: Seq<usize>, fox: usize) -> int
    decreases hs.len(),
{
    if hs.len() == 0 {
        0
    } else {
        pursuit_total(g, hs.drop_last(), fox) + unwrap_or(g.spec_distance(hs.last(), fox), 10) * 30
    }
}

/// Sum over the hounds `hs` of their threat to the fox.
pub open spec fn threat_total(g: Graph, hs: Seq<usize>, fox: usize) -> int
    decreases hs.len(),
{
    if hs.len() == 0 {
        0
    } else {
        threat_total(g, hs.drop_last(), fox) + threat_score(
            unwrap_or(g.spec_distance(hs.last(), fox), 10),
        )
    }
}

/// The static score of a position from the fox's side: positive favours the fox.
pub open spec fn spec_evaluate(b: BoardSnapshot, g: Graph) -> int {
    if b.spec_is_fox_win() {
        WIN_SCORE as int
    } else {
        let target = b.coop_pos;
        let static_dist = unwrap_or(g.spec_distance(b.fox_pos, target), 15);
        let dist_to_target_score = (18 - static_dist) * 350;
        let unblocked_lane_score = lane_score(
            g.spec_shortest_distance(b.fox_pos, target, b.hounds()),
        );
        let min_hound = unwrap_or(min_hound_dist(g, b.hounds(), target), 0);
        let breakthrough_bonus = if static_dist < min_hound {
            (min_hound - static_dist) * 450
        } else {
            0
        };
        dist_to_target_score + unblocked_lane_score + breakthrough_bonus + pursuit_total(
            g,
            b.hounds(),
            b.fox_pos,
        ) + threat_total(g, b.hounds(), b.fox_pos) + mobility_score(b.spec_fox_moves(g).len())
    }
}

proof fn lemma_hound_totals_bounds(g: Graph, hs: Seq<usize>, fox: usize)
    requires
        searchable(g),
    ensures
        0 <= pursuit_total(g, hs, fox) <= hs.len() * 30 * MAX_SEARCH_NODES,
        -450 * hs.len() <= threat_total(g, hs, fox) <= 0,
        min_hound_dist(g, hs, fox) matches Some(m) ==> m < MAX_SEARCH_NODES,
    decreases hs.len(),
{
    if hs.len() > 0 {
        lemma_hound_totals_bounds(g, hs.drop_last(), fox);
        let d = g.spec_distance(hs.last(), fox);
        if d is Some {
            assert(d->0 < MAX_SEARCH_NODES);
        }
    }
}

/// On a well-formed graph the hounds' pursuit term is at most 30 per hound per step
/// of the board's size (or of the 10 steps counted when no distance is known), their
/// threat term never favours the fox, and a known least distance is shorter than the
/// board.
proof fn lemma_hound_terms_wf(g: Graph, hs: Seq<usize>, fox: usize)
    requires
        g.wf(),
    ensures
        0 <= pursuit_total(g, hs, fox) <= hs.len() * (30 * (g.nodes@.len() + 10)),
        threat_total(g, hs, fox) <= 0,
        min_hound_dist(g, hs, fox) matches Some(m) ==> m < g.nodes@.len(),
    decreases hs.len(),
{
    if hs.len() > 0 {
        lemma_hound_terms_wf(g, hs.drop_last(), fox);
        let n = g.nodes@.len();
        let d = g.spec_distance(hs.last(), fox);
        if d is Some {
            assert(d->0 < n);
        }
        assert(unwrap_or(d, 10) <= n + 10);
        assert(hs.len() * (30 * (n + 10)) == (hs.len() - 1) * (30 * (n + 10)) + 30 * (n + 10))
            by (nonlinear_arith);
    }
}

/// A position in which the fox has not won and has no legal move is scored below
/// `-WIN_SCORE` plus what distance, lane, breakthrough and pursuit can add at most on
/// the board: a trapped fox is a lost fox, whatever else the position holds.
pub proof fn lemma_trapped_fox_is_lost(b: BoardSnapshot, g: Graph)
    requires
        g.wf(),
        !b.spec_is_fox_win(),
        b.spec_fox_moves(g).len() == 0,
    ensures
        spec_evaluate(b, g) <= -(WIN_SCORE as int) + 21_300 + 450 * g.nodes@.len()
            + b.hounds().len() * (30 * (g.nodes@.len() + 10)),
{
    let n = g.nodes@.len();
    lemma_hound_terms_wf(g, b.hounds(), b.fox_pos);
    lemma_hound_terms_wf(g, b.hounds(), b.coop_pos);
    let d = g.spec_distance(b.fox_pos, b.coop_pos);
    if d is Some {
        assert(d->0 < n);
    }
    let sd = unwrap_or(d, 15);
    let mh = unwrap_or(min_hound_dist(g, b.hounds(), b.coop_pos), 0);
    assert(mh <= n);
    if sd < mh {
        assert((mh - sd) * 450 <= 450 * n) by (nonlinear_arith)
            requires
                0 <= sd < mh <= n,
        ;
    }
    assert(lane_score(g.spec_shortest_distance(b.fox_pos, b.coop_pos, b.hounds())) <= 15_000);
}

/// Every static score lies well inside `(-INF, INF)`.
pub proof fn lemma_evaluate_bounds(b: BoardSnapshot, g: Graph)
    requires
        searchable(g),
    ensures
        -999_000 <= spec_evaluate(b, g) <= 999_000,
{
    lemma_hound_totals_bounds(g, b.hounds(), b.fox_pos);
    lemma_hound_totals_bounds(g, b.hounds(), b.coop_pos);
    let d = g.spec_distance(b.fox_pos, b.coop_pos);
    if d is Some {
        assert(d->0 < MAX_SEARCH_NODES);
    }
}

/// The static score of a position from the fox's side: distance to the coop, a free
/// lane to it, being ahead of the hounds, the hounds' pursuit and threat, and the
/// fox's freedom of movement.
pub fn evaluate_board(board: &BoardSnapshot, graph: &Graph) -> (r: i32)
    requires
        searchable(*graph),
    ensures
        r as int == spec_evaluate(*board, *graph),
{
    proof {
        lemma_evaluate_bounds(*board, *graph);
    }
    if board.is_fox_win() {
        return WIN_SCORE;
    }
    let target = board.active_target();
    let static_dist: usize = match graph.distance(board.fox_pos, target) {
        Some(d) => d,
        None => 15,
    };
    proof {
        let d = graph.spec_distance(board.fox_pos, target);
        if d is Some {
            assert(d->0 < MAX_SEARCH_NODES);
        }
    }
    let dist_to_target_score: i32 = (18 - static_dist as i32) * 350;
    let unblocked_lane_score: i32 = match graph.shortest_distance(
        board.fox_pos,
        target,
        &board.hounds_pos,
    ) {
        Some(d) => {
            if d == 1 {
                15_000
            } else if d == 2 {
                6_000
            } else if d == 3 {
                2_500
            } else if d <= 5 {
                (8 - d as i32) * 300
            } else {
                0
            }
        },
        None => 0,
    };
    let ghost hs = board.hounds();
    let mut min_hound: Option<usize> = None;
    let mut pursuit_score: i32 = 0;
    let mut hound_threat_penalty: i32 = 0;
    let mut i: usize = 0;
    while i < 3
        invariant
            searchable(*graph),
            hs == board.hounds(),
            hs.len() == 3,
            i <= 3,
            min_hound == min_hound_dist(*graph, hs.take(i as int), target),
            pursuit_score == pursuit_total(*graph, hs.take(i as int), board.fox_pos),
            hound_threat_penalty == threat_total(*graph, hs.take(i as int), board.fox_pos),
        decreases 3 - i,
    {
        let h = board.hounds_pos[i];
        proof {
            assert(hs.take(i + 1).drop_last() =~= hs.take(i as int));
            assert(hs.take(i + 1).last() == h);
            lemma_hound_totals_bounds(*graph, hs.take(i as int), board.fox_pos);
            lemma_hound_totals_bounds(*graph, hs.take(i as int), target);
        }
        match graph.distance(h, target) {
            Some(d) => {
                min_hound = match min_hound {
                    Some(m) => if d < m {
                        Some(d)
                    } else {
                        Some(m)
                    },
                    None => Some(d),
                };
            },
            None => {},
        }
        let dist: usize = match graph.distance(h, board.fox_pos) {
            Some(d) => d,
            None => 10,
        };
        proof {
            let d = graph.spec_distance(h, board.fox_pos);
            if d is Some {
                assert(d->0 < MAX_SEARCH_NODES);
            }
        }
        let threat_delta: i32 = if dist <= 1 {
            -450
        } else if dist == 2 {
            -150
        } else {
            0
        };
        pursuit_score = pursuit_score + dist as i32 * 30;
        hound_threat_penalty = hound_threat_penalty + threat_delta;
        i = i + 1;
    }
    proof {
        assert(hs.take(3) =~= hs);
        lemma_hound_totals_bounds(*graph, hs, target);
        lemma_hound_totals_bounds(*graph, hs, board.fox_pos);
    }
    let min_hound_dist_to_target: usize = match min_hound {
        Some(m) => m,
        None => 0,
    };
    let breakthrough_bonus: i32 = if static_dist < min_hound_dist_to_target {
        (min_hound_dist_to_target as i32 - static_dist as i32) * 450
    } else {
        0
    };
    let fox_degrees = board.fox_legal_moves(graph).len();
    let mobility_score: i32 = if fox_degrees == 0 {
        -WIN_SCORE
    } else if fox_degrees == 1 {
        -2_000
    } else if fox_degrees == 2 {
        -350
    } else if fox_degrees == 3 {
        150
    } else {
        400
    };
    dist_to_target_score + unblocked_lane_score + breakthrough_bonus + pursuit_score
        + hound_threat_penalty + mobility_score
}

/// Score of a position won by the fox with `depth` plies of search left: sooner
/// wins score higher.
pub open spec fn win_value(depth: nat) -> int {
    WIN_SCORE as int + depth * 100
}

/// The minimax value of a position searched `depth` plies deep, from the fox's side:
/// the fox maximises, the hounds minimise, a side without a move loses, and the
/// static score is used at the search horizon.
pub open spec fn mm_value(b: BoardSnapshot, g: Graph, depth: nat, fox_turn: bool) -> int
    decreases depth, 0int,
{
    if b.spec_is_fox_win() {
        win_value(depth)
    } else if fox_turn {
        let moves = b.spec_fox_moves(g);
        if moves.len() == 0 {
            -win_value(depth)
        } else if depth == 0 {
            spec_evaluate(b, g)
        } else {
            fox_best(b, g, (depth - 1) as nat, moves, 0)
        }
    } else {
        let moves = b.spec_all_hound_moves(g);
        if moves.len() == 0 {
            win_value(depth)
        } else if depth == 0 {
            spec_evaluate(b, g)
        } else {
            hound_best(b, g, (depth - 1) as nat, moves, 0)
        }
    }
}

/// The largest value of the positions reached by the fox moves `moves[i..]`.
pub open spec fn fox_best(b: BoardSnapshot, g: Graph, cd: nat, moves: Seq<usize>, i: int) -> int
    decreases cd, moves.len() - i,
{
    if i < 0 || i >= moves.len() {
        0
    } else if i + 1 == moves.len() {
        mm_value(b.spec_apply_fox(moves[i]), g, cd, false)
    } else {
        let here = mm_value(b.spec_apply_fox(moves[i]), g, cd, false);
        let rest = fox_best(b, g, cd, moves, i + 1);
        if here >= rest {
            here
        } else {
            rest
        }
    }
}

/// The smallest value of the positions reached by the hound moves `moves[i..]`.
pub open spec fn hound_best(
    b: BoardSnapshot,
    g: Graph,
    cd: nat,
    moves: Seq<(usize, usize)>,
    i: int,
) -> int
    decreases cd, moves.len() - i,
{
    if i < 0 || i >= moves.len() {
        0
    } else if i + 1 == moves.len() {
        mm_value(b.spec_apply_hound(moves[i].0, moves[i].1), g, cd, true)
    } else {
        let here = mm_value(b.spec_apply_hound(moves[i].0, moves[i].1), g, cd, true);
        let rest = hound_best(b, g, cd, moves, i + 1);
        if here <= rest {
            here
        } else {
            rest
        }
    }
}

/// The value of the position the fox reaches by moving to `m`.
pub open spec fn fox_child(b: BoardSnapshot, g: Graph, cd: nat, m: usize) -> int {
    mm_value(b.spec_apply_fox(m), g, cd, false)
}

/// The value of the position reached by the hound move `m`.
pub open spec fn hound_child(b: BoardSnapshot, g: Graph, cd: nat, m: (usize, usize)) -> int {
    mm_value(b.spec_apply_hound(m.0, m.1), g, cd, true)
}

/// The search stops here whatever the window: the fox has won, the side to move has
/// no move, or no depth is left.
pub open spec fn is_terminal(b: BoardSnapshot, g: Graph, depth: nat, fox_turn: bool) -> bool {
    ||| b.spec_is_fox_win()
    ||| depth == 0
    ||| (fox_turn && b.spec_fox_moves(g).len() == 0)
    ||| (!fox_turn && b.spec_all_hound_moves(g).len() == 0)
}

/// What an alpha-beta search with window `(a, b)` promises of its result `r` when the
/// true value is `v`: inside the window it is exact, at or below `a` it bounds `v` from
/// above, at or above `b` from below.
pub open spec fn alpha_beta_bound(r: int, v: int, a: int, b: int) -> bool {
    &&& (a < r < b ==> r == v)
    &&& (r <= a ==> v <= r)
    &&& (r >= b ==> v >= r)
}

/// `fox_best` is the largest child value and is attained.
pub proof fn lemma_fox_best(b: BoardSnapshot, g: Graph, cd: nat, moves: Seq<usize>, i: int)
    requires
        0 <= i < moves.len(),
    ensures
        forall|j: int| i <= j < moves.len() ==> #[trigger] fox_child(b, g, cd, moves[j]) <= fox_best(
            b,
            g,
            cd,
            moves,
            i,
        ),
        exists|j: int| i <= j < moves.len() && fox_best(b, g, cd, moves, i) == #[trigger] fox_child(b, g, cd, moves[j]),
    decreases moves.len() - i,
{
    if i + 1 < moves.len() {
        lemma_fox_best(b, g, cd, moves, i + 1);
        let here = fox_child(b, g, cd, moves[i]);
        let rest = fox_best(b, g, cd, moves, i + 1);
        if here >= rest {
            assert(fox_best(b, g, cd, moves, i) == fox_child(b, g, cd, moves[i]));
        } else {
            let j = choose|j: int| i + 1 <= j < moves.len() && rest == #[trigger] fox_child(b, g, cd, moves[j]);
            assert(fox_best(b, g, cd, moves, i) == fox_child(b, g, cd, moves[j]));
        }
    } else {
        assert(fox_best(b, g, cd, moves, i) == fox_child(b, g, cd, moves[i]));
    }
}

/// `hound_best` is the smallest child value and is attained.
pub proof fn lemma_hound_best(
    b: BoardSnapshot,
    g: Graph,
    cd: nat,
    moves: Seq<(usize, usize)>,
    i: int,
)
    requires
        0 <= i < moves.len(),
    ensures
        forall|j: int| i <= j < moves.len() ==> hound_best(b, g, cd, moves, i) <= #[trigger] hound_child(
            b,
            g,
            cd,
            moves[j],
        ),
        exists|j: int| i <= j < moves.len() && hound_best(b, g, cd, moves, i) == #[trigger] hound_child(b, g, cd, moves[j]),
    decreases moves.len() - i,
{
    if i + 1 < moves.len() {
        lemma_hound_best(b, g, cd, moves, i + 1);
        let here = hound_child(b, g, cd, moves[i]);
        let rest = hound_best(b, g, cd, moves, i + 1);
        if here <= rest {
            assert(hound_best(b, g, cd, moves, i) == hound_child(b, g, cd, moves[i]));
        } else {
            let j = choose|j: int| i + 1 <= j < moves.len() && rest == #[trigger] hound_child(b, g, cd, moves[j]);
            assert(hound_best(b, g, cd, moves, i) == hound_child(b, g, cd, moves[j]));
        }
    } else {
        assert(hound_best(b, g, cd, moves, i) == hound_child(b, g, cd, moves[i]));
    }
}

/// Every minimax value of a search no deeper than `MAX_SEARCH_DEPTH` lies inside
/// `(-INF, INF)`.
pub proof fn lemma_mm_bounds(b: BoardSnapshot, g: Graph, depth: nat, fox_turn: bool)
    requires
        searchable(g),
        depth <= MAX_SEARCH_DEPTH,
    ensures
        -999_000 <= mm_value(b, g, depth, fox_turn) <= 999_000,
    decreases depth,
{
    lemma_evaluate_bounds(b, g);
    if !b.spec_is_fox_win() && depth > 0 {
        let cd = (depth - 1) as nat;
        if fox_turn {
            let moves = b.spec_fox_moves(g);
            if moves.len() > 0 {
                lemma_fox_best(b, g, cd, moves, 0);
                let j = choose|j: int| 0 <= j < moves.len() && fox_best(b, g, cd, moves, 0) == #[trigger] fox_child(b, g, cd, moves[j]);
                lemma_mm_bounds(b.spec_apply_fox(moves[j]), g, cd, false);
            }
        } else {
            let moves = b.spec_all_hound_moves(g);
            if moves.len() > 0 {
                lemma_hound_best(b, g, cd, moves, 0);
                let j = choose|j: int| 0 <= j < moves.len() && hound_best(b, g, cd, moves, 0) == #[trigger] hound_child(b, g, cd, moves[j]);
                lemma_mm_bounds(b.spec_apply_hound(moves[j].0, moves[j].1), g, cd, true);
            }
        }
    }
}

/// `items` reordered stably by ascending `keys`.
fn sort_by_keys<T: Copy>(items: &Vec<T>, keys: &Vec<usize>) -> (r: Vec<T>)
    requires
        items@.len() == keys@.len(),
    ensures
        r@.to_multiset() == items@.to_multiset(),
        r@.len() == items@.len(),
{
    broadcast use vstd::seq_lib::group_to_multiset_ensures;

    let mut sorted_items: Vec<T> = Vec::new();
    let mut sorted_keys: Vec<usize> = Vec::new();
    let mut i: usize = 0;
    while i < items.len()
        invariant
            items@.len() == keys@.len(),
            i <= items@.len(),
            sorted_items@.len() == i,
            sorted_keys@.len() == i,
            sorted_items@.to_multiset() == items@.take(i as int).to_multiset(),
            forall|a: int, b: int| 0 <= a < b < sorted_keys@.len() ==> sorted_keys@[a] <= sorted_keys@[b],
        decreases items@.len() - i,
    {
        let k = keys[i];
        let x = items[i];
        let mut p: usize = 0;
        while p < sorted_keys.len() && sorted_keys[p] <= k
            invariant
                p <= sorted_keys@.len(),
                forall|a: int| 0 <= a < p ==> sorted_keys@[a] <= k,
            decreases sorted_keys@.len() - p,
        {
            p = p + 1;
        }
        let ghost old_keys = sorted_keys@;
        let ghost old_items = sorted_items@;
        proof {
            assert(items@.take(i + 1) =~= items@.take(i as int).push(x));
            vstd::seq_lib::to_multiset_build(items@.take(i as int), x);
            vstd::seq_lib::to_multiset_insert(old_items, p as int, x);
        }
        sorted_items.insert(p, x);
        sorted_keys.insert(p, k);
        proof {
            assert forall|a: int, b: int| 0 <= a < b < sorted_keys@.len() implies sorted_keys@[a]
                <= sorted_keys@[b] by {
                if b < p {
                    assert(sorted_keys@[a] == old_keys[a] && sorted_keys@[b] == old_keys[b]);
                } else if b == p {
                    assert(sorted_keys@[a] == old_keys[a]);
                } else if a > p {
                    assert(sorted_keys@[a] == old_keys[a - 1] && sorted_keys@[b] == old_keys[b - 1]);
                } else if a == p {
                    assert(sorted_keys@[b] == old_keys[b - 1]);
                    assert(!(old_keys[p as int] <= k));
                } else {
                    assert(sorted_keys@[a] == old_keys[a] && sorted_keys@[b] == old_keys[b - 1]);
                    assert(!(old_keys[p as int] <= k));
                }
            }
        }
        i = i + 1;
    }
    proof {
        assert(items@.take(items@.len() as int) =~= items@);
    }
    sorted_items
}

proof fn lemma_same_elements<A>(s1: Seq<A>, s2: Seq<A>, x: A)
    requires
        s1.to_multiset() == s2.to_multiset(),
    ensures
        s1.contains(x) <==> s2.contains(x),
{
    vstd::seq_lib::to_multiset_contains(s1, x);
    vstd::seq_lib::to_multiset_contains(s2, x);
}

/// The fox moves, those reaching the coop or nearer to it first.
fn order_fox_moves(graph: &Graph, moves: &Vec<usize>, coop: usize) -> (r: Vec<usize>)
    requires
        searchable(*graph),
    ensures
        r@.to_multiset() == moves@.to_multiset(),
        r@.len() == moves@.len(),
{
    let mut keys: Vec<usize> = Vec::new();
    let mut i: usize = 0;
    while i < moves.len()
        invariant
            searchable(*graph),
            i <= moves@.len(),
            keys@.len() == i,
        decreases moves@.len() - i,
    {
        let to = moves[i];
        let key = if to == coop {
            0
        } else {
            match graph.distance(to, coop) {
                Some(d) => {
                    proof {
                        assert(d < MAX_SEARCH_NODES);
                    }
                    d + 1
                },
                None => 21,
            }
        };
        keys.push(key);
        i = i + 1;
    }
    sort_by_keys(moves, &keys)
}

/// The hound moves, those ending nearer the fox first.
fn order_hound_moves(graph: &Graph, moves: &Vec<(usize, usize)>, fox: usize) -> (r: Vec<(usize, usize)>)
    requires
        searchable(*graph),
    ensures
        r@.to_multiset() == moves@.to_multiset(),
        r@.len() == moves@.len(),
{
    let mut keys: Vec<usize> = Vec::new();
    let mut i: usize = 0;
    while i < moves.len()
        invariant
            searchable(*graph),
            i <= moves@.len(),
            keys@.len() == i,
        decreases moves@.len() - i,
    {
        let (_, to) = moves[i];
        let key = match graph.distance(to, fox) {
            Some(d) => d,
            None => 20,
        };
        keys.push(key);
        i = i + 1;
    }
    sort_by_keys(moves, &keys)
}

/// Alpha-beta minimax search `depth` plies deep, scored from the fox's side. Within the
/// window `(alpha, beta)` the result is the exact minimax value; outside it the result
/// bounds that value (see `alpha_beta_bound`); with the full window `(-INF, INF)` it is
/// exact.
pub fn minimax(
    board: &BoardSnapshot,
    graph: &Graph,
    depth: usize,
    alpha: i32,
    beta: i32,
    is_fox_turn: bool,
) -> (r: i32)
    requires
        searchable(*graph),
        depth <= MAX_SEARCH_DEPTH,
    ensures
        -INF <= alpha < beta <= INF ==> alpha_beta_bound(
            r as int,
            mm_value(*board, *graph, depth as nat, is_fox_turn),
            alpha as int,
            beta as int,
        ),
        -INF <= r <= INF,
        alpha == -INF && beta == INF ==> r as int == mm_value(*board, *graph, depth as nat, is_fox_turn),
        is_terminal(*board, *graph, depth as nat, is_fox_turn) ==> r as int == mm_value(
            *board,
            *graph,
            depth as nat,
            is_fox_turn,
        ),
    decreases depth,
{
    let ghost valid = -INF <= alpha < beta <= INF;
    proof {
        lemma_mm_bounds(*board, *graph, depth as nat, is_fox_turn);
    }
    if board.is_fox_win() {
        return WIN_SCORE + (depth as i32 * 100);
    }
    if is_fox_turn {
        let fox_moves = board.fox_legal_moves(graph);
        if fox_moves.len() == 0 {
            return -WIN_SCORE - (depth as i32 * 100);
        }
        if depth == 0 {
            return evaluate_board(board, graph);
        }
        let ordered = order_fox_moves(graph, &fox_moves, board.coop_pos);
        let ghost cd = (depth - 1) as nat;
        let ghost moves = fox_moves@;
        let ghost v = fox_best(*board, *graph, cd, moves, 0);
        proof {
            lemma_fox_best(*board, *graph, cd, moves, 0);
            assert(mm_value(*board, *graph, depth as nat, true) == v);
        }
        let mut max_eval: i32 = -INF;
        let mut a: i32 = alpha;
        let ghost mut mt: int = -INF as int;
        let mut i: usize = 0;
        proof {
            assert(!is_terminal(*board, *graph, depth as nat, is_fox_turn));
        }
        while i < ordered.len()
            invariant
                !is_terminal(*board, *graph, depth as nat, is_fox_turn),
                searchable(*graph),
                0 < depth <= MAX_SEARCH_DEPTH,
                cd == depth - 1,
                valid == (-INF <= alpha < beta <= INF),
                moves == board.spec_fox_moves(*graph),
                moves.len() > 0,
                v == fox_best(*board, *graph, cd, moves, 0),
                is_fox_turn,
                mm_value(*board, *graph, depth as nat, true) == v,
                forall|j: int| 0 <= j < moves.len() ==> #[trigger] fox_child(*board, *graph, cd, moves[j]) <= v,
                ordered@.to_multiset() == moves.to_multiset(),
                i <= ordered@.len(),
                a as int == if i == 0 || alpha >= max_eval { alpha as int } else { max_eval as int },
                valid ==> a < beta,
                -INF <= max_eval <= INF,
                i == 0 ==> max_eval == -INF && mt == -INF as int,
                i > 0 ==> exists|j: int| 0 <= j < i && mt == #[trigger] fox_child(*board, *graph, cd, ordered@[j]),
                forall|j: int| 0 <= j < i ==> #[trigger] fox_child(*board, *graph, cd, ordered@[j]) <= mt,
                valid ==> ((max_eval <= alpha && mt <= max_eval) || (max_eval > alpha && mt == max_eval)),
            decreases ordered@.len() - i,
        {
            let to = ordered[i];
            proof {
                assert(ordered@.contains(to));
                lemma_same_elements(ordered@, moves, to);
                let k = choose|k: int| 0 <= k < moves.len() && moves[k] == to;
                assert(fox_child(*board, *graph, cd, moves[k]) <= v);
                lemma_mm_bounds(board.spec_apply_fox(to), *graph, cd, false);
            }
            let next_board = board.apply_fox_move(to);
            let eval = minimax(&next_board, graph, depth - 1, a, beta, false);
            let ghost cv = fox_child(*board, *graph, cd, to);
            proof {
                let k = choose|k: int| 0 <= k < moves.len() && moves[k] == to;
                assert(fox_child(*board, *graph, cd, moves[k]) <= v);
            }
            let ghost prev_mt = mt;
            proof {
                if cv > mt {
                    mt = cv;
                }
            }
            if eval > max_eval {
                max_eval = eval;
            }
            if eval > a {
                a = eval;
            }
            if beta <= a {
                return max_eval;
            }
            proof {
                assert(fox_child(*board, *graph, cd, ordered@[i as int]) == cv);
                if i > 0 {
                    let j = choose|j: int| 0 <= j < i && prev_mt == #[trigger] fox_child(*board, *graph, cd, ordered@[j]);
                    if cv <= prev_mt {
                        assert(mt == fox_child(*board, *graph, cd, ordered@[j]));
                    }
                }
            }
            i = i + 1;
        }
        proof {
            let j = choose|j: int| 0 <= j < moves.len() && v == #[trigger] fox_child(*board, *graph, cd, moves[j]);
            assert(moves.contains(moves[j]));
            lemma_same_elements(ordered@, moves, moves[j]);
            let k = choose|k: int| 0 <= k < ordered@.len() && ordered@[k] == moves[j];
            assert(fox_child(*board, *graph, cd, ordered@[k]) <= mt);
            let j2 = choose|j2: int| 0 <= j2 < ordered@.len() && mt == #[trigger] fox_child(*board, *graph, cd, ordered@[j2]);
            assert(ordered@.contains(ordered@[j2]));
            lemma_same_elements(ordered@, moves, ordered@[j2]);
            let k2 = choose|k2: int| 0 <= k2 < moves.len() && moves[k2] == ordered@[j2];
            assert(fox_child(*board, *graph, cd, moves[k2]) <= v);
        }
        max_eval
    } else {
        let hound_moves = board.all_hound_moves(graph);
        if hound_moves.len() == 0 {
            return WIN_SCORE + (depth as i32 * 100);
        }
        if depth == 0 {
            return evaluate_board(board, graph);
        }
        let ordered = order_hound_moves(graph, &hound_moves, board.fox_pos);
        let ghost cd = (depth - 1) as nat;
        let ghost moves = hound_moves@;
        let ghost v = hound_best(*board, *graph, cd, moves, 0);
        proof {
            lemma_hound_best(*board, *graph, cd, moves, 0);
            lemma_all_hound_moves_in_range(*board, *graph);
            assert(mm_value(*board, *graph, depth as nat, false) == v);
        }
        let mut min_eval: i32 = INF;
        let mut bt: i32 = beta;
        let ghost mut mt: int = INF as int;
        let mut i: usize = 0;
        proof {
            assert(!is_terminal(*board, *graph, depth as nat, is_fox_turn));
        }
        while i < ordered.len()
            invariant
                !is_terminal(*board, *graph, depth as nat, is_fox_turn),
                searchable(*graph),
                0 < depth <= MAX_SEARCH_DEPTH,
                cd == depth - 1,
                valid == (-INF <= alpha < beta <= INF),
                moves == board.spec_all_hound_moves(*graph),
                forall|j: int| 0 <= j < moves.len() ==> (#[trigger] moves[j]).0 < 3,
                moves.len() > 0,
                v == hound_best(*board, *graph, cd, moves, 0),
                !is_fox_turn,
                mm_value(*board, *graph, depth as nat, false) == v,
                forall|j: int| 0 <= j < moves.len() ==> v <= #[trigger] hound_child(*board, *graph, cd, moves[j]),
                ordered@.to_multiset() == moves.to_multiset(),
                i <= ordered@.len(),
                bt as int == if i == 0 || beta <= min_eval { beta as int } else { min_eval as int },
                valid ==> alpha < bt,
                -INF <= min_eval <= INF,
                i == 0 ==> min_eval == INF && mt == INF as int,
                i > 0 ==> exists|j: int| 0 <= j < i && mt == #[trigger] hound_child(*board, *graph, cd, ordered@[j]),
                forall|j: int| 0 <= j < i ==> mt <= #[trigger] hound_child(*board, *graph, cd, ordered@[j]),
                valid ==> ((min_eval >= beta && mt >= min_eval) || (min_eval < beta && mt == min_eval)),
            decreases ordered@.len() - i,
        {
            let (hound_idx, to) = ordered[i];
            proof {
                assert(ordered@.contains((hound_idx, to)));
                lemma_same_elements(ordered@, moves, (hound_idx, to));
                let k = choose|k: int| 0 <= k < moves.len() && moves[k] == (hound_idx, to);
                assert(v <= hound_child(*board, *graph, cd, moves[k]));
                assert(moves[k].0 < 3);
                lemma_mm_bounds(board.spec_apply_hound(hound_idx, to), *graph, cd, true);
            }
            let next_board = board.apply_hound_move(hound_idx, to);
            let eval = minimax(&next_board, graph, depth - 1, alpha, bt, true);
            let ghost cv = hound_child(*board, *graph, cd, (hound_idx, to));
            let ghost prev_mt = mt;
            proof {
                if cv < mt {
                    mt = cv;
                }
            }
            if eval < min_eval {
                min_eval = eval;
            }
            if eval < bt {
                bt = eval;
            }
            if bt <= alpha {
                return min_eval;
            }
            proof {
                assert(hound_child(*board, *graph, cd, ordered@[i as int]) == cv);
                if i > 0 {
                    let j = choose|j: int| 0 <= j < i && prev_mt == #[trigger] hound_child(*board, *graph, cd, ordered@[j]);
                    if cv >= prev_mt {
                        assert(mt == hound_child(*board, *graph, cd, ordered@[j]));
                    }
                }
            }
            i = i + 1;
        }
        proof {
            let j = choose|j: int| 0 <= j < moves.len() && v == #[trigger] hound_child(*board, *graph, cd, moves[j]);
            assert(moves.contains(moves[j]));
            lemma_same_elements(ordered@, moves, moves[j]);
            let k = choose|k: int| 0 <= k < ordered@.len() && ordered@[k] == moves[j];
            assert(mt <= hound_child(*board, *graph, cd, ordered@[k]));
            let j2 = choose|j2: int| 0 <= j2 < ordered@.len() && mt == #[trigger] hound_child(*board, *graph, cd, ordered@[j2]);
            assert(ordered@.contains(ordered@[j2]));
            lemma_same_elements(ordered@, moves, ordered@[j2]);
            let k2 = choose|k2: int| 0 <= k2 < moves.len() && moves[k2] == ordered@[j2];
            assert(v <= hound_child(*board, *graph, cd, moves[k2]));
        }
        min_eval
    }
}

/// Every hound move names one of the three hounds.
pub proof fn lemma_all_hound_moves_in_range(b: BoardSnapshot, g: Graph)
    ensures
        forall|j: int| 0 <= j < b.spec_all_hound_moves(g).len() ==> (#[trigger] b.spec_all_hound_moves(g)[j]).0 < 3,
{
    lemma_hound_moves_upto_in_range(b, g, 3);
}

proof fn lemma_hound_moves_upto_in_range(b: BoardSnapshot, g: Graph, k: nat)
    requires
        k <= 3,
    ensures
        forall|j: int| 0 <= j < b.spec_hound_moves_upto(g, k).len() ==> (#[trigger] b.spec_hound_moves_upto(g, k)[j]).0 < k,
    decreases k,
{
    if k > 0 {
        lemma_hound_moves_upto_in_range(b, g, (k - 1) as nat);
        let prev = b.spec_hound_moves_upto(g, (k - 1) as nat);
        let tail = b.spec_hound_moves(g, k - 1).map_values(|t: usize| ((k - 1) as usize, t));
        assert forall|j: int| 0 <= j < b.spec_hound_moves_upto(g, k).len() implies (
        #[trigger] b.spec_hound_moves_upto(g, k)[j]).0 < k by {
            if j < prev.len() {
                assert(b.spec_hound_moves_upto(g, k)[j] == prev[j]);
            } else {
                assert(b.spec_hound_moves_upto(g, k)[j] == tail[j - prev.len()]);
            }
        }
    }
}

/// Lexicographic order on tie-break keys.
pub open spec fn key_le(a: (int, int), b: (int, int)) -> bool {
    a.0 < b.0 || (a.0 == b.0 && a.1 <= b.1)
}

/// The index of the last greatest key.
pub open spec fn last_argmax(keys: Seq<(int, int)>) -> int
    decreases keys.len(),
{
    if keys.len() <= 1 {
        0
    } else {
        let j = last_argmax(keys.drop_last());
        if key_le(keys[j], keys.last()) {
            keys.len() - 1
        } else {
            j
        }
    }
}

pub proof fn lemma_last_argmax_in_range(keys: Seq<(int, int)>)
    requires
        keys.len() > 0,
    ensures
        0 <= last_argmax(keys) < keys.len(),
    decreases keys.len(),
{
    if keys.len() > 1 {
        lemma_last_argmax_in_range(keys.drop_last());
    }
}

/// Tie-break keys as mathematical integers.
pub open spec fn keys_view(keys: Seq<(i32, i32)>) -> Seq<(int, int)> {
    keys.map_values(|k: (i32, i32)| (k.0 as int, k.1 as int))
}

/// Picks among equally scored candidates: on Easy, with a choice to make, the
/// candidate at `random_pick`; otherwise the last one with the greatest key.
pub fn select_best_candidate(keys: &Vec<(i32, i32)>, difficulty: Difficulty, random_pick: usize) -> (r: usize)
    requires
        keys@.len() > 0,
        difficulty == Difficulty::Easy && keys@.len() > 1 ==> random_pick < keys@.len(),
    ensures
        r < keys@.len(),
        difficulty == Difficulty::Easy && keys@.len() > 1 ==> r == random_pick,
        !(difficulty == Difficulty::Easy && keys@.len() > 1) ==> r as int == last_argmax(keys_view(keys@)),
{
    if difficulty == Difficulty::Easy && keys.len() > 1 {
        return random_pick;
    }
    let ghost kv = keys_view(keys@);
    let mut best: usize = 0;
    let mut i: usize = 1;
    proof {
        assert(kv.take(1).len() == 1);
    }
    while i < keys.len()
        invariant
            kv == keys_view(keys@),
            1 <= i <= keys@.len(),
            best < i,
            best as int == last_argmax(kv.take(i as int)),
        decreases keys@.len() - i,
    {
        proof {
            assert(kv.take(i + 1).drop_last() =~= kv.take(i as int));
            assert(kv.take(i + 1)[best as int] == kv[best as int]);
            assert(kv.take(i + 1).last() == kv[i as int]);
        }
        let kb = keys[best];
        let ki = keys[i];
        if kb.0 < ki.0 || (kb.0 == ki.0 && kb.1 <= ki.1) {
            best = i;
        }
        i = i + 1;
    }
    proof {
        assert(kv.take(keys@.len() as int) =~= kv);
    }
    best
}

/// `macroquad::rand::gen_range(0, len)`: an index drawn from the game's shared
/// pseudo-random generator. The contract claims only that it lies below `len` (the
/// generator scales a 32-bit draw below one by `len`); which index comes back depends on
/// the generator's state and is left unsaid.
#[verifier::external_body]
fn random_index(len: usize) -> (r: usize)
    requires
        0 < len,
    ensures
        r < len,
{
    macroquad::rand::gen_range(0, len)
}

/// The fox wins outright by moving to `m`.
pub open spec fn fox_win_filter(b: BoardSnapshot) -> spec_fn(usize) -> bool {
    |m: usize| b.spec_apply_fox(m).spec_is_fox_win()
}

/// The hound move `m` leaves the fox without a move.
pub open spec fn trap_filter(b: BoardSnapshot, g: Graph) -> spec_fn((usize, usize)) -> bool {
    |m: (usize, usize)| b.spec_apply_hound(m.0, m.1).spec_fox_moves(g).len() == 0
}

/// The fox moves whose value is `x`.
pub open spec fn fox_score_is(b: BoardSnapshot, g: Graph, cd: nat, x: int) -> spec_fn(usize) -> bool {
    |m: usize| fox_child(b, g, cd, m) == x
}

/// The hound moves whose value is `x`.
pub open spec fn hound_score_is(b: BoardSnapshot, g: Graph, cd: nat, x: int) -> spec_fn(
    (usize, usize),
) -> bool {
    |m: (usize, usize)| hound_child(b, g, cd, m) == x
}

/// The fox moves of best value, in move order.
pub open spec fn fox_candidates(b: BoardSnapshot, g: Graph, cd: nat) -> Seq<usize> {
    let moves = b.spec_fox_moves(g);
    moves.filter(fox_score_is(b, g, cd, fox_best(b, g, cd, moves, 0)))
}

/// The hound moves of best value (least for the fox), in move order.
pub open spec fn hound_candidates(b: BoardSnapshot, g: Graph, cd: nat) -> Seq<(usize, usize)> {
    let moves = b.spec_all_hound_moves(g);
    moves.filter(hound_score_is(b, g, cd, hound_best(b, g, cd, moves, 0)))
}

/// Tie-break key of a fox move: the static score reached, then nearness to the coop.
pub open spec fn fox_key(b: BoardSnapshot, g: Graph, m: usize) -> (int, int) {
    (spec_evaluate(b.spec_apply_fox(m), g), -unwrap_or(g.spec_distance(m, b.coop_pos), 20))
}

/// Tie-break key of a hound move: the static score denied to the fox, then nearness of
/// the hound to the fox.
pub open spec fn hound_key(b: BoardSnapshot, g: Graph, m: (usize, usize)) -> (int, int) {
    (-spec_evaluate(b.spec_apply_hound(m.0, m.1), g), -unwrap_or(g.spec_distance(m.1, b.fox_pos), 20))
}

/// The fox's choice with a search `max_depth` plies deep: none without a move; a move
/// that wins outright, the first such; else one of the best-valued moves, the one at
/// `pick` on Easy when there is a choice, otherwise the last with the greatest key.
pub open spec fn fox_decision(
    b: BoardSnapshot,
    g: Graph,
    max_depth: nat,
    difficulty: Difficulty,
    pick: int,
) -> Option<usize> {
    let moves = b.spec_fox_moves(g);
    let wins = moves.filter(fox_win_filter(b));
    if moves.len() == 0 {
        None
    } else if wins.len() > 0 {
        Some(wins[0])
    } else {
        let cands = fox_candidates(b, g, (max_depth - 1) as nat);
        let idx = if difficulty == Difficulty::Easy && cands.len() > 1 {
            pick
        } else {
            last_argmax(cands.map_values(|m: usize| fox_key(b, g, m)))
        };
        Some(cands[idx])
    }
}

/// The hounds' choice with a search `max_depth` plies deep: none without a move; a move
/// that traps the fox, the first such; else one of the best-valued moves, the one at
/// `pick` on Easy when there is a choice, otherwise the last with the greatest key.
pub open spec fn hound_decision(
    b: BoardSnapshot,
    g: Graph,
    max_depth: nat,
    difficulty: Difficulty,
    pick: int,
) -> Option<(usize, usize)> {
    let moves = b.spec_all_hound_moves(g);
    let traps = moves.filter(trap_filter(b, g));
    if moves.len() == 0 {
        None
    } else if traps.len() > 0 {
        Some(traps[0])
    } else {
        let cands = hound_candidates(b, g, (max_depth - 1) as nat);
        let idx = if difficulty == Difficulty::Easy && cands.len() > 1 {
            pick
        } else {
            last_argmax(cands.map_values(|m: (usize, usize)| hound_key(b, g, m)))
        };
        Some(cands[idx])
    }
}

/// The number of best-valued fox moves.
pub open spec fn fox_choice_count(b: BoardSnapshot, g: Graph, max_depth: nat) -> nat {
    fox_candidates(b, g, (max_depth - 1) as nat).len()
}

/// The number of best-valued hound moves.
pub open spec fn hound_choice_count(b: BoardSnapshot, g: Graph, max_depth: nat) -> nat {
    hound_candidates(b, g, (max_depth - 1) as nat).len()
}

/// How many plies the search looks ahead at each difficulty.
pub open spec fn search_depth(d: Difficulty) -> nat {
    match d {
        Difficulty::Easy => 2,
        Difficulty::Medium => 4,
        Difficulty::Hard => 6,
    }
}

/// The move the computer makes for the side to move in `state` (see `fox_decision`
/// and `hound_decision`), with `pick` the random choice made on Easy.
pub open spec fn move_decision(state: GameState, pick: int) -> Option<PieceMove> {
    let b = BoardSnapshot::spec_from_state(state);
    let depth = search_depth(state.difficulty);
    match state.current_turn {
        Faction::Fox => match fox_decision(b, state.graph, depth, state.difficulty, pick) {
            Some(to) => Some(PieceMove::FoxMove { to }),
            None => None,
        },
        Faction::Hounds => match hound_decision(b, state.graph, depth, state.difficulty, pick) {
            Some(m) => Some(hound_piece_move(b, m)),
            None => None,
        },
    }
}

/// The number of equally best moves among which Easy picks at random.
pub open spec fn choice_count(state: GameState) -> nat {
    let b = BoardSnapshot::spec_from_state(state);
    let depth = search_depth(state.difficulty);
    match state.current_turn {
        Faction::Fox => fox_choice_count(b, state.graph, depth),
        Faction::Hounds => hound_choice_count(b, state.graph, depth),
    }
}

/// A random choice that Easy may make in `state`.
pub open spec fn valid_pick(state: GameState, pick: int) -> bool {
    state.difficulty == Difficulty::Easy && choice_count(state) > 1 ==> 0 <= pick < choice_count(state)
}

/// The computer's move for the side to move: `None` when that side has no move. On
/// Easy, when several moves are equally best, one of them drawn at random.
pub fn find_best_move(state: &GameState) -> (r: Option<PieceMove>)
    requires
        searchable(state.graph),
    ensures
        exists|pick: int| valid_pick(*state, pick) && r == #[trigger] move_decision(*state, pick),
{
    let snapshot = BoardSnapshot::from_state(state);
    let depth: usize = match state.difficulty {
        Difficulty::Easy => 2,
        Difficulty::Medium => 4,
        Difficulty::Hard => 6,
    };
    match state.current_turn {
        Faction::Fox => {
            let r = find_best_fox_move(&snapshot, &state.graph, depth, state.difficulty);
            proof {
                let pick = choose|pick: int|
                    (state.difficulty == Difficulty::Easy && fox_choice_count(snapshot, state.graph, depth as nat) > 1 ==> 0
                        <= pick < fox_choice_count(snapshot, state.graph, depth as nat)) && r == match #[trigger] fox_decision(
                        snapshot,
                        state.graph,
                        depth as nat,
                        state.difficulty,
                        pick,
                    ) {
                        Some(to) => Some(PieceMove::FoxMove { to }),
                        None => None::<PieceMove>,
                    };
                assert(valid_pick(*state, pick) && r == move_decision(*state, pick));
            }
            r
        },
        Faction::Hounds => {
            let r = find_best_hound_move(&snapshot, &state.graph, depth, state.difficulty);
            proof {
                let pick = choose|pick: int|
                    (state.difficulty == Difficulty::Easy && hound_choice_count(snapshot, state.graph, depth as nat) > 1 ==> 0
                        <= pick < hound_choice_count(snapshot, state.graph, depth as nat)) && r == match #[trigger] hound_decision(
                        snapshot,
                        state.graph,
                        depth as nat,
                        state.difficulty,
                        pick,
                    ) {
                        Some(m) => Some(hound_piece_move(snapshot, m)),
                        None => None::<PieceMove>,
                    };
                assert(valid_pick(*state, pick) && r == move_decision(*state, pick));
            }
            r
        },
    }
}

/// The first fox move that wins outright.
fn first_fox_win(board: &BoardSnapshot, moves: &Vec<usize>) -> (r: Option<usize>)
    ensures
        moves@.filter(fox_win_filter(*board)).len() > 0 ==> r == Some(
            moves@.filter(fox_win_filter(*board))[0],
        ),
        moves@.filter(fox_win_filter(*board)).len() == 0 ==> r is None,
{
    let ghost pred = fox_win_filter(*board);
    let mut i: usize = 0;
    proof {
        assert(moves@.skip(0) =~= moves@);
    }
    while i < moves.len()
        invariant
            pred == fox_win_filter(*board),
            i <= moves@.len(),
            moves@.filter(pred) == moves@.skip(i as int).filter(pred),
        decreases moves@.len() - i,
    {
        let m = moves[i];
        proof {
            assert(moves@.skip(i as int) =~= seq![m] + moves@.skip(i + 1));
            moves@.skip(i + 1).lemma_filter_prepend(m, pred);
        }
        if board.apply_fox_move(m).is_fox_win() {
            return Some(m);
        }
        i = i + 1;
    }
    proof {
        assert(moves@.skip(moves@.len() as int) =~= Seq::<usize>::empty());
        reveal(Seq::filter);
    }
    None
}

/// The first hound move that leaves the fox without a move.
fn first_trap(board: &BoardSnapshot, graph: &Graph, moves: &Vec<(usize, usize)>) -> (r: Option<
    (usize, usize),
>)
    requires
        graph.wf(),
        forall|j: int| 0 <= j < moves@.len() ==> (#[trigger] moves@[j]).0 < 3,
    ensures
        moves@.filter(trap_filter(*board, *graph)).len() > 0 ==> r == Some(
            moves@.filter(trap_filter(*board, *graph))[0],
        ),
        moves@.filter(trap_filter(*board, *graph)).len() == 0 ==> r is None,
{
    let ghost pred = trap_filter(*board, *graph);
    let mut i: usize = 0;
    proof {
        assert(moves@.skip(0) =~= moves@);
    }
    while i < moves.len()
        invariant
            graph.wf(),
            forall|j: int| 0 <= j < moves@.len() ==> (#[trigger] moves@[j]).0 < 3,
            pred == trap_filter(*board, *graph),
            i <= moves@.len(),
            moves@.filter(pred) == moves@.skip(i as int).filter(pred),
        decreases moves@.len() - i,
    {
        let m = moves[i];
        proof {
            assert(moves@.skip(i as int) =~= seq![m] + moves@.skip(i + 1));
            moves@.skip(i + 1).lemma_filter_prepend(m, pred);
            assert(moves@[i as int].0 < 3);
        }
        let next_b = board.apply_hound_move(m.0, m.1);
        if next_b.fox_legal_moves(graph).len() == 0 {
            return Some(m);
        }
        i = i + 1;
    }
    proof {
        assert(moves@.skip(moves@.len() as int) =~= Seq::<(usize, usize)>::empty());
        reveal(Seq::filter);
    }
    None
}

/// The fox's choice with a search `max_depth` plies deep (see `fox_decision`).
fn find_best_fox_move(board: &BoardSnapshot, graph: &Graph, max_depth: usize, difficulty: Difficulty) -> (r: Option<
    PieceMove,
>)
    requires
        searchable(*graph),
        1 <= max_depth <= MAX_SEARCH_DEPTH,
    ensures
        exists|pick: int|
            (difficulty == Difficulty::Easy && fox_choice_count(*board, *graph, max_depth as nat) > 1 ==> 0
                <= pick < fox_choice_count(*board, *graph, max_depth as nat)) && r == match #[trigger] fox_decision(
                *board,
                *graph,
                max_depth as nat,
                difficulty,
                pick,
            ) {
                Some(to) => Some(PieceMove::FoxMove { to }),
                None => None::<PieceMove>,
            },
{
    let moves = board.fox_legal_moves(graph);
    let ghost cd = (max_depth - 1) as nat;
    let ghost mv = moves@;
    if moves.len() == 0 {
        proof {
            assert(fox_decision(*board, *graph, max_depth as nat, difficulty, 0) is None);
            lemma_fox_candidates_nonempty(*board, *graph, cd);
        }
        return None;
    }
    match first_fox_win(board, &moves) {
        Some(direct_win) => {
            proof {
                lemma_fox_candidates_nonempty(*board, *graph, cd);
                assert(fox_decision(*board, *graph, max_depth as nat, difficulty, 0) == Some(direct_win));
            }
            return Some(PieceMove::FoxMove { to: direct_win });
        },
        None => {},
    }
    let mut best_score: i32 = -INF;
    let mut candidates: Vec<usize> = Vec::new();
    let mut i: usize = 0;
    while i < moves.len()
        invariant
            searchable(*graph),
            1 <= max_depth <= MAX_SEARCH_DEPTH,
            cd == max_depth - 1,
            mv == moves@,
            mv == board.spec_fox_moves(*graph),
            i <= mv.len(),
            i == 0 ==> best_score == -INF && candidates@.len() == 0,
            i > 0 ==> exists|j: int| 0 <= j < i && best_score == #[trigger] fox_child(*board, *graph, cd, mv[j]),
            forall|j: int| 0 <= j < i ==> #[trigger] fox_child(*board, *graph, cd, mv[j]) <= best_score,
            candidates@ == mv.take(i as int).filter(fox_score_is(*board, *graph, cd, best_score as int)),
        decreases mv.len() - i,
    {
        let to = moves[i];
        let next_board = board.apply_fox_move(to);
        let score = minimax(&next_board, graph, max_depth - 1, -INF, INF, false);
        proof {
            lemma_mm_bounds(next_board, *graph, cd, false);
            assert(score as int == fox_child(*board, *graph, cd, to));
            assert(mv.take(i + 1) =~= mv.take(i as int).push(to));
        }
        if score > best_score {
            proof {
                let pred = fox_score_is(*board, *graph, cd, score as int);
                assert(mv.take(i as int).all(|x: usize| !pred(x))) by {
                    assert forall|j: int| 0 <= j < mv.take(i as int).len() implies !pred(mv.take(i as int)[j]) by {
                        assert(mv.take(i as int)[j] == mv[j]);
                        assert(fox_child(*board, *graph, cd, mv[j]) <= best_score);
                    }
                }
                mv.take(i as int).lemma_all_neg_filter_empty(pred);
                mv.take(i as int).lemma_filter_push(to, pred);
                assert(mv.take(i as int).filter(pred) =~= Seq::<usize>::empty());
            }
            best_score = score;
            candidates = Vec::new();
            candidates.push(to);
            proof {
                assert(candidates@ =~= seq![to]);
            }
        } else {
            proof {
                mv.take(i as int).lemma_filter_push(to, fox_score_is(*board, *graph, cd, best_score as int));
            }
            if score == best_score {
                candidates.push(to);
            }
        }
        proof {
            assert(fox_child(*board, *graph, cd, mv[i as int]) == score);
            if i > 0 && score < best_score {
                let j = choose|j: int| 0 <= j < i && best_score == #[trigger] fox_child(*board, *graph, cd, mv[j]);
                assert(fox_child(*board, *graph, cd, mv[j]) == best_score);
            }
        }
        i = i + 1;
    }
    proof {
        assert(mv.take(mv.len() as int) =~= mv);
        lemma_fox_best(*board, *graph, cd, mv, 0);
        let j = choose|j: int| 0 <= j < mv.len() && best_score == #[trigger] fox_child(*board, *graph, cd, mv[j]);
        let j2 = choose|j2: int| 0 <= j2 < mv.len() && fox_best(*board, *graph, cd, mv, 0) == #[trigger] fox_child(*board, *graph, cd, mv[j2]);
        assert(fox_child(*board, *graph, cd, mv[j]) <= fox_best(*board, *graph, cd, mv, 0));
        assert(fox_child(*board, *graph, cd, mv[j2]) <= best_score);
        assert(candidates@ == fox_candidates(*board, *graph, cd));
        lemma_fox_candidates_nonempty(*board, *graph, cd);
    }
    let mut keys: Vec<(i32, i32)> = Vec::new();
    let mut k: usize = 0;
    while k < candidates.len()
        invariant
            searchable(*graph),
            k <= candidates@.len(),
            keys_view(keys@) == candidates@.take(k as int).map_values(|m: usize| fox_key(*board, *graph, m)),
        decreases candidates@.len() - k,
    {
        let c = candidates[k];
        let next_b = board.apply_fox_move(c);
        let eval = evaluate_board(&next_b, graph);
        let dist: usize = match graph.distance(c, board.coop_pos) {
            Some(d) => d,
            None => 20,
        };
        proof {
            let d = graph.spec_distance(c, board.coop_pos);
            if d is Some {
                assert(d->0 < MAX_SEARCH_NODES);
            }
        }
        let ghost old_keys = keys@;
        let key_here: (i32, i32) = (eval, -(dist as i32));
        keys.push(key_here);
        proof {
            let key = fox_key(*board, *graph, c);
            assert(eval as int == key.0);
            assert(key_here.1 as int == key.1);
            assert(candidates@.take(k + 1) =~= candidates@.take(k as int).push(c));
            assert(keys@ == old_keys.push(key_here));
            assert(keys_view(keys@) =~= keys_view(old_keys).push(key));
            assert(keys_view(keys@) =~= candidates@.take(k + 1).map_values(|m: usize| fox_key(*board, *graph, m)));
        }
        k = k + 1;
    }
    proof {
        assert(candidates@.take(candidates@.len() as int) =~= candidates@);
    }
    let pick: usize = if difficulty == Difficulty::Easy && candidates.len() > 1 {
        random_index(candidates.len())
    } else {
        0
    };
    let chosen_idx = select_best_candidate(&keys, difficulty, pick);
    let chosen = candidates[chosen_idx];
    proof {
        let kv = candidates@.map_values(|m: usize| fox_key(*board, *graph, m));
        lemma_last_argmax_in_range(kv);
        if difficulty == Difficulty::Easy && candidates@.len() > 1 {
            assert(fox_decision(*board, *graph, max_depth as nat, difficulty, pick as int) == Some(chosen));
        } else {
            assert(fox_decision(*board, *graph, max_depth as nat, difficulty, 0) == Some(chosen));
        }
    }
    Some(PieceMove::FoxMove { to: chosen })
}

/// The move record of the hound move `m` on `b`.
pub open spec fn hound_piece_move(b: BoardSnapshot, m: (usize, usize)) -> PieceMove {
    PieceMove::HoundMove { hound_idx: m.0 as u8, from: b.hounds_pos[m.0 as int], to: m.1 }
}

/// The hounds' choice with a search `max_depth` plies deep (see `hound_decision`).
fn find_best_hound_move(board: &BoardSnapshot, graph: &Graph, max_depth: usize, difficulty: Difficulty) -> (r: Option<
    PieceMove,
>)
    requires
        searchable(*graph),
        1 <= max_depth <= MAX_SEARCH_DEPTH,
    ensures
        exists|pick: int|
            (difficulty == Difficulty::Easy && hound_choice_count(*board, *graph, max_depth as nat) > 1 ==> 0
                <= pick < hound_choice_count(*board, *graph, max_depth as nat)) && r == match #[trigger] hound_decision(
                *board,
                *graph,
                max_depth as nat,
                difficulty,
                pick,
            ) {
                Some(m) => Some(hound_piece_move(*board, m)),
                None => None::<PieceMove>,
            },
{
    let moves = board.all_hound_moves(graph);
    let ghost cd = (max_depth - 1) as nat;
    let ghost mv = moves@;
    proof {
        lemma_all_hound_moves_in_range(*board, *graph);
        lemma_hound_candidates_nonempty(*board, *graph, cd);
    }
    if moves.len() == 0 {
        proof {
            assert(hound_decision(*board, *graph, max_depth as nat, difficulty, 0) is None);
        }
        return None;
    }
    match first_trap(board, graph, &moves) {
        Some(m) => {
            proof {
                assert(hound_decision(*board, *graph, max_depth as nat, difficulty, 0) == Some(m));
                let traps = mv.filter(trap_filter(*board, *graph));
                assert(traps.contains(m)) by {
                    assert(traps[0] == m);
                }
                mv.lemma_filter_contains_rev(trap_filter(*board, *graph), m);
                let j = choose|j: int| 0 <= j < mv.len() && mv[j] == m;
                assert(mv[j].0 < 3);
            }
            return Some(PieceMove::HoundMove { hound_idx: m.0 as u8, from: board.hounds_pos[m.0], to: m.1 });
        },
        None => {},
    }
    let mut best_score: i32 = INF;
    let mut candidates: Vec<(usize, usize)> = Vec::new();
    let mut i: usize = 0;
    while i < moves.len()
        invariant
            searchable(*graph),
            1 <= max_depth <= MAX_SEARCH_DEPTH,
            cd == max_depth - 1,
            mv == moves@,
            mv == board.spec_all_hound_moves(*graph),
            forall|j: int| 0 <= j < mv.len() ==> (#[trigger] mv[j]).0 < 3,
            i <= mv.len(),
            i == 0 ==> best_score == INF && candidates@.len() == 0,
            i > 0 ==> exists|j: int| 0 <= j < i && best_score == #[trigger] hound_child(*board, *graph, cd, mv[j]),
            forall|j: int| 0 <= j < i ==> best_score <= #[trigger] hound_child(*board, *graph, cd, mv[j]),
            candidates@ == mv.take(i as int).filter(hound_score_is(*board, *graph, cd, best_score as int)),
        decreases mv.len() - i,
    {
        let m = moves[i];
        proof {
            assert(mv[i as int].0 < 3);
        }
        let next_board = board.apply_hound_move(m.0, m.1);
        let score = minimax(&next_board, graph, max_depth - 1, -INF, INF, true);
        proof {
            lemma_mm_bounds(next_board, *graph, cd, true);
            assert(score as int == hound_child(*board, *graph, cd, m));
            assert(mv.take(i + 1) =~= mv.take(i as int).push(m));
        }
        if score < best_score {
            proof {
                let pred = hound_score_is(*board, *graph, cd, score as int);
                assert(mv.take(i as int).all(|x: (usize, usize)| !pred(x))) by {
                    assert forall|j: int| 0 <= j < mv.take(i as int).len() implies !pred(mv.take(i as int)[j]) by {
                        assert(mv.take(i as int)[j] == mv[j]);
                        assert(best_score <= hound_child(*board, *graph, cd, mv[j]));
                    }
                }
                mv.take(i as int).lemma_all_neg_filter_empty(pred);
                mv.take(i as int).lemma_filter_push(m, pred);
                assert(mv.take(i as int).filter(pred) =~= Seq::<(usize, usize)>::empty());
            }
            best_score = score;
            candidates = Vec::new();
            candidates.push(m);
            proof {
                assert(candidates@ =~= seq![m]);
            }
        } else {
            proof {
                mv.take(i as int).lemma_filter_push(m, hound_score_is(*board, *graph, cd, best_score as int));
            }
            if score == best_score {
                candidates.push(m);
            }
        }
        proof {
            assert(hound_child(*board, *graph, cd, mv[i as int]) == score);
            if i > 0 && score > best_score {
                let j = choose|j: int| 0 <= j < i && best_score == #[trigger] hound_child(*board, *graph, cd, mv[j]);
                assert(hound_child(*board, *graph, cd, mv[j]) == best_score);
            }
        }
        i = i + 1;
    }
    proof {
        assert(mv.take(mv.len() as int) =~= mv);
        lemma_hound_best(*board, *graph, cd, mv, 0);
        let j = choose|j: int| 0 <= j < mv.len() && best_score == #[trigger] hound_child(*board, *graph, cd, mv[j]);
        let j2 = choose|j2: int| 0 <= j2 < mv.len() && hound_best(*board, *graph, cd, mv, 0) == #[trigger] hound_child(*board, *graph, cd, mv[j2]);
        assert(hound_best(*board, *graph, cd, mv, 0) <= hound_child(*board, *graph, cd, mv[j]));
        assert(best_score <= hound_child(*board, *graph, cd, mv[j2]));
        assert(candidates@ == hound_candidates(*board, *graph, cd));
    }
    let ghost cands = candidates@;
    proof {
        broadcast use vstd::seq_lib::group_filter_ensures;
        assert forall|k: int| 0 <= k < cands.len() implies (#[trigger] cands[k]).0 < 3 by {
            let pred = hound_score_is(*board, *graph, cd, best_score as int);
            assert(mv.filter(pred).contains(cands[k]));
            mv.lemma_filter_contains_rev(pred, cands[k]);
            let j = choose|j: int| 0 <= j < mv.len() && mv[j] == cands[k];
            assert(mv[j].0 < 3);
        }
    }
    let mut keys: Vec<(i32, i32)> = Vec::new();
    let mut k: usize = 0;
    while k < candidates.len()
        invariant
            searchable(*graph),
            cands == candidates@,
            forall|q: int| 0 <= q < cands.len() ==> (#[trigger] cands[q]).0 < 3,
            k <= candidates@.len(),
            keys_view(keys@) == candidates@.take(k as int).map_values(|m: (usize, usize)| hound_key(*board, *graph, m)),
        decreases candidates@.len() - k,
    {
        let c = candidates[k];
        proof {
            assert(cands[k as int].0 < 3);
            lemma_evaluate_bounds(board.spec_apply_hound(c.0, c.1), *graph);
        }
        let next_b = board.apply_hound_move(c.0, c.1);
        let eval = evaluate_board(&next_b, graph);
        let dist: usize = match graph.distance(c.1, board.fox_pos) {
            Some(d) => d,
            None => 20,
        };
        proof {
            let d = graph.spec_distance(c.1, board.fox_pos);
            if d is Some {
                assert(d->0 < MAX_SEARCH_NODES);
            }
        }
        let ghost old_keys = keys@;
        let key_here: (i32, i32) = (-eval, -(dist as i32));
        keys.push(key_here);
        proof {
            let key = hound_key(*board, *graph, c);
            assert(key_here.0 as int == key.0);
            assert(key_here.1 as int == key.1);
            assert(candidates@.take(k + 1) =~= candidates@.take(k as int).push(c));
            assert(keys@ == old_keys.push(key_here));
            assert(keys_view(keys@) =~= keys_view(old_keys).push(key));
            assert(keys_view(keys@) =~= candidates@.take(k + 1).map_values(|m: (usize, usize)| hound_key(*board, *graph, m)));
        }
        k = k + 1;
    }
    proof {
        assert(candidates@.take(candidates@.len() as int) =~= candidates@);
    }
    let pick: usize = if difficulty == Difficulty::Easy && candidates.len() > 1 {
        random_index(candidates.len())
    } else {
        0
    };
    let chosen_idx = select_best_candidate(&keys, difficulty, pick);
    let chosen = candidates[chosen_idx];
    proof {
        let kv = candidates@.map_values(|m: (usize, usize)| hound_key(*board, *graph, m));
        lemma_last_argmax_in_range(kv);
        assert(cands[chosen_idx as int].0 < 3);
        if difficulty == Difficulty::Easy && candidates@.len() > 1 {
            assert(hound_decision(*board, *graph, max_depth as nat, difficulty, pick as int) == Some(chosen));
        } else {
            assert(hound_decision(*board, *graph, max_depth as nat, difficulty, 0) == Some(chosen));
        }
    }
    Some(PieceMove::HoundMove { hound_idx: chosen.0 as u8, from: board.hounds_pos[chosen.0], to: chosen.1 })
}

/// There is a best-valued fox move whenever the fox has a move.
pub proof fn lemma_fox_candidates_nonempty(b: BoardSnapshot, g: Graph, cd: nat)
    ensures
        b.spec_fox_moves(g).len() > 0 ==> fox_candidates(b, g, cd).len() > 0,
        fox_candidates(b, g, cd).len() <= b.spec_fox_moves(g).len(),
{
    let moves = b.spec_fox_moves(g);
    let pred = fox_score_is(b, g, cd, fox_best(b, g, cd, moves, 0));
    broadcast use vstd::seq_lib::group_filter_ensures;

    if moves.len() > 0 {
        lemma_fox_best(b, g, cd, moves, 0);
        let j = choose|j: int| 0 <= j < moves.len() && fox_best(b, g, cd, moves, 0) == #[trigger] fox_child(b, g, cd, moves[j]);
        assert(pred(moves[j]));
        assert(moves.filter(pred).contains(moves[j]));
    }
}

/// There is a best-valued hound move whenever the hounds have a move.
pub proof fn lemma_hound_candidates_nonempty(b: BoardSnapshot, g: Graph, cd: nat)
    ensures
        b.spec_all_hound_moves(g).len() > 0 ==> hound_candidates(b, g, cd).len() > 0,
        hound_candidates(b, g, cd).len() <= b.spec_all_hound_moves(g).len(),
{
    let moves = b.spec_all_hound_moves(g);
    let pred = hound_score_is(b, g, cd, hound_best(b, g, cd, moves, 0));
    broadcast use vstd::seq_lib::group_filter_ensures;

    if moves.len() > 0 {
        lemma_hound_best(b, g, cd, moves, 0);
        let j = choose|j: int| 0 <= j < moves.len() && hound_best(b, g, cd, moves, 0) == #[trigger] hound_child(b, g, cd, moves[j]);
        assert(pred(moves[j]));
        assert(moves.filter(pred).contains(moves[j]));
    }
}

// ---------------------------------------------------------------------------
// The computer plays by the rules
// ---------------------------------------------------------------------------

/// With three hounds and the fox not pausing, the snapshot offers exactly the moves the
/// match does.
proof fn lemma_snapshot_moves(state: GameState)
    requires
        state.hounds_pos@.len() == 3,
        !state.fox_waiting_at_waypoint,
    ensures
        BoardSnapshot::spec_from_state(state).hounds() == state.hounds_pos@,
        BoardSnapshot::spec_from_state(state).spec_fox_moves(state.graph) == state@.fox_moves(),
        forall|i: int|
            0 <= i < 3 ==> #[trigger] BoardSnapshot::spec_from_state(state).spec_hound_moves(state.graph, i)
                == state@.hound_moves(i),
{
    let b = BoardSnapshot::spec_from_state(state);
    assert(b.hounds() =~= state.hounds_pos@);
}

/// A hound move of the snapshot names a hound below `k` and one of its moves.
proof fn lemma_upto_member(b: BoardSnapshot, g: Graph, k: nat, m: (usize, usize))
    requires
        k <= 3,
        b.spec_hound_moves_upto(g, k).contains(m),
    ensures
        (m.0 as int) < k,
        b.spec_hound_moves(g, m.0 as int).contains(m.1),
    decreases k,
{
    let all = b.spec_hound_moves_upto(g, k);
    let j = choose|j: int| 0 <= j < all.len() && all[j] == m;
    let prev = b.spec_hound_moves_upto(g, (k - 1) as nat);
    let tail = b.spec_hound_moves(g, k - 1).map_values(|t: usize| ((k - 1) as usize, t));
    assert(all == prev + tail);
    if j < prev.len() {
        assert(prev[j] == m);
        lemma_upto_member(b, g, (k - 1) as nat, m);
    } else {
        assert(tail[j - prev.len()] == m);
        assert(b.spec_hound_moves(g, k - 1)[j - prev.len()] == m.1);
    }
}

/// The snapshot's hounds have no move exactly when none of the first `k` hounds of
/// the match has one.
proof fn lemma_upto_empty(state: GameState, k: nat)
    requires
        state.hounds_pos@.len() == 3,
        !state.fox_waiting_at_waypoint,
        k <= 3,
    ensures
        (BoardSnapshot::spec_from_state(state).spec_hound_moves_upto(state.graph, k).len() == 0) == (
        state@.hound_moves_upto(k).len() == 0),
    decreases k,
{
    if k > 0 {
        lemma_upto_empty(state, (k - 1) as nat);
        lemma_snapshot_moves(state);
        assert(BoardSnapshot::spec_from_state(state).spec_hound_moves(state.graph, k - 1) == state@.hound_moves(
            k - 1,
        ));
    }
}

/// The computer plays by the rules: in a match with three hounds where the fox is not
/// pausing, every move it chooses is legal for the side to move, and it passes only
/// when that side has no legal move.
pub proof fn lemma_ai_move_is_legal(state: GameState, pick: int)
    requires
        state.hounds_pos@.len() == 3,
        !state.fox_waiting_at_waypoint,
        valid_pick(state, pick),
    ensures
        match move_decision(state, pick) {
            Some(PieceMove::FoxMove { to }) => state.current_turn == Faction::Fox && state@.fox_moves().contains(
                to,
            ),
            Some(PieceMove::HoundMove { hound_idx, from, to }) => {
                &&& state.current_turn == Faction::Hounds
                &&& (hound_idx as int) < state.hounds_pos@.len()
                &&& from == state.hounds_pos@[hound_idx as int]
                &&& state@.hound_moves(hound_idx as int).contains(to)
            },
            None => {
                &&& state.current_turn == Faction::Fox ==> state@.fox_moves().len() == 0
                &&& state.current_turn == Faction::Hounds ==> state@.all_hound_moves().len() == 0
            },
        },
{
    let b = BoardSnapshot::spec_from_state(state);
    let g = state.graph;
    let depth = search_depth(state.difficulty);
    let cd = (depth - 1) as nat;
    lemma_snapshot_moves(state);
    broadcast use vstd::seq_lib::group_filter_ensures;

    match state.current_turn {
        Faction::Fox => {
            let moves = b.spec_fox_moves(g);
            let wins = moves.filter(fox_win_filter(b));
            if moves.len() > 0 {
                if wins.len() > 0 {
                    assert(wins.contains(wins[0]));
                    moves.lemma_filter_contains_rev(fox_win_filter(b), wins[0]);
                } else {
                    let cands = fox_candidates(b, g, cd);
                    lemma_fox_candidates_nonempty(b, g, cd);
                    let keys = cands.map_values(|m: usize| fox_key(b, g, m));
                    lemma_last_argmax_in_range(keys);
                    let idx = if state.difficulty == Difficulty::Easy && cands.len() > 1 {
                        pick
                    } else {
                        last_argmax(keys)
                    };
                    assert(0 <= idx < cands.len());
                    assert(cands.contains(cands[idx]));
                    moves.lemma_filter_contains_rev(fox_score_is(b, g, cd, fox_best(b, g, cd, moves, 0)), cands[idx]);
                }
            }
        },
        Faction::Hounds => {
            let moves = b.spec_all_hound_moves(g);
            let traps = moves.filter(trap_filter(b, g));
            lemma_upto_empty(state, 3);
            if moves.len() > 0 {
                let chosen = if traps.len() > 0 {
                    assert(traps.contains(traps[0]));
                    moves.lemma_filter_contains_rev(trap_filter(b, g), traps[0]);
                    traps[0]
                } else {
                    let cands = hound_candidates(b, g, cd);
                    lemma_hound_candidates_nonempty(b, g, cd);
                    let keys = cands.map_values(|m: (usize, usize)| hound_key(b, g, m));
                    lemma_last_argmax_in_range(keys);
                    let idx = if state.difficulty == Difficulty::Easy && cands.len() > 1 {
                        pick
                    } else {
                        last_argmax(keys)
                    };
                    assert(0 <= idx < cands.len());
                    assert(cands.contains(cands[idx]));
                    moves.lemma_filter_contains_rev(
                        hound_score_is(b, g, cd, hound_best(b, g, cd, moves, 0)),
                        cands[idx],
                    );
                    cands[idx]
                };
                assert(hound_decision(b, g, depth, state.difficulty, pick) == Some(chosen));
                lemma_upto_member(b, g, 3, chosen);
                assert(b.spec_hound_moves(g, chosen.0 as int) == state@.hound_moves(chosen.0 as int));
            }
        },
    }
}

} // verus!
