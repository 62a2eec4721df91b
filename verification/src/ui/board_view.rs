//! What the board answers to the player: clicks on vertices, and when the objective
//! hint and the special rule notice are shown.

use crate::audio::SoundTrigger;
use crate::game::state::{Faction, GameModel, GamePhase, GameResult, GameState, PieceMove};
use vstd::prelude::*;

verus! {

/// `mv` was made by the side `player` controls.
pub open spec fn is_own_move(mv: PieceMove, player: Faction) -> bool {
    match mv {
        PieceMove::FoxMove { .. } => player == Faction::Fox,
        PieceMove::HoundMove { .. } => player == Faction::Hounds,
    }
}

/// The player has made a move of their own in this match.
pub open spec fn spec_player_has_moved(m: GameModel) -> bool {
    exists|i: int| 0 <= i < m.move_history.len() && is_own_move(#[trigger] m.move_history[i], m.player_faction)
}

/// The special rule notice (hounds may not retreat) opens a match on boards with that
/// rule and leaves with the player's first move.
pub open spec fn spec_show_rule_notice(m: GameModel) -> bool {
    m.phase == GamePhase::Playing && !m.config().allow_hound_retreat && !spec_player_has_moved(m)
}

/// The click on `clicked` asks a hound to step back toward the coop on a board that
/// forbids it: the vertex lies on a lower row than the selected hound, or than any hound
/// when none is selected.
pub open spec fn spec_is_retreat_click(m: GameModel, clicked: usize) -> bool {
    let nodes = m.graph.nodes@;
    &&& !m.config().allow_hound_retreat
    &&& (clicked as int) < nodes.len()
    &&& match m.selected_hound_idx {
        Some(h) => {
            &&& (h as int) < m.hounds_pos.len()
            &&& (m.hounds_pos[h as int] as int) < nodes.len()
            &&& nodes[clicked as int].row < nodes[m.hounds_pos[h as int] as int].row
        },
        None => exists|i: int|
            0 <= i < m.hounds_pos.len() && (#[trigger] m.hounds_pos[i] as int) < nodes.len()
                && nodes[clicked as int].row < nodes[m.hounds_pos[i] as int].row,
    }
}

/// Retreat clicks happen only on boards that forbid retreat, and only on vertices. With
/// no hound selected, a click on a row below any hound at all, whichever its place
/// among the hounds, is a retreat click, and a retreat click lies below some hound.
/// With a hound selected, only that hound's row counts.
pub proof fn lemma_retreat_click_rows(m: GameModel, clicked: usize, i: int)
    ensures
        m.config().allow_hound_retreat ==> !spec_is_retreat_click(m, clicked),
        (clicked as int) >= m.graph.nodes@.len() ==> !spec_is_retreat_click(m, clicked),
        m.selected_hound_idx is None && !m.config().allow_hound_retreat && (clicked as int)
            < m.graph.nodes@.len() && 0 <= i < m.hounds_pos.len() && (m.hounds_pos[i] as int)
            < m.graph.nodes@.len() && m.graph.nodes@[clicked as int].row
            < m.graph.nodes@[m.hounds_pos[i] as int].row ==> spec_is_retreat_click(m, clicked),
        m.selected_hound_idx is None && spec_is_retreat_click(m, clicked) ==> exists|j: int|
            0 <= j < m.hounds_pos.len() && (#[trigger] m.hounds_pos[j] as int) < m.graph.nodes@.len()
                && m.graph.nodes@[clicked as int].row < m.graph.nodes@[m.hounds_pos[j] as int].row,
        m.selected_hound_idx matches Some(h) ==> (spec_is_retreat_click(m, clicked) <==> {
            &&& !m.config().allow_hound_retreat
            &&& (clicked as int) < m.graph.nodes@.len()
            &&& (h as int) < m.hounds_pos.len()
            &&& (m.hounds_pos[h as int] as int) < m.graph.nodes@.len()
            &&& m.graph.nodes@[clicked as int].row < m.graph.nodes@[m.hounds_pos[h as int] as int].row
        }),
{
}

/// The first position of `x` in `s`, if any.
pub open spec fn first_pos(s: Seq<usize>, x: usize) -> Option<int>
    decreases s.len(),
{
    if s.len() == 0 {
        None
    } else if s[0] == x {
        Some(0)
    } else {
        match first_pos(s.drop_first(), x) {
            Some(i) => Some(i + 1),
            None => None,
        }
    }
}

proof fn lemma_first_pos(s: Seq<usize>, x: usize)
    ensures
        match first_pos(s, x) {
            Some(i) => 0 <= i < s.len() && s[i] == x && forall|j: int| 0 <= j < i ==> s[j] != x,
            None => !s.contains(x),
        },
    decreases s.len(),
{
    if s.len() > 0 && s[0] != x {
        lemma_first_pos(s.drop_first(), x);
        if let Some(i) = first_pos(s.drop_first(), x) {
            assert forall|j: int| 0 <= j < i + 1 implies s[j] != x by {
                if j > 0 {
                    assert(s[j] == s.drop_first()[j - 1]);
                }
            }
        }
        if s.contains(x) {
            let j = choose|j: int| 0 <= j < s.len() && s[j] == x;
            assert(s.drop_first()[j - 1] == x);
        }
    }
}

/// The player has made a move of their own in this match.
pub fn player_has_moved(state: &GameState) -> (r: bool)
    ensures
        r == spec_player_has_moved(state@),
{
    let player_is_fox = state.player_faction == Faction::Fox;
    let mut i: usize = 0;
    while i < state.move_history.len()
        invariant
            player_is_fox == (state.player_faction == Faction::Fox),
            i <= state.move_history@.len(),
            forall|j: int| 0 <= j < i ==> !is_own_move(#[trigger] state.move_history@[j], state.player_faction),
        decreases state.move_history@.len() - i,
    {
        let own = match state.move_history[i] {
            PieceMove::FoxMove { .. } => player_is_fox,
            PieceMove::HoundMove { .. } => !player_is_fox,
        };
        if own {
            proof {
                assert(is_own_move(state@.move_history[i as int], state@.player_faction));
            }
            return true;
        }
        i = i + 1;
    }
    false
}

/// The special rule notice belongs to the opening of a match on a board where hounds
/// may not retreat, until the player's first own move.
pub fn should_show_special_rule_notice(state: &GameState) -> (r: bool)
    ensures
        r == spec_show_rule_notice(state@),
{
    state.phase == GamePhase::Playing && !state.variant.config().allow_hound_retreat && !player_has_moved(state)
}

/// The notice is on screen: on a board where hounds may not retreat, during a match,
/// either while a reminder raised by a retreat click runs, or as the opening
/// announcement once the opening zoom has settled.
pub fn wants_special_rule_notice(state: &GameState, reminder_running: bool, intro_settled: bool) -> (r: bool)
    ensures
        r == (state.phase == GamePhase::Playing && !state.variant.spec_config().allow_hound_retreat && (
        reminder_running || (intro_settled && spec_show_rule_notice(state@)))),
{
    state.phase == GamePhase::Playing && !state.variant.config().allow_hound_retreat && (reminder_running || (
    intro_settled && should_show_special_rule_notice(state)))
}

/// The fox player holds the move on a settled board (no piece gliding): the only time
/// the objective hint may show.
pub fn fox_player_waiting(state: &GameState, anim_running: bool) -> (r: bool)
    ensures
        r == (state.phase == GamePhase::Playing && state.player_faction == Faction::Fox && !state@.is_ai_turn()
            && !anim_running),
{
    state.phase == GamePhase::Playing && state.player_faction == Faction::Fox && !state.is_ai_turn() && !anim_running
}

/// The objective hint marks the coop for a waiting fox player: for the first decision
/// of a match, and again once the player has idled long enough on a later turn.
pub fn should_highlight_fox_objective(state: &GameState, anim_running: bool, idled_long_enough: bool) -> (r: bool)
    ensures
        r == (state.phase == GamePhase::Playing && state.player_faction == Faction::Fox && !state@.is_ai_turn()
            && !anim_running && (state.move_history@.len() == 0 || idled_long_enough)),
{
    fox_player_waiting(state, anim_running) && (state.move_history.len() == 0 || idled_long_enough)
}

/// A click on `clicked_node` asks a hound to retreat where that is forbidden (see
/// `spec_is_retreat_click`).
pub fn is_hound_retreat_click(state: &GameState, clicked_node: usize) -> (r: bool)
    ensures
        r == spec_is_retreat_click(state@, clicked_node),
{
    if state.variant.config().allow_hound_retreat {
        return false;
    }
    let clicked = match state.graph.node(clicked_node) {
        Some(n) => n,
        None => {
            return false;
        },
    };
    match state.selected_hound_idx {
        Some(h) => {
            let idx = h as usize;
            if idx < state.hounds_pos.len() {
                match state.graph.node(state.hounds_pos[idx]) {
                    Some(hound) => clicked.row < hound.row,
                    None => false,
                }
            } else {
                false
            }
        },
        None => {
            let mut i: usize = 0;
            while i < state.hounds_pos.len()
                invariant
                    state.selected_hound_idx is None,
                    !state.variant.spec_config().allow_hound_retreat,
                    i <= state.hounds_pos@.len(),
                    (clicked_node as int) < state.graph.nodes@.len(),
                    *clicked == state.graph.nodes@[clicked_node as int],
                    forall|j: int|
                        0 <= j < i ==> !((#[trigger] state.hounds_pos@[j] as int) < state.graph.nodes@.len()
                            && clicked.row < state.graph.nodes@[state.hounds_pos@[j] as int].row),
                decreases state.hounds_pos@.len() - i,
            {
                match state.graph.node(state.hounds_pos[i]) {
                    Some(hound) => {
                        if clicked.row < hound.row {
                            proof {
                                let p = state.hounds_pos@[i as int];
                                assert((p as int) < state.graph.nodes@.len());
                                assert(*hound == state.graph.nodes@[p as int]);
                                assert((state@.hounds_pos[i as int] as int) < state@.graph.nodes@.len());
                            }
                            return true;
                        }
                    },
                    None => {},
                }
                i = i + 1;
            }
            false
        },
    }
}

/// What a click on a vertex does (see `handle_node_click`): the match afterwards, the
/// sound it makes, and whether it raises the reminder that hounds may not retreat.
pub open spec fn click_result(m: GameModel, clicked: usize) -> (GameModel, SoundTrigger, bool) {
    match m.player_faction {
        Faction::Fox => if m.fox_moves().contains(clicked) {
            if m.current_turn == Faction::Fox {
                let after = m.after_fox_move(clicked).evaluated();
                (after, if after.result == GameResult::FoxWon {
                    SoundTrigger::Win
                } else {
                    SoundTrigger::Move
                }, false)
            } else {
                (m, SoundTrigger::InvalidMove, false)
            }
        } else if clicked == m.fox_pos {
            (m, SoundTrigger::Select, false)
        } else {
            (m, SoundTrigger::InvalidMove, false)
        },
        Faction::Hounds => match first_pos(m.hounds_pos, clicked) {
            Some(i) => (GameModel { selected_hound_idx: Some(i as u8), ..m }, SoundTrigger::Select, false),
            None => match m.selected_hound_idx {
                Some(h) => if m.hound_moves(h as int).contains(clicked) {
                    if m.current_turn == Faction::Hounds {
                        let after = m.after_hound_move(h, clicked).evaluated();
                        (after, if after.result == GameResult::HoundsWon {
                            SoundTrigger::Win
                        } else {
                            SoundTrigger::Move
                        }, false)
                    } else {
                        (m, SoundTrigger::InvalidMove, false)
                    }
                } else {
                    (m, SoundTrigger::InvalidMove, spec_is_retreat_click(m, clicked))
                },
                None => (m, SoundTrigger::InvalidMove, spec_is_retreat_click(m, clicked)),
            },
        },
    }
}

/// The side that wins a match for the player.
pub open spec fn player_win(player: Faction) -> GameResult {
    match player {
        Faction::Fox => GameResult::FoxWon,
        Faction::Hounds => GameResult::HoundsWon,
    }
}

/// A click sounds the win exactly when it moved one of the player's pieces and the
/// move decided the match for the player's side; a click that moved nothing leaves the
/// pieces, the turn and the result as they were. A fox player's click on a legal
/// destination on the fox's turn, and a hounds player's click on a legal destination of
/// the selected hound `h` on the hounds' turn, make that move.
pub proof fn lemma_click_sounds(m: GameModel, clicked: usize, h: u8)
    ensures
        click_result(m, clicked).1 == SoundTrigger::Win ==> click_result(m, clicked).0.result
            == player_win(m.player_faction),
        click_result(m, clicked).1 != SoundTrigger::Win && click_result(m, clicked).1
            != SoundTrigger::Move ==> click_result(m, clicked).0.hounds_pos == m.hounds_pos
            && click_result(m, clicked).0.fox_pos == m.fox_pos && click_result(m, clicked).0.result
            == m.result && click_result(m, clicked).0.current_turn == m.current_turn,
        m.player_faction == Faction::Fox && m.current_turn == Faction::Fox && m.fox_moves().contains(
            clicked,
        ) ==> {
            let r = click_result(m, clicked);
            &&& r.0 == m.after_fox_move(clicked).evaluated()
            &&& r.1 == SoundTrigger::Win <==> r.0.result == GameResult::FoxWon
            &&& r.1 == SoundTrigger::Win || r.1 == SoundTrigger::Move
            &&& !r.2
        },
        m.player_faction == Faction::Hounds && m.current_turn == Faction::Hounds
            && !m.hounds_pos.contains(clicked) && m.selected_hound_idx == Some(h)
            && m.hound_moves(h as int).contains(clicked) ==> {
            let r = click_result(m, clicked);
            &&& r.0 == m.after_hound_move(h, clicked).evaluated()
            &&& r.1 == SoundTrigger::Win <==> r.0.result == GameResult::HoundsWon
            &&& r.1 == SoundTrigger::Win || r.1 == SoundTrigger::Move
            &&& !r.2
        },
{
    lemma_first_pos(m.hounds_pos, clicked);
}

/// The player clicks `clicked_node`. A fox player moves there when it is a legal
/// destination (winning or plain move sound), selects the fox by clicking it, and is
/// told off otherwise. A hounds player selects a hound by clicking it, moves the
/// selected hound to a legal destination, and is told off otherwise; the returned flag
/// asks for the no-retreat reminder when the refused click was a retreat.
pub fn handle_node_click(state: &mut GameState, clicked_node: usize) -> (r: (SoundTrigger, bool))
    requires
        old(state).wf(),
        old(state).turn_count < usize::MAX,
    ensures
        final(state).wf(),
        (final(state)@, r.0, r.1) == click_result(old(state)@, clicked_node),
{
    match state.player_faction {
        Faction::Fox => {
            let legal = state.fox_legal_moves();
            if crate::game::graph::vec_contains(&legal, clicked_node) {
                match state.apply_fox_move(clicked_node) {
                    Ok(()) => {
                        if state.result == GameResult::FoxWon {
                            (SoundTrigger::Win, false)
                        } else {
                            (SoundTrigger::Move, false)
                        }
                    },
                    Err(_) => (SoundTrigger::InvalidMove, false),
                }
            } else if clicked_node == state.fox_pos {
                (SoundTrigger::Select, false)
            } else {
                (SoundTrigger::InvalidMove, false)
            }
        },
        Faction::Hounds => {
            let ghost before = state@;
            let mut i: usize = 0;
            proof {
                lemma_first_pos(state.hounds_pos@, clicked_node);
                assert(state.hounds_pos@.skip(0) =~= state.hounds_pos@);
            }
            while i < state.hounds_pos.len()
                invariant
                    state@ == before,
                    before == old(state)@,
                    before.player_faction == Faction::Hounds,
                    state.wf(),
                    i <= state.hounds_pos@.len(),
                    forall|j: int| 0 <= j < i ==> state.hounds_pos@[j] != clicked_node,
                decreases state.hounds_pos@.len() - i,
            {
                if state.hounds_pos[i] == clicked_node {
                    proof {
                        lemma_first_pos(state.hounds_pos@, clicked_node);
                        assert(first_pos(state.hounds_pos@, clicked_node) == Some(i as int)) by {
                            let f = first_pos(state.hounds_pos@, clicked_node);
                            assert(state.hounds_pos@.contains(clicked_node)) by {
                                assert(state.hounds_pos@[i as int] == clicked_node);
                            }
                            assert(f is Some);
                            let k = f->0;
                            if k < i {
                                assert(state.hounds_pos@[k] != clicked_node);
                            } else if k > i {
                                assert(state.hounds_pos@[i as int] != clicked_node);
                            }
                        }
                    }
                    state.selected_hound_idx = Some(i as u8);
                    proof {
                        assert(state@ =~= GameModel { selected_hound_idx: Some(i as u8), ..before });
                    }
                    return (SoundTrigger::Select, false);
                }
                i = i + 1;
            }
            proof {
                lemma_first_pos(state.hounds_pos@, clicked_node);
                assert(!state.hounds_pos@.contains(clicked_node));
            }
            match state.selected_hound_idx {
                Some(hound_idx) => {
                    let legal = state.hound_legal_moves(hound_idx);
                    if crate::game::graph::vec_contains(&legal, clicked_node) {
                        match state.apply_hound_move(hound_idx, clicked_node) {
                            Ok(()) => {
                                if state.result == GameResult::HoundsWon {
                                    (SoundTrigger::Win, false)
                                } else {
                                    (SoundTrigger::Move, false)
                                }
                            },
                            Err(_) => (SoundTrigger::InvalidMove, false),
                        }
                    } else {
                        (SoundTrigger::InvalidMove, is_hound_retreat_click(state, clicked_node))
                    }
                },
                None => (SoundTrigger::InvalidMove, is_hound_retreat_click(state, clicked_node)),
            }
        },
    }
}

} // verus!
