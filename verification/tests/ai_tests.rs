//! The computer opponent: its search, its evaluation and its choices.

use fox_and_hounds::game::ai::{
    evaluate_board, find_best_move, minimax, select_best_candidate, BoardSnapshot, INF, WIN_SCORE,
};
use fox_and_hounds::game::graph::Graph;
use fox_and_hounds::game::level::BoardVariant;
use fox_and_hounds::game::state::{Difficulty, Faction, GameState, PieceMove};

fn started(variant: BoardVariant, player: Faction, difficulty: Difficulty) -> GameState {
    let mut state = GameState::new();
    state.switch_variant(variant);
    state.start_game(player, difficulty);
    state
}

/// Minimax without pruning, written out plainly.
fn plain_minimax(b: &BoardSnapshot, g: &Graph, depth: usize, fox_turn: bool) -> i32 {
    if b.is_fox_win() {
        return WIN_SCORE + depth as i32 * 100;
    }
    if fox_turn {
        let moves = b.fox_legal_moves(g);
        if moves.is_empty() {
            return -WIN_SCORE - depth as i32 * 100;
        }
        if depth == 0 {
            return evaluate_board(b, g);
        }
        moves
            .iter()
            .map(|&to| plain_minimax(&b.apply_fox_move(to), g, depth - 1, false))
            .max()
            .unwrap()
    } else {
        let moves = b.all_hound_moves(g);
        if moves.is_empty() {
            return WIN_SCORE + depth as i32 * 100;
        }
        if depth == 0 {
            return evaluate_board(b, g);
        }
        moves
            .iter()
            .map(|&(h, to)| plain_minimax(&b.apply_hound_move(h, to), g, depth - 1, true))
            .min()
            .unwrap()
    }
}

#[test]
fn test_alpha_beta_agrees_with_plain_minimax() {
    for variant in [BoardVariant::Classic, BoardVariant::RiverCrossing, BoardVariant::FoxAndDogs] {
        let state = started(variant, Faction::Fox, Difficulty::Medium);
        let b = BoardSnapshot::from_state(&state);
        for depth in 0..3 {
            for fox_turn in [true, false] {
                let exact = plain_minimax(&b, &state.graph, depth, fox_turn);
                assert_eq!(minimax(&b, &state.graph, depth, -INF, INF, fox_turn), exact);
                // Narrow windows bound the exact value from the right side.
                for (alpha, beta) in [(exact - 1, exact + 1), (exact, exact + 500), (exact - 500, exact)] {
                    let r = minimax(&b, &state.graph, depth, alpha, beta, fox_turn);
                    if alpha < r && r < beta {
                        assert_eq!(r, exact);
                    }
                    if r <= alpha {
                        assert!(exact <= r);
                    }
                    if r >= beta {
                        assert!(exact >= r);
                    }
                }
            }
        }
    }
}

#[test]
fn test_evaluation_of_a_won_position_and_bounds() {
    let mut state = started(BoardVariant::Classic, Faction::Hounds, Difficulty::Medium);
    state.fox_pending = false;
    state.fox_pos = state.coop_pos;
    let b = BoardSnapshot::from_state(&state);
    assert!(b.is_fox_win());
    assert_eq!(evaluate_board(&b, &state.graph), WIN_SCORE);
    for variant in BoardVariant::all() {
        let s = started(variant, Faction::Fox, Difficulty::Medium);
        let v = evaluate_board(&BoardSnapshot::from_state(&s), &s.graph);
        assert!(-300_000 <= v && v <= 300_000);
    }
}

#[test]
fn test_evaluation_formula_on_an_open_position() {
    // Classic, fox on M1 next to the coop, hounds far away on T3, M3, B3.
    let mut state = started(BoardVariant::Classic, Faction::Hounds, Difficulty::Medium);
    let g = &state.graph;
    let m1 = g.find_id_by_name("M1").unwrap();
    let hounds = vec![
        g.find_id_by_name("T3").unwrap(),
        g.find_id_by_name("M3").unwrap(),
        g.find_id_by_name("B3").unwrap(),
    ];
    state.fox_pos = m1;
    state.fox_pending = false;
    state.hounds_pos = hounds.clone();
    let g = &state.graph;
    let b = BoardSnapshot::from_state(&state);
    let coop = state.coop_pos;
    let d = g.distance(m1, coop).unwrap() as i32;
    let lane = match g.shortest_distance(m1, coop, &hounds) {
        Some(1) => 15_000,
        Some(2) => 6_000,
        Some(3) => 2_500,
        Some(k) if k <= 5 => (8 - k as i32) * 300,
        _ => 0,
    };
    let min_h = hounds.iter().filter_map(|&h| g.distance(h, coop)).min().unwrap() as i32;
    let breakthrough = if d < min_h { (min_h - d) * 450 } else { 0 };
    let mut pursuit = 0;
    let mut threat = 0;
    for &h in &hounds {
        let hd = g.distance(h, m1).unwrap_or(10) as i32;
        pursuit += hd * 30;
        threat += match hd {
            0..=1 => -450,
            2 => -150,
            _ => 0,
        };
    }
    let mobility = match b.fox_legal_moves(g).len() {
        0 => -WIN_SCORE,
        1 => -2_000,
        2 => -350,
        3 => 150,
        _ => 400,
    };
    let expected = (18 - d) * 350 + lane + breakthrough + pursuit + threat + mobility;
    assert_eq!(evaluate_board(&b, g), expected);
    assert_eq!(d, 1);
    assert_eq!(lane, 15_000);
}

#[test]
fn test_select_best_candidate_picks() {
    let keys = vec![(1, 0), (3, -1), (3, -1), (2, 5)];
    // The last of the greatest keys.
    assert_eq!(select_best_candidate(&keys, Difficulty::Medium, 0), 2);
    assert_eq!(select_best_candidate(&keys, Difficulty::Hard, 3), 2);
    // Easy takes the drawn one when there is a choice.
    assert_eq!(select_best_candidate(&keys, Difficulty::Easy, 3), 3);
    assert_eq!(select_best_candidate(&vec![(5, 5)], Difficulty::Easy, 0), 0);
    assert_eq!(select_best_candidate(&vec![(0, -3), (0, -2)], Difficulty::Medium, 0), 1);
}

#[test]
fn test_ai_moves_are_legal_on_every_board_and_level() {
    for variant in BoardVariant::all() {
        for difficulty in [Difficulty::Easy, Difficulty::Medium] {
            for player in [Faction::Fox, Faction::Hounds] {
                let mut state = started(variant, player, difficulty);
                for _ in 0..3 {
                    if state.result != fox_and_hounds::game::state::GameResult::Ongoing {
                        break;
                    }
                    match find_best_move(&state) {
                        Some(PieceMove::FoxMove { to }) => {
                            assert_eq!(state.current_turn, Faction::Fox);
                            assert!(state.fox_legal_moves().contains(&to));
                            assert!(state.apply_fox_move(to).is_ok());
                        }
                        Some(PieceMove::HoundMove { hound_idx, from, to }) => {
                            assert_eq!(state.current_turn, Faction::Hounds);
                            assert_eq!(state.hounds_pos[hound_idx as usize], from);
                            assert!(state.hound_legal_moves(hound_idx).contains(&to));
                            assert!(state.apply_hound_move(hound_idx, to).is_ok());
                        }
                        None => panic!("{:?}: a side to move always has a move here", variant),
                    }
                }
            }
        }
    }
}

#[test]
fn test_hounds_take_a_trapping_move() {
    // Classic: the fox on M4 with its only exit M3 left open; moving a hound there traps it.
    let mut state = started(BoardVariant::Classic, Faction::Fox, Difficulty::Medium);
    let g = &state.graph;
    let m4 = g.find_id_by_name("M4").unwrap();
    let t3 = g.find_id_by_name("T3").unwrap();
    let m3 = g.find_id_by_name("M3").unwrap();
    let b3 = g.find_id_by_name("B3").unwrap();
    let m2 = g.find_id_by_name("M2").unwrap();
    state.fox_pos = m4;
    state.fox_pending = false;
    state.hounds_pos = vec![t3, m2, b3];
    state.current_turn = Faction::Hounds;
    assert_eq!(state.fox_legal_moves(), vec![m3]);
    let mv = find_best_move(&state);
    assert_eq!(mv, Some(PieceMove::HoundMove { hound_idx: 1, from: m2, to: m3 }));
}

#[test]
fn test_easy_draws_among_equal_moves() {
    // The fox's opening entry on Classic has several equally scored choices; Easy draws
    // among them, and every draw is a legal entry.
    let state = started(BoardVariant::Classic, Faction::Hounds, Difficulty::Easy);
    let legal = state.fox_legal_moves();
    for _ in 0..40 {
        match find_best_move(&state) {
            Some(PieceMove::FoxMove { to }) => assert!(legal.contains(&to)),
            other => panic!("expected a fox entry, got {:?}", other),
        }
    }
}

#[test]
fn test_terminal_positions_score_exactly_in_any_window() {
    let mut state = started(BoardVariant::Classic, Faction::Hounds, Difficulty::Medium);
    state.fox_pending = false;
    state.fox_pos = state.coop_pos;
    let b = BoardSnapshot::from_state(&state);
    for (alpha, beta) in [
        (-INF, INF),
        (0, 1),
        (-5, -4),
        (WIN_SCORE + 900, INF),
        (5, -5),
        (i32::MIN, i32::MAX),
        (i32::MAX, i32::MIN),
    ] {
        assert_eq!(minimax(&b, &state.graph, 3, alpha, beta, true), WIN_SCORE + 300);
        assert_eq!(minimax(&b, &state.graph, 3, alpha, beta, false), WIN_SCORE + 300);
    }
    // A trapped fox on its turn loses by the depth-scaled score.
    let mut trapped = started(BoardVariant::Classic, Faction::Hounds, Difficulty::Medium);
    let g = &trapped.graph;
    let m4 = g.find_id_by_name("M4").unwrap();
    let hounds = vec![
        g.find_id_by_name("T3").unwrap(),
        g.find_id_by_name("M3").unwrap(),
        g.find_id_by_name("B3").unwrap(),
    ];
    trapped.fox_pos = m4;
    trapped.fox_pending = false;
    trapped.hounds_pos = hounds;
    let b = BoardSnapshot::from_state(&trapped);
    assert_eq!(minimax(&b, &trapped.graph, 2, 0, 1, true), -WIN_SCORE - 200);
    // ...and hounds that cannot move lose on theirs.
    assert_eq!(minimax(&b, &trapped.graph, 0, 10, 20, false), WIN_SCORE);
    // At the horizon the static score comes back whatever the window.
    let opening = started(BoardVariant::RiverCrossing, Faction::Fox, Difficulty::Medium);
    let b = BoardSnapshot::from_state(&opening);
    let v = evaluate_board(&b, &opening.graph);
    assert_eq!(minimax(&b, &opening.graph, 0, 10, 20, false), v);
    assert_eq!(minimax(&b, &opening.graph, 0, -INF, v - 1, true), v);
}
