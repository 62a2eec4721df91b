//! The rules of a match: moves, refusals, results and the laws they keep.

use fox_and_hounds::audio::SoundTrigger;
use fox_and_hounds::game::graph::{Graph, Node, NodeType};
use fox_and_hounds::game::level::BoardVariant;
use fox_and_hounds::game::state::{
    Difficulty, Faction, GamePhase, GameResult, GameState, MoveError, PieceMove,
};

fn id(state: &GameState, name: &str) -> usize {
    state.graph.find_id_by_name(name).unwrap()
}

fn started(variant: BoardVariant, player: Faction, difficulty: Difficulty) -> GameState {
    let mut state = GameState::new();
    state.switch_variant(variant);
    state.start_game(player, difficulty);
    state
}

fn pieces_apart(state: &GameState) -> bool {
    let h = &state.hounds_pos;
    !h.contains(&state.fox_pos) && h[0] != h[1] && h[0] != h[2] && h[1] != h[2]
}

fn plain_node(id: usize, name: &str) -> Node {
    Node {
        id,
        name: name.to_string(),
        row: id,
        col: 0,
        node_type: NodeType::Standard,
        visual_x: 0,
        visual_y: 0,
    }
}

#[test]
fn test_every_board_is_undirected() {
    for variant in BoardVariant::all() {
        let g = variant.build_graph();
        for u in 0..g.node_count() {
            for &v in g.neighbors(u) {
                assert!(g.neighbors(v).contains(&u), "{:?}: {} -> {}", variant, u, v);
            }
            for v in 0..g.node_count() {
                assert_eq!(g.distance(u, v), g.distance(v, u));
            }
        }
    }
}

#[test]
fn test_graph_new_ignores_bad_and_repeated_edges() {
    let nodes = vec![plain_node(0, "A"), plain_node(1, "B"), plain_node(2, "C")];
    let g = Graph::new(nodes, &[(0, 1), (1, 0), (0, 1), (1, 2), (2, 7)]);
    assert_eq!(g.neighbors(0), &[1]);
    assert_eq!(g.neighbors(1), &[0, 2]);
    assert_eq!(g.neighbors(2), &[1]);
    assert_eq!(g.distance(0, 2), Some(2));
    assert_eq!(g.distance(2, 2), Some(0));
    assert_eq!(g.shortest_distance(0, 2, &[1]), None);
    assert_eq!(g.shortest_distance(0, 1, &[1]), Some(1));
    assert_eq!(g.distance(0, 9), None);
    assert!(g.node(3).is_none());
    assert_eq!(g.find_id_by_name("C"), Some(2));
    assert_eq!(g.find_id_by_name("D"), None);
}

#[test]
fn test_each_error_variant_and_unchanged_state() {
    let mut state = started(BoardVariant::RiverCrossing, Faction::Fox, Difficulty::Medium);
    let m0 = id(&state, "M0");
    let before_fox = state.fox_pos;
    // The fox cannot jump to the coop.
    assert_eq!(state.apply_fox_move(m0), Err(MoveError::IllegalMove));
    assert_eq!(state.fox_pos, before_fox);
    assert_eq!(state.current_turn, Faction::Fox);
    assert!(state.move_history.is_empty());
    // Not the hounds' turn.
    assert_eq!(state.apply_hound_move(0, 0), Err(MoveError::NotYourTurn));
    let m8 = id(&state, "M8");
    assert!(state.apply_fox_move(m8).is_ok());
    // No such hound.
    assert_eq!(state.apply_hound_move(3, 0), Err(MoveError::InvalidHound));
    // A hound cannot move onto the fox's far side of the board.
    let hounds = state.hounds_pos.clone();
    assert_eq!(state.apply_hound_move(0, m8), Err(MoveError::IllegalMove));
    assert_eq!(state.hounds_pos, hounds);
    assert_eq!(state.turn_count, 1);

    assert_eq!(MoveError::NotYourTurn.message(), "Not your turn");
    assert_eq!(MoveError::IllegalMove.message(), "Illegal move");
    assert_eq!(MoveError::InvalidHound.message(), "Invalid hound index");
}

#[test]
fn test_turns_alternate_and_history_grows() {
    let mut state = started(BoardVariant::RiverCrossing, Faction::Fox, Difficulty::Medium);
    let m8 = id(&state, "M8");
    let l1 = id(&state, "L1");
    let l2 = id(&state, "L2");
    assert!(state.apply_fox_move(m8).is_ok());
    assert_eq!(state.current_turn, Faction::Hounds);
    assert_eq!(state.turn_count, 1);
    let idx = state.hounds_pos.iter().position(|&p| p == l1).unwrap() as u8;
    assert!(state.apply_hound_move(idx, l2).is_ok());
    assert_eq!(state.current_turn, Faction::Fox);
    assert_eq!(state.turn_count, 2);
    assert_eq!(
        state.move_history,
        vec![
            PieceMove::FoxMove { to: m8 },
            PieceMove::HoundMove { hound_idx: idx, from: l1, to: l2 }
        ]
    );
    assert_eq!(state.selected_hound_idx, None);
}

#[test]
fn test_pieces_stay_apart_and_hounds_stay_out_of_the_coop() {
    for variant in BoardVariant::all() {
        let mut state = started(variant, Faction::Fox, Difficulty::Easy);
        assert!(pieces_apart(&state), "{:?} starts apart", variant);
        for _ in 0..12 {
            if state.result != GameResult::Ongoing {
                break;
            }
            match state.current_turn {
                Faction::Fox => {
                    let moves = state.fox_legal_moves();
                    for &t in &moves {
                        assert!(!state.hounds_pos.contains(&t));
                    }
                    let to = moves[moves.len() / 2];
                    assert!(state.apply_fox_move(to).is_ok());
                }
                Faction::Hounds => {
                    let moves = state.all_hound_legal_moves();
                    let config = state.variant.config();
                    for &(h, t) in &moves {
                        let node = state.graph.node(t).unwrap();
                        assert_ne!(node.node_type, NodeType::TargetCoop);
                        assert_ne!(t, state.fox_pos);
                        assert!(!state.hounds_pos.contains(&t));
                        if !config.allow_hounds_in_coop {
                            assert_ne!(t, state.coop_pos);
                        }
                        if !config.allow_hound_retreat {
                            let from = state.graph.node(state.hounds_pos[h as usize]).unwrap();
                            assert!(node.row >= from.row);
                        }
                        let from_id = state.hounds_pos[h as usize];
                        assert!(state.graph.neighbors(from_id).contains(&t));
                    }
                    let (h, t) = moves[0];
                    assert!(state.apply_hound_move(h, t).is_ok());
                }
            }
            assert!(pieces_apart(&state), "{:?} keeps pieces apart", variant);
        }
    }
}

#[test]
fn test_switch_variant_and_reset() {
    let mut state = GameState::new();
    assert_eq!(state.phase, GamePhase::TitleScreen);
    assert_eq!(state.difficulty, Difficulty::Medium);
    state.start_game(Faction::Hounds, Difficulty::Hard);
    assert_eq!(state.phase, GamePhase::Playing);
    state.fox_pos = 3;
    // Switching to the current board changes nothing.
    state.switch_variant(BoardVariant::Classic);
    assert_eq!(state.fox_pos, 3);
    state.switch_variant(BoardVariant::TheRedHunt);
    assert_eq!(state.variant, BoardVariant::TheRedHunt);
    assert_eq!(state.graph.node_count(), 22);
    assert_eq!(state.fox_pos, id(&state, "C4"));
    assert_eq!(state.turn_count, 1);
    assert_eq!(state.hounds_pos.len(), 3);
    assert!(state.move_history.is_empty());
    assert_eq!(state.result, GameResult::Ongoing);
    assert_eq!(state.player_faction, Faction::Hounds);
}

#[test]
fn test_active_target_and_waypoint_wait() {
    let mut state = started(BoardVariant::RiverCrossing, Faction::Fox, Difficulty::Medium);
    assert_eq!(state.active_target_node(), state.coop_pos);
    let m8 = id(&state, "M8");
    state.waypoint_pos = Some(m8);
    assert_eq!(state.active_target_node(), m8);
    // Reaching the waypoint makes the fox pause there.
    assert!(state.apply_fox_move(m8).is_ok());
    assert!(state.fox_waiting_at_waypoint);
    state.current_turn = Faction::Fox;
    assert!(state.fox_legal_moves().is_empty());
    assert!(state.waypoint_wait_active());
    assert!(!state.is_ai_turn());
    assert_eq!(state.finish_waypoint_wait(), SoundTrigger::Select);
    assert!(!state.fox_waiting_at_waypoint);
    assert!(state.fox_visited_waypoint);
    assert_eq!(state.current_turn, Faction::Hounds);
    assert_eq!(state.turn_count, 2);
    assert_eq!(state.active_target_node(), state.coop_pos);
    assert!(!state.waypoint_wait_active());
}

#[test]
fn test_coop_start_needs_leaving_first() {
    let mut state = started(BoardVariant::FoxAndDogs, Faction::Hounds, Difficulty::Medium);
    let c8 = id(&state, "C8");
    assert_eq!(state.fox_pos, c8);
    assert_eq!(state.coop_pos, c8);
    assert!(!state.fox_has_left_start);
    state.evaluate_game_result();
    assert_eq!(state.result, GameResult::Ongoing);
}

#[test]
fn test_ai_turn_outcome_and_sound() {
    // The computer fox wins at once: a loss for the hounds player.
    let mut state = started(BoardVariant::Classic, Faction::Hounds, Difficulty::Hard);
    state.fox_pos = id(&state, "M1");
    state.fox_pending = false;
    state.hounds_pos = vec![id(&state, "T3"), id(&state, "M3"), id(&state, "B3")];
    state.current_turn = Faction::Fox;
    assert!(state.is_ai_turn());
    assert_eq!(state.execute_ai_turn(), Some(SoundTrigger::Loss));
    assert_eq!(state.result, GameResult::FoxWon);
    assert_eq!(state.phase, GamePhase::GameOver);
    assert_eq!(state.fox_pos, id(&state, "M0"));
    assert!(!state.is_ai_turn());

    // An ordinary computer hound move.
    let mut state = started(BoardVariant::RiverCrossing, Faction::Fox, Difficulty::Medium);
    let m8 = id(&state, "M8");
    assert!(state.apply_fox_move(m8).is_ok());
    assert_eq!(state.execute_ai_turn(), Some(SoundTrigger::Move));
    assert_eq!(state.current_turn, Faction::Fox);
    assert_eq!(state.move_history.len(), 2);

    // No move: nothing happens.
    let mut state = started(BoardVariant::Classic, Faction::Fox, Difficulty::Medium);
    state.fox_pos = id(&state, "M4");
    state.fox_pending = false;
    state.hounds_pos = vec![id(&state, "T3"), id(&state, "M3"), id(&state, "B3")];
    state.current_turn = Faction::Hounds;
    assert_eq!(state.execute_ai_turn(), None);
    assert_eq!(state.move_history.len(), 0);
}
