//! Board hints, notices and clicks: which notice the board shows and what a click does.

use fox_and_hounds::audio::SoundTrigger;
use fox_and_hounds::game::level::BoardVariant;
use fox_and_hounds::game::state::{Difficulty, Faction, GamePhase, GameResult, GameState};
use fox_and_hounds::ui::board_view::{
    handle_node_click, is_hound_retreat_click, should_highlight_fox_objective,
    should_show_special_rule_notice, wants_special_rule_notice,
};

/// How long the fox player may idle before the objective hint returns, in seconds.
const FOX_OBJECTIVE_HINT_IDLE_SECONDS: f32 = 10.0;

/// The fox player has idled `seconds` on the current turn: long enough for the hint.
fn idled(seconds: f32) -> bool {
    seconds >= FOX_OBJECTIVE_HINT_IDLE_SECONDS
}

/// A reminder raised by a retreat click still has `seconds` to run.
fn reminder(seconds: f32) -> bool {
    seconds > 0.0
}

/// How long the reminder runs after a retreat click, in seconds.
const SPECIAL_RULE_REMINDER_DURATION: f32 = 2.5;

#[test]
fn board_view_test_special_rule_notice_resurfaces_on_retreat_click() {
    let mut state = GameState::new();
    state.start_game(Faction::Hounds, Difficulty::Medium);

    let m0 = state.graph.find_id_by_name("M0").unwrap();
    let m1 = state.graph.find_id_by_name("M1").unwrap();
    let m2 = state.graph.find_id_by_name("M2").unwrap();
    let m3 = state.graph.find_id_by_name("M3").unwrap();

    // AI Fox opens at M3, player moves dog from M0 to M1 (row 0 -> row 1)
    assert!(state.apply_fox_move(m3).is_ok());
    let m0_idx = state.hounds_pos.iter().position(|&p| p == m0).unwrap() as u8;
    assert!(state.apply_hound_move(m0_idx, m1).is_ok());
    assert!(!should_show_special_rule_notice(&state));

    // Now hound at M1 (row 1) has neighbor M0 (row 0).
    // Clicking M0 (behind M1) is detected as an attempted retreat move
    state.selected_hound_idx = Some(m0_idx);
    assert!(is_hound_retreat_click(&state, m0));

    // Clicking forward to M2 (row 2) is a forward advance, not retreat
    assert!(!is_hound_retreat_click(&state, m2));

    // Even when no hound is actively selected, clicking M0 detects the retreat
    state.selected_hound_idx = None;
    assert!(is_hound_retreat_click(&state, m0));

    // Boards with retreat enabled never flag retreat clicks
    let mut river = GameState::new();
    river.switch_variant(BoardVariant::RiverCrossing);
    river.start_game(Faction::Hounds, Difficulty::Medium);
    assert!(!is_hound_retreat_click(&river, 0));
}

#[test]
fn board_view_tests_test_special_rule_notice_resurfaces_on_retreat_click() {
    let mut state = GameState::new();
    state.start_game(Faction::Hounds, Difficulty::Medium);

    let m0 = state.graph.find_id_by_name("M0").unwrap();
    let m1 = state.graph.find_id_by_name("M1").unwrap();
    let m2 = state.graph.find_id_by_name("M2").unwrap();
    let m3 = state.graph.find_id_by_name("M3").unwrap();

    // AI Fox opens at M3, player moves dog from M0 to M1 (row 0 -> row 1)
    assert!(state.apply_fox_move(m3).is_ok());
    let m0_idx = state.hounds_pos.iter().position(|&p| p == m0).unwrap() as u8;
    assert!(state.apply_hound_move(m0_idx, m1).is_ok());
    assert!(!should_show_special_rule_notice(&state));

    // Now hound at M1 (row 1) has neighbor M0 (row 0).
    // Clicking M0 (behind M1) is detected as an attempted retreat move
    state.selected_hound_idx = Some(m0_idx);
    assert!(is_hound_retreat_click(&state, m0));

    // Clicking forward to M2 (row 2) is a forward advance, not retreat
    assert!(!is_hound_retreat_click(&state, m2));

    // Even when no hound is actively selected, clicking M0 detects the retreat
    state.selected_hound_idx = None;
    assert!(is_hound_retreat_click(&state, m0));

    // Boards with retreat enabled never flag retreat clicks
    let mut river = GameState::new();
    river.switch_variant(BoardVariant::RiverCrossing);
    river.start_game(Faction::Hounds, Difficulty::Medium);
    assert!(!is_hound_retreat_click(&river, 0));
}

#[test]
fn board_view_test_special_rule_notice_opens_the_match_and_leaves_with_the_first_move() {
    // Classic forbids the hounds to fall back: the notice belongs to the opening turn
    let mut fox_game = GameState::new();
    assert!(!fox_game.variant.config().allow_hound_retreat);
    assert!(!should_show_special_rule_notice(&fox_game)); // still on the title screen

    fox_game.start_game(Faction::Fox, Difficulty::Medium);
    assert!(should_show_special_rule_notice(&fox_game));

    // A Fox player loses the notice on their own opening move
    let opening = fox_game.fox_legal_moves();
    assert!(!opening.is_empty());
    assert!(fox_game.apply_fox_move(opening[0]).is_ok());
    assert!(!should_show_special_rule_notice(&fox_game));

    // A Hounds player keeps it for their opening decision: the AI Fox has answered by
    // then, but the rule is the one they have to play by
    let mut hound_game = GameState::new();
    hound_game.start_game(Faction::Hounds, Difficulty::Medium);
    assert!(should_show_special_rule_notice(&hound_game));

    let opening = hound_game.fox_legal_moves();
    assert!(hound_game.apply_fox_move(opening[0]).is_ok());
    assert!(should_show_special_rule_notice(&hound_game));

    let hound_moves = hound_game.all_hound_legal_moves();
    assert!(!hound_moves.is_empty());
    assert!(hound_game
        .apply_hound_move(hound_moves[0].0, hound_moves[0].1)
        .is_ok());
    assert!(!should_show_special_rule_notice(&hound_game));

    // Boards with free hound movement never announce it
    let mut river = GameState::new();
    river.switch_variant(BoardVariant::RiverCrossing);
    river.start_game(Faction::Fox, Difficulty::Medium);
    assert!(river.variant.config().allow_hound_retreat);
    assert!(river.move_history.is_empty());
    assert!(!should_show_special_rule_notice(&river));

    // A fresh match on the Classic board brings it back
    fox_game.start_game(Faction::Fox, Difficulty::Medium);
    assert!(should_show_special_rule_notice(&fox_game));

    // ...and a finished match keeps it off the board
    fox_game.phase = GamePhase::GameOver;
    assert!(!should_show_special_rule_notice(&fox_game));
}

#[test]
fn board_view_tests_test_special_rule_notice_opens_the_match_and_leaves_with_the_first_move() {
    // Classic forbids the hounds to fall back: the notice belongs to the opening turn
    let mut fox_game = GameState::new();
    assert!(!fox_game.variant.config().allow_hound_retreat);
    assert!(!should_show_special_rule_notice(&fox_game)); // still on the title screen

    fox_game.start_game(Faction::Fox, Difficulty::Medium);
    assert!(should_show_special_rule_notice(&fox_game));

    // A Fox player loses the notice on their own opening move
    let opening = fox_game.fox_legal_moves();
    assert!(!opening.is_empty());
    assert!(fox_game.apply_fox_move(opening[0]).is_ok());
    assert!(!should_show_special_rule_notice(&fox_game));

    // A Hounds player keeps it for their opening decision: the AI Fox has answered by
    // then, but the rule is the one they have to play by
    let mut hound_game = GameState::new();
    hound_game.start_game(Faction::Hounds, Difficulty::Medium);
    assert!(should_show_special_rule_notice(&hound_game));

    let opening = hound_game.fox_legal_moves();
    assert!(hound_game.apply_fox_move(opening[0]).is_ok());
    assert!(should_show_special_rule_notice(&hound_game));

    let hound_moves = hound_game.all_hound_legal_moves();
    assert!(!hound_moves.is_empty());
    assert!(hound_game
        .apply_hound_move(hound_moves[0].0, hound_moves[0].1)
        .is_ok());
    assert!(!should_show_special_rule_notice(&hound_game));

    // Boards with free hound movement never announce it
    let mut river = GameState::new();
    river.switch_variant(BoardVariant::RiverCrossing);
    river.start_game(Faction::Fox, Difficulty::Medium);
    assert!(river.variant.config().allow_hound_retreat);
    assert!(river.move_history.is_empty());
    assert!(!should_show_special_rule_notice(&river));

    // A fresh match on the Classic board brings it back
    fox_game.start_game(Faction::Fox, Difficulty::Medium);
    assert!(should_show_special_rule_notice(&fox_game));

    // ...and a finished match keeps it off the board
    fox_game.phase = GamePhase::GameOver;
    assert!(!should_show_special_rule_notice(&fox_game));
}

#[test]
fn board_view_test_special_rule_notice_waits_for_the_opening_zoom() {
    let mut game = GameState::new();
    game.start_game(Faction::Fox, Difficulty::Medium);
    assert!(should_show_special_rule_notice(&game));

    // The intro zoom owns the screen while it flies into the field: the notice waits for
    // the framing to settle and only then fades in
    assert!(!wants_special_rule_notice(&game, reminder(0.0), false));
    assert!(wants_special_rule_notice(&game, reminder(0.0), true));

    // An illegal retreat click is a direct answer to the player, so its reminder does not
    // wait for the camera
    assert!(wants_special_rule_notice(
        &game,
        reminder(SPECIAL_RULE_REMINDER_DURATION),
        false
    ));

    // The player's own opening move retires the announcement for good
    let opening = game.fox_legal_moves();
    assert!(!opening.is_empty());
    assert!(game.apply_fox_move(opening[0]).is_ok());
    assert!(!wants_special_rule_notice(&game, reminder(0.0), true));

    // ...though a later illegal retreat click still brings it back as a reminder
    assert!(wants_special_rule_notice(
        &game,
        reminder(SPECIAL_RULE_REMINDER_DURATION),
        true
    ));

    // Boards with free hound movement never announce a rule, reminder or not
    let mut river = GameState::new();
    river.switch_variant(BoardVariant::RiverCrossing);
    river.start_game(Faction::Fox, Difficulty::Medium);
    assert!(!wants_special_rule_notice(
        &river,
        reminder(SPECIAL_RULE_REMINDER_DURATION),
        true
    ));

    // A finished match keeps it off the board too
    game.phase = GamePhase::GameOver;
    assert!(!wants_special_rule_notice(
        &game,
        reminder(SPECIAL_RULE_REMINDER_DURATION),
        true
    ));
}

#[test]
fn board_view_tests_test_special_rule_notice_waits_for_the_opening_zoom() {
    let mut game = GameState::new();
    game.start_game(Faction::Fox, Difficulty::Medium);
    assert!(should_show_special_rule_notice(&game));

    // The intro zoom owns the screen while it flies into the field: the notice waits for
    // the framing to settle and only then fades in
    assert!(!wants_special_rule_notice(&game, reminder(0.0), false));
    assert!(wants_special_rule_notice(&game, reminder(0.0), true));

    // An illegal retreat click is a direct answer to the player, so its reminder does not
    // wait for the camera
    assert!(wants_special_rule_notice(
        &game,
        reminder(SPECIAL_RULE_REMINDER_DURATION),
        false
    ));

    // The player's own opening move retires the announcement for good
    let opening = game.fox_legal_moves();
    assert!(!opening.is_empty());
    assert!(game.apply_fox_move(opening[0]).is_ok());
    assert!(!wants_special_rule_notice(&game, reminder(0.0), true));

    // ...though a later illegal retreat click still brings it back as a reminder
    assert!(wants_special_rule_notice(
        &game,
        reminder(SPECIAL_RULE_REMINDER_DURATION),
        true
    ));

    // Boards with free hound movement never announce a rule, reminder or not
    let mut river = GameState::new();
    river.switch_variant(BoardVariant::RiverCrossing);
    river.start_game(Faction::Fox, Difficulty::Medium);
    assert!(!wants_special_rule_notice(
        &river,
        reminder(SPECIAL_RULE_REMINDER_DURATION),
        true
    ));

    // A finished match keeps it off the board too
    game.phase = GamePhase::GameOver;
    assert!(!wants_special_rule_notice(
        &game,
        reminder(SPECIAL_RULE_REMINDER_DURATION),
        true
    ));
}

#[test]
fn board_view_test_objective_hint_on_opening_move_and_after_fox_idles() {
    const IDLE: f32 = FOX_OBJECTIVE_HINT_IDLE_SECONDS;

    // Fox-controlled match: the hint is on until the very first move
    let mut fox_game = GameState::new();
    fox_game.start_game(Faction::Fox, Difficulty::Medium);
    assert!(fox_game.move_history.is_empty());
    assert!(should_highlight_fox_objective(&fox_game, false, idled(0.0)));

    let opening = fox_game.fox_legal_moves();
    assert!(!opening.is_empty());
    assert!(fox_game.apply_fox_move(opening[0]).is_ok());
    // The fox now glides to its vertex.
    let mut gliding = true;

    // Now the hounds are to move, so it stays hidden no matter how long they take
    assert!(!should_highlight_fox_objective(&fox_game, gliding, idled(IDLE * 100.0)));

    // Once the hounds have replied the hint waits for the Fox player to idle again
    let hound_moves = fox_game.all_hound_legal_moves();
    assert!(!hound_moves.is_empty());
    assert!(fox_game
        .apply_hound_move(hound_moves[0].0, hound_moves[0].1)
        .is_ok());
    assert_eq!(fox_game.current_turn, Faction::Fox);
    assert!(!fox_game.move_history.is_empty());

    // ...but not until that hound has finished gliding and the board settles
    assert!(!should_highlight_fox_objective(&fox_game, gliding, idled(IDLE * 100.0)));
    gliding = false;

    // Just short of the wait it is hidden, then it comes back as a reminder
    assert!(!should_highlight_fox_objective(&fox_game, gliding, idled(IDLE - 0.1)));
    assert!(should_highlight_fox_objective(&fox_game, gliding, idled(IDLE)));

    // Hound-controlled matches never advertise the Fox objective, however long they idle
    let mut hound_game = GameState::new();
    hound_game.start_game(Faction::Hounds, Difficulty::Medium);
    assert!(!should_highlight_fox_objective(&hound_game, false, idled(0.0)));
    assert!(!should_highlight_fox_objective(&hound_game, false, idled(IDLE * 100.0)));

    // Finished matches (and the title screen) never show it either
    let mut finished = GameState::new();
    finished.start_game(Faction::Fox, Difficulty::Medium);
    finished.phase = GamePhase::GameOver;
    assert!(!should_highlight_fox_objective(&finished, false, idled(IDLE * 100.0)));

    let mut titled = GameState::new();
    titled.start_game(Faction::Fox, Difficulty::Medium);
    titled.phase = GamePhase::TitleScreen;
    assert!(!should_highlight_fox_objective(&titled, false, idled(IDLE * 100.0)));
}

#[test]
fn board_view_tests_test_objective_hint_on_opening_move_and_after_fox_idles() {
    const IDLE: f32 = FOX_OBJECTIVE_HINT_IDLE_SECONDS;

    // Fox-controlled match: the hint is on until the very first move
    let mut fox_game = GameState::new();
    fox_game.start_game(Faction::Fox, Difficulty::Medium);
    assert!(fox_game.move_history.is_empty());
    assert!(should_highlight_fox_objective(&fox_game, false, idled(0.0)));

    let opening = fox_game.fox_legal_moves();
    assert!(!opening.is_empty());
    assert!(fox_game.apply_fox_move(opening[0]).is_ok());
    // The fox now glides to its vertex.
    let mut gliding = true;

    // Now the hounds are to move, so it stays hidden no matter how long they take
    assert!(!should_highlight_fox_objective(&fox_game, gliding, idled(IDLE * 100.0)));

    // Once the hounds have replied the hint waits for the Fox player to idle again
    let hound_moves = fox_game.all_hound_legal_moves();
    assert!(!hound_moves.is_empty());
    assert!(fox_game
        .apply_hound_move(hound_moves[0].0, hound_moves[0].1)
        .is_ok());
    assert_eq!(fox_game.current_turn, Faction::Fox);
    assert!(!fox_game.move_history.is_empty());

    // ...but not until that hound has finished gliding and the board settles
    assert!(!should_highlight_fox_objective(&fox_game, gliding, idled(IDLE * 100.0)));
    gliding = false;

    // Just short of the wait it is hidden, then it comes back as a reminder
    assert!(!should_highlight_fox_objective(&fox_game, gliding, idled(IDLE - 0.1)));
    assert!(should_highlight_fox_objective(&fox_game, gliding, idled(IDLE)));

    // Hound-controlled matches never advertise the Fox objective, however long they idle
    let mut hound_game = GameState::new();
    hound_game.start_game(Faction::Hounds, Difficulty::Medium);
    assert!(!should_highlight_fox_objective(&hound_game, false, idled(0.0)));
    assert!(!should_highlight_fox_objective(&hound_game, false, idled(IDLE * 100.0)));

    // Finished matches (and the title screen) never show it either
    let mut finished = GameState::new();
    finished.start_game(Faction::Fox, Difficulty::Medium);
    finished.phase = GamePhase::GameOver;
    assert!(!should_highlight_fox_objective(&finished, false, idled(IDLE * 100.0)));

    let mut titled = GameState::new();
    titled.start_game(Faction::Fox, Difficulty::Medium);
    titled.phase = GamePhase::TitleScreen;
    assert!(!should_highlight_fox_objective(&titled, false, idled(IDLE * 100.0)));
}


#[test]
fn test_clicks_move_select_and_refuse() {
    // Fox player on Classic: the fox enters the board with a click.
    let mut state = GameState::new();
    state.start_game(Faction::Fox, Difficulty::Medium);
    let m0 = state.graph.find_id_by_name("M0").unwrap();
    let t2 = state.graph.find_id_by_name("T2").unwrap();
    assert_eq!(handle_node_click(&mut state, m0), (SoundTrigger::InvalidMove, false));
    assert!(state.move_history.is_empty());
    assert_eq!(handle_node_click(&mut state, t2), (SoundTrigger::Move, false));
    assert_eq!(state.fox_pos, t2);
    assert_eq!(state.current_turn, Faction::Hounds);
    // Clicking the fox itself selects it.
    assert_eq!(handle_node_click(&mut state, t2), (SoundTrigger::Select, false));

    // Hounds player: select a hound, refuse a retreat, then advance.
    let mut hounds = GameState::new();
    hounds.start_game(Faction::Hounds, Difficulty::Medium);
    let m1 = hounds.graph.find_id_by_name("M1").unwrap();
    let m2 = hounds.graph.find_id_by_name("M2").unwrap();
    let m3 = hounds.graph.find_id_by_name("M3").unwrap();
    assert!(hounds.apply_fox_move(m3).is_ok());
    // Nothing selected yet: an empty vertex is refused.
    assert_eq!(handle_node_click(&mut hounds, m2), (SoundTrigger::InvalidMove, false));
    assert_eq!(handle_node_click(&mut hounds, m0), (SoundTrigger::Select, false));
    assert_eq!(hounds.selected_hound_idx, Some(0));
    assert_eq!(handle_node_click(&mut hounds, m1), (SoundTrigger::Move, false));
    assert_eq!(hounds.hounds_pos[0], m1);
    assert_eq!(hounds.selected_hound_idx, None);
    // The fox answers; now a click behind the hound on M1 is a refused retreat.
    let fox_moves = hounds.fox_legal_moves();
    assert!(hounds.apply_fox_move(fox_moves[0]).is_ok());
    assert_eq!(handle_node_click(&mut hounds, m1), (SoundTrigger::Select, false));
    assert_eq!(handle_node_click(&mut hounds, m0), (SoundTrigger::InvalidMove, true));
    assert_eq!(hounds.hounds_pos[0], m1);
    assert_eq!(hounds.result, GameResult::Ongoing);
}
