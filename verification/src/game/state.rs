//! The rules of a match: whose turn it is, which moves are legal, what a move
//! does and when the match is decided.

use crate::audio::SoundTrigger;
use crate::game::ai::{find_best_move, move_decision, searchable, valid_pick};
use crate::game::graph::{entry_filter, fox_filter, hound_filter, hound_may_enter, spec_find_name, symmetric, Graph, Node, NodeType};
use crate::game::i18n::{stats_line, LocaleStrings};
use crate::game::level::{built_from, BoardVariant, VariantConfig};
use vstd::prelude::*;

verus! {

/// Why a move was refused.
#[derive(Debug, Clone, Copy, PartialEq, Eq, Structural)]
pub enum MoveError {
    NotYourTurn,
    IllegalMove,
    InvalidHound,
}

impl MoveError {
    /// The message shown for this error.
    pub fn message(&self) -> (r: &'static str)
        ensures
            *self == MoveError::NotYourTurn ==> r@ == "Not your turn"@,
            *self == MoveError::IllegalMove ==> r@ == "Illegal move"@,
            *self == MoveError::InvalidHound ==> r@ == "Invalid hound index"@,
    {
        match self {
            MoveError::NotYourTurn => "Not your turn",
            MoveError::IllegalMove => "Illegal move",
            MoveError::InvalidHound => "Invalid hound index",
        }
    }
}

/// The two sides.
#[derive(Debug, Clone, Copy, PartialEq, Eq, Structural)]
pub enum Faction {
    Fox,
    Hounds,
}

/// Strength of the computer opponent.
#[derive(Debug, Clone, Copy, PartialEq, Eq, Structural)]
pub enum Difficulty {
    Easy,
    Medium,
    Hard,
}

impl Difficulty {
    /// The English name of this difficulty.
    pub fn name(self) -> (r: &'static str)
        ensures
            self == Difficulty::Easy ==> r@ == "Easy"@,
            self == Difficulty::Medium ==> r@ == "Medium"@,
            self == Difficulty::Hard ==> r@ == "Hard"@,
    {
        match self {
            Difficulty::Easy => "Easy",
            Difficulty::Medium => "Medium",
            Difficulty::Hard => "Hard",
        }
    }

    /// The name of this difficulty in a translation.
    pub fn localized_name(self, locales: &LocaleStrings) -> (r: &str)
        ensures
            r@ == locales.title_screen.spec_difficulty_name(self),
    {
        locales.difficulty_name(self)
    }
}

/// The screen the game is on.
#[derive(Debug, Clone, Copy, PartialEq, Eq, Structural)]
pub enum GamePhase {
    TitleScreen,
    Playing,
    GameOver,
}

/// The outcome of a match so far.
#[derive(Debug, Clone, Copy, PartialEq, Eq, Structural)]
pub enum GameResult {
    Ongoing,
    FoxWon,
    HoundsWon,
}

/// A move made in a match.
#[derive(Debug, Clone, Copy, PartialEq, Eq, Structural)]
pub enum PieceMove {
    FoxMove { to: usize },
    HoundMove { hound_idx: u8, from: usize, to: usize },
}

/// The state of a match.
#[derive(Debug, Clone)]
pub struct GameState {
    pub graph: Graph,
    pub variant: BoardVariant,
    pub fox_pos: usize,
    /// The fox has not entered the board yet (free-entry boards).
    pub fox_pending: bool,
    /// The fox has stood somewhere other than the coop.
    pub fox_has_left_start: bool,
    pub hounds_pos: Vec<usize>,
    pub coop_pos: usize,
    pub waypoint_pos: Option<usize>,
    pub fox_visited_waypoint: bool,
    pub fox_waiting_at_waypoint: bool,
    pub current_turn: Faction,
    pub player_faction: Faction,
    pub difficulty: Difficulty,
    pub phase: GamePhase,
    pub result: GameResult,
    pub selected_hound_idx: Option<u8>,
    pub turn_count: usize,
    pub move_history: Vec<PieceMove>,
}

/// The mathematical model of a match.
#[verifier::ext_equal]
pub struct GameModel {
    pub graph: Graph,
    pub variant: BoardVariant,
    pub fox_pos: usize,
    pub fox_pending: bool,
    pub fox_has_left_start: bool,
    pub hounds_pos: Seq<usize>,
    pub coop_pos: usize,
    pub waypoint_pos: Option<usize>,
    pub fox_visited_waypoint: bool,
    pub fox_waiting_at_waypoint: bool,
    pub current_turn: Faction,
    pub player_faction: Faction,
    pub difficulty: Difficulty,
    pub phase: GamePhase,
    pub result: GameResult,
    pub selected_hound_idx: Option<u8>,
    pub turn_count: nat,
    pub move_history: Seq<PieceMove>,
}

impl View for GameState {
    type V = GameModel;

    open spec fn view(&self) -> GameModel {
        GameModel {
            graph: self.graph,
            variant: self.variant,
            fox_pos: self.fox_pos,
            fox_pending: self.fox_pending,
            fox_has_left_start: self.fox_has_left_start,
            hounds_pos: self.hounds_pos@,
            coop_pos: self.coop_pos,
            waypoint_pos: self.waypoint_pos,
            fox_visited_waypoint: self.fox_visited_waypoint,
            fox_waiting_at_waypoint: self.fox_waiting_at_waypoint,
            current_turn: self.current_turn,
            player_faction: self.player_faction,
            difficulty: self.difficulty,
            phase: self.phase,
            result: self.result,
            selected_hound_idx: self.selected_hound_idx,
            turn_count: self.turn_count as nat,
            move_history: self.move_history@,
        }
    }
}

/// The indices of the named vertices that exist, in order.
pub open spec fn found_ids(graph: Graph, names: Seq<&'static str>) -> Seq<usize>
    decreases names.len(),
{
    if names.len() == 0 {
        Seq::empty()
    } else {
        let rest = found_ids(graph, names.drop_last());
        match spec_find_name(graph.nodes@, names.last()@) {
            Some(i) => rest.push(i),
            None => rest,
        }
    }
}

pub proof fn lemma_found_ids_len(graph: Graph, names: Seq<&'static str>)
    ensures
        found_ids(graph, names).len() <= names.len(),
    decreases names.len(),
{
    if names.len() > 0 {
        lemma_found_ids_len(graph, names.drop_last());
    }
}

impl GameModel {
    pub open spec fn config(self) -> VariantConfig {
        self.variant.spec_config()
    }

    /// The fox starts on the coop and must leave it before returning wins.
    pub open spec fn is_coop_start(self) -> bool {
        self.config().fox_start_node@ == self.config().target_coop_node@
    }

    /// Where the fox is heading: the waypoint until it is visited, then the coop.
    pub open spec fn active_target(self) -> usize {
        match self.waypoint_pos {
            Some(w) => if !self.fox_visited_waypoint {
                w
            } else {
                self.coop_pos
            },
            None => self.coop_pos,
        }
    }

    /// The fox's legal destinations.
    pub open spec fn fox_moves(self) -> Seq<usize> {
        if self.fox_waiting_at_waypoint {
            Seq::empty()
        } else if self.fox_pending {
            self.graph.spec_entry_moves(self.hounds_pos, self.coop_pos)
        } else {
            self.graph.spec_fox_moves(self.fox_pos, self.hounds_pos)
        }
    }

    /// The legal destinations of hound `idx`.
    pub open spec fn hound_moves(self, idx: int) -> Seq<usize> {
        if 0 <= idx < self.hounds_pos.len() {
            self.graph.spec_hound_moves(
                self.hounds_pos[idx],
                self.fox_pos,
                self.coop_pos,
                self.hounds_pos,
                self.config().allow_hound_retreat,
                self.config().allow_hounds_in_coop,
            )
        } else {
            Seq::empty()
        }
    }

    /// The legal moves of the first `k` hounds, hound by hound.
    pub open spec fn hound_moves_upto(self, k: nat) -> Seq<(u8, usize)>
        decreases k,
    {
        if k == 0 {
            Seq::empty()
        } else {
            self.hound_moves_upto((k - 1) as nat) + self.hound_moves(k - 1).map_values(
                |t: usize| ((k - 1) as u8, t),
            )
        }
    }

    /// Every legal hound move, hound by hound.
    pub open spec fn all_hound_moves(self) -> Seq<(u8, usize)> {
        self.hound_moves_upto(self.hounds_pos.len())
    }

    /// The fox stands on the coop, has been to the waypoint if there is one, and has
    /// left the coop first when it started there.
    pub open spec fn fox_won(self) -> bool {
        &&& self.fox_pos == self.coop_pos
        &&& (self.waypoint_pos is None || self.fox_visited_waypoint)
        &&& (!self.is_coop_start() || self.fox_has_left_start)
    }

    /// The match after its result has been settled.
    pub open spec fn evaluated(self) -> GameModel {
        if self.fox_won() {
            GameModel { result: GameResult::FoxWon, phase: GamePhase::GameOver, ..self }
        } else if self.current_turn == Faction::Fox && !self.fox_waiting_at_waypoint
            && self.fox_moves().len() == 0 {
            GameModel { result: GameResult::HoundsWon, phase: GamePhase::GameOver, ..self }
        } else if self.current_turn == Faction::Hounds && self.all_hound_moves().len() == 0 {
            GameModel { result: GameResult::FoxWon, phase: GamePhase::GameOver, ..self }
        } else {
            GameModel { result: GameResult::Ongoing, ..self }
        }
    }

    /// The match after the fox moved to `to`, before the result is settled.
    pub open spec fn after_fox_move(self, to: usize) -> GameModel {
        GameModel {
            fox_pos: to,
            fox_pending: false,
            fox_has_left_start: self.fox_has_left_start || to != self.coop_pos,
            fox_waiting_at_waypoint: if self.waypoint_pos == Some(to) && !self.fox_visited_waypoint {
                true
            } else {
                self.fox_waiting_at_waypoint
            },
            move_history: self.move_history.push(PieceMove::FoxMove { to }),
            current_turn: Faction::Hounds,
            selected_hound_idx: None,
            ..self
        }
    }

    /// The match after hound `idx` moved to `to`, before the result is settled.
    pub open spec fn after_hound_move(self, idx: u8, to: usize) -> GameModel {
        GameModel {
            hounds_pos: self.hounds_pos.update(idx as int, to),
            move_history: self.move_history.push(
                PieceMove::HoundMove { hound_idx: idx, from: self.hounds_pos[idx as int], to },
            ),
            current_turn: Faction::Fox,
            selected_hound_idx: None,
            turn_count: self.turn_count + 1,
            ..self
        }
    }

    /// The fox's starting vertex: the named one, else the last vertex.
    pub open spec fn start_fox_pos(self) -> usize {
        match spec_find_name(self.graph.nodes@, self.config().fox_start_node@) {
            Some(i) => i,
            None => if self.graph.nodes@.len() > 0 {
                (self.graph.nodes@.len() - 1) as usize
            } else {
                0
            },
        }
    }

    /// The match with its pieces back on their starting vertices.
    pub open spec fn reset(self) -> GameModel {
        let config = self.config();
        GameModel {
            fox_pos: self.start_fox_pos(),
            fox_pending: config.fox_free_entry,
            fox_has_left_start: false,
            hounds_pos: found_ids(self.graph, config.hounds_start_nodes@),
            coop_pos: match spec_find_name(self.graph.nodes@, config.target_coop_node@) {
                Some(i) => i,
                None => 0,
            },
            waypoint_pos: match config.target_waypoint_node {
                Some(name) => spec_find_name(self.graph.nodes@, name@),
                None => None,
            },
            fox_visited_waypoint: false,
            fox_waiting_at_waypoint: false,
            current_turn: if config.hounds_start_first {
                Faction::Hounds
            } else {
                Faction::Fox
            },
            result: GameResult::Ongoing,
            selected_hound_idx: None,
            turn_count: 1,
            move_history: Seq::empty(),
            ..self
        }
    }

    /// The match on another board, with the pieces on their starting vertices.
    pub open spec fn switched(self, graph: Graph, variant: BoardVariant) -> GameModel {
        GameModel { graph, variant, ..self }.reset()
    }

    /// A new match with the player on `player`, against a `difficulty` computer.
    pub open spec fn started(self, player: Faction, difficulty: Difficulty) -> GameModel {
        GameModel {
            player_faction: player,
            difficulty,
            phase: GamePhase::Playing,
            ..self.reset()
        }
    }

    /// The computer is to move.
    pub open spec fn is_ai_turn(self) -> bool {
        &&& self.phase == GamePhase::Playing
        &&& self.result == GameResult::Ongoing
        &&& !self.fox_waiting_at_waypoint
        &&& self.current_turn != self.player_faction
    }

    /// The match after the fox's stay on the waypoint ended: the waypoint counts as
    /// visited and the turn passes to the hounds.
    pub open spec fn after_waypoint_wait(self) -> GameModel {
        GameModel {
            fox_waiting_at_waypoint: false,
            fox_visited_waypoint: true,
            current_turn: Faction::Hounds,
            turn_count: self.turn_count + 1,
            ..self
        }
    }
}

impl GameState {
    /// The graph is well formed and every hound has a `u8` index.
    pub open spec fn wf(&self) -> bool {
        &&& self.graph.wf()
        &&& self.hounds_pos@.len() <= 255
    }

    /// A fresh match on the Classic board, on the title screen, with the player as the
    /// fox against a medium computer.
    pub fn new() -> (r: Self)
        ensures
            r.wf(),
            built_from(r.graph, BoardVariant::Classic.spec_rows(), BoardVariant::Classic.spec_edges()),
            symmetric(r.graph.adj()),
            r.variant == BoardVariant::Classic,
            r.graph.nodes@.len() == 11,
            r.phase == GamePhase::TitleScreen,
            r.player_faction == Faction::Fox,
            r.difficulty == Difficulty::Medium,
            r@ == r@.reset(),
    {
        let variant = BoardVariant::Classic;
        let graph = variant.build_graph();
        let mut state = GameState {
            graph,
            variant,
            fox_pos: 0,
            fox_pending: false,
            fox_has_left_start: false,
            hounds_pos: Vec::new(),
            coop_pos: 0,
            waypoint_pos: None,
            fox_visited_waypoint: false,
            fox_waiting_at_waypoint: false,
            current_turn: Faction::Fox,
            player_faction: Faction::Fox,
            difficulty: Difficulty::Medium,
            phase: GamePhase::TitleScreen,
            result: GameResult::Ongoing,
            selected_hound_idx: None,
            turn_count: 1,
            move_history: Vec::new(),
        };
        state.reset_board();
        state
    }

    /// Switches to another board, resetting the pieces; nothing changes when it is
    /// already the current one.
    pub fn switch_variant(&mut self, variant: BoardVariant)
        ensures
            old(self).variant == variant ==> final(self)@ == old(self)@,
            old(self).variant != variant ==> {
                &&& final(self).variant == variant
                &&& built_from(final(self).graph, variant.spec_rows(), variant.spec_edges())
                &&& symmetric(final(self).graph.adj())
                &&& final(self).graph.nodes@.len() == variant.spec_node_count()
                &&& final(self)@ == old(self)@.switched(final(self).graph, variant)
            },
            old(self).wf() ==> final(self).wf(),
    {
        if self.variant != variant {
            self.variant = variant;
            self.graph = variant.build_graph();
            self.reset_board();
        }
    }

    /// Starts a match with the player on `player_faction`.
    pub fn start_game(&mut self, player_faction: Faction, difficulty: Difficulty)
        ensures
            final(self)@ == old(self)@.started(player_faction, difficulty),
            old(self).wf() ==> final(self).wf(),
    {
        self.player_faction = player_faction;
        self.difficulty = difficulty;
        self.reset_board();
        self.phase = GamePhase::Playing;
    }

    /// Puts every piece back on its starting vertex and clears the match record.
    pub fn reset_board(&mut self)
        ensures
            final(self)@ == old(self)@.reset(),
            final(self).hounds_pos@.len() <= 3,
            old(self).graph.wf() ==> final(self).wf(),
    {
        let config = self.variant.config();
        let n = self.graph.nodes.len();
        self.fox_pos = match self.graph.find_id_by_name(config.fox_start_node) {
            Some(i) => i,
            None => n.saturating_sub(1),
        };
        self.fox_pending = config.fox_free_entry;
        self.fox_has_left_start = false;
        let mut hounds: Vec<usize> = Vec::new();
        let mut i: usize = 0;
        while i < 3
            invariant
                i <= 3,
                config == self.variant.spec_config(),
                hounds@ == found_ids(self.graph, config.hounds_start_nodes@.take(i as int)),
            decreases 3 - i,
        {
            proof {
                assert(config.hounds_start_nodes@.take(i + 1).drop_last() =~= config.hounds_start_nodes@.take(
                    i as int,
                ));
                assert(config.hounds_start_nodes@.take(i + 1).last() == config.hounds_start_nodes@[i as int]);
            }
            match self.graph.find_id_by_name(config.hounds_start_nodes[i]) {
                Some(id) => {
                    hounds.push(id);
                },
                None => {},
            }
            i = i + 1;
        }
        proof {
            assert(config.hounds_start_nodes@.take(3) =~= config.hounds_start_nodes@);
            lemma_found_ids_len(self.graph, config.hounds_start_nodes@);
        }
        self.hounds_pos = hounds;
        self.coop_pos = match self.graph.find_id_by_name(config.target_coop_node) {
            Some(i) => i,
            None => 0,
        };
        self.waypoint_pos = match config.target_waypoint_node {
            Some(name) => self.graph.find_id_by_name(name),
            None => None,
        };
        self.fox_visited_waypoint = false;
        self.fox_waiting_at_waypoint = false;
        self.current_turn = if config.hounds_start_first {
            Faction::Hounds
        } else {
            Faction::Fox
        };
        self.result = GameResult::Ongoing;
        self.selected_hound_idx = None;
        self.turn_count = 1;
        self.move_history = Vec::new();
    }

    /// The computer is to move: a match is running, undecided, the fox is not
    /// pausing on the waypoint, and it is not the player's turn.
    pub fn is_ai_turn(&self) -> (r: bool)
        ensures
            r == self@.is_ai_turn(),
    {
        self.phase == GamePhase::Playing && self.result == GameResult::Ongoing
            && !self.fox_waiting_at_waypoint && self.current_turn != self.player_faction
    }

    /// Where the fox is heading: the waypoint until visited, then the coop.
    pub fn active_target_node(&self) -> (r: usize)
        ensures
            r == self@.active_target(),
    {
        match self.waypoint_pos {
            Some(waypoint) => {
                if !self.fox_visited_waypoint {
                    return waypoint;
                }
            },
            None => {},
        }
        self.coop_pos
    }

    /// The fox's legal destinations: nothing while it pauses on the waypoint, any
    /// free non-coop vertex before it has entered the board, else free neighbours.
    pub fn fox_legal_moves(&self) -> (r: Vec<usize>)
        requires
            self.graph.wf(),
        ensures
            r@ == self@.fox_moves(),
    {
        if self.fox_waiting_at_waypoint {
            return Vec::new();
        }
        if self.fox_pending {
            self.graph.fox_entry_moves(self.hounds_pos.as_slice(), self.coop_pos)
        } else {
            self.graph.fox_legal_moves(self.fox_pos, self.hounds_pos.as_slice())
        }
    }

    /// The legal destinations of hound `hound_idx`; none for an index without a hound.
    pub fn hound_legal_moves(&self, hound_idx: u8) -> (r: Vec<usize>)
        requires
            self.graph.wf(),
        ensures
            r@ == self@.hound_moves(hound_idx as int),
    {
        let config = self.variant.config();
        let idx = hound_idx as usize;
        if idx < self.hounds_pos.len() {
            self.graph.hound_legal_moves(
                self.hounds_pos[idx],
                self.fox_pos,
                self.coop_pos,
                self.hounds_pos.as_slice(),
                config.allow_hound_retreat,
                config.allow_hounds_in_coop,
            )
        } else {
            Vec::new()
        }
    }

    /// Every legal hound move as (hound index, destination), hound by hound.
    pub fn all_hound_legal_moves(&self) -> (r: Vec<(u8, usize)>)
        requires
            self.wf(),
        ensures
            r@ == self@.all_hound_moves(),
    {
        let mut r: Vec<(u8, usize)> = Vec::new();
        let mut idx: usize = 0;
        while idx < self.hounds_pos.len()
            invariant
                self.wf(),
                idx <= self.hounds_pos@.len(),
                r@ == self@.hound_moves_upto(idx as nat),
            decreases self.hounds_pos@.len() - idx,
        {
            let moves = self.hound_legal_moves(idx as u8);
            let ghost base = r@;
            let ghost k = (idx + 1) as nat;
            let mut j: usize = 0;
            while j < moves.len()
                invariant
                    self.wf(),
                    idx < self.hounds_pos@.len(),
                    k == idx + 1,
                    moves@ == self@.hound_moves(idx as int),
                    base == self@.hound_moves_upto(idx as nat),
                    j <= moves@.len(),
                    r@ == base + moves@.take(j as int).map_values(|t: usize| ((k - 1) as u8, t)),
                decreases moves@.len() - j,
            {
                r.push((idx as u8, moves[j]));
                proof {
                    assert(moves@.take(j + 1).map_values(|t: usize| ((k - 1) as u8, t)) =~= moves@.take(
                        j as int,
                    ).map_values(|t: usize| ((k - 1) as u8, t)).push((idx as u8, moves@[j as int])));
                }
                j = j + 1;
            }
            proof {
                assert(moves@.take(moves@.len() as int) =~= moves@);
            }
            idx = idx + 1;
        }
        r
    }

    /// Settles the result: the fox wins on reaching the coop (see `GameModel::fox_won`)
    /// or when the hounds have no move on their turn; the hounds win when the fox has no
    /// move on its turn. A decided match ends.
    pub fn evaluate_game_result(&mut self)
        requires
            old(self).wf(),
        ensures
            final(self)@ == old(self)@.evaluated(),
            final(self).wf(),
    {
        let config = self.variant.config();
        let coop_start = crate::game::graph::str_equal(config.fox_start_node, config.target_coop_node);
        let fox_won = self.fox_pos == self.coop_pos && (self.waypoint_pos.is_none()
            || self.fox_visited_waypoint) && (!coop_start || self.fox_has_left_start);
        if fox_won {
            self.result = GameResult::FoxWon;
            self.phase = GamePhase::GameOver;
            return;
        }
        if self.current_turn == Faction::Fox && !self.fox_waiting_at_waypoint
            && self.fox_legal_moves().len() == 0 {
            self.result = GameResult::HoundsWon;
            self.phase = GamePhase::GameOver;
            return;
        }
        if self.current_turn == Faction::Hounds && self.all_hound_legal_moves().len() == 0 {
            self.result = GameResult::FoxWon;
            self.phase = GamePhase::GameOver;
            return;
        }
        self.result = GameResult::Ongoing;
    }

    /// Moves the fox to `to`. Refused when it is not the fox's turn or `to` is not a
    /// legal destination; otherwise the move is recorded, the turn passes to the
    /// hounds and the result is settled.
    pub fn apply_fox_move(&mut self, to: usize) -> (r: Result<(), MoveError>)
        requires
            old(self).wf(),
        ensures
            final(self).wf(),
            old(self).current_turn != Faction::Fox ==> r == Err::<(), MoveError>(MoveError::NotYourTurn)
                && final(self)@ == old(self)@,
            old(self).current_turn == Faction::Fox && !old(self)@.fox_moves().contains(to) ==> r == Err::<
                (),
                MoveError,
            >(MoveError::IllegalMove) && final(self)@ == old(self)@,
            old(self).current_turn == Faction::Fox && old(self)@.fox_moves().contains(to) ==> r == Ok::<
                (),
                MoveError,
            >(()) && final(self)@ == old(self)@.after_fox_move(to).evaluated(),
    {
        if self.current_turn != Faction::Fox {
            return Err(MoveError::NotYourTurn);
        }
        let legal = self.fox_legal_moves();
        if !crate::game::graph::vec_contains(&legal, to) {
            return Err(MoveError::IllegalMove);
        }
        self.fox_has_left_start = self.fox_has_left_start || to != self.coop_pos;
        self.fox_pos = to;
        self.fox_pending = false;
        if self.waypoint_pos == Some(to) && !self.fox_visited_waypoint {
            self.fox_waiting_at_waypoint = true;
        }
        self.move_history.push(PieceMove::FoxMove { to });
        self.current_turn = Faction::Hounds;
        self.selected_hound_idx = None;
        self.evaluate_game_result();
        Ok(())
    }

    /// Moves hound `hound_idx` to `to`. Refused when it is not the hounds' turn, there
    /// is no such hound, or `to` is not a legal destination; otherwise the move is
    /// recorded, the turn count advances, the turn passes to the fox and the result is
    /// settled.
    pub fn apply_hound_move(&mut self, hound_idx: u8, to: usize) -> (r: Result<(), MoveError>)
        requires
            old(self).wf(),
            old(self).turn_count < usize::MAX,
        ensures
            final(self).wf(),
            old(self).current_turn != Faction::Hounds ==> r == Err::<(), MoveError>(
                MoveError::NotYourTurn,
            ) && final(self)@ == old(self)@,
            old(self).current_turn == Faction::Hounds && hound_idx as int >= old(self).hounds_pos@.len()
                ==> r == Err::<(), MoveError>(MoveError::InvalidHound) && final(self)@ == old(self)@,
            old(self).current_turn == Faction::Hounds && (hound_idx as int) < old(self).hounds_pos@.len()
                && !old(self)@.hound_moves(hound_idx as int).contains(to) ==> r == Err::<(), MoveError>(
                MoveError::IllegalMove,
            ) && final(self)@ == old(self)@,
            old(self).current_turn == Faction::Hounds && (hound_idx as int) < old(self).hounds_pos@.len()
                && old(self)@.hound_moves(hound_idx as int).contains(to) ==> r == Ok::<(), MoveError>(())
                && final(self)@ == old(self)@.after_hound_move(hound_idx, to).evaluated(),
    {
        if self.current_turn != Faction::Hounds {
            return Err(MoveError::NotYourTurn);
        }
        let idx = hound_idx as usize;
        if idx >= self.hounds_pos.len() {
            return Err(MoveError::InvalidHound);
        }
        let legal = self.hound_legal_moves(hound_idx);
        if !crate::game::graph::vec_contains(&legal, to) {
            return Err(MoveError::IllegalMove);
        }
        let from_pos = self.hounds_pos[idx];
        self.hounds_pos.set(idx, to);
        self.move_history.push(PieceMove::HoundMove { hound_idx, from: from_pos, to });
        self.current_turn = Faction::Fox;
        self.selected_hound_idx = None;
        self.turn_count = self.turn_count + 1;
        self.evaluate_game_result();
        Ok(())
    }

    /// Ends the fox's pause on the waypoint: the waypoint counts as visited, the turn
    /// passes to the hounds and the result is settled. The fox grabbing its prey there
    /// sounds like a selection.
    pub fn finish_waypoint_wait(&mut self) -> (r: SoundTrigger)
        requires
            old(self).wf(),
            old(self).turn_count < usize::MAX,
        ensures
            final(self).wf(),
            final(self)@ == old(self)@.after_waypoint_wait().evaluated(),
            r == SoundTrigger::Select,
    {
        self.fox_waiting_at_waypoint = false;
        self.fox_visited_waypoint = true;
        self.current_turn = Faction::Hounds;
        self.turn_count = self.turn_count + 1;
        self.evaluate_game_result();
        SoundTrigger::Select
    }
}

/// The sound of a computer move by `mover`: a win or a loss for the player when the
/// move decided the match for `mover`, else an ordinary move.
pub open spec fn move_sound(result: GameResult, mover: Faction, player: Faction) -> SoundTrigger {
    let decided = match mover {
        Faction::Fox => result == GameResult::FoxWon,
        Faction::Hounds => result == GameResult::HoundsWon,
    };
    if decided {
        if player == mover {
            SoundTrigger::Win
        } else {
            SoundTrigger::Loss
        }
    } else {
        SoundTrigger::Move
    }
}

/// What carrying out the move `decision` does to a match `before`: the match `after`
/// and the sound `sound`. A refused move, or none, leaves the match as it was and
/// makes no sound.
pub open spec fn ai_turn_outcome(
    before: GameModel,
    decision: Option<PieceMove>,
    after: GameModel,
    sound: Option<SoundTrigger>,
) -> bool {
    match decision {
        Some(PieceMove::FoxMove { to }) => if before.current_turn == Faction::Fox && before.fox_moves().contains(
            to,
        ) {
            &&& after == before.after_fox_move(to).evaluated()
            &&& sound == Some(move_sound(after.result, Faction::Fox, before.player_faction))
        } else {
            after == before && sound is None
        },
        Some(PieceMove::HoundMove { hound_idx, from, to }) => if before.current_turn == Faction::Hounds
            && (hound_idx as int) < before.hounds_pos.len() && before.hound_moves(hound_idx as int).contains(
            to,
        ) {
            &&& after == before.after_hound_move(hound_idx, to).evaluated()
            &&& sound == Some(move_sound(after.result, Faction::Hounds, before.player_faction))
        } else {
            after == before && sound is None
        },
        None => after == before && sound is None,
    }
}

impl GameState {
    /// The fox is pausing on the waypoint during a running match, on its own turn.
    pub fn waypoint_wait_active(&self) -> (r: bool)
        ensures
            r == (self.phase == GamePhase::Playing && self.result == GameResult::Ongoing
                && self.current_turn == Faction::Fox && self.fox_waiting_at_waypoint),
    {
        self.phase == GamePhase::Playing && self.result == GameResult::Ongoing && self.current_turn
            == Faction::Fox && self.fox_waiting_at_waypoint
    }

    /// The computer moves for the side to move (see `find_best_move`) and reports the
    /// sound to play; nothing happens when it finds no move.
    pub fn execute_ai_turn(&mut self) -> (r: Option<SoundTrigger>)
        requires
            old(self).wf(),
            searchable(old(self).graph),
            old(self).turn_count < usize::MAX,
        ensures
            final(self).wf(),
            exists|pick: int|
                valid_pick(*old(self), pick) && ai_turn_outcome(
                    old(self)@,
                    #[trigger] move_decision(*old(self), pick),
                    final(self)@,
                    r,
                ),
    {
        let best_move = find_best_move(self);
        let ghost before = *self;
        let ghost pick = choose|pick: int| valid_pick(before, pick) && best_move == #[trigger] move_decision(
            before,
            pick,
        );
        match best_move {
            Some(PieceMove::FoxMove { to }) => {
                match self.apply_fox_move(to) {
                    Ok(()) => {
                        let sound = if self.result == GameResult::FoxWon {
                            if self.player_faction == Faction::Fox {
                                SoundTrigger::Win
                            } else {
                                SoundTrigger::Loss
                            }
                        } else {
                            SoundTrigger::Move
                        };
                        proof {
                            assert(ai_turn_outcome(before@, move_decision(before, pick), self@, Some(sound)));
                        }
                        Some(sound)
                    },
                    Err(_) => {
                        proof {
                            assert(ai_turn_outcome(before@, move_decision(before, pick), self@, None));
                        }
                        None
                    },
                }
            },
            Some(PieceMove::HoundMove { hound_idx, from, to }) => {
                match self.apply_hound_move(hound_idx, to) {
                    Ok(()) => {
                        let sound = if self.result == GameResult::HoundsWon {
                            if self.player_faction == Faction::Hounds {
                                SoundTrigger::Win
                            } else {
                                SoundTrigger::Loss
                            }
                        } else {
                            SoundTrigger::Move
                        };
                        proof {
                            assert(ai_turn_outcome(before@, move_decision(before, pick), self@, Some(sound)));
                        }
                        Some(sound)
                    },
                    Err(_) => {
                        proof {
                            assert(ai_turn_outcome(before@, move_decision(before, pick), self@, None));
                        }
                        None
                    },
                }
            },
            None => {
                proof {
                    assert(ai_turn_outcome(before@, move_decision(before, pick), self@, None));
                }
                None
            },
        }
    }

    /// The statistics line of the game-over screen in a translation: `None` while the
    /// match is undecided.
    pub fn game_over_stats(&self, locales: &LocaleStrings) -> (r: Option<String>)
        ensures
            self.result == GameResult::Ongoing ==> r is None,
            self.result != GameResult::Ongoing ==> r is Some && r->0@ == stats_line(
                locales.game_over.stats_template@,
                self.turn_count as nat,
                locales.title_screen.spec_difficulty_name(self.difficulty),
                locales.title_screen.spec_variant_name(self.variant),
            ),
    {
        if self.result == GameResult::Ongoing {
            None
        } else {
            Some(
                locales.game_over.format_stats(
                    self.turn_count,
                    self.difficulty.localized_name(locales),
                    self.variant.localized_name(locales),
                ),
            )
        }
    }
}

// ---------------------------------------------------------------------------
// Laws of the rules
// ---------------------------------------------------------------------------

/// No two pieces share a vertex: the fox stands on no hound and no two hounds
/// stand together.
pub open spec fn pieces_apart(m: GameModel) -> bool {
    &&& !m.hounds_pos.contains(m.fox_pos)
    &&& forall|i: int, j: int|
        0 <= i < m.hounds_pos.len() && 0 <= j < m.hounds_pos.len() && i != j ==> #[trigger] m.hounds_pos[i]
            != #[trigger] m.hounds_pos[j]
}

/// Every move is a single step: once on the board the fox moves to a neighbour of its
/// vertex, and a hound to a neighbour of its own.
pub proof fn lemma_moves_are_steps(m: GameModel, idx: int, t: usize)
    ensures
        !m.fox_pending && m.fox_moves().contains(t) ==> m.graph.spec_neighbors(m.fox_pos).contains(t),
        m.hound_moves(idx).contains(t) ==> 0 <= idx < m.hounds_pos.len() && m.graph.spec_neighbors(
            m.hounds_pos[idx],
        ).contains(t),
{
    if !m.fox_pending && !m.fox_waiting_at_waypoint && m.fox_moves().contains(t) {
        m.graph.spec_neighbors(m.fox_pos).lemma_filter_contains_rev(fox_filter(m.hounds_pos), t);
    }
    if m.fox_waiting_at_waypoint && m.fox_moves().contains(t) {
        assert(m.fox_moves() =~= Seq::<usize>::empty());
    }
    if m.hound_moves(idx).contains(t) {
        if !(0 <= idx < m.hounds_pos.len()) {
            assert(m.hound_moves(idx) =~= Seq::<usize>::empty());
        } else {
            m.graph.spec_neighbors(m.hounds_pos[idx]).lemma_filter_contains_rev(
                hound_filter(
                    m.graph.nodes@,
                    m.hounds_pos[idx],
                    m.fox_pos,
                    m.coop_pos,
                    m.hounds_pos,
                    m.config().allow_hound_retreat,
                    m.config().allow_hounds_in_coop,
                ),
                t,
            );
        }
    }
}

/// What every hound destination satisfies: it is a vertex, free of the fox and the
/// hounds, never a coop vertex, the coop itself only where the board allows hounds in
/// it, and never a step back to a lower row where retreat is forbidden.
pub proof fn lemma_hound_destination(m: GameModel, idx: int, t: usize)
    requires
        m.hound_moves(idx).contains(t),
    ensures
        0 <= idx < m.hounds_pos.len(),
        hound_may_enter(
            m.graph.nodes@,
            m.hounds_pos[idx],
            m.fox_pos,
            m.coop_pos,
            m.hounds_pos,
            m.config().allow_hound_retreat,
            m.config().allow_hounds_in_coop,
            t,
        ),
        (t as int) < m.graph.nodes@.len(),
        m.graph.nodes@[t as int].node_type != NodeType::TargetCoop,
        t != m.fox_pos,
        !m.hounds_pos.contains(t),
        !m.config().allow_hounds_in_coop ==> t != m.coop_pos,
        !m.config().allow_hound_retreat && (m.hounds_pos[idx] as int) < m.graph.nodes@.len()
            ==> m.graph.nodes@[t as int].row >= m.graph.nodes@[m.hounds_pos[idx] as int].row,
{
    if !(0 <= idx < m.hounds_pos.len()) {
        assert(m.hound_moves(idx) =~= Seq::<usize>::empty());
    }
    let p = hound_filter(
        m.graph.nodes@,
        m.hounds_pos[idx],
        m.fox_pos,
        m.coop_pos,
        m.hounds_pos,
        m.config().allow_hound_retreat,
        m.config().allow_hounds_in_coop,
    );
    let nb = m.graph.spec_neighbors(m.hounds_pos[idx]);
    assert(nb.filter(p).contains(t));
    let j = choose|j: int| 0 <= j < nb.filter(p).len() && nb.filter(p)[j] == t;
    nb.lemma_filter_pred(p, j);
}

/// The fox never moves onto a hound.
pub proof fn lemma_fox_destination(m: GameModel, t: usize)
    requires
        m.fox_moves().contains(t),
    ensures
        !m.hounds_pos.contains(t),
        !m.fox_waiting_at_waypoint,
        m.fox_pending ==> t != m.coop_pos,
{
    if m.fox_waiting_at_waypoint {
        assert(m.fox_moves() =~= Seq::<usize>::empty());
    }
    let moves = m.fox_moves();
    let j = choose|j: int| 0 <= j < moves.len() && moves[j] == t;
    if m.fox_pending {
        let ids = m.graph.nodes@.map_values(|n: Node| n.id);
        ids.lemma_filter_pred(entry_filter(m.graph.nodes@, m.hounds_pos, m.coop_pos), j);
    } else {
        m.graph.spec_neighbors(m.fox_pos).lemma_filter_pred(fox_filter(m.hounds_pos), j);
    }
}

/// Legal moves keep the pieces apart.
pub proof fn lemma_moves_keep_pieces_apart(m: GameModel, idx: u8, t: usize)
    requires
        pieces_apart(m),
    ensures
        m.fox_moves().contains(t) ==> pieces_apart(m.after_fox_move(t).evaluated()),
        m.hound_moves(idx as int).contains(t) ==> pieces_apart(m.after_hound_move(idx, t).evaluated()),
{
    if m.fox_moves().contains(t) {
        lemma_fox_destination(m, t);
        let m2 = m.after_fox_move(t).evaluated();
        assert(m2.hounds_pos == m.hounds_pos);
    }
    if m.hound_moves(idx as int).contains(t) {
        lemma_hound_destination(m, idx as int, t);
        let m2 = m.after_hound_move(idx, t).evaluated();
        let h = m.hounds_pos;
        let h2 = m2.hounds_pos;
        assert(h2 == h.update(idx as int, t));
        assert(!h2.contains(m2.fox_pos)) by {
            if h2.contains(m2.fox_pos) {
                let k = choose|k: int| 0 <= k < h2.len() && h2[k] == m2.fox_pos;
                if k != idx as int {
                    assert(h[k] == m.fox_pos);
                }
            }
        }
        assert forall|i: int, j: int|
            0 <= i < h2.len() && 0 <= j < h2.len() && i != j implies #[trigger] h2[i] != #[trigger] h2[j] by {
            if i == idx as int {
                assert(h.contains(h[j]));
            } else if j == idx as int {
                assert(h.contains(h[i]));
            } else {
                assert(h[i] != h[j]);
            }
        }
    }
}

/// Turns alternate: after a fox move the hounds are to move, after a hound move the
/// fox, and only a hound move advances the turn count; every accepted move is
/// recorded once.
pub proof fn lemma_turns_alternate(m: GameModel, idx: u8, t: usize)
    ensures
        m.after_fox_move(t).evaluated().current_turn == Faction::Hounds,
        m.after_fox_move(t).evaluated().turn_count == m.turn_count,
        m.after_fox_move(t).evaluated().move_history == m.move_history.push(PieceMove::FoxMove { to: t }),
        m.after_hound_move(idx, t).evaluated().current_turn == Faction::Fox,
        m.after_hound_move(idx, t).evaluated().turn_count == m.turn_count + 1,
        m.after_hound_move(idx, t).evaluated().move_history.len() == m.move_history.len() + 1,
{
}

/// Only the Classic board lets the fox choose where it enters. On every other board
/// a new match has the fox standing on its start vertex, and its first legal moves
/// are the neighbours of that vertex that no hound occupies.
pub proof fn lemma_free_entry_only_on_classic(m: GameModel, player: Faction, difficulty: Difficulty)
    ensures
        m.reset().fox_pending <==> m.variant == BoardVariant::Classic,
        m.started(player, difficulty).fox_pending <==> m.variant == BoardVariant::Classic,
        m.variant != BoardVariant::Classic ==> {
            let s = m.started(player, difficulty);
            &&& s.fox_pos == m.start_fox_pos()
            &&& s.fox_moves() == m.graph.spec_fox_moves(m.start_fox_pos(), s.hounds_pos)
        },
{
}

/// A decided match is over, and the result is exactly the rule: the fox wins on
/// reaching the coop (see `GameModel::fox_won`) or when the hounds cannot move on their
/// turn; the hounds win when the fox cannot move on its turn.
pub proof fn lemma_result_rules(m: GameModel)
    ensures
        m.evaluated().result != GameResult::Ongoing ==> m.evaluated().phase == GamePhase::GameOver,
        m.evaluated().result == GameResult::FoxWon <==> (m.fox_won() || (m.current_turn == Faction::Hounds
            && m.all_hound_moves().len() == 0)),
        m.evaluated().result == GameResult::HoundsWon <==> (!m.fox_won() && m.current_turn == Faction::Fox
            && !m.fox_waiting_at_waypoint && m.fox_moves().len() == 0),
{
}

} // verus!
