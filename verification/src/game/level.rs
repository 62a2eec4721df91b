//! Board variants, their rules and their boards.

use crate::game::graph::{find_node_by_name, symmetric, Graph, Node, NodeType};
use crate::game::i18n::LocaleStrings;
use vstd::prelude::*;

verus! {

/// Number of board variants.
pub const VARIANT_COUNT: usize = 5;

/// Board size of the default pieces, in artwork pixels.
pub const DEFAULT_PIECE_BASE_SIZE: u32 = 76;

/// Board size of the pieces on The Red Hunt, in artwork pixels.
pub const RED_HUNT_PIECE_BASE_SIZE: u32 = 58;

/// The boards the game can be played on.
#[derive(Debug, Clone, Copy, PartialEq, Eq, Hash, Structural)]
pub enum BoardVariant {
    Classic,
    RiverCrossing,
    FoxAndDogs,
    FoxAndDogsMaze,
    TheRedHunt,
}

impl Default for BoardVariant {
    fn default() -> (r: Self)
        ensures
            r == BoardVariant::Classic,
    {
        BoardVariant::Classic
    }
}

/// The rules and starting layout of a board variant.
#[derive(Debug, Clone, Copy)]
pub struct VariantConfig {
    pub id: BoardVariant,
    pub name: &'static str,
    pub description: &'static str,
    pub allow_hound_retreat: bool,
    pub hounds_start_first: bool,
    pub allow_hounds_in_coop: bool,
    pub fox_start_node: &'static str,
    pub fox_free_entry: bool,
    pub hounds_start_nodes: [&'static str; 3],
    pub target_coop_node: &'static str,
    pub target_waypoint_node: Option<&'static str>,
    pub piece_base_size: u32,
}

/// Free entry, where the fox picks its first vertex anywhere off the coop, is a
/// rule of the Classic board alone.
pub proof fn lemma_free_entry_variants(v: BoardVariant)
    ensures
        v.spec_config().fox_free_entry <==> v == BoardVariant::Classic,
{
}

impl BoardVariant {
    /// The name of this board in a translation.
    pub fn localized_name(self, locales: &LocaleStrings) -> (r: &str)
        ensures
            r@ == locales.title_screen.spec_variant_name(self),
    {
        locales.variant_name(self)
    }

    /// The subtitle of this board in a translation.
    pub fn localized_sub(self, locales: &LocaleStrings) -> (r: &str)
        ensures
            r@ == locales.title_screen.spec_variant_sub(self),
    {
        locales.variant_sub(self)
    }

    /// The rules and starting layout of this variant.
    pub open spec fn spec_config(self) -> VariantConfig {
        match self {
            BoardVariant::Classic => VariantConfig {
                id: BoardVariant::Classic,
                name: "Classic",
                description: "Traditional rules on an 11-node spearhead board where hounds cannot retreat",
                allow_hound_retreat: false,
                hounds_start_first: false,
                allow_hounds_in_coop: false,
                fox_start_node: "M4",
                fox_free_entry: true,
                hounds_start_nodes: ["M0", "T1", "B1"],
                target_coop_node: "M0",
                target_waypoint_node: None,
                piece_base_size: DEFAULT_PIECE_BASE_SIZE,
            },
            BoardVariant::RiverCrossing => VariantConfig {
                id: BoardVariant::RiverCrossing,
                name: "The river crossing",
                description: "3x9 board with a river bottleneck on Row 6 and free hound movement",
                allow_hound_retreat: true,
                hounds_start_first: false,
                allow_hounds_in_coop: false,
                fox_start_node: "M9",
                fox_free_entry: false,
                hounds_start_nodes: ["L1", "M1", "R1"],
                target_coop_node: "M0",
                target_waypoint_node: None,
                piece_base_size: DEFAULT_PIECE_BASE_SIZE,
            },
            BoardVariant::FoxAndDogs => VariantConfig {
                id: BoardVariant::FoxAndDogs,
                name: "fox and dogs",
                description: "Fox and dogs board: dogs start on Row 7 and move first, fox must return to C8",
                allow_hound_retreat: true,
                hounds_start_first: true,
                allow_hounds_in_coop: true,
                fox_start_node: "C8",
                fox_free_entry: false,
                hounds_start_nodes: ["R7", "C7", "L7"],
                target_coop_node: "C8",
                target_waypoint_node: None,
                piece_base_size: DEFAULT_PIECE_BASE_SIZE,
            },
            BoardVariant::FoxAndDogsMaze => VariantConfig {
                id: BoardVariant::FoxAndDogsMaze,
                name: "fox and dogs maze",
                description: "Fox and dogs board with the R4-R5 lane closed: dogs start on Row 7 and move first, fox must return to C8",
                allow_hound_retreat: true,
                hounds_start_first: true,
                allow_hounds_in_coop: true,
                fox_start_node: "C8",
                fox_free_entry: false,
                hounds_start_nodes: ["R7", "C7", "L7"],
                target_coop_node: "C8",
                target_waypoint_node: None,
                piece_base_size: DEFAULT_PIECE_BASE_SIZE,
            },
            BoardVariant::TheRedHunt => VariantConfig {
                id: BoardVariant::TheRedHunt,
                name: "The Red Hunt",
                description: "Martian crustal fault board: fox starts at C4 and races to C0, hounds start at R2, C1, L2 and can retreat",
                allow_hound_retreat: true,
                hounds_start_first: false,
                allow_hounds_in_coop: false,
                fox_start_node: "C4",
                fox_free_entry: false,
                hounds_start_nodes: ["R2", "C1", "L2"],
                target_coop_node: "C0",
                target_waypoint_node: None,
                piece_base_size: RED_HUNT_PIECE_BASE_SIZE,
            },
        }
    }

    /// The rules and starting layout of this variant.
    pub fn config(self) -> (r: VariantConfig)
        ensures
            r == self.spec_config(),
    {
        match self {
            BoardVariant::Classic => VariantConfig {
                id: BoardVariant::Classic,
                name: "Classic",
                description: "Traditional rules on an 11-node spearhead board where hounds cannot retreat",
                allow_hound_retreat: false,
                hounds_start_first: false,
                allow_hounds_in_coop: false,
                fox_start_node: "M4",
                fox_free_entry: true,
                hounds_start_nodes: ["M0", "T1", "B1"],
                target_coop_node: "M0",
                target_waypoint_node: None,
                piece_base_size: DEFAULT_PIECE_BASE_SIZE,
            },
            BoardVariant::RiverCrossing => VariantConfig {
                id: BoardVariant::RiverCrossing,
                name: "The river crossing",
                description: "3x9 board with a river bottleneck on Row 6 and free hound movement",
                allow_hound_retreat: true,
                hounds_start_first: false,
                allow_hounds_in_coop: false,
                fox_start_node: "M9",
                fox_free_entry: false,
                hounds_start_nodes: ["L1", "M1", "R1"],
                target_coop_node: "M0",
                target_waypoint_node: None,
                piece_base_size: DEFAULT_PIECE_BASE_SIZE,
            },
            BoardVariant::FoxAndDogs => VariantConfig {
                id: BoardVariant::FoxAndDogs,
                name: "fox and dogs",
                description: "Fox and dogs board: dogs start on Row 7 and move first, fox must return to C8",
                allow_hound_retreat: true,
                hounds_start_first: true,
                allow_hounds_in_coop: true,
                fox_start_node: "C8",
                fox_free_entry: false,
                hounds_start_nodes: ["R7", "C7", "L7"],
                target_coop_node: "C8",
                target_waypoint_node: None,
                piece_base_size: DEFAULT_PIECE_BASE_SIZE,
            },
            BoardVariant::FoxAndDogsMaze => VariantConfig {
                id: BoardVariant::FoxAndDogsMaze,
                name: "fox and dogs maze",
                description: "Fox and dogs board with the R4-R5 lane closed: dogs start on Row 7 and move first, fox must return to C8",
                allow_hound_retreat: true,
                hounds_start_first: true,
                allow_hounds_in_coop: true,
                fox_start_node: "C8",
                fox_free_entry: false,
                hounds_start_nodes: ["R7", "C7", "L7"],
                target_coop_node: "C8",
                target_waypoint_node: None,
                piece_base_size: DEFAULT_PIECE_BASE_SIZE,
            },
            BoardVariant::TheRedHunt => VariantConfig {
                id: BoardVariant::TheRedHunt,
                name: "The Red Hunt",
                description: "Martian crustal fault board: fox starts at C4 and races to C0, hounds start at R2, C1, L2 and can retreat",
                allow_hound_retreat: true,
                hounds_start_first: false,
                allow_hounds_in_coop: false,
                fox_start_node: "C4",
                fox_free_entry: false,
                hounds_start_nodes: ["R2", "C1", "L2"],
                target_coop_node: "C0",
                target_waypoint_node: None,
                piece_base_size: RED_HUNT_PIECE_BASE_SIZE,
            },
        }
    }

    /// Every variant, in the order the title screen offers them.
    pub open spec fn spec_all() -> Seq<BoardVariant> {
        seq![
            BoardVariant::Classic,
            BoardVariant::RiverCrossing,
            BoardVariant::FoxAndDogs,
            BoardVariant::FoxAndDogsMaze,
            BoardVariant::TheRedHunt,
        ]
    }

    /// Every variant, in the order the title screen offers them.
    pub fn all() -> (r: [BoardVariant; VARIANT_COUNT])
        ensures
            r@ == Self::spec_all(),
    {
        let r = [
            BoardVariant::Classic,
            BoardVariant::RiverCrossing,
            BoardVariant::FoxAndDogs,
            BoardVariant::FoxAndDogsMaze,
            BoardVariant::TheRedHunt,
        ];
        assert(r@ =~= Self::spec_all());
        r
    }

    /// The position of this variant in `all()`.
    pub fn index(self) -> (r: usize)
        ensures
            r < VARIANT_COUNT,
            Self::spec_all()[r as int] == self,
    {
        match self {
            BoardVariant::Classic => 0,
            BoardVariant::RiverCrossing => 1,
            BoardVariant::FoxAndDogs => 2,
            BoardVariant::FoxAndDogsMaze => 3,
            BoardVariant::TheRedHunt => 4,
        }
    }

    /// The Fox and Dogs board.
    pub fn is_arthur(self) -> (r: bool)
        ensures
            r == (self == BoardVariant::FoxAndDogs),
    {
        match self {
            BoardVariant::FoxAndDogs => true,
            _ => false,
        }
    }

    /// The Martian board.
    pub fn is_red_hunt(self) -> (r: bool)
        ensures
            r == (self == BoardVariant::TheRedHunt),
    {
        match self {
            BoardVariant::TheRedHunt => true,
            _ => false,
        }
    }

    /// Board size of the pieces of this variant, in artwork pixels.
    pub fn piece_base_size(self) -> (r: u32)
        ensures
            r == self.spec_config().piece_base_size,
    {
        self.config().piece_base_size
    }

    /// The number of vertices of this variant's board.
    pub open spec fn spec_node_count(self) -> nat {
        match self {
            BoardVariant::Classic => 11,
            BoardVariant::RiverCrossing => 24,
            BoardVariant::FoxAndDogs => 19,
            BoardVariant::FoxAndDogsMaze => 19,
            BoardVariant::TheRedHunt => 22,
        }
    }

    /// The vertex table of this variant's board.
    pub open spec fn spec_rows(self) -> Seq<NodeRow> {
        match self {
            BoardVariant::Classic => classic_rows(),
            BoardVariant::RiverCrossing => river_crossing_rows(),
            BoardVariant::FoxAndDogs => fox_and_dogs_rows(),
            BoardVariant::FoxAndDogsMaze => fox_and_dogs_rows(),
            BoardVariant::TheRedHunt => the_red_hunt_rows(),
        }
    }

    /// The edges of this variant's board, by vertex name.
    pub open spec fn spec_edges(self) -> Seq<(&'static str, &'static str)> {
        match self {
            BoardVariant::Classic => classic_edges(),
            BoardVariant::RiverCrossing => river_crossing_edges(),
            BoardVariant::FoxAndDogs => fox_and_dogs_edges(),
            BoardVariant::FoxAndDogsMaze => fox_and_dogs_maze_edges(),
            BoardVariant::TheRedHunt => the_red_hunt_edges(),
        }
    }

    /// Builds this variant's board.
    pub fn build_graph(self) -> (g: Graph)
        ensures
            built_from(g, self.spec_rows(), self.spec_edges()),
            g.nodes@.len() == self.spec_node_count(),
    {
        match self {
            BoardVariant::Classic => build_classic_graph(),
            BoardVariant::RiverCrossing => build_river_crossing_graph(),
            BoardVariant::FoxAndDogs => build_fox_and_dogs_graph(),
            BoardVariant::FoxAndDogsMaze => build_fox_and_dogs_maze_graph(),
            BoardVariant::TheRedHunt => build_the_red_hunt_graph(),
        }
    }
}

/// One vertex of a board table: name, row, column, role and artwork position in
/// tenths of a pixel.
pub type NodeRow = (&'static str, usize, usize, NodeType, u32, u32);

/// The vertex built from a table row, with index `id`.
pub open spec fn node_matches_row(n: Node, row: NodeRow, id: usize) -> bool {
    &&& n.id == id
    &&& n.name@ == row.0@
    &&& n.row == row.1
    &&& n.col == row.2
    &&& n.node_type == row.3
    &&& n.visual_x == row.4
    &&& n.visual_y == row.5
}

/// The edges named in `raw` whose two ends name vertices of `nodes`.
pub open spec fn resolve_spec(nodes: Seq<Node>, raw: Seq<(&'static str, &'static str)>) -> Seq<(usize, usize)>
    decreases raw.len(),
{
    if raw.len() == 0 {
        Seq::empty()
    } else {
        let rest = resolve_spec(nodes, raw.drop_last());
        let e = raw.last();
        match (spec_find_name_of(nodes, e.0@), spec_find_name_of(nodes, e.1@)) {
            (Some(u), Some(v)) => rest.push((u, v)),
            _ => rest,
        }
    }
}

pub open spec fn spec_find_name_of(nodes: Seq<Node>, name: Seq<char>) -> Option<usize> {
    crate::game::graph::spec_find_name(nodes, name)
}

/// The vertices of a board table, numbered in table order.
pub fn nodes_from_table(rows: &Vec<NodeRow>) -> (r: Vec<Node>)
    ensures
        r@.len() == rows@.len(),
        forall|i: int| 0 <= i < rows@.len() ==> node_matches_row(#[trigger] r@[i], rows@[i], i as usize),
{
    let mut r: Vec<Node> = Vec::new();
    let mut i: usize = 0;
    while i < rows.len()
        invariant
            i <= rows@.len(),
            r@.len() == i,
            forall|j: int| 0 <= j < i ==> node_matches_row(#[trigger] r@[j], rows@[j], j as usize),
        decreases rows@.len() - i,
    {
        let (name, row, col, node_type, x, y) = rows[i];
        r.push(
            Node {
                id: i,
                name: String::from_str(name),
                row,
                col,
                node_type,
                visual_x: x,
                visual_y: y,
            },
        );
        i = i + 1;
    }
    r
}

/// Resolves named edges to vertex indices, dropping those naming an unknown vertex.
pub fn resolve_edges(nodes: &Vec<Node>, raw: &Vec<(&'static str, &'static str)>) -> (r: Vec<(usize, usize)>)
    ensures
        r@ == resolve_spec(nodes@, raw@),
{
    let mut r: Vec<(usize, usize)> = Vec::new();
    let mut i: usize = 0;
    while i < raw.len()
        invariant
            i <= raw@.len(),
            r@ == resolve_spec(nodes@, raw@.take(i as int)),
        decreases raw@.len() - i,
    {
        let (a, b) = raw[i];
        proof {
            assert(raw@.take(i + 1).drop_last() =~= raw@.take(i as int));
            assert(raw@.take(i + 1).last() == (a, b));
        }
        match (find_node_by_name(nodes, a), find_node_by_name(nodes, b)) {
            (Some(u), Some(v)) => {
                r.push((u, v));
            },
            _ => {},
        }
        i = i + 1;
    }
    proof {
        assert(raw@.take(raw@.len() as int) =~= raw@);
    }
    r
}

/// `g` is the board made of the vertex table `rows`, vertex `i` from row `i`, and of
/// the edges of `edges` whose two ends name vertices, each added both ways: a
/// well-formed graph with all-pairs shortest distances.
pub open spec fn built_from(g: Graph, rows: Seq<NodeRow>, edges: Seq<(&'static str, &'static str)>) -> bool {
    &&& g.wf()
    &&& symmetric(g.adj())
    &&& g.nodes@.len() == rows.len()
    &&& forall|i: int| 0 <= i < rows.len() ==> node_matches_row(#[trigger] g.nodes@[i], rows[i], i as usize)
    &&& g.adj() == crate::game::graph::adjacency_from(rows.len(), resolve_spec(g.nodes@, edges))
}

/// The board described by a node table and a named edge list.
pub fn graph_from_tables(rows: &Vec<NodeRow>, raw_edges: &Vec<(&'static str, &'static str)>) -> (g: Graph)
    ensures
        built_from(g, rows@, raw_edges@),
{
    let nodes = nodes_from_table(rows);
    let edges = resolve_edges(&nodes, raw_edges);
    Graph::new(nodes, edges.as_slice())
}

/// The vertex table of the River Crossing board, in index order.
pub open spec fn river_crossing_rows() -> Seq<NodeRow> {
    seq![
        ("M0", 0, 1, NodeType::TargetCoop, 3840, 1500),
        ("L1", 1, 0, NodeType::Standard, 2300, 2260),
        ("M1", 1, 1, NodeType::Standard, 3840, 2260),
        ("R1", 1, 2, NodeType::Standard, 5380, 2260),
        ("L2", 2, 0, NodeType::Standard, 2300, 3280),
        ("M2", 2, 1, NodeType::Standard, 3840, 3280),
        ("R2", 2, 2, NodeType::Standard, 5380, 3280),
        ("L3", 3, 0, NodeType::Standard, 2300, 4380),
        ("M3", 3, 1, NodeType::Standard, 3840, 4380),
        ("R3", 3, 2, NodeType::Standard, 5380, 4380),
        ("L4", 4, 0, NodeType::Standard, 2300, 5540),
        ("M4", 4, 1, NodeType::Standard, 3840, 5540),
        ("R4", 4, 2, NodeType::Standard, 5380, 5540),
        ("L5", 5, 0, NodeType::Standard, 2300, 6600),
        ("M5", 5, 1, NodeType::Standard, 3840, 6600),
        ("R5", 5, 2, NodeType::Standard, 5380, 6600),
        ("M6", 6, 1, NodeType::Bottleneck, 3840, 7550),
        ("L7", 7, 0, NodeType::Standard, 2300, 8520),
        ("M7", 7, 1, NodeType::Standard, 3840, 8520),
        ("R7", 7, 2, NodeType::Standard, 5380, 8520),
        ("L8", 8, 0, NodeType::Standard, 2300, 9550),
        ("M8", 8, 1, NodeType::Standard, 3840, 9550),
        ("R8", 8, 2, NodeType::Standard, 5380, 9550),
        ("M9", 9, 1, NodeType::FoxStart, 3840, 10520),
    ]
}

/// The edges of the River Crossing board, by vertex name.
pub open spec fn river_crossing_edges() -> Seq<(&'static str, &'static str)> {
    seq![
        ("M0", "L1"),
        ("M0", "M1"),
        ("M0", "R1"),
        ("L1", "M1"),
        ("M1", "R1"),
        ("L1", "L2"),
        ("M1", "M2"),
        ("R1", "R2"),
        ("L1", "M2"),
        ("R1", "M2"),
        ("M1", "L2"),
        ("M1", "R2"),
        ("L2", "M2"),
        ("M2", "R2"),
        ("L2", "L3"),
        ("M2", "M3"),
        ("R2", "R3"),
        ("L2", "M3"),
        ("R2", "M3"),
        ("M2", "L3"),
        ("M2", "R3"),
        ("L3", "M3"),
        ("M3", "R3"),
        ("L3", "L4"),
        ("M3", "M4"),
        ("R3", "R4"),
        ("L3", "M4"),
        ("R3", "M4"),
        ("M3", "L4"),
        ("M3", "R4"),
        ("L4", "M4"),
        ("M4", "R4"),
        ("L4", "L5"),
        ("M4", "M5"),
        ("R4", "R5"),
        ("L4", "M5"),
        ("R4", "M5"),
        ("M4", "L5"),
        ("M4", "R5"),
        ("L5", "M5"),
        ("M5", "R5"),
        ("L5", "M6"),
        ("M5", "M6"),
        ("R5", "M6"),
        ("M6", "L7"),
        ("M6", "M7"),
        ("M6", "R7"),
        ("L7", "M7"),
        ("M7", "R7"),
        ("L7", "L8"),
        ("M7", "M8"),
        ("R7", "R8"),
        ("L7", "M8"),
        ("R7", "M8"),
        ("M7", "L8"),
        ("M7", "R8"),
        ("L8", "M8"),
        ("M8", "R8"),
        ("L8", "M9"),
        ("M8", "M9"),
        ("R8", "M9"),
    ]
}

/// The vertex table of the River Crossing board.
fn river_crossing_row_table() -> (r: Vec<NodeRow>)
    ensures
        r@ == river_crossing_rows(),
{
    let r: Vec<NodeRow> = vec![
        ("M0", 0, 1, NodeType::TargetCoop, 3840, 1500),
        ("L1", 1, 0, NodeType::Standard, 2300, 2260),
        ("M1", 1, 1, NodeType::Standard, 3840, 2260),
        ("R1", 1, 2, NodeType::Standard, 5380, 2260),
        ("L2", 2, 0, NodeType::Standard, 2300, 3280),
        ("M2", 2, 1, NodeType::Standard, 3840, 3280),
        ("R2", 2, 2, NodeType::Standard, 5380, 3280),
        ("L3", 3, 0, NodeType::Standard, 2300, 4380),
        ("M3", 3, 1, NodeType::Standard, 3840, 4380),
        ("R3", 3, 2, NodeType::Standard, 5380, 4380),
        ("L4", 4, 0, NodeType::Standard, 2300, 5540),
        ("M4", 4, 1, NodeType::Standard, 3840, 5540),
        ("R4", 4, 2, NodeType::Standard, 5380, 5540),
        ("L5", 5, 0, NodeType::Standard, 2300, 6600),
        ("M5", 5, 1, NodeType::Standard, 3840, 6600),
        ("R5", 5, 2, NodeType::Standard, 5380, 6600),
        ("M6", 6, 1, NodeType::Bottleneck, 3840, 7550),
        ("L7", 7, 0, NodeType::Standard, 2300, 8520),
        ("M7", 7, 1, NodeType::Standard, 3840, 8520),
        ("R7", 7, 2, NodeType::Standard, 5380, 8520),
        ("L8", 8, 0, NodeType::Standard, 2300, 9550),
        ("M8", 8, 1, NodeType::Standard, 3840, 9550),
        ("R8", 8, 2, NodeType::Standard, 5380, 9550),
        ("M9", 9, 1, NodeType::FoxStart, 3840, 10520),
    ];
    proof {
        assert(r@ =~= river_crossing_rows());
    }
    r
}

/// The edges of the River Crossing board.
fn river_crossing_edge_table() -> (r: Vec<(&'static str, &'static str)>)
    ensures
        r@ == river_crossing_edges(),
{
    let r: Vec<(&'static str, &'static str)> = vec![
        ("M0", "L1"),
        ("M0", "M1"),
        ("M0", "R1"),
        ("L1", "M1"),
        ("M1", "R1"),
        ("L1", "L2"),
        ("M1", "M2"),
        ("R1", "R2"),
        ("L1", "M2"),
        ("R1", "M2"),
        ("M1", "L2"),
        ("M1", "R2"),
        ("L2", "M2"),
        ("M2", "R2"),
        ("L2", "L3"),
        ("M2", "M3"),
        ("R2", "R3"),
        ("L2", "M3"),
        ("R2", "M3"),
        ("M2", "L3"),
        ("M2", "R3"),
        ("L3", "M3"),
        ("M3", "R3"),
        ("L3", "L4"),
        ("M3", "M4"),
        ("R3", "R4"),
        ("L3", "M4"),
        ("R3", "M4"),
        ("M3", "L4"),
        ("M3", "R4"),
        ("L4", "M4"),
        ("M4", "R4"),
        ("L4", "L5"),
        ("M4", "M5"),
        ("R4", "R5"),
        ("L4", "M5"),
        ("R4", "M5"),
        ("M4", "L5"),
        ("M4", "R5"),
        ("L5", "M5"),
        ("M5", "R5"),
        ("L5", "M6"),
        ("M5", "M6"),
        ("R5", "M6"),
        ("M6", "L7"),
        ("M6", "M7"),
        ("M6", "R7"),
        ("L7", "M7"),
        ("M7", "R7"),
        ("L7", "L8"),
        ("M7", "M8"),
        ("R7", "R8"),
        ("L7", "M8"),
        ("R7", "M8"),
        ("M7", "L8"),
        ("M7", "R8"),
        ("L8", "M8"),
        ("M8", "R8"),
        ("L8", "M9"),
        ("M8", "M9"),
        ("R8", "M9"),
    ];
    proof {
        assert(r@ =~= river_crossing_edges());
    }
    r
}

/// The vertex table of the Classic board, in index order.
pub open spec fn classic_rows() -> Seq<NodeRow> {
    seq![
        ("M0", 0, 1, NodeType::TargetCoop, 2430, 5110),
        ("T1", 1, 0, NodeType::Standard, 3760, 3290),
        ("M1", 1, 1, NodeType::Standard, 3750, 5100),
        ("B1", 1, 2, NodeType::Standard, 3760, 6890),
        ("T2", 2, 0, NodeType::Standard, 5110, 3310),
        ("M2", 2, 1, NodeType::Standard, 5100, 5100),
        ("B2", 2, 2, NodeType::Standard, 5100, 6890),
        ("T3", 3, 0, NodeType::Standard, 6460, 3310),
        ("M3", 3, 1, NodeType::Standard, 6450, 5100),
        ("B3", 3, 2, NodeType::Standard, 6460, 6900),
        ("M4", 4, 1, NodeType::FoxStart, 7780, 5100),
    ]
}

/// The edges of the Classic board, by vertex name.
pub open spec fn classic_edges() -> Seq<(&'static str, &'static str)> {
    seq![
        ("M0", "T1"),
        ("M0", "M1"),
        ("M0", "B1"),
        ("T1", "M1"),
        ("M1", "B1"),
        ("T2", "M2"),
        ("M2", "B2"),
        ("T3", "M3"),
        ("M3", "B3"),
        ("T1", "T2"),
        ("T2", "T3"),
        ("M1", "M2"),
        ("M2", "M3"),
        ("B1", "B2"),
        ("B2", "B3"),
        ("T1", "M2"),
        ("M2", "B3"),
        ("B1", "M2"),
        ("M2", "T3"),
        ("T3", "M4"),
        ("M3", "M4"),
        ("B3", "M4"),
    ]
}

/// The vertex table of the Classic board.
fn classic_row_table() -> (r: Vec<NodeRow>)
    ensures
        r@ == classic_rows(),
{
    let r: Vec<NodeRow> = vec![
        ("M0", 0, 1, NodeType::TargetCoop, 2430, 5110),
        ("T1", 1, 0, NodeType::Standard, 3760, 3290),
        ("M1", 1, 1, NodeType::Standard, 3750, 5100),
        ("B1", 1, 2, NodeType::Standard, 3760, 6890),
        ("T2", 2, 0, NodeType::Standard, 5110, 3310),
        ("M2", 2, 1, NodeType::Standard, 5100, 5100),
        ("B2", 2, 2, NodeType::Standard, 5100, 6890),
        ("T3", 3, 0, NodeType::Standard, 6460, 3310),
        ("M3", 3, 1, NodeType::Standard, 6450, 5100),
        ("B3", 3, 2, NodeType::Standard, 6460, 6900),
        ("M4", 4, 1, NodeType::FoxStart, 7780, 5100),
    ];
    proof {
        assert(r@ =~= classic_rows());
    }
    r
}

/// The edges of the Classic board.
fn classic_edge_table() -> (r: Vec<(&'static str, &'static str)>)
    ensures
        r@ == classic_edges(),
{
    let r: Vec<(&'static str, &'static str)> = vec![
        ("M0", "T1"),
        ("M0", "M1"),
        ("M0", "B1"),
        ("T1", "M1"),
        ("M1", "B1"),
        ("T2", "M2"),
        ("M2", "B2"),
        ("T3", "M3"),
        ("M3", "B3"),
        ("T1", "T2"),
        ("T2", "T3"),
        ("M1", "M2"),
        ("M2", "M3"),
        ("B1", "B2"),
        ("B2", "B3"),
        ("T1", "M2"),
        ("M2", "B3"),
        ("B1", "M2"),
        ("M2", "T3"),
        ("T3", "M4"),
        ("M3", "M4"),
        ("B3", "M4"),
    ];
    proof {
        assert(r@ =~= classic_edges());
    }
    r
}

/// The vertex table of the Fox and Dogs board, in index order.
pub open spec fn fox_and_dogs_rows() -> Seq<NodeRow> {
    seq![
        ("C0", 0, 1, NodeType::Standard, 5100, 1844),
        ("L1", 1, 0, NodeType::Standard, 3893, 2535),
        ("C1", 1, 1, NodeType::Standard, 5100, 2545),
        ("R1", 1, 2, NodeType::Standard, 6301, 2547),
        ("L2", 2, 0, NodeType::Standard, 3665, 3285),
        ("C2", 2, 1, NodeType::Bottleneck, 5100, 3238),
        ("R2", 2, 2, NodeType::Standard, 6492, 3231),
        ("C3", 3, 1, NodeType::Bottleneck, 5110, 4940),
        ("L4", 4, 0, NodeType::Standard, 3868, 5624),
        ("C4", 4, 1, NodeType::Standard, 5100, 5650),
        ("R4", 4, 2, NodeType::Standard, 6320, 5650),
        ("L5", 5, 0, NodeType::Standard, 3860, 6400),
        ("C5", 5, 1, NodeType::Standard, 5100, 6400),
        ("R5", 5, 2, NodeType::Standard, 6320, 6400),
        ("C6", 6, 1, NodeType::Standard, 5092, 7100),
        ("L7", 7, 0, NodeType::Standard, 3874, 7800),
        ("C7", 7, 1, NodeType::Standard, 5100, 7800),
        ("R7", 7, 2, NodeType::Standard, 6320, 7800),
        ("C8", 8, 1, NodeType::FoxStart, 5100, 8500),
    ]
}

/// The edges of the Fox and Dogs board, by vertex name.
pub open spec fn fox_and_dogs_edges() -> Seq<(&'static str, &'static str)> {
    seq![
        ("C0", "C1"),
        ("C1", "C2"),
        ("C2", "C3"),
        ("C3", "C4"),
        ("C4", "C5"),
        ("C5", "C6"),
        ("C6", "C7"),
        ("C7", "C8"),
        ("C0", "L1"),
        ("C0", "R1"),
        ("L1", "L2"),
        ("R1", "R2"),
        ("L1", "C1"),
        ("R1", "C1"),
        ("L1", "C2"),
        ("R1", "C2"),
        ("L2", "C2"),
        ("R2", "C2"),
        ("C3", "L4"),
        ("C3", "R4"),
        ("L4", "L5"),
        ("R4", "R5"),
        ("L4", "C4"),
        ("C4", "R4"),
        ("C4", "L5"),
        ("C4", "R5"),
        ("L5", "C5"),
        ("C5", "R5"),
        ("L5", "L7"),
        ("R5", "R7"),
        ("L5", "C6"),
        ("R5", "C6"),
        ("C6", "L7"),
        ("C6", "R7"),
        ("L7", "C7"),
        ("C7", "R7"),
        ("L7", "C8"),
        ("R7", "C8"),
    ]
}

/// The vertex table of the Fox and Dogs board.
fn fox_and_dogs_row_table() -> (r: Vec<NodeRow>)
    ensures
        r@ == fox_and_dogs_rows(),
{
    let r: Vec<NodeRow> = vec![
        ("C0", 0, 1, NodeType::Standard, 5100, 1844),
        ("L1", 1, 0, NodeType::Standard, 3893, 2535),
        ("C1", 1, 1, NodeType::Standard, 5100, 2545),
        ("R1", 1, 2, NodeType::Standard, 6301, 2547),
        ("L2", 2, 0, NodeType::Standard, 3665, 3285),
        ("C2", 2, 1, NodeType::Bottleneck, 5100, 3238),
        ("R2", 2, 2, NodeType::Standard, 6492, 3231),
        ("C3", 3, 1, NodeType::Bottleneck, 5110, 4940),
        ("L4", 4, 0, NodeType::Standard, 3868, 5624),
        ("C4", 4, 1, NodeType::Standard, 5100, 5650),
        ("R4", 4, 2, NodeType::Standard, 6320, 5650),
        ("L5", 5, 0, NodeType::Standard, 3860, 6400),
        ("C5", 5, 1, NodeType::Standard, 5100, 6400),
        ("R5", 5, 2, NodeType::Standard, 6320, 6400),
        ("C6", 6, 1, NodeType::Standard, 5092, 7100),
        ("L7", 7, 0, NodeType::Standard, 3874, 7800),
        ("C7", 7, 1, NodeType::Standard, 5100, 7800),
        ("R7", 7, 2, NodeType::Standard, 6320, 7800),
        ("C8", 8, 1, NodeType::FoxStart, 5100, 8500),
    ];
    proof {
        assert(r@ =~= fox_and_dogs_rows());
    }
    r
}

/// The edges of the Fox and Dogs board.
fn fox_and_dogs_edge_table() -> (r: Vec<(&'static str, &'static str)>)
    ensures
        r@ == fox_and_dogs_edges(),
{
    let r: Vec<(&'static str, &'static str)> = vec![
        ("C0", "C1"),
        ("C1", "C2"),
        ("C2", "C3"),
        ("C3", "C4"),
        ("C4", "C5"),
        ("C5", "C6"),
        ("C6", "C7"),
        ("C7", "C8"),
        ("C0", "L1"),
        ("C0", "R1"),
        ("L1", "L2"),
        ("R1", "R2"),
        ("L1", "C1"),
        ("R1", "C1"),
        ("L1", "C2"),
        ("R1", "C2"),
        ("L2", "C2"),
        ("R2", "C2"),
        ("C3", "L4"),
        ("C3", "R4"),
        ("L4", "L5"),
        ("R4", "R5"),
        ("L4", "C4"),
        ("C4", "R4"),
        ("C4", "L5"),
        ("C4", "R5"),
        ("L5", "C5"),
        ("C5", "R5"),
        ("L5", "L7"),
        ("R5", "R7"),
        ("L5", "C6"),
        ("R5", "C6"),
        ("C6", "L7"),
        ("C6", "R7"),
        ("L7", "C7"),
        ("C7", "R7"),
        ("L7", "C8"),
        ("R7", "C8"),
    ];
    proof {
        assert(r@ =~= fox_and_dogs_edges());
    }
    r
}

/// The vertex table of the Red Hunt board, in index order.
pub open spec fn the_red_hunt_rows() -> Seq<NodeRow> {
    seq![
        ("L0", 0, 0, NodeType::Standard, 3800, 2200),
        ("C0", 0, 1, NodeType::TargetCoop, 5120, 2200),
        ("R0", 0, 2, NodeType::Standard, 6450, 2200),
        ("C1", 1, 1, NodeType::Standard, 5120, 2840),
        ("L2", 2, 0, NodeType::Standard, 3800, 3450),
        ("C2", 2, 1, NodeType::Standard, 5120, 3450),
        ("R2", 2, 2, NodeType::Standard, 6450, 3450),
        ("C3", 3, 1, NodeType::Standard, 5120, 4060),
        ("L4", 4, 0, NodeType::Standard, 3800, 4700),
        ("C4", 4, 1, NodeType::FoxStart, 5120, 4700),
        ("R4", 4, 2, NodeType::Standard, 6450, 4700),
        ("C5", 5, 1, NodeType::Standard, 5120, 5360),
        ("L6", 6, 0, NodeType::Standard, 3800, 5900),
        ("C6", 6, 1, NodeType::Bottleneck, 5120, 5900),
        ("R6", 6, 2, NodeType::Standard, 6450, 5900),
        ("L7", 7, 0, NodeType::Standard, 3800, 6830),
        ("C7", 7, 1, NodeType::Bottleneck, 5120, 6830),
        ("R7", 7, 2, NodeType::Standard, 6450, 6830),
        ("L8", 8, 0, NodeType::Standard, 3810, 7440),
        ("C8", 8, 1, NodeType::Standard, 5120, 7440),
        ("R8", 8, 2, NodeType::Standard, 6450, 7440),
        ("C9", 9, 1, NodeType::Standard, 5120, 8080),
    ]
}

/// The edges of the Red Hunt board, by vertex name.
pub open spec fn the_red_hunt_edges() -> Seq<(&'static str, &'static str)> {
    seq![
        ("C0", "C1"),
        ("C1", "C2"),
        ("C2", "C3"),
        ("C3", "C4"),
        ("C4", "C5"),
        ("C5", "C6"),
        ("C6", "C7"),
        ("C7", "C8"),
        ("C8", "C9"),
        ("L0", "C0"),
        ("C0", "R0"),
        ("L2", "C2"),
        ("C2", "R2"),
        ("L4", "C4"),
        ("C4", "R4"),
        ("L6", "C6"),
        ("C6", "R6"),
        ("L7", "C7"),
        ("C7", "R7"),
        ("L8", "C8"),
        ("C8", "R8"),
        ("L0", "L2"),
        ("R0", "R2"),
        ("L2", "L4"),
        ("R2", "R4"),
        ("L4", "L6"),
        ("R4", "R6"),
        ("L7", "L8"),
        ("R7", "R8"),
        ("L0", "C1"),
        ("R0", "C1"),
        ("C1", "L2"),
        ("C1", "R2"),
        ("L2", "C3"),
        ("R2", "C3"),
        ("C3", "L4"),
        ("C3", "R4"),
        ("L4", "C5"),
        ("R4", "C5"),
        ("C5", "L6"),
        ("C5", "R6"),
        ("L8", "C9"),
        ("R8", "C9"),
    ]
}

/// The vertex table of the Red Hunt board.
fn the_red_hunt_row_table() -> (r: Vec<NodeRow>)
    ensures
        r@ == the_red_hunt_rows(),
{
    let r: Vec<NodeRow> = vec![
        ("L0", 0, 0, NodeType::Standard, 3800, 2200),
        ("C0", 0, 1, NodeType::TargetCoop, 5120, 2200),
        ("R0", 0, 2, NodeType::Standard, 6450, 2200),
        ("C1", 1, 1, NodeType::Standard, 5120, 2840),
        ("L2", 2, 0, NodeType::Standard, 3800, 3450),
        ("C2", 2, 1, NodeType::Standard, 5120, 3450),
        ("R2", 2, 2, NodeType::Standard, 6450, 3450),
        ("C3", 3, 1, NodeType::Standard, 5120, 4060),
        ("L4", 4, 0, NodeType::Standard, 3800, 4700),
        ("C4", 4, 1, NodeType::FoxStart, 5120, 4700),
        ("R4", 4, 2, NodeType::Standard, 6450, 4700),
        ("C5", 5, 1, NodeType::Standard, 5120, 5360),
        ("L6", 6, 0, NodeType::Standard, 3800, 5900),
        ("C6", 6, 1, NodeType::Bottleneck, 5120, 5900),
        ("R6", 6, 2, NodeType::Standard, 6450, 5900),
        ("L7", 7, 0, NodeType::Standard, 3800, 6830),
        ("C7", 7, 1, NodeType::Bottleneck, 5120, 6830),
        ("R7", 7, 2, NodeType::Standard, 6450, 6830),
        ("L8", 8, 0, NodeType::Standard, 3810, 7440),
        ("C8", 8, 1, NodeType::Standard, 5120, 7440),
        ("R8", 8, 2, NodeType::Standard, 6450, 7440),
        ("C9", 9, 1, NodeType::Standard, 5120, 8080),
    ];
    proof {
        assert(r@ =~= the_red_hunt_rows());
    }
    r
}

/// The edges of the Red Hunt board.
fn the_red_hunt_edge_table() -> (r: Vec<(&'static str, &'static str)>)
    ensures
        r@ == the_red_hunt_edges(),
{
    let r: Vec<(&'static str, &'static str)> = vec![
        ("C0", "C1"),
        ("C1", "C2"),
        ("C2", "C3"),
        ("C3", "C4"),
        ("C4", "C5"),
        ("C5", "C6"),
        ("C6", "C7"),
        ("C7", "C8"),
        ("C8", "C9"),
        ("L0", "C0"),
        ("C0", "R0"),
        ("L2", "C2"),
        ("C2", "R2"),
        ("L4", "C4"),
        ("C4", "R4"),
        ("L6", "C6"),
        ("C6", "R6"),
        ("L7", "C7"),
        ("C7", "R7"),
        ("L8", "C8"),
        ("C8", "R8"),
        ("L0", "L2"),
        ("R0", "R2"),
        ("L2", "L4"),
        ("R2", "R4"),
        ("L4", "L6"),
        ("R4", "R6"),
        ("L7", "L8"),
        ("R7", "R8"),
        ("L0", "C1"),
        ("R0", "C1"),
        ("C1", "L2"),
        ("C1", "R2"),
        ("L2", "C3"),
        ("R2", "C3"),
        ("C3", "L4"),
        ("C3", "R4"),
        ("L4", "C5"),
        ("R4", "C5"),
        ("C5", "L6"),
        ("C5", "R6"),
        ("L8", "C9"),
        ("R8", "C9"),
    ];
    proof {
        assert(r@ =~= the_red_hunt_edges());
    }
    r
}

/// The River Crossing board: a 3-wide field with a bridge bottleneck on row 6.
pub fn build_river_crossing_graph() -> (g: Graph)
    ensures
        built_from(g, river_crossing_rows(), river_crossing_edges()),
{
    graph_from_tables(&river_crossing_row_table(), &river_crossing_edge_table())
}

/// The Classic board: eleven vertices on a spearhead.
pub fn build_classic_graph() -> (g: Graph)
    ensures
        built_from(g, classic_rows(), classic_edges()),
{
    graph_from_tables(&classic_row_table(), &classic_edge_table())
}

/// The Fox and Dogs board: the dogs start on row 7 next to the fox's home C8.
pub fn build_fox_and_dogs_graph() -> (g: Graph)
    ensures
        built_from(g, fox_and_dogs_rows(), fox_and_dogs_edges()),
{
    graph_from_tables(&fox_and_dogs_row_table(), &fox_and_dogs_edge_table())
}

/// The edges of the Fox and Dogs maze board: those of Fox and Dogs without entry 21,
/// the R4-R5 lane.
pub open spec fn fox_and_dogs_maze_edges() -> Seq<(&'static str, &'static str)> {
    fox_and_dogs_edges().remove(21)
}

/// The Fox and Dogs maze board: the Fox and Dogs board with the R4-R5 lane closed.
pub fn build_fox_and_dogs_maze_graph() -> (g: Graph)
    ensures
        built_from(g, fox_and_dogs_rows(), fox_and_dogs_maze_edges()),
{
    let mut edges = fox_and_dogs_edge_table();
    edges.remove(21);
    graph_from_tables(&fox_and_dogs_row_table(), &edges)
}

/// The Red Hunt board: a Martian crustal fault crossed by the Perekop bridge.
pub fn build_the_red_hunt_graph() -> (g: Graph)
    ensures
        built_from(g, the_red_hunt_rows(), the_red_hunt_edges()),
{
    graph_from_tables(&the_red_hunt_row_table(), &the_red_hunt_edge_table())
}

} // verus!
