//! Fox and Hounds: a turn-based pursuit game on graph boards, with its rules,
//! board layouts, search AI and locale handling.

pub mod audio;
pub mod game;
pub mod ui;
