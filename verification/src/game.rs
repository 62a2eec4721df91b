//! Game logic: boards, rules, AI and translations.

pub mod paths;
pub mod graph;
pub mod level;
pub mod state;
pub mod ai;
pub mod i18n;
