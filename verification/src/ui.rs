//! Interface rules that depend on the match alone: which hints the board shows and
//! what a click on a vertex does.

pub mod board_view;
