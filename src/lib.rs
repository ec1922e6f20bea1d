//! Editing core of a small terminal text editor: a line-addressed document
//! over a rope, a literal substring search with circular navigation, and the
//! cursor / viewport model that keeps the caret valid and visible.

pub mod text;
mod rope;
pub mod buffer;
pub mod search;
pub mod ui;
pub mod editor;
pub mod keys;
pub mod cli;
pub mod goto;
