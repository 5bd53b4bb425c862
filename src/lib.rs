//! Curation of shell-command combos: naming, storing, and the interactive
//! selection state machines that build and pick them.

pub mod types;
pub mod text;
pub mod store;
pub mod stack;
pub mod menu;
pub mod prompt;
pub mod picker;
pub mod history;
