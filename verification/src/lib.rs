//! A plugin manager for tmux: the inventory of installed and available
//! plugins, the search over it, and the key-driven state machine of the
//! terminal interface, with machine-checked contracts.

pub mod bindings;
pub mod catalog;
pub mod cli;
pub mod inventory;
pub mod plugins;
pub mod search;
pub mod state;
pub mod tmux;
pub mod tmuxedo;
pub mod tui;
pub mod utils;
