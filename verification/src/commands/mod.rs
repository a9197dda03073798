//! The decision logic of the `gg` commands.
pub mod split;
pub mod split_tui;
pub mod sync;
pub mod undo;
pub mod unstack;
pub mod unstack_tui;
