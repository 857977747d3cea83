//! The window frame: its status bar, its state and what the host sends it.

pub mod bridge;
pub mod frames;
pub mod state;
pub mod statusbar;
pub mod store;
