//! History-aware Alt+Tab for the Sway window manager.
//!
//! The crate holds what the daemon decides: which windows it remembers and in
//! what order, which one a key press previews, when a preview is committed,
//! which requests go to sway and what its replies mean. Sockets, signals,
//! threads and clocks belong to the program around it.

pub mod alttab;
pub mod commands;
pub mod daemon;
pub mod options;
pub mod recency;
pub mod state;
pub mod state_laws;
pub mod text;
pub mod timer;
pub mod tree;
