//! What the user sees: the command line and the interactive view.
pub mod tui;
pub mod cli;
