//! Verified core of a small terminal shell toolkit: splitting byte streams
//! into `b'\n'`-terminated lines, laying out truncated panes of text, and
//! the decisions that the shell takes on commands, keys and child events.
pub mod linebuf;
pub mod linestream;
pub mod pane;
pub mod text;
pub mod rows;
pub mod command;
pub mod run;
pub mod glyphs;
pub mod runner;
pub mod paths;
pub mod cleanup;
pub mod ui;
pub mod iomux;
