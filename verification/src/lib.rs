//! Verified core of a text editor: backup and session recovery, recent-file
//! labels, git status and diff handling, search, and the other decisions the
//! editor makes, each stated as a contract and proved.

pub mod hex;
pub mod text;
pub mod paths;
pub mod backup;
pub mod hotexit;
pub mod menu;
pub mod tab;
pub mod replace;
pub mod diff_text;
pub mod git;
pub mod config;
pub mod actions;
pub mod close_flow;
pub mod key_bind;
pub mod project;
pub mod line_number;
pub mod render;
pub mod stats;
pub mod orphans;
pub mod search;
pub mod text_input;
pub mod autosave;
pub mod project_tree;
pub mod watch;
