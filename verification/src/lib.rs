//! Navigating and editing documents as hierarchies of sections.
//!
//! A document is split into sections, each with a title, a level and the
//! coordinates of its content in its file. This crate holds the model of
//! sections and their hierarchy, the patch engine that replaces a range of
//! lines in the text of a file, edit plans, the tracker of line drift, and
//! the session that ties them to a selection, an edit buffer and the
//! protocol for reordering sections.
//!
//! Nothing here reads or writes a file or draws on a screen: texts and
//! parsed sections are handed in, and what is to be written is handed out.

pub mod app_state;
pub mod config;
pub mod edit_plan;
pub mod editor;
pub mod formats;
pub mod hierarchy;
pub mod lines;
pub mod offsets;
pub mod patch;
pub mod protocol;
pub mod rewrite;
pub mod search;
pub mod section;
pub mod text;
pub mod tree;
pub mod ui;
