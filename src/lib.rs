//! Candidate ranking and selection for an editor's completion and
//! code-action popups.
pub mod code_actions;
pub mod completions;
pub mod label;
pub mod menu;
pub mod ranking;
pub mod sse;
pub mod text;
