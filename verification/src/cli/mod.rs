//! The command line's own rules: editors, diffs, pagers and exit codes.
pub mod diff_render;
pub mod editor;
pub mod error;
pub mod hook;
pub mod pager;
pub mod vimscript;
