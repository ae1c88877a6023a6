//! rsenv: hierarchical environment files, vault and file-swap management.
use vstd::prelude::*;

pub mod application;
pub mod cli;
pub mod config;
pub mod domain;
pub mod errors;
pub mod exitcode;
pub mod infrastructure;
pub mod pathstr;
pub mod text;
pub mod util;
