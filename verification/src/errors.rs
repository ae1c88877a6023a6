//! Errors of the env tree operations.
use vstd::prelude::*;

verus! {

/// What can go wrong while building or reading an env tree.
#[derive(Debug)]
pub enum TreeError {
    InvalidParent(String),
    FileNotFound(String),
    FileReadError(std::io::Error),
    InvalidFormat { path: String, reason: String },
    CycleDetected(String),
    PathResolution { path: String, reason: String },
    MultipleParents(String),
    InternalError(String),
}

} // verus!
