//! Domain-level errors.
use vstd::prelude::*;

verus! {

/// Domain errors represent business logic violations.
#[derive(Debug)]
pub enum DomainError {
    FileNotFound(String),
    InvalidParent(String),
    CycleDetected(String),
    SwappedOnOtherHost { path: String, hostname: String },
    VaultAlreadyInitialized(String),
    VaultNotFound(String),
    FileAlreadyGuarded(String),
    InvalidEnvFile { path: String, message: String },
}

} // verus!
