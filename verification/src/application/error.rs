//! Application-level errors (wrap domain errors).
use vstd::prelude::*;

use crate::domain::error::DomainError;

verus! {

/// The kind of a failure that the application itself detected.
#[derive(Debug, Clone, Copy, PartialEq, Eq)]
pub enum IoKind {
    NotFound,
    InvalidData,
    InvalidInput,
    AlreadyExists,
}

/// What an `OperationFailed` error came from.
#[derive(Debug)]
pub enum ErrorSource {
    /// An I/O error reported by the filesystem.
    Io(std::io::Error),
    /// A failure detected by the application, with its message.
    Detected { kind: IoKind, message: String },
    /// `sops` ran and failed, with what it wrote to stderr and its exit code.
    Sops { message: String, exit_code: Option<i32> },
}

/// Application errors wrap domain errors and add application-level context.
#[derive(Debug)]
pub enum ApplicationError {
    Domain(DomainError),
    VaultNotInitialized(String),
    AlreadyGuarded(String),
    Config { message: String },
    GitFailed { command: String, stderr: String },
    UnencryptedVaultSecrets { paths: Vec<String> },
    ProjectSwappedIn { paths: Vec<String> },
    OperationFailed { context: String, source: ErrorSource },
}

/// An `OperationFailed` error for a failure reported by the filesystem.
pub fn io_failed(context: String, e: std::io::Error) -> (r: ApplicationError)
    ensures
        r matches ApplicationError::OperationFailed { context: c, source: ErrorSource::Io(_) } && c@ == context@,
{
    ApplicationError::OperationFailed { context, source: ErrorSource::Io(e) }
}

/// An `OperationFailed` error for a failure the application detected.
pub fn detected(context: String, kind: IoKind, message: &str) -> (r: ApplicationError)
    ensures
        r matches ApplicationError::OperationFailed { context: c, source: ErrorSource::Detected { kind: k, message: m } } && c@ == context@ && k == kind && m@ == message@,
{
    ApplicationError::OperationFailed {
        context,
        source: ErrorSource::Detected { kind, message: message.to_owned() },
    }
}

} // verus!
