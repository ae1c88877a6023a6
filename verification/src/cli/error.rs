//! CLI-level errors (wrap infrastructure errors).
use vstd::prelude::*;

use crate::exitcode::{IOERR, SOFTWARE, USAGE};
use crate::infrastructure::error::InfraError;

verus! {

/// CLI errors are the top-level error type, the ones shown to the user.
#[derive(Debug)]
pub enum CliError {
    Infra(InfraError),
    InvalidArgs(String),
    Usage(String),
}

/// The exit code of an error: usage errors give `USAGE`, I/O errors `IOERR`,
/// all others `SOFTWARE`.
pub open spec fn spec_exit_code(e: CliError) -> i32 {
    match e {
        CliError::InvalidArgs(_) | CliError::Usage(_) => USAGE,
        CliError::Infra(InfraError::Io { .. }) => IOERR,
        CliError::Infra(_) => SOFTWARE,
    }
}

impl CliError {
    /// The exit code for this error.
    pub fn exit_code(&self) -> (r: i32)
        ensures
            r == spec_exit_code(*self),
    {
        match self {
            CliError::InvalidArgs(_) | CliError::Usage(_) => USAGE,
            CliError::Infra(e) => match e {
                InfraError::Io { .. } => IOERR,
                InfraError::Sops { .. } => SOFTWARE,
                InfraError::Editor { .. } => SOFTWARE,
                InfraError::Application(_) => SOFTWARE,
            },
        }
    }
}

} // verus!
