//! Infrastructure-level errors (wrap application errors).
use vstd::prelude::*;

use crate::application::error::ApplicationError;

verus! {

/// Infrastructure errors wrap application errors and add I/O-level concerns.
#[derive(Debug)]
pub enum InfraError {
    Application(ApplicationError),
    Io { context: String, source: std::io::Error },
    Sops { message: String, exit_code: Option<i32> },
    Editor { message: String },
}

impl InfraError {
    /// Create an I/O error with context.
    pub fn io(context: String, source: std::io::Error) -> (r: Self)
        ensures
            r matches InfraError::Io { context: c, source: s } && c@ == context@ && s == source,
    {
        InfraError::Io { context, source }
    }
}

} // verus!
