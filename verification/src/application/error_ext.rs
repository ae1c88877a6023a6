//! Path context for the I/O errors of the services.
use vstd::prelude::*;

use crate::application::envrc::context2;
use crate::application::error::{io_failed, ApplicationError, ErrorSource};

verus! {

/// Conversion of an I/O result into an application result, naming the
/// action and the path in the error.
pub trait IoResultExt<T>: Sized {
    /// Add path context to an I/O error: `"<action>: <path>"`.
    fn with_path_context(self, action: &str, path: &str) -> Result<T, ApplicationError>;
}

impl<T> IoResultExt<T> for Result<T, std::io::Error> {
    fn with_path_context(self, action: &str, path: &str) -> (r: Result<T, ApplicationError>)
        ensures
            self matches Ok(v) ==> (r matches Ok(w) && w == v),
            self is Err ==> (r matches Err(ApplicationError::OperationFailed { context, source: ErrorSource::Io(_) }) && context@ == action@ + ": "@ + path@),
    {
        match self {
            Ok(v) => Ok(v),
            Err(e) => {
                let head = context2(action, ": ");
                Err(io_failed(context2(head.as_str(), path), e))
            },
        }
    }
}

} // verus!
