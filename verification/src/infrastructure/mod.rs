//! Infrastructure layer: the I/O boundary the services are written against.
pub mod error;
pub mod traits;
pub mod walk;
