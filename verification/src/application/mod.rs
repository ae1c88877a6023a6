//! Application layer: the rules of the vault, env hierarchy and encryption naming.
pub mod dotfile;
pub mod error;
pub mod error_ext;
pub mod hash;
pub mod envrc;
pub mod services;
