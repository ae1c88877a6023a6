//! Application services: the operations of rsenv, written against the
//! `FileSystem` boundary.
pub mod environment;
pub mod vault;
pub mod swap;
pub mod gitignore;
pub mod sops;
pub mod vault_commit;
