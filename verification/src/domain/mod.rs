//! Domain layer: entities and their rules.
pub mod arena;
pub mod builder;
pub mod entities;
pub mod vars;
pub mod error;
