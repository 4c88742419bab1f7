//! Attribute-path logic of a Nix language server: which flake attribute a
//! completion request refers to, how the first path segment selects a
//! mapping into the flake, and how evaluated attribute names become
//! completion entries.

pub mod ast;
pub mod completion;
pub mod flake_cache;
pub mod mapping;
