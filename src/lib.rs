//! Core logic of a graphical front-end for cargo: diagnostics of a build,
//! the dependency tree and its flattened view, the install queue, edits of a
//! manifest, crate-name completion and the worker's decisions.

pub mod text;
pub mod version;
pub mod depgraph;
pub mod projection;
pub mod diag;
pub mod install;
pub mod manifest;
pub mod completion;
pub mod command;
pub mod index;
pub mod workspace;
pub mod toolchain;
pub mod worker;
