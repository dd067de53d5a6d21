//! A multi-target header translation pipeline core.
//!
//! The crate models the heart of a bindings generator that drives an external
//! AST parser over one or more SDK / target-triple combinations: SDK
//! selection, recovery of a framework / file identity from source-location
//! paths, the single-pass visitation state machine that routes preprocessing
//! signals and declarations into a per-framework model, and the structural
//! cross-target consistency check. Everything here works on plain values;
//! the filesystem scanning, the AST parser itself, the statement grammar and
//! the output writer are outside collaborators driven by a thin shell.

pub mod config;
pub mod locate;
pub mod sdk;
pub mod session;
pub mod model;
pub mod strutil;
pub mod validate;
pub mod visit;
