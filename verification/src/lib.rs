//! Core engine of a personal launcher: a hierarchical tree of collections
//! and targets, path-based lookup, scoped constant substitution, and the
//! parsing of listing-command output into selectable options.
//!
//! All logic lives here, verified; prompting, file I/O and process spawning
//! are left to the surrounding application.

pub mod config;
pub mod consts;
pub mod driver;
pub mod errors;
pub mod options;
pub mod resolve;
pub mod rex;
pub mod text;

pub use text::replace_all;
