//! Per-directory environment overlays for interactive shells: a reversible
//! record of environment mutations, the hashing and validation of program
//! chains, the trust protocol and the shell output formats.

pub mod changes;
pub mod diff;
pub mod digits;
pub mod env;
pub mod features;
pub mod hash;
pub mod hook;
pub mod json;
pub mod lang;
pub mod laws;
pub mod loader;
pub mod output;
pub mod pathlist;
pub mod pattern;
pub mod prompt_widget;
pub mod shadowenv;
pub mod text;
pub mod trust;
pub mod undo;
