//! # Command-line argument parser
//!
//! Given a list of tokens (the program's invocation path followed by its
//! arguments) and a set of option specifications, produces a validated
//! mapping from option name to the values supplied for that option, or a
//! structured error. Also renders a usage string from the same
//! specifications.
//!
//! The meaning of parsing is pinned down by the specification functions in
//! [`semantics`]; the executable parser in [`config`] is proved to return
//! exactly what those functions describe, and [`laws`] states and proves
//! general properties of the parser.

pub mod config;
pub mod laws;
pub mod semantics;
