//! Secret-path expressions resolved into flat environment variables.
//!
//! An expression `backend:args:path[#anchor]` names a backend (`vault` or
//! `const`), a comma-separated argument list, a path, and an optional
//! JSON-pointer anchor.  The library parses such expressions, resolves them
//! against a secret backend, flattens structured results into `NAME=VALUE`
//! pairs, and applies import-mode policy over an ambient environment.

pub mod args;
pub mod backend;
pub mod error;
pub mod json;
pub mod parser_simple;
pub mod resolver;
pub mod secret;
pub mod strutil;
pub mod vars;
