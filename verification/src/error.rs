//! The error taxonomy of the resolution engine.
//!
//! Grammar errors come from the expression parser and the backend
//! resolver, semantic errors from the variable store, and `Vault` carries
//! an opaque message propagated unchanged from the external client.

use vstd::prelude::*;

verus! {

/// Everything that can abort a resolution run.  The first error ends the
/// run; nothing is materialized after a failure.
#[derive(Debug)]
pub enum Error {
    /// The expression was empty: not even a backend token could be read.
    NoBackend,
    /// No second `:` exists, so no argument list could be read; carries
    /// the whole expression.
    NoArgs(String),
    /// No third segment exists; carries the argument token.
    NoPath(String),
    /// The backend token matches no known backend; carries the token.
    UnknownBackend(String),
    /// A `vault` expression without a role argument; carries the
    /// formatted expression.
    MissingRole(String),
    /// A `const` expression whose first argument is not `str` or `js`;
    /// carries the expected text and the formatted expression.
    ExpectedArg(String, String),
    /// The anchor points at nothing inside the fetched value; carries
    /// the anchor.
    Pointer(String),
    /// The text of a `js` literal is not valid JSON; carries the text
    /// and the parser diagnostic.
    Parse(String, String),
    /// An opaque failure of the external backend client, propagated
    /// unchanged.
    Vault(String),
    /// A computed name or value holds an embedded NUL byte and cannot
    /// become an environment string; carries the name.
    Nul(String),
}

impl Error {
    /// A human-readable description, in place of `Display`.
    pub fn message(&self) -> String {
        let mut out = String::new();
        match self {
            Error::NoBackend => {
                out.append("no backend in expression");
            },
            Error::NoArgs(s) => {
                out.append("no arguments in ");
                out.append(s.as_str());
            },
            Error::NoPath(s) => {
                out.append("no path after ");
                out.append(s.as_str());
            },
            Error::UnknownBackend(s) => {
                out.append("unknown backend ");
                out.append(s.as_str());
            },
            Error::MissingRole(s) => {
                out.append("missing role in ");
                out.append(s.as_str());
            },
            Error::ExpectedArg(what, s) => {
                out.append("expected argument ");
                out.append(what.as_str());
                out.append(" on ");
                out.append(s.as_str());
            },
            Error::Pointer(s) => {
                out.append("json pointer \"");
                out.append(s.as_str());
                out.append("\" returns no result");
            },
            Error::Parse(s, diag) => {
                out.append("parsing ");
                out.append(s.as_str());
                out.append(": ");
                out.append(diag.as_str());
            },
            Error::Vault(s) => {
                out.append("backend error: ");
                out.append(s.as_str());
            },
            Error::Nul(s) => {
                out.append("embedded NUL in ");
                out.append(s.as_str());
            },
        }
        out
    }
}

} // verus!
