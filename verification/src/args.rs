//! The command-line surface, as plain data: the parsed arguments and
//! the import mode their switches select.

use vstd::prelude::*;

verus! {

/// The program's arguments, already parsed: connection settings, the
/// variable expressions, and the command to replace the process with.
pub struct Args {
    /// The vault URL.
    pub url: String,
    /// The login path.
    pub login_path: String,
    /// The path of the vault CA certificate.
    pub cacert: String,
    /// A variable name holding the JWT token, or the token itself.
    pub token: Option<String>,
    /// The path of the JWT token file.
    pub token_path: String,
    /// The `NAME[=VALUE]` expressions to define variables from.
    pub vars: Vec<String>,
    /// Verbose mode.
    pub verbose: bool,
    /// Import every ambient variable.
    pub import: bool,
    /// Import ambient variables that expand as expressions.
    pub import_vault: bool,
    /// The command to execute into.
    pub cmd: String,
    /// The command's arguments.
    pub args: Vec<String>,
}

/// How the ambient environment is folded into the variable set before
/// the explicit expressions run.
#[derive(Debug, PartialEq, Eq, Copy, Clone, Structural)]
pub enum ImportMode {
    /// Only explicitly defined variables.
    NoImport,
    /// Every ambient variable, verbatim.
    All,
    /// Only ambient variables whose values expand as expressions.
    OnlyEx,
    /// Every ambient variable, expanded when possible.
    AllEx,
}

impl ImportMode {
    /// The mode the two import switches select: expansion alone,
    /// both, import alone, or neither.
    pub fn from_args(args: &Args) -> (r: ImportMode)
        ensures
            r == (if args.import_vault {
                if args.import {
                    ImportMode::AllEx
                } else {
                    ImportMode::OnlyEx
                }
            } else if args.import {
                ImportMode::All
            } else {
                ImportMode::NoImport
            }),
    {
        if args.import_vault {
            if args.import {
                ImportMode::AllEx
            } else {
                ImportMode::OnlyEx
            }
        } else if args.import {
            if args.import_vault {
                ImportMode::AllEx
            } else {
                ImportMode::All
            }
        } else {
            ImportMode::NoImport
        }
    }
}

} // verus!
