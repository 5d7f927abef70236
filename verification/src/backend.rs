//! The backend resolver: maps a backend token to a backend kind.
//!
//! A fixed ordered list of prefixes is matched against the token with
//! `starts_with` semantics, first match wins, so a token such as `vaultish`
//! still resolves to the `Vault` kind.

use vstd::prelude::*;

verus! {

/// The kinds of secret backend an expression can name.
#[derive(Debug, PartialEq, Eq, Copy, Clone, Structural)]
pub enum Backend {
    /// An external networked secret store.
    Vault,
    /// An inline literal value.
    Const,
}

/// True when `pre` is a prefix of `s`.
pub open spec fn is_prefix_of(pre: Seq<char>, s: Seq<char>) -> bool {
    pre.len() <= s.len() && s.subrange(0, pre.len() as int) == pre
}

/// The backend kind a token resolves to: `vault`-prefixed tokens first,
/// then `const`-prefixed ones, anything else is unknown.
pub open spec fn spec_resolve_backend(s: Seq<char>) -> Option<Backend> {
    if is_prefix_of("vault"@, s) {
        Some(Backend::Vault)
    } else if is_prefix_of("const"@, s) {
        Some(Backend::Const)
    } else {
        None
    }
}

/// True when `s` starts with the characters of `pre`.
fn starts_with_str(s: &str, pre: &str) -> (r: bool)
    ensures
        r == is_prefix_of(pre@, s@),
{
    let pre_len = pre.unicode_len();
    let s_len = s.unicode_len();
    if pre_len > s_len {
        return false;
    }
    let mut i: usize = 0;
    while i < pre_len
        invariant
            0 <= i <= pre_len,
            pre_len == pre@.len(),
            pre_len <= s_len == s@.len(),
            forall|j: int| 0 <= j < i ==> s@[j] == pre@[j],
        decreases pre_len - i,
    {
        if s.get_char(i) != pre.get_char(i) {
            assert(s@.subrange(0, pre@.len() as int)[i as int] != pre@[i as int]);
            return false;
        }
        i += 1;
    }
    assert(s@.subrange(0, pre@.len() as int) =~= pre@);
    true
}

impl Backend {
    /// Resolves a backend token by prefix matching, first match wins.
    pub fn try_from(backend_str: &str) -> (r: Option<Backend>)
        ensures
            r == spec_resolve_backend(backend_str@),
    {
        if starts_with_str(backend_str, "vault") {
            Some(Backend::Vault)
        } else if starts_with_str(backend_str, "const") {
            Some(Backend::Const)
        } else {
            None
        }
    }

    /// The canonical name of the backend kind, used when formatting
    /// expressions and errors.
    pub fn name(&self) -> (r: String)
        ensures
            self is Vault ==> r@ == "vault"@,
            self is Const ==> r@ == "const"@,
    {
        match self {
            Backend::Vault => String::from_str("vault"),
            Backend::Const => String::from_str("const"),
        }
    }
}

} // verus!
