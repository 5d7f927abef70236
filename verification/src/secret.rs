//! The parsed view of one secret-path expression.
//!
//! A `SecretPath` is transient: it is produced by the parser for one
//! expression and consumed at once by the variable store.

use vstd::prelude::*;
use vstd::string::*;

use crate::backend::Backend;

verus! {

/// The mathematical model of a parsed expression.
#[verifier::ext_equal]
pub ghost struct SpecSecretPath {
    pub backend: Backend,
    pub args: Seq<Seq<char>>,
    pub kwargs: Option<Seq<(Seq<char>, Seq<char>)>>,
    pub path: Seq<char>,
    pub anchor: Seq<char>,
}

/// The parsed fields of one expression `backend:args:path[#anchor]`.
/// An absent anchor is the empty string.
#[derive(Debug, PartialEq)]
pub struct SecretPath {
    pub backend: Backend,
    pub args: Vec<String>,
    pub kwargs: Option<Vec<(String, String)>>,
    pub path: String,
    pub anchor: String,
}

/// The sequences of a string list.
pub open spec fn view_strings(v: Seq<String>) -> Seq<Seq<char>> {
    v.map_values(|s: String| s@)
}

/// The sequences of a key/value string list.
pub open spec fn view_pairs(v: Seq<(String, String)>) -> Seq<(Seq<char>, Seq<char>)> {
    v.map_values(|p: (String, String)| (p.0@, p.1@))
}

/// Viewing a string list commutes with appending one string.
pub proof fn lemma_view_strings_push(v: Seq<String>, s: String)
    ensures
        view_strings(v.push(s)) == view_strings(v).push(s@),
{
    assert(view_strings(v.push(s)) =~= view_strings(v).push(s@));
}

/// Viewing a pair list commutes with appending one pair.
pub proof fn lemma_view_pairs_push(v: Seq<(String, String)>, p: (String, String))
    ensures
        view_pairs(v.push(p)) == view_pairs(v).push((p.0@, p.1@)),
{
    assert(view_pairs(v.push(p)) =~= view_pairs(v).push((p.0@, p.1@)));
}

impl SecretPath {
    /// The model of this value.
    pub open spec fn view(&self) -> SpecSecretPath {
        SpecSecretPath {
            backend: self.backend,
            args: view_strings(self.args@),
            kwargs: match self.kwargs {
                Some(kw) => Some(view_pairs(kw@)),
                None => None,
            },
            path: self.path@,
            anchor: self.anchor@,
        }
    }
}

/// The tokens joined with `,` between them.
pub open spec fn spec_join_comma(ts: Seq<Seq<char>>) -> Seq<char>
    decreases ts.len(),
{
    if ts.len() == 0 {
        Seq::empty()
    } else if ts.len() == 1 {
        ts[0]
    } else {
        spec_join_comma(ts.drop_last()) + seq![','] + ts.last()
    }
}

/// The keyword arguments rendered as `,key=value`, in order.
pub open spec fn spec_kwargs_str(kw: Seq<(Seq<char>, Seq<char>)>) -> Seq<char>
    decreases kw.len(),
{
    if kw.len() == 0 {
        Seq::empty()
    } else {
        spec_kwargs_str(kw.drop_last()) + seq![','] + kw.last().0 + seq!['='] + kw.last().1
    }
}

/// The rendering of a parsed expression: the argument list, then the
/// keyword arguments, then `:` and the path.  The backend and the anchor
/// are not part of it.
pub open spec fn spec_format(sp: SpecSecretPath) -> Seq<char> {
    spec_join_comma(sp.args) + (match sp.kwargs {
        Some(kw) => spec_kwargs_str(kw),
        None => Seq::<char>::empty(),
    }) + seq![':'] + sp.path
}

impl SecretPath {
    /// Renders the expression as its argument list, keyword arguments,
    /// and path; used when formatting errors.
    pub fn to_string(&self) -> (r: String)
        ensures
            r@ == spec_format(self@),
    {
        let mut out = String::new();
        let ghost args_seq = view_strings(self.args@);
        let mut i: usize = 0;
        while i < self.args.len()
            invariant
                0 <= i <= self.args.len(),
                args_seq == view_strings(self.args@),
                args_seq.len() == self.args.len(),
                out@ == spec_join_comma(args_seq.take(i as int)),
            decreases self.args.len() - i,
        {
            if i > 0 {
                out.push(',');
            }
            out.append(self.args[i].as_str());
            proof {
                assert(args_seq.take(i + 1).drop_last() =~= args_seq.take(i as int));
                assert(args_seq.take(i + 1).last() == args_seq[i as int]);
                if i == 0 {
                    assert(out@ =~= spec_join_comma(args_seq.take(i + 1)));
                } else {
                    assert(out@ =~= spec_join_comma(args_seq.take(i + 1)));
                }
            }
            i += 1;
        }
        proof {
            assert(args_seq.take(self.args.len() as int) =~= args_seq);
        }
        match &self.kwargs {
            Some(kw) => {
                let ghost kw_seq = view_pairs(kw@);
                let ghost base = out@;
                let mut j: usize = 0;
                while j < kw.len()
                    invariant
                        0 <= j <= kw.len(),
                        kw_seq == view_pairs(kw@),
                        kw_seq.len() == kw.len(),
                        out@ == base + spec_kwargs_str(kw_seq.take(j as int)),
                    decreases kw.len() - j,
                {
                    out.push(',');
                    out.append(kw[j].0.as_str());
                    out.push('=');
                    out.append(kw[j].1.as_str());
                    proof {
                        assert(kw_seq.take(j + 1).drop_last() =~= kw_seq.take(j as int));
                        assert(kw_seq.take(j + 1).last() == kw_seq[j as int]);
                        assert(out@ =~= base + spec_kwargs_str(kw_seq.take(j + 1)));
                    }
                    j += 1;
                }
                proof {
                    assert(kw_seq.take(kw.len() as int) =~= kw_seq);
                }
            },
            None => {},
        }
        out.push(':');
        out.append(self.path.as_str());
        proof {
            assert(out@ =~= spec_format(self@));
        }
        out
    }
}

} // verus!
