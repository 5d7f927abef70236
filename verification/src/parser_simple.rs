//! The expression parser: a four-state tokenizer over
//! `backend:args:path[#anchor]`.
//!
//! The backend and argument tokens may not contain `:` and there is no
//! escaping mechanism; the path runs to `#` or to the end; the anchor is
//! the remainder verbatim.  The argument token is then split on `,`, and
//! every piece containing `=` becomes a keyword argument.

use vstd::prelude::*;
use vstd::string::*;

use crate::backend::{spec_resolve_backend, Backend};
use crate::error::Error;
use crate::secret::{view_pairs, view_strings, SecretPath, SpecSecretPath};
use crate::strutil::{find_char, find_char_in, has_char, split_char};

verus! {

/// The positions of the tokenizer, in the order they are visited.
#[derive(Debug, PartialEq, Eq, Copy, Clone, Structural)]
pub enum Pos {
    Backend,
    Args,
    Path,
    Anchor,
}

/// Splits an expression into up to four successive tokens: the slices
/// before the first and second `:`, the slice up to `#` or the end, and
/// the remainder.
pub struct SecretPathIterator<'a> {
    pub remainder: &'a str,
    pub pos: Pos,
}

/// What splitting `rem` at the first `c` yields: the token and the new
/// remainder, or nothing when `c` does not occur.
pub open spec fn split_once_at(rem: Seq<char>, c: char) -> Option<(Seq<char>, Seq<char>)> {
    let i = find_char(rem, c) as int;
    if i < rem.len() {
        Some((rem.take(i), rem.skip(i + 1)))
    } else {
        None
    }
}

impl<'a> SecretPathIterator<'a> {
    pub fn new(s: &'a str) -> (r: Self)
        ensures
            r.remainder@ == s@,
            r.pos == Pos::Backend,
    {
        Self { remainder: s, pos: Pos::Backend }
    }

    /// Yields the whole remainder and leaves it empty.
    pub fn yield_remainder(&mut self) -> (r: Option<&'a str>)
        ensures
            r matches Some(t) && t@ == old(self).remainder@,
            final(self).remainder@.len() == 0,
            final(self).pos == old(self).pos,
    {
        let remainder = self.remainder;
        self.remainder = "";
        proof {
            reveal_strlit("");
        }
        Some(remainder)
    }

    /// Yields the slice up to the first `:` and advances past the `:`;
    /// yields nothing, and keeps the remainder, when no `:` occurs.
    pub fn yield_colon(&mut self) -> (r: Option<&'a str>)
        ensures
            match split_once_at(old(self).remainder@, ':') {
                Some(pair) => r matches Some(t) && t@ == pair.0 && final(self).remainder@ == pair.1,
                None => r is None && final(self).remainder@ == old(self).remainder@,
            },
            final(self).pos == old(self).pos,
    {
        let len = self.remainder.unicode_len();
        let i = find_char_in(self.remainder, ':');
        if i < len {
            let res = self.remainder.substring_char(0, i);
            self.remainder = self.remainder.substring_char(i + 1, len);
            Some(res)
        } else {
            None
        }
    }

    /// Yields the slice up to the first `#` and advances past the `#`;
    /// yields the whole remainder when no `#` occurs.
    pub fn yield_colon_hash(&mut self) -> (r: Option<&'a str>)
        ensures
            match split_once_at(old(self).remainder@, '#') {
                Some(pair) => r matches Some(t) && t@ == pair.0 && final(self).remainder@ == pair.1,
                None => r matches Some(t) && t@ == old(self).remainder@ && final(self).remainder@.len()
                    == 0,
            },
            final(self).pos == old(self).pos,
    {
        let len = self.remainder.unicode_len();
        let i = find_char_in(self.remainder, '#');
        if i < len {
            let res = self.remainder.substring_char(0, i);
            self.remainder = self.remainder.substring_char(i + 1, len);
            Some(res)
        } else {
            self.yield_remainder()
        }
    }

    /// The next token for the current position, advancing the position;
    /// nothing once the remainder is empty.
    pub fn next(&mut self) -> (r: Option<&'a str>)
        ensures
            ({
                let rem = old(self).remainder@;
                if rem.len() == 0 {
                    r is None && final(self).remainder@ == rem && final(self).pos == old(self).pos
                } else {
                    match old(self).pos {
                        Pos::Backend | Pos::Args => {
                            final(self).pos == (if old(self).pos is Backend {
                                Pos::Args
                            } else {
                                Pos::Path
                            }) && match split_once_at(rem, ':') {
                                Some(pair) => r matches Some(t) && t@ == pair.0
                                    && final(self).remainder@ == pair.1,
                                None => r is None && final(self).remainder@ == rem,
                            }
                        },
                        Pos::Path => {
                            final(self).pos == Pos::Anchor && match split_once_at(rem, '#') {
                                Some(pair) => r matches Some(t) && t@ == pair.0
                                    && final(self).remainder@ == pair.1,
                                None => r matches Some(t) && t@ == rem && final(self).remainder@.len()
                                    == 0,
                            }
                        },
                        Pos::Anchor => {
                            final(self).pos == Pos::Anchor && (r matches Some(t) && t@ == rem
                                && final(self).remainder@.len() == 0)
                        },
                    }
                }
            }),
    {
        if self.remainder.unicode_len() == 0 {
            None
        } else {
            match self.pos {
                Pos::Backend => {
                    self.pos = Pos::Args;
                    self.yield_colon()
                },
                Pos::Args => {
                    self.pos = Pos::Path;
                    self.yield_colon()
                },
                Pos::Path => {
                    self.pos = Pos::Anchor;
                    self.yield_colon_hash()
                },
                Pos::Anchor => self.yield_remainder(),
            }
        }
    }
}

/// The positional arguments: the tokens without `=`, in order.
pub open spec fn positional_args(ts: Seq<Seq<char>>) -> Seq<Seq<char>> {
    ts.filter(|t: Seq<char>| !has_char(t, '='))
}

/// The keyword arguments: the tokens with `=`, split at the first `=`,
/// in order.
pub open spec fn keyword_args(ts: Seq<Seq<char>>) -> Seq<(Seq<char>, Seq<char>)> {
    ts.filter(|t: Seq<char>| has_char(t, '=')).map_values(
        |t: Seq<char>| (t.take(find_char(t, '=') as int), t.skip(find_char(t, '=') as int + 1)),
    )
}

/// Appending one token extends the positional or the keyword list,
/// according to whether the token holds `=`.
pub proof fn lemma_args_push(ts: Seq<Seq<char>>, t: Seq<char>)
    ensures
        positional_args(ts.push(t)) == (if !has_char(t, '=') {
            positional_args(ts).push(t)
        } else {
            positional_args(ts)
        }),
        keyword_args(ts.push(t)) == (if has_char(t, '=') {
            keyword_args(ts).push(
                (t.take(find_char(t, '=') as int), t.skip(find_char(t, '=') as int + 1)),
            )
        } else {
            keyword_args(ts)
        }),
{
    broadcast use Seq::lemma_filter_push, Seq::lemma_push_map_commute;

}

/// The outcome of parsing one expression.
#[verifier::ext_equal]
pub ghost enum SpecParsed {
    Parsed(SpecSecretPath),
    /// The expression is empty.
    NoBackend,
    /// No second `:` exists: no argument token can be read.
    NoArgs,
    /// No third segment exists; carries the argument token.
    NoPath(Seq<char>),
    /// The backend token resolves to no backend; carries the token.
    UnknownBackend(Seq<char>),
}

/// The parser, in one spec function: positions `Backend`, `Args`,
/// `Path`, `Anchor` in strict order, `:` delimiting the first two
/// tokens, `#` the third, the anchor taken verbatim and empty when
/// absent.
pub open spec fn spec_parse(s: Seq<char>) -> SpecParsed {
    if s.len() == 0 {
        SpecParsed::NoBackend
    } else {
        match split_once_at(s, ':') {
            None => SpecParsed::NoArgs,
            Some(head) => {
                let backend_tok = head.0;
                let rest = head.1;
                match spec_resolve_backend(backend_tok) {
                    None => SpecParsed::UnknownBackend(backend_tok),
                    Some(b) => match split_once_at(rest, ':') {
                        None => SpecParsed::NoArgs,
                        Some(mid) => {
                            let args_tok = mid.0;
                            let rest2 = mid.1;
                            if rest2.len() == 0 {
                                SpecParsed::NoPath(args_tok)
                            } else {
                                let k = find_char(rest2, '#') as int;
                                let ts = split_char(args_tok, ',');
                                let kw = keyword_args(ts);
                                SpecParsed::Parsed(
                                    SpecSecretPath {
                                        backend: b,
                                        args: positional_args(ts),
                                        kwargs: if kw.len() == 0 {
                                            None
                                        } else {
                                            Some(kw)
                                        },
                                        path: rest2.take(k),
                                        anchor: if k < rest2.len() {
                                            rest2.skip(k + 1)
                                        } else {
                                            Seq::empty()
                                        },
                                    },
                                )
                            }
                        },
                    },
                }
            },
        }
    }
}

/// Every well-formed expression is parsed into its fields verbatim:
/// with a resolvable backend token and an argument token free of `:`,
/// and a nonempty path free of `#`, parsing
/// `backend:args:path` or `backend:args:path#anchor` recovers the
/// backend, the split argument lists, the path, and the anchor — empty
/// exactly when `#` is absent.
pub proof fn lemma_parse_well_formed(
    b: Seq<char>,
    a: Seq<char>,
    p: Seq<char>,
    anc: Option<Seq<char>>,
)
    requires
        !has_char(b, ':'),
        spec_resolve_backend(b) is Some,
        !has_char(a, ':'),
        p.len() > 0,
        !has_char(p, '#'),
    ensures
        ({
            let s = b + seq![':'] + a + seq![':'] + p + (match anc {
                Some(x) => seq!['#'] + x,
                None => Seq::<char>::empty(),
            });
            let kw = keyword_args(split_char(a, ','));
            spec_parse(s) == SpecParsed::Parsed(
                SpecSecretPath {
                    backend: spec_resolve_backend(b)->Some_0,
                    args: positional_args(split_char(a, ',')),
                    kwargs: if kw.len() == 0 {
                        None
                    } else {
                        Some(kw)
                    },
                    path: p,
                    anchor: match anc {
                        Some(x) => x,
                        None => Seq::<char>::empty(),
                    },
                },
            )
        }),
{
    let tail = match anc {
        Some(x) => seq!['#'] + x,
        None => Seq::<char>::empty(),
    };
    let s = b + seq![':'] + a + seq![':'] + p + tail;
    let rest = a + seq![':'] + p + tail;
    let rest2 = p + tail;
    assert(s =~= b + seq![':'] + rest);
    crate::strutil::lemma_find_char_boundary(b, rest, ':');
    assert(s.take(b.len() as int) =~= b);
    assert(s.skip(b.len() as int + 1) =~= rest);
    assert(rest =~= a + seq![':'] + rest2);
    crate::strutil::lemma_find_char_boundary(a, rest2, ':');
    assert(rest.take(a.len() as int) =~= a);
    assert(rest.skip(a.len() as int + 1) =~= rest2);
    match anc {
        Some(x) => {
            crate::strutil::lemma_find_char_boundary(p, x, '#');
            assert(rest2 =~= p + seq!['#'] + x);
            assert(rest2.take(p.len() as int) =~= p);
            assert(rest2.skip(p.len() as int + 1) =~= x);
        },
        None => {
            assert(rest2 =~= p);
            crate::strutil::lemma_find_char(rest2, '#');
            assert(rest2.take(rest2.len() as int) =~= rest2);
        },
    }
    assert(spec_parse(s) is Parsed);
    let sp = spec_parse(s)->Parsed_0;
    assert(sp.backend == spec_resolve_backend(b)->Some_0);
    assert(sp.args =~~= positional_args(split_char(a, ',')));
    assert(sp.path =~= p);
    assert(sp.anchor =~= (match anc {
        Some(x) => x,
        None => Seq::<char>::empty(),
    }));
    assert(sp =~~= SpecSecretPath {
        backend: spec_resolve_backend(b)->Some_0,
        args: positional_args(split_char(a, ',')),
        kwargs: if keyword_args(split_char(a, ',')).len() == 0 {
            None
        } else {
            Some(keyword_args(split_char(a, ',')))
        },
        path: p,
        anchor: match anc {
            Some(x) => x,
            None => Seq::<char>::empty(),
        },
    });
}

/// A nonempty expression with no `:` at all has no argument token to
/// read: it fails with the missing-arguments error.
pub proof fn lemma_parse_no_colon(s: Seq<char>)
    requires
        s.len() > 0,
        !has_char(s, ':'),
    ensures
        spec_parse(s) == SpecParsed::NoArgs,
{
    crate::strutil::lemma_find_char(s, ':');
}

/// With a backend token alone, no second `:` leaves no argument token;
/// with a second `:` but nothing after it there is no path.
pub proof fn lemma_parse_missing_tail(b: Seq<char>, a: Seq<char>)
    requires
        !has_char(b, ':'),
        spec_resolve_backend(b) is Some,
        !has_char(a, ':'),
    ensures
        spec_parse(b + seq![':'] + a) == SpecParsed::NoArgs,
        spec_parse(b + seq![':'] + a + seq![':']) == SpecParsed::NoPath(a),
{
    let s1 = b + seq![':'] + a;
    crate::strutil::lemma_find_char_boundary(b, a, ':');
    assert(s1.take(b.len() as int) =~= b);
    assert(s1.skip(b.len() as int + 1) =~= a);
    crate::strutil::lemma_find_char(a, ':');
    let s2 = b + seq![':'] + a + seq![':'];
    let rest = a + seq![':'];
    assert(s2 =~= b + seq![':'] + rest);
    crate::strutil::lemma_find_char_boundary(b, rest, ':');
    assert(s2.take(b.len() as int) =~= b);
    assert(s2.skip(b.len() as int + 1) =~= rest);
    crate::strutil::lemma_find_char_boundary(a, Seq::<char>::empty(), ':');
    assert(rest =~= a + seq![':'] + Seq::<char>::empty());
    assert(rest.take(a.len() as int) =~= a);
    assert(rest.skip(a.len() as int + 1) =~= Seq::<char>::empty());
}

/// The comma-separated pieces of a token, as owned strings.
fn split_comma(s: &str) -> (r: Vec<String>)
    ensures
        view_strings(r@) =~= split_char(s@, ','),
    decreases s@.len(),
{
    let len = s.unicode_len();
    let i = find_char_in(s, ',');
    if i < len {
        let head = String::from_str(s.substring_char(0, i));
        let tail = s.substring_char(i + 1, len);
        let mut rest = split_comma(tail);
        rest.insert(0, head);
        assert(view_strings(rest@) =~= split_char(s@, ','));
        rest
    } else {
        let mut out: Vec<String> = Vec::new();
        out.push(String::from_str(s));
        assert(view_strings(out@) =~= split_char(s@, ','));
        out
    }
}

/// Splits an argument token into positional and keyword arguments,
/// preserving the relative order within each list.
fn split_args(args_str: &str) -> (r: (Vec<String>, Vec<(String, String)>))
    ensures
        view_strings(r.0@) =~= positional_args(split_char(args_str@, ',')),
        view_pairs(r.1@) =~= keyword_args(split_char(args_str@, ',')),
{
    broadcast use Seq::lemma_filter_push, Seq::lemma_push_map_commute, Seq::lemma_take_succ_push;

    let toks = split_comma(args_str);
    let ghost ts = view_strings(toks@);
    let mut args: Vec<String> = Vec::new();
    let mut kwargs: Vec<(String, String)> = Vec::new();
    let n = toks.len();
    let mut idx: usize = 0;
    while idx < n
        invariant
            0 <= idx <= n == toks.len(),
            ts == view_strings(toks@),
            ts.len() == n,
            view_strings(args@) =~= positional_args(ts.take(idx as int)),
            view_pairs(kwargs@) =~= keyword_args(ts.take(idx as int)),
        decreases n - idx,
    {
        let t = &toks[idx];
        let tlen = t.as_str().unicode_len();
        let e = find_char_in(t.as_str(), '=');
        proof {
            assert(ts.take(idx + 1) =~= ts.take(idx as int).push(ts[idx as int]));
            lemma_args_push(ts.take(idx as int), ts[idx as int]);
        }
        if e < tlen {
            let key = String::from_str(t.as_str().substring_char(0, e));
            let val = String::from_str(t.as_str().substring_char(e + 1, tlen));
            let ghost pre = kwargs@;
            let ghost pr = (key, val);
            kwargs.push((key, val));
            proof {
                crate::secret::lemma_view_pairs_push(pre, pr);
                assert(view_pairs(kwargs@) =~= keyword_args(ts.take(idx + 1)));
                assert(view_strings(args@) =~= positional_args(ts.take(idx + 1)));
            }
        } else {
            let ghost pre = args@;
            args.push(t.clone());
            proof {
                crate::secret::lemma_view_strings_push(pre, toks@[idx as int]);
                assert(view_strings(args@) =~= positional_args(ts.take(idx + 1)));
                assert(view_pairs(kwargs@) =~= keyword_args(ts.take(idx + 1)));
            }
        }
        idx += 1;
    }
    proof {
        assert(ts.take(n as int) =~= ts);
    }
    (args, kwargs)
}

impl SecretPath {
    /// Parses one expression.  The result is exactly what `spec_parse`
    /// says: the four fields verbatim on success, and the first failing
    /// position's error otherwise.
    pub fn try_from(s: &str) -> (r: Result<SecretPath, Error>)
        ensures
            match spec_parse(s@) {
                SpecParsed::Parsed(sp) => r matches Ok(x) && x@ =~~= sp,
                SpecParsed::NoBackend => r matches Err(e) && e is NoBackend,
                SpecParsed::NoArgs => r matches Err(e) && e matches Error::NoArgs(t) && t@ == s@,
                SpecParsed::NoPath(args_tok) => r matches Err(e) && e matches Error::NoPath(t)
                    && t@ == args_tok,
                SpecParsed::UnknownBackend(tok) => r matches Err(e) && e matches
                    Error::UnknownBackend(t) && t@ == tok,
            },
    {
        if s.unicode_len() == 0 {
            return Err(Error::NoBackend);
        }
        let mut it = SecretPathIterator::new(s);
        let backend_str = match it.next() {
            Some(t) => t,
            None => {
                return Err(Error::NoArgs(String::from_str(s)));
            },
        };
        let backend = match Backend::try_from(backend_str) {
            Some(b) => b,
            None => {
                return Err(Error::UnknownBackend(String::from_str(backend_str)));
            },
        };
        let args_str = match it.next() {
            Some(t) => t,
            None => {
                return Err(Error::NoArgs(String::from_str(s)));
            },
        };
        let path = match it.next() {
            Some(t) => t,
            None => {
                return Err(Error::NoPath(String::from_str(args_str)));
            },
        };
        let anchor = match it.next() {
            Some(t) => t,
            None => "",
        };
        let (args, kwargs) = split_args(args_str);
        let kwargs = if kwargs.len() == 0 {
            None
        } else {
            Some(kwargs)
        };
        let result = SecretPath {
            backend,
            args,
            kwargs,
            path: String::from_str(path),
            anchor: String::from_str(anchor),
        };
        proof {
            reveal_strlit("");
            let first = split_once_at(s@, ':')->Some_0;
            let rest = first.1;
            let mid = split_once_at(rest, ':')->Some_0;
            let rest2 = mid.1;
            let k = find_char(rest2, '#') as int;
            crate::strutil::lemma_find_char(rest2, '#');
            assert(rest2.take(rest2.len() as int) =~= rest2);
            assert(""@ =~= Seq::<char>::empty());
            let sp = spec_parse(s@)->Parsed_0;
            assert(result@.backend == sp.backend);
            assert(result@.args =~~= sp.args);
            assert(result@.kwargs is Some <==> sp.kwargs is Some);
            if result@.kwargs is Some {
                assert(result@.kwargs->Some_0 =~~= sp.kwargs->Some_0);
            }
            assert(result@.path =~= sp.path);
            assert(result@.anchor =~= sp.anchor);
            assert(result@ =~~= sp);
        }
        Ok(result)
    }
}

} // verus!
