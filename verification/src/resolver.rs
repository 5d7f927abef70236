//! The resolution driver, as a state machine.
//!
//! Fetching and authentication are blocking calls into an external
//! client, so the driver never performs them: `step` advances through
//! the ambient environment and the explicit expressions until it needs
//! the client, says what it needs, and the caller answers through the
//! `provide_*` methods.  The first error stops the run; nothing more is
//! resolved after it.
//!
//! The ambient environment is handed in as an ordered list of pairs, so
//! a run is a deterministic function of its inputs and of the fetched
//! secrets.

use vstd::prelude::*;

use crate::args::ImportMode;
use crate::error::Error;
use crate::json::Json;
use crate::parser_simple::{spec_parse, SpecParsed};
use crate::secret::SecretPath;
use crate::strutil::find_char;
use crate::vars::{
    spec_insert_path, FetchRequest, PathOutcome, SpecFetch, SpecPathError, Vars,
};

verus! {

/// Whether an error value carries exactly the payload that the
/// resolution outcome promised for it.
pub open spec fn path_error_matches(pe: SpecPathError, e: Error) -> bool {
    match pe {
        SpecPathError::MissingRole(t) => e matches Error::MissingRole(s) && s@ == t,
        SpecPathError::BadConstArg(t) => e matches Error::ExpectedArg(_w, s) && s@ == t,
        SpecPathError::BadPointer(t) => e matches Error::Pointer(s) && s@ == t,
        SpecPathError::BadLiteral(t) => e matches Error::Parse(s, _d) && s@ == t,
    }
}

/// The value of the first ambient entry under a name, if any.
pub open spec fn ambient_lookup(a: Seq<(String, String)>, name: Seq<char>) -> Option<Seq<char>>
    decreases a.len(),
{
    if a.len() == 0 {
        None
    } else if a[0].0@ == name {
        Some(a[0].1@)
    } else {
        ambient_lookup(a.drop_first(), name)
    }
}

/// Where a pending fetch stands in the client conversation.
#[derive(Debug, PartialEq, Eq, Copy, Clone, Structural)]
pub enum Phase {
    /// Waiting to hear whether the role is logged in.
    Auth,
    /// Waiting for the outcome of a login.
    Login,
    /// Ready to hand the fetch request out.
    Ready,
    /// The request is out; waiting for the secret.
    AwaitSecret,
}

/// The fetch the driver is in the middle of.
pub struct Pending {
    /// The prefix the flattened secret will go under.
    pub prefix: String,
    /// The anchor that will narrow the fetched value.
    pub anchor: String,
    /// The path being fetched, also the cache key.
    pub path: String,
    /// The role being authenticated.
    pub role: String,
    /// The request, until it is handed out.
    pub request: Option<FetchRequest>,
    pub phase: Phase,
}

/// What the driver asks of its caller, or reports.
pub enum Step {
    /// Ask the client whether this role is logged in, and answer with
    /// `provide_is_logged`.
    IsLogged(String),
    /// Log this role in, and answer with `provide_login`.
    Login(String),
    /// Fetch this request, and answer with `provide_secret`.
    Fetch(FetchRequest),
    /// One item was resolved locally; call `step` again.
    Continue,
    /// Every item is resolved.
    Done,
    /// The run failed; `take_result` has the error.
    Failed,
}

/// The resolution driver: the variable store, the inputs, two cursors,
/// and the conversation state.
pub struct Resolver {
    pub vars: Vars,
    /// The ambient environment, as an ordered snapshot.
    pub ambient: Vec<(String, String)>,
    /// The explicit `NAME[=VALUE]` items, in order.
    pub exprs: Vec<String>,
    pub mode: ImportMode,
    /// The next ambient entry to consider.
    pub ai: usize,
    /// The next explicit item to consider.
    pub ei: usize,
    pub pending: Option<Pending>,
    pub failed: Option<Error>,
    pub finished: bool,
}

/// What expanding one candidate value under a prefix does: parse it,
/// resolve it as an expression when it is one, and otherwise either
/// store it verbatim or drop it.
pub ghost enum SpecExpand {
    /// Resolved locally; carries the new variable mapping.
    Local(Map<Seq<char>, Seq<char>>),
    /// A fetch is needed; carries the request and the anchor.
    NeedFetch(SpecFetch, Seq<char>),
    /// The expression is rejected.
    Fail(SpecPathError),
    /// The value names a backend nobody knows; carries the token.
    BadBackend(Seq<char>),
}

/// The semantics of one candidate value: a value that parses as an
/// expression is resolved; one that names an unknown backend aborts
/// the run; anything else is no expression, and `verbatim` says
/// whether it is stored as it stands (explicit items and `AllEx`) or
/// dropped (`OnlyEx`).
pub open spec fn spec_expand(
    vars_m: Map<Seq<char>, Seq<char>>,
    cache_m: Map<Seq<char>, Json>,
    prefix: Seq<char>,
    value: Seq<char>,
    verbatim: bool,
) -> SpecExpand {
    match spec_parse(value) {
        SpecParsed::Parsed(sp) => match spec_insert_path(vars_m, cache_m, prefix, sp) {
            PathOutcome::Done(m2) => SpecExpand::Local(m2),
            PathOutcome::Fetch(f) => SpecExpand::NeedFetch(f, sp.anchor),
            PathOutcome::Failed(pe) => SpecExpand::Fail(pe),
        },
        SpecParsed::UnknownBackend(tok) => SpecExpand::BadBackend(tok),
        _ => SpecExpand::Local(
            if verbatim {
                vars_m.insert(prefix, value)
            } else {
                vars_m
            },
        ),
    }
}

/// How a state and a returned step relate to the expansion of one
/// candidate value from the previous state.
pub open spec fn expand_post(
    s0: Resolver,
    s1: Resolver,
    r: Step,
    prefix: Seq<char>,
    value: Seq<char>,
    verbatim: bool,
) -> bool {
    match spec_expand(s0.vars.map(), s0.vars.cache_view(), prefix, value, verbatim) {
        SpecExpand::Local(m2) => r is Continue && s1.vars.map() == m2 && s1.vars.cache@
            == s0.vars.cache@ && s1.pending is None && s1.failed is None,
        SpecExpand::NeedFetch(f, anchor) => (r matches Step::IsLogged(t) && t@ == f.role) && (
        s1.pending matches Some(p) && p.prefix@ == prefix && p.anchor@ == anchor && p.path@
            == f.path && p.role@ == f.role && p.phase is Auth && (p.request matches Some(rq)
            && rq@ =~~= f)) && s1.vars.vars@ == s0.vars.vars@ && s1.vars.cache@ == s0.vars.cache@
            && s1.failed is None,
        SpecExpand::Fail(pe) => r is Failed && (s1.failed matches Some(e) && path_error_matches(
            pe,
            e,
        )) && s1.vars.vars@ == s0.vars.vars@ && s1.vars.cache@ == s0.vars.cache@ && s1.pending
            is None,
        SpecExpand::BadBackend(tok) => r is Failed && (s1.failed matches Some(e) && e matches
            Error::UnknownBackend(t) && t@ == tok) && s1.vars.vars@ == s0.vars.vars@
            && s1.vars.cache@ == s0.vars.cache@ && s1.pending is None,
    }
}

impl Resolver {
    /// The driver's well-formedness: the store is sound, the cursors
    /// are in range, a pending fetch is for an uncached path and holds
    /// its request until handed out, and failure ends the run.
    pub open spec fn inv(&self) -> bool {
        &&& self.vars.wf()
        &&& self.ai <= self.ambient@.len()
        &&& self.ei <= self.exprs@.len()
        &&& match self.pending {
            Some(p) => {
                &&& !self.vars.cache_view().contains_key(p.path@)
                &&& self.failed is None
                &&& !self.finished
                &&& if p.phase is AwaitSecret {
                    p.request is None
                } else {
                    p.request matches Some(rq) && rq.path@ == p.path@ && rq.role@ == p.role@
                }
            },
            None => true,
        }
        &&& (self.finished ==> self.pending is None)
    }

    /// True while a handed-out fetch has not been answered; `step` may
    /// not be called then.
    pub open spec fn awaiting(&self) -> bool {
        self.pending matches Some(p) && p.phase is AwaitSecret
    }

    /// A fresh driver over its inputs: nothing resolved, nothing
    /// pending.
    pub fn new(ambient: Vec<(String, String)>, exprs: Vec<String>, mode: ImportMode) -> (r:
        Resolver)
        ensures
            r.inv(),
            r.ambient@ == ambient@,
            r.exprs@ == exprs@,
            r.mode == mode,
            r.ai == 0 && r.ei == 0,
            r.pending is None && r.failed is None && !r.finished,
            r.vars.map() == Map::<Seq<char>, Seq<char>>::empty(),
            r.vars.cache_view() == Map::<Seq<char>, Json>::empty(),
    {
        Resolver {
            vars: Vars::new(),
            ambient,
            exprs,
            mode,
            ai: 0,
            ei: 0,
            pending: None,
            failed: None,
            finished: false,
        }
    }

    /// Expands one candidate value under a prefix, as `spec_expand`
    /// says, leaving the inputs and cursors alone.
    fn expand_item(&mut self, prefix: String, value: String, verbatim: bool) -> (r: Step)
        requires
            old(self).inv(),
            old(self).pending is None,
            old(self).failed is None,
            !old(self).finished,
        ensures
            final(self).inv(),
            expand_post(*old(self), *final(self), r, prefix@, value@, verbatim),
            final(self).ambient@ == old(self).ambient@,
            final(self).exprs@ == old(self).exprs@,
            final(self).mode == old(self).mode,
            final(self).ai == old(self).ai,
            final(self).ei == old(self).ei,
            final(self).finished == old(self).finished,
    {
        match SecretPath::try_from(value.as_str()) {
            Ok(sp) => {
                let anchor = sp.anchor.clone();
                let ghost sp_model = sp@;
                match self.vars.insert_path(prefix.as_str(), sp) {
                    Ok(None) => Step::Continue,
                    Ok(Some(req)) => {
                        proof {
                            lemma_fetch_only_on_miss(
                                old(self).vars.map(),
                                old(self).vars.cache_view(),
                                prefix@,
                                sp_model,
                                spec_insert_path(
                                    old(self).vars.map(),
                                    old(self).vars.cache_view(),
                                    prefix@,
                                    sp_model,
                                )->Fetch_0,
                            );
                        }
                        let role = req.role.clone();
                        let path = req.path.clone();
                        self.pending = Some(
                            Pending {
                                prefix,
                                anchor,
                                path,
                                role: role.clone(),
                                request: Some(req),
                                phase: Phase::Auth,
                            },
                        );
                        Step::IsLogged(role)
                    },
                    Err(e) => {
                        self.failed = Some(e);
                        Step::Failed
                    },
                }
            },
            Err(e) => {
                match e {
                    Error::UnknownBackend(_) => {
                        self.failed = Some(e);
                        Step::Failed
                    },
                    _ => {
                        if verbatim {
                            self.vars.insert(prefix, value);
                        }
                        Step::Continue
                    },
                }
            },
        }
    }

    /// One turn of the driver: answers an open conversation, or takes
    /// the next item — ambient first, then the explicit list — or
    /// finishes.
    pub fn step(&mut self) -> (r: Step)
        requires
            old(self).inv(),
            !old(self).awaiting(),
        ensures
            final(self).inv(),
            ({
                let s0 = *old(self);
                let s1 = *final(self);
                if s0.failed is Some {
                    (r is Failed) && s1 == s0
                } else if s0.pending is Some {
                    let p = s0.pending->Some_0;
                    match p.phase {
                        Phase::Auth => (r matches Step::IsLogged(t) && t@ == p.role@) && s1 == s0,
                        Phase::Login => (r matches Step::Login(t) && t@ == p.role@) && s1 == s0,
                        Phase::Ready => (r matches Step::Fetch(rq) && Some(rq) == p.request) && (
                        s1.pending matches Some(q) && q.prefix == p.prefix && q.anchor == p.anchor
                            && q.path == p.path && q.role == p.role && q.request is None && q.phase
                            is AwaitSecret) && s1.vars == s0.vars && s1.ai == s0.ai && s1.ei
                            == s0.ei && s1.ambient@ == s0.ambient@ && s1.exprs@ == s0.exprs@
                            && s1.mode == s0.mode && s1.failed is None && !s1.finished,
                        Phase::AwaitSecret => false,
                    }
                } else if !s0.finished && !(s0.mode is NoImport) && s0.ai < s0.ambient@.len() {
                    let name = s0.ambient@[s0.ai as int].0;
                    let val = s0.ambient@[s0.ai as int].1;
                    s1.ai == s0.ai + 1 && s1.ei == s0.ei && s1.ambient@ == s0.ambient@ && s1.exprs@
                        == s0.exprs@ && s1.mode == s0.mode && !s1.finished && (match s0.mode {
                        ImportMode::All => r is Continue && s1.vars.map() == s0.vars.map().insert(
                            name@,
                            val@,
                        ) && s1.vars.cache@ == s0.vars.cache@ && s1.pending is None && s1.failed
                            is None,
                        ImportMode::OnlyEx => expand_post(s0, s1, r, name@, val@, false),
                        ImportMode::AllEx => expand_post(s0, s1, r, name@, val@, true),
                        ImportMode::NoImport => false,
                    })
                } else if !s0.finished && s0.ei < s0.exprs@.len() {
                    let exp = s0.exprs@[s0.ei as int]@;
                    let i = find_char(exp, '=') as int;
                    let name = if i < exp.len() {
                        exp.take(i)
                    } else {
                        exp
                    };
                    let valopt = if i < exp.len() {
                        Some(exp.skip(i + 1))
                    } else {
                        ambient_lookup(s0.ambient@, name)
                    };
                    s1.ai == s0.ai && s1.ei == s0.ei + 1 && s1.ambient@ == s0.ambient@ && s1.exprs@
                        == s0.exprs@ && s1.mode == s0.mode && !s1.finished && (match valopt {
                        None => r is Continue && s1.vars == s0.vars && s1.pending is None
                            && s1.failed is None,
                        Some(v) => expand_post(s0, s1, r, name, v, true),
                    })
                } else {
                    (r is Done) && s1.finished && s1.vars == s0.vars && s1.pending is None
                        && s1.failed is None && s1.ai == s0.ai && s1.ei == s0.ei && s1.ambient@
                        == s0.ambient@ && s1.exprs@ == s0.exprs@ && s1.mode == s0.mode
                }
            }),
    {
        if self.failed.is_some() {
            return Step::Failed;
        }
        let pending = self.pending.take();
        match pending {
            Some(mut p) => {
                match p.phase {
                    Phase::Auth => {
                        let role = p.role.clone();
                        self.pending = Some(p);
                        Step::IsLogged(role)
                    },
                    Phase::Login => {
                        let role = p.role.clone();
                        self.pending = Some(p);
                        Step::Login(role)
                    },
                    Phase::Ready => {
                        let req_opt = p.request.take();
                        match req_opt {
                            Some(req) => {
                                p.phase = Phase::AwaitSecret;
                                self.pending = Some(p);
                                Step::Fetch(req)
                            },
                            None => {
                                proof {
                                    assert(false);
                                }
                                Step::Failed
                            },
                        }
                    },
                    Phase::AwaitSecret => {
                        proof {
                            assert(false);
                        }
                        Step::Failed
                    },
                }
            },
            None => {
                if self.finished {
                    return Step::Done;
                }
                let ambient_stage = match self.mode {
                    ImportMode::NoImport => false,
                    _ => true,
                };
                if ambient_stage && self.ai < self.ambient.len() {
                    let name = self.ambient[self.ai].0.clone();
                    let val = self.ambient[self.ai].1.clone();
                    self.ai = self.ai + 1;
                    match self.mode {
                        ImportMode::All => {
                            self.vars.insert(name, val);
                            Step::Continue
                        },
                        ImportMode::OnlyEx => self.expand_item(name, val, false),
                        ImportMode::AllEx => self.expand_item(name, val, true),
                        ImportMode::NoImport => {
                            proof {
                                assert(false);
                            }
                            Step::Failed
                        },
                    }
                } else if self.ei < self.exprs.len() {
                    let pair = match crate::vars::parse_var(self.exprs[self.ei].as_str()) {
                        Ok(pair) => pair,
                        Err(_e) => {
                            proof {
                                assert(false);
                            }
                            return Step::Failed;
                        },
                    };
                    self.ei = self.ei + 1;
                    let (name, valopt) = pair;
                    let val = match valopt {
                        Some(v) => Some(v),
                        None => self.lookup_ambient(&name),
                    };
                    match val {
                        Some(v) => self.expand_item(name, v, true),
                        None => Step::Continue,
                    }
                } else {
                    self.finished = true;
                    Step::Done
                }
            },
        }
    }

    /// The value of the first ambient entry under a name, if any.
    fn lookup_ambient(&self, name: &String) -> (r: Option<String>)
        ensures
            match ambient_lookup(self.ambient@, name@) {
                Some(v) => r matches Some(x) && x@ == v,
                None => r is None,
            },
    {
        let n = self.ambient.len();
        let mut i: usize = 0;
        proof {
            assert(self.ambient@.skip(0) =~= self.ambient@);
        }
        while i < n
            invariant
                0 <= i <= n == self.ambient@.len(),
                ambient_lookup(self.ambient@, name@) == ambient_lookup(
                    self.ambient@.skip(i as int),
                    name@,
                ),
            decreases n - i,
        {
            proof {
                assert(self.ambient@.skip(i as int)[0] == self.ambient@[i as int]);
                assert(self.ambient@.skip(i as int).drop_first() =~= self.ambient@.skip(i + 1));
            }
            if self.ambient[i].0 == *name {
                return Some(self.ambient[i].1.clone());
            }
            i += 1;
        }
        proof {
            assert(self.ambient@.skip(n as int) =~= Seq::<(String, String)>::empty());
        }
        None
    }

    /// Records whether the pending role is logged in: if it is, the
    /// fetch is ready; if not, a login comes first.
    pub fn provide_is_logged(&mut self, logged: bool)
        requires
            old(self).inv(),
            old(self).pending matches Some(p) && p.phase is Auth,
        ensures
            final(self).inv(),
            final(self).pending matches Some(q) && {
                let p = old(self).pending->Some_0;
                q.prefix == p.prefix && q.anchor == p.anchor && q.path == p.path && q.role == p.role
                    && q.request == p.request && q.phase == (if logged {
                    Phase::Ready
                } else {
                    Phase::Login
                })
            },
            final(self).vars == old(self).vars,
            final(self).failed is None,
            final(self).ai == old(self).ai && final(self).ei == old(self).ei,
            final(self).ambient@ == old(self).ambient@ && final(self).exprs@ == old(self).exprs@,
            final(self).mode == old(self).mode,
            final(self).finished == old(self).finished,
    {
        let pending = self.pending.take();
        match pending {
            Some(mut p) => {
                p.phase = if logged {
                    Phase::Ready
                } else {
                    Phase::Login
                };
                self.pending = Some(p);
            },
            None => {
                proof {
                    assert(false);
                }
            },
        }
    }

    /// Records the outcome of the login the driver asked for: success
    /// readies the fetch; failure ends the run with the client's error,
    /// propagated unchanged.
    pub fn provide_login(&mut self, outcome: Result<(), String>)
        requires
            old(self).inv(),
            old(self).pending matches Some(p) && p.phase is Login,
        ensures
            final(self).inv(),
            ({
                let p = old(self).pending->Some_0;
                match outcome {
                    Ok(_) => (final(self).pending matches Some(q) && q.prefix == p.prefix
                        && q.anchor == p.anchor && q.path == p.path && q.role == p.role && q.request
                        == p.request && q.phase is Ready) && final(self).failed is None,
                    Err(m) => final(self).pending is None && (final(self).failed matches Some(e)
                        && e matches Error::Vault(t) && t@ == m@),
                }
            }),
            final(self).vars == old(self).vars,
            final(self).ai == old(self).ai && final(self).ei == old(self).ei,
            final(self).ambient@ == old(self).ambient@ && final(self).exprs@ == old(self).exprs@,
            final(self).mode == old(self).mode,
            final(self).finished == old(self).finished,
    {
        let pending = self.pending.take();
        match pending {
            Some(mut p) => {
                match outcome {
                    Ok(_) => {
                        p.phase = Phase::Ready;
                        self.pending = Some(p);
                    },
                    Err(m) => {
                        self.failed = Some(Error::Vault(m));
                    },
                }
            },
            None => {
                proof {
                    assert(false);
                }
            },
        }
    }

    /// Takes the fetched secret the driver asked for: the pending
    /// anchor narrows it, the narrowed part is flattened under the
    /// pending prefix, and the whole secret is cached under the path.
    /// A failed fetch, or an anchor that finds nothing, ends the run.
    pub fn provide_secret(&mut self, outcome: Result<Json, String>)
        requires
            old(self).inv(),
            old(self).pending matches Some(p) && p.phase is AwaitSecret,
        ensures
            final(self).inv(),
            final(self).pending is None,
            ({
                let p = old(self).pending->Some_0;
                match outcome {
                    Ok(secret) => match crate::json::spec_pointer(secret, p.anchor@) {
                        Some(narrowed) => final(self).failed is None && final(self).vars.map()
                            == crate::vars::apply_entries(
                            old(self).vars.map(),
                            crate::json::spec_flatten(narrowed, p.prefix@),
                        ) && final(self).vars.cache_view() == old(self).vars.cache_view().insert(
                            p.path@,
                            secret,
                        ),
                        None => (final(self).failed matches Some(e) && e matches Error::Pointer(t)
                            && t@ == p.anchor@) && final(self).vars.vars@ == old(self).vars.vars@
                            && final(self).vars.cache@ == old(self).vars.cache@,
                    },
                    Err(m) => (final(self).failed matches Some(e) && e matches Error::Vault(t)
                        && t@ == m@) && final(self).vars.vars@ == old(self).vars.vars@
                        && final(self).vars.cache@ == old(self).vars.cache@,
                }
            }),
            final(self).ai == old(self).ai && final(self).ei == old(self).ei,
            final(self).ambient@ == old(self).ambient@ && final(self).exprs@ == old(self).exprs@,
            final(self).mode == old(self).mode,
            final(self).finished == old(self).finished,
    {
        let pending = self.pending.take();
        match pending {
            Some(p) => {
                match outcome {
                    Ok(secret) => {
                        match self.vars.insert_fetched(
                            p.prefix.as_str(),
                            p.path,
                            p.anchor.as_str(),
                            secret,
                        ) {
                            Ok(_) => {},
                            Err(e) => {
                                self.failed = Some(e);
                            },
                        }
                    },
                    Err(m) => {
                        self.failed = Some(Error::Vault(m));
                    },
                }
            },
            None => {
                proof {
                    assert(false);
                }
            },
        }
    }

    /// The run's outcome: the completed store, or the error that ended
    /// it.
    pub fn take_result(self) -> (r: Result<Vars, Error>)
        ensures
            match self.failed {
                Some(e) => r matches Err(x) && x == e,
                None => r matches Ok(v) && v == self.vars,
            },
    {
        match self.failed {
            Some(e) => Err(e),
            None => Ok(self.vars),
        }
    }
}

/// A fetch is only ever requested for a path that is not in the cache,
/// and it is requested for the expression's own path: with the fetched
/// secret then cached under that path, a later expression for the same
/// path is served locally, so one path is fetched at most once in a
/// run.
pub proof fn lemma_fetch_only_on_miss(
    vars_m: Map<Seq<char>, Seq<char>>,
    cache_m: Map<Seq<char>, Json>,
    prefix: Seq<char>,
    sp: crate::secret::SpecSecretPath,
    f: SpecFetch,
)
    requires
        spec_insert_path(vars_m, cache_m, prefix, sp) == PathOutcome::Fetch(f),
    ensures
        !cache_m.contains_key(f.path),
        f.path == sp.path,
{
}

/// Once a path is cached, no expression for that path asks for a
/// fetch again, whatever its prefix, role, method or anchor: the
/// second resolution of a path in one run is served from the cache.
pub proof fn lemma_cached_path_not_fetched(
    vars_m: Map<Seq<char>, Seq<char>>,
    cache_m: Map<Seq<char>, Json>,
    prefix: Seq<char>,
    sp: crate::secret::SpecSecretPath,
)
    requires
        cache_m.contains_key(sp.path),
    ensures
        !(spec_insert_path(vars_m, cache_m, prefix, sp) is Fetch),
{
}

} // verus!
