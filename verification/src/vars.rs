//! The variable store: the set of `NAME=VALUE` entries being built, and
//! the cache of fetched secrets keyed by path.
//!
//! Both live in association lists with unique keys; the mathematical
//! model of each is the map its entries denote, later entries winning.

use vstd::prelude::*;
use vstd::string::*;

use crate::backend::Backend;
use crate::error::Error;
use crate::json::Json;
use crate::secret::{spec_format, SecretPath, SpecSecretPath};
use crate::strutil::{find_char, find_char_in, has_char};

verus! {

broadcast use vstd::std_specs::vec::group_vec_axioms, vstd::seq::group_seq_axioms;

/// The map a name/value entry list denotes, the last entry for a name
/// winning.
pub open spec fn vars_map(s: Seq<(String, String)>) -> Map<Seq<char>, Seq<char>>
    decreases s.len(),
{
    if s.len() == 0 {
        Map::empty()
    } else {
        vars_map(s.drop_last()).insert(s.last().0@, s.last().1@)
    }
}

/// The map a path/secret entry list denotes.
pub open spec fn cache_map(s: Seq<(String, Json)>) -> Map<Seq<char>, Json>
    decreases s.len(),
{
    if s.len() == 0 {
        Map::empty()
    } else {
        cache_map(s.drop_last()).insert(s.last().0@, s.last().1)
    }
}

/// No key occurs twice in an entry list.
pub open spec fn unique_var_names(s: Seq<(String, String)>) -> bool {
    forall|i: int, j: int| 0 <= i < j < s.len() ==> s[i].0@ != s[j].0@
}

/// No path occurs twice in a cache list.
pub open spec fn unique_cache_paths(s: Seq<(String, Json)>) -> bool {
    forall|i: int, j: int| 0 <= i < j < s.len() ==> s[i].0@ != s[j].0@
}

/// A key is in the denoted map exactly when some entry carries it.
pub proof fn lemma_vars_map_contains(s: Seq<(String, String)>, k: Seq<char>)
    ensures
        vars_map(s).contains_key(k) <==> exists|i: int| 0 <= i < s.len() && s[i].0@ == k,
    decreases s.len(),
{
    if s.len() > 0 {
        lemma_vars_map_contains(s.drop_last(), k);
        if vars_map(s).contains_key(k) {
            if s.last().0@ == k {
                assert(s[s.len() - 1].0@ == k);
            } else {
                let i = choose|i: int| 0 <= i < s.drop_last().len() && s.drop_last()[i].0@ == k;
                assert(s[i].0@ == k);
            }
        }
        if exists|i: int| 0 <= i < s.len() && s[i].0@ == k {
            let i = choose|i: int| 0 <= i < s.len() && s[i].0@ == k;
            if i < s.len() - 1 {
                assert(s.drop_last()[i].0@ == k);
            }
        }
    }
}

/// Same, for the cache.
pub proof fn lemma_cache_map_contains(s: Seq<(String, Json)>, k: Seq<char>)
    ensures
        cache_map(s).contains_key(k) <==> exists|i: int| 0 <= i < s.len() && s[i].0@ == k,
    decreases s.len(),
{
    if s.len() > 0 {
        lemma_cache_map_contains(s.drop_last(), k);
        if cache_map(s).contains_key(k) {
            if s.last().0@ == k {
                assert(s[s.len() - 1].0@ == k);
            } else {
                let i = choose|i: int| 0 <= i < s.drop_last().len() && s.drop_last()[i].0@ == k;
                assert(s[i].0@ == k);
            }
        }
        if exists|i: int| 0 <= i < s.len() && s[i].0@ == k {
            let i = choose|i: int| 0 <= i < s.len() && s[i].0@ == k;
            if i < s.len() - 1 {
                assert(s.drop_last()[i].0@ == k);
            }
        }
    }
}

/// With unique names, the map reads each entry's own value.
pub proof fn lemma_vars_map_entry(s: Seq<(String, String)>, i: int)
    requires
        unique_var_names(s),
        0 <= i < s.len(),
    ensures
        vars_map(s).contains_key(s[i].0@),
        vars_map(s)[s[i].0@] == s[i].1@,
    decreases s.len(),
{
    if i == s.len() - 1 {
    } else {
        assert(unique_var_names(s.drop_last()));
        lemma_vars_map_entry(s.drop_last(), i);
        assert(s.drop_last()[i] == s[i]);
        assert(s[i].0@ != s.last().0@);
    }
}

/// Same, for the cache.
pub proof fn lemma_cache_map_entry(s: Seq<(String, Json)>, i: int)
    requires
        unique_cache_paths(s),
        0 <= i < s.len(),
    ensures
        cache_map(s).contains_key(s[i].0@),
        cache_map(s)[s[i].0@] == s[i].1,
    decreases s.len(),
{
    if i == s.len() - 1 {
    } else {
        assert(unique_cache_paths(s.drop_last()));
        lemma_cache_map_entry(s.drop_last(), i);
        assert(s.drop_last()[i] == s[i]);
        assert(s[i].0@ != s.last().0@);
    }
}

/// Replacing the value at an entry is inserting over its key.
pub proof fn lemma_vars_map_update(s: Seq<(String, String)>, i: int, e: (String, String))
    requires
        unique_var_names(s),
        0 <= i < s.len(),
        e.0@ == s[i].0@,
    ensures
        vars_map(s.update(i, e)) =~= vars_map(s).insert(e.0@, e.1@),
        unique_var_names(s.update(i, e)),
    decreases s.len(),
{
    if i == s.len() - 1 {
        assert(s.update(i, e).drop_last() =~= s.drop_last());
        assert(s.update(i, e).last() == e);
    } else {
        assert(unique_var_names(s.drop_last()));
        assert(s.drop_last()[i] == s[i]);
        lemma_vars_map_update(s.drop_last(), i, e);
        assert(s.update(i, e).drop_last() =~= s.drop_last().update(i, e));
        assert(s.update(i, e).last() == s.last());
        assert(e.0@ != s.last().0@);
    }
}

/// Appending an entry with a fresh name is inserting it.
pub proof fn lemma_vars_map_push(s: Seq<(String, String)>, e: (String, String))
    requires
        unique_var_names(s),
        forall|i: int| 0 <= i < s.len() ==> s[i].0@ != e.0@,
    ensures
        vars_map(s.push(e)) == vars_map(s).insert(e.0@, e.1@),
        unique_var_names(s.push(e)),
{
    assert(s.push(e).drop_last() =~= s);
    assert(s.push(e).last() == e);
}

/// Same, for the cache.
pub proof fn lemma_cache_map_push(s: Seq<(String, Json)>, e: (String, Json))
    requires
        unique_cache_paths(s),
        forall|i: int| 0 <= i < s.len() ==> s[i].0@ != e.0@,
    ensures
        cache_map(s.push(e)) == cache_map(s).insert(e.0@, e.1),
        unique_cache_paths(s.push(e)),
{
    assert(s.push(e).drop_last() =~= s);
    assert(s.push(e).last() == e);
}

/// Entries applied to a map in order, each insertion overwriting, so
/// the last write for a name wins.
pub open spec fn apply_entries(
    m: Map<Seq<char>, Seq<char>>,
    es: Seq<(Seq<char>, Seq<char>)>,
) -> Map<Seq<char>, Seq<char>>
    decreases es.len(),
{
    if es.len() == 0 {
        m
    } else {
        apply_entries(m, es.drop_last()).insert(es.last().0, es.last().1)
    }
}

/// Applying a concatenation is applying the parts in turn.
pub proof fn lemma_apply_entries_concat(
    m: Map<Seq<char>, Seq<char>>,
    es1: Seq<(Seq<char>, Seq<char>)>,
    es2: Seq<(Seq<char>, Seq<char>)>,
)
    ensures
        apply_entries(m, es1 + es2) == apply_entries(apply_entries(m, es1), es2),
    decreases es2.len(),
{
    if es2.len() == 0 {
        assert(es1 + es2 =~= es1);
    } else {
        assert((es1 + es2).drop_last() =~= es1 + es2.drop_last());
        lemma_apply_entries_concat(m, es1, es2.drop_last());
        assert((es1 + es2).last() == es2.last());
    }
}

/// No name occurs twice among a list of flat entries.
pub open spec fn distinct_entry_names(es: Seq<(Seq<char>, Seq<char>)>) -> bool {
    forall|i: int, j: int| 0 <= i < j < es.len() ==> es[i].0 != es[j].0
}

/// A key is in the applied map exactly when it was there before or
/// some entry carries it.
pub proof fn lemma_apply_entries_dom(
    m: Map<Seq<char>, Seq<char>>,
    es: Seq<(Seq<char>, Seq<char>)>,
    k: Seq<char>,
)
    ensures
        apply_entries(m, es).dom().contains(k) <==> (m.dom().contains(k) || exists|i: int|
            0 <= i < es.len() && es[i].0 == k),
    decreases es.len(),
{
    if es.len() > 0 {
        lemma_apply_entries_dom(m, es.drop_last(), k);
        if apply_entries(m, es).dom().contains(k) && !m.dom().contains(k) {
            if es.last().0 == k {
                assert(es[es.len() - 1].0 == k);
            } else {
                let i = choose|i: int|
                    0 <= i < es.drop_last().len() && es.drop_last()[i].0 == k;
                assert(es[i].0 == k);
            }
        }
        if exists|i: int| 0 <= i < es.len() && es[i].0 == k {
            let i = choose|i: int| 0 <= i < es.len() && es[i].0 == k;
            if i < es.len() - 1 {
                assert(es.drop_last()[i].0 == k);
            }
        }
    }
}

/// Applying entries whose names are pairwise distinct and all new
/// grows the variable set by exactly the number of entries.
pub proof fn lemma_apply_entries_count(
    m: Map<Seq<char>, Seq<char>>,
    es: Seq<(Seq<char>, Seq<char>)>,
)
    requires
        m.dom().finite(),
        distinct_entry_names(es),
        forall|i: int| 0 <= i < es.len() ==> !m.dom().contains(#[trigger] es[i].0),
    ensures
        apply_entries(m, es).dom().finite(),
        apply_entries(m, es).dom().len() == m.dom().len() + es.len(),
    decreases es.len(),
{
    broadcast use vstd::set::axiom_set_insert_len;

    if es.len() > 0 {
        assert(distinct_entry_names(es.drop_last()));
        assert(forall|i: int|
            0 <= i < es.drop_last().len() ==> !m.dom().contains(
                #[trigger] es.drop_last()[i].0,
            ));
        lemma_apply_entries_count(m, es.drop_last());
        lemma_apply_entries_dom(m, es.drop_last(), es.last().0);
        assert forall|i: int| 0 <= i < es.drop_last().len() implies es.drop_last()[i].0
            != es.last().0 by {
            assert(es[i].0 == es.drop_last()[i].0);
        }
        assert(!apply_entries(m, es.drop_last()).dom().contains(es.last().0));
    }
}

/// Flattening a value with a given number of leaves, when the
/// flattened names are pairwise distinct and none is already defined,
/// adds exactly one variable per leaf: with collision-free names, N
/// leaves become N entries.
pub proof fn lemma_flatten_adds_leaf_count(
    m: Map<Seq<char>, Seq<char>>,
    j: Json,
    prefix: Seq<char>,
)
    requires
        m.dom().finite(),
        distinct_entry_names(crate::json::spec_flatten(j, prefix)),
        forall|i: int|
            0 <= i < crate::json::spec_flatten(j, prefix).len() ==> !m.dom().contains(
                (#[trigger] crate::json::spec_flatten(j, prefix)[i]).0,
            ),
    ensures
        apply_entries(m, crate::json::spec_flatten(j, prefix)).dom().finite(),
        apply_entries(m, crate::json::spec_flatten(j, prefix)).dom().len() == m.dom().len()
            + crate::json::leaf_count(j),
{
    crate::json::lemma_flatten_leaf_count(j, prefix);
    lemma_apply_entries_count(m, crate::json::spec_flatten(j, prefix));
}

/// Sets one variable in an entry list; an existing entry under the
/// same name is overwritten in place.
fn set_var(vars: &mut Vec<(String, String)>, name: String, value: String)
    requires
        unique_var_names(old(vars)@),
    ensures
        unique_var_names(final(vars)@),
        vars_map(final(vars)@) == vars_map(old(vars)@).insert(name@, value@),
        final(vars)@.len() <= old(vars)@.len() + 1,
        final(vars)@.len() == old(vars)@.len() + (
        if vars_map(old(vars)@).contains_key(name@) {
            0int
        } else {
            1int
        }),
{
    let n = vars.len();
    let mut i: usize = 0;
    while i < n
        invariant
            0 <= i <= n == vars@.len(),
            vars@ == old(vars)@,
            unique_var_names(vars@),
            forall|j: int| 0 <= j < i ==> vars@[j].0@ != name@,
        decreases n - i,
    {
        if vars[i].0 == name {
            let ghost pre = vars@;
            let e = (name, value);
            let ghost eg = e;
            vars.remove(i);
            vars.insert(i, e);
            proof {
                assert(vars@ =~= pre.update(i as int, eg));
                lemma_vars_map_update(pre, i as int, eg);
                lemma_vars_map_contains(pre, eg.0@);
            }
            return ;
        }
        i += 1;
    }
    let e = (name, value);
    let ghost eg = e;
    let ghost pre = vars@;
    vars.push(e);
    proof {
        lemma_vars_map_push(pre, eg);
        lemma_vars_map_contains(pre, eg.0@);
    }
}

/// Flattens a value into an entry list under a key: the leaves of `v`
/// are written in traversal order, as `spec_flatten` says.
#[verifier::loop_isolation(false)]
fn insert_entries(vars: &mut Vec<(String, String)>, key: &str, v: &Json)
    requires
        unique_var_names(old(vars)@),
    ensures
        unique_var_names(final(vars)@),
        vars_map(final(vars)@) == apply_entries(
            vars_map(old(vars)@),
            crate::json::spec_flatten(*v, key@),
        ),
    decreases *v,
{
    match v {
        Json::Null => {
            set_var(vars, String::from_str(key), String::from_str("null"));
            proof {
                reveal_strlit("null");
                assert("null"@ =~= seq!['n', 'u', 'l', 'l']);
                lemma_apply_one(vars_map(old(vars)@), (key@, seq!['n', 'u', 'l', 'l']));
            }
        },
        Json::Bool(b) => {
            let rendered = if *b {
                String::from_str("true")
            } else {
                String::from_str("false")
            };
            set_var(vars, String::from_str(key), rendered);
            proof {
                reveal_strlit("true");
                reveal_strlit("false");
                assert("true"@ =~= seq!['t', 'r', 'u', 'e']);
                assert("false"@ =~= seq!['f', 'a', 'l', 's', 'e']);
                if *b {
                    lemma_apply_one(vars_map(old(vars)@), (key@, seq!['t', 'r', 'u', 'e']));
                } else {
                    lemma_apply_one(vars_map(old(vars)@), (key@, seq!['f', 'a', 'l', 's', 'e']));
                }
            }
        },
        Json::Num(s) => {
            set_var(vars, String::from_str(key), s.clone());
            proof {
                lemma_apply_one(vars_map(old(vars)@), (key@, s@));
            }
        },
        Json::Text(s) => {
            set_var(vars, String::from_str(key), s.clone());
            proof {
                lemma_apply_one(vars_map(old(vars)@), (key@, s@));
            }
        },
        Json::Arr(items) => {
            let ghost orig = vars_map(vars@);
            let n = items.len();
            let mut idx: usize = 0;
            while idx < n
                invariant
                    0 <= idx <= n == items@.len(),
                    *v == Json::Arr(*items),
                    unique_var_names(vars@),
                    vars_map(vars@) == apply_entries(
                        orig,
                        crate::json::spec_flatten_arr(*items, key@, idx as int),
                    ),
                decreases n - idx,
            {
                let mut child = String::from_str(key);
                child.push('_');
                let digits = crate::strutil::usize_to_string(idx);
                child.append(digits.as_str());
                proof {
                    assert(child@ =~= key@ + seq!['_'] + crate::strutil::spec_dec(idx as nat));
                }
                insert_entries(vars, child.as_str(), &items[idx]);
                proof {
                    lemma_apply_entries_concat(
                        orig,
                        crate::json::spec_flatten_arr(*items, key@, idx as int),
                        crate::json::spec_flatten(items@[idx as int], child@),
                    );
                }
                idx += 1;
            }
        },
        Json::Obj(fields) => {
            let ghost orig = vars_map(vars@);
            let n = fields.len();
            let mut idx: usize = 0;
            while idx < n
                invariant
                    0 <= idx <= n == fields@.len(),
                    *v == Json::Obj(*fields),
                    unique_var_names(vars@),
                    vars_map(vars@) == apply_entries(
                        orig,
                        crate::json::spec_flatten_obj(*fields, key@, idx as int),
                    ),
                decreases n - idx,
            {
                let mut child = String::from_str(key);
                child.push('_');
                let upper = crate::strutil::to_upper(fields[idx].0.as_str());
                child.append(upper.as_str());
                proof {
                    assert(child@ =~= key@ + seq!['_'] + crate::strutil::spec_upper(
                        fields@[idx as int].0@,
                    ));
                }
                insert_entries(vars, child.as_str(), &fields[idx].1);
                proof {
                    lemma_apply_entries_concat(
                        orig,
                        crate::json::spec_flatten_obj(*fields, key@, idx as int),
                        crate::json::spec_flatten(fields@[idx as int].1, child@),
                    );
                }
                idx += 1;
            }
        },
    }
}

/// Applying a single entry is one insertion.
pub proof fn lemma_apply_one(m: Map<Seq<char>, Seq<char>>, e: (Seq<char>, Seq<char>))
    ensures
        apply_entries(m, seq![e]) == m.insert(e.0, e.1),
{
    assert(apply_entries(m, Seq::<(Seq<char>, Seq<char>)>::empty()) == m);
    assert(seq![e].drop_last() =~= Seq::<(Seq<char>, Seq<char>)>::empty());
    assert(seq![e].last() == e);
}

/// The variable set and the secret cache of one resolution run.
#[derive(Debug)]
pub struct Vars {
    /// The `NAME=VALUE` entries built so far, names unique.
    pub vars: Vec<(String, String)>,
    /// Fetched secrets by the path text of their expression, paths
    /// unique.  Two expressions sharing a path share the entry, even
    /// when their roles or methods differ.
    pub cache: Vec<(String, Json)>,
}

impl Vars {
    /// Both association lists have unique keys.
    pub open spec fn wf(&self) -> bool {
        unique_var_names(self.vars@) && unique_cache_paths(self.cache@)
    }

    /// The variable mapping built so far.
    pub open spec fn map(&self) -> Map<Seq<char>, Seq<char>> {
        vars_map(self.vars@)
    }

    /// The cached secrets by path.
    pub open spec fn cache_view(&self) -> Map<Seq<char>, Json> {
        cache_map(self.cache@)
    }

    /// An empty store.
    pub fn new() -> (r: Vars)
        ensures
            r.wf(),
            r.map() == Map::<Seq<char>, Seq<char>>::empty(),
            r.cache_view() == Map::<Seq<char>, Json>::empty(),
            r.vars@.len() == 0,
    {
        Vars { vars: Vec::new(), cache: Vec::new() }
    }

    /// Sets one variable; an existing entry under the same name is
    /// overwritten in place.
    pub fn insert(&mut self, name: String, value: String)
        requires
            old(self).wf(),
        ensures
            final(self).wf(),
            final(self).map() == old(self).map().insert(name@, value@),
            final(self).cache@ == old(self).cache@,
            final(self).vars@.len() <= old(self).vars@.len() + 1,
            final(self).vars@.len() == old(self).vars@.len() + (
            if old(self).map().contains_key(name@) {
                0int
            } else {
                1int
            }),
    {
        set_var(&mut self.vars, name, value);
    }

    /// Builds variables from the leaves of a structured value: one
    /// entry per leaf under `key`, later leaves overwriting colliding
    /// names, exactly as `spec_flatten` lists them.
    pub fn insert_value(&mut self, key: &str, v: &Json) -> (r: Result<(), Error>)
        requires
            old(self).wf(),
        ensures
            r is Ok,
            final(self).wf(),
            final(self).map() == apply_entries(
                old(self).map(),
                crate::json::spec_flatten(*v, key@),
            ),
            final(self).cache@ == old(self).cache@,
    {
        insert_entries(&mut self.vars, key, v);
        Ok(())
    }

    /// The value stored under a name, if one is there.
    pub fn get(&self, name: &str) -> (r: Option<&String>)
        requires
            self.wf(),
        ensures
            match r {
                Some(v) => self.map().contains_key(name@) && v@ == self.map()[name@],
                None => !self.map().contains_key(name@),
            },
    {
        let n = self.vars.len();
        let mut i: usize = 0;
        while i < n
            invariant
                0 <= i <= n == self.vars@.len(),
                self.wf(),
                forall|j: int| 0 <= j < i ==> self.vars@[j].0@ != name@,
            decreases n - i,
        {
            if crate::strutil::str_eq(self.vars[i].0.as_str(), name) {
                proof {
                    lemma_vars_map_entry(self.vars@, i as int);
                }
                return Some(&self.vars[i].1);
            }
            i += 1;
        }
        proof {
            lemma_vars_map_contains(self.vars@, name@);
        }
        None
    }

    /// How many variables are defined.
    pub fn len(&self) -> (r: usize)
        ensures
            r == self.vars@.len(),
    {
        self.vars.len()
    }

    /// The cached secret for a path, if one is there.
    pub fn cache_get(&self, path: &String) -> (r: Option<&Json>)
        requires
            self.wf(),
        ensures
            match r {
                Some(x) => self.cache_view().contains_key(path@) && *x == self.cache_view().index(
                    path@,
                ),
                None => !self.cache_view().contains_key(path@),
            },
    {
        let n = self.cache.len();
        let mut i: usize = 0;
        while i < n
            invariant
                0 <= i <= n == self.cache@.len(),
                self.wf(),
                forall|j: int| 0 <= j < i ==> self.cache@[j].0@ != path@,
            decreases n - i,
        {
            if self.cache[i].0 == *path {
                proof {
                    lemma_cache_map_entry(self.cache@, i as int);
                }
                return Some(&self.cache[i].1);
            }
            i += 1;
        }
        proof {
            lemma_cache_map_contains(self.cache@, path@);
        }
        None
    }

    /// Stores a fetched secret under its path.  The engine only adds
    /// paths that missed, so the path is new to the cache.
    pub fn cache_put(&mut self, path: String, secret: Json)
        requires
            old(self).wf(),
            !old(self).cache_view().contains_key(path@),
        ensures
            final(self).wf(),
            final(self).cache_view() == old(self).cache_view().insert(path@, secret),
            final(self).vars@ == old(self).vars@,
    {
        let ghost pre = self.cache@;
        let ghost eg = (path, secret);
        proof {
            lemma_cache_map_contains(pre, eg.0@);
        }
        self.cache.push((path, secret));
        proof {
            lemma_cache_map_push(pre, eg);
        }
    }
}

/// With unique names, the variable list and the map it denotes have
/// the same size.
pub proof fn lemma_vars_map_len(s: Seq<(String, String)>)
    requires
        unique_var_names(s),
    ensures
        vars_map(s).dom().finite(),
        vars_map(s).dom().len() == s.len(),
    decreases s.len(),
{
    broadcast use vstd::set::axiom_set_insert_len;

    if s.len() > 0 {
        assert(unique_var_names(s.drop_last()));
        lemma_vars_map_len(s.drop_last());
        lemma_vars_map_contains(s.drop_last(), s.last().0@);
        assert forall|i: int| 0 <= i < s.drop_last().len() implies s.drop_last()[i].0@
            != s.last().0@ by {
            assert(s[i].0@ == s.drop_last()[i].0@);
        }
        assert(!vars_map(s.drop_last()).contains_key(s.last().0@));
    }
}

impl Default for Vars {
    /// An empty store.
    fn default() -> (r: Vars)
        ensures
            r.wf(),
            r.map() == Map::<Seq<char>, Seq<char>>::empty(),
            r.cache_view() == Map::<Seq<char>, Json>::empty(),
            r.vars@.len() == 0,
    {
        Vars::new()
    }
}

/// Splits a variable definition into its name and, after `=`, its
/// value: `N=V` gives the pair, `N=` an empty value, a bare `N` none.
pub fn parse_var(exp: &str) -> (r: Result<(String, Option<String>), Error>)
    ensures
        r matches Ok(pair) && ({
            let i = find_char(exp@, '=') as int;
            if i < exp@.len() {
                pair.0@ == exp@.take(i) && (pair.1 matches Some(v) && v@ == exp@.skip(i + 1))
            } else {
                pair.0@ == exp@ && pair.1 is None
            }
        }),
{
    let len = exp.unicode_len();
    let i = find_char_in(exp, '=');
    if i < len {
        let name = String::from_str(exp.substring_char(0, i));
        let value = String::from_str(exp.substring_char(i + 1, len));
        Ok((name, Some(value)))
    } else {
        Ok((String::from_str(exp), None))
    }
}

impl Vars {
    /// The finished environment, one `NAME=VALUE` string per entry in
    /// store order, consuming the store; the first entry holding an
    /// embedded NUL fails the whole conversion with its name.
    pub fn get_envp(self) -> (r: Result<Vec<String>, Error>)
        ensures
            match r {
                Ok(env) => env@.len() == self.vars@.len() && forall|i: int|
                    0 <= i < env@.len() ==> (#[trigger] env@[i])@ == self.vars@[i].0@ + seq!['=']
                        + self.vars@[i].1@ && !has_char(env@[i]@, '\0'),
                Err(e) => exists|i: int|
                    {
                        &&& 0 <= i < self.vars@.len()
                        &&& has_char(#[trigger] self.vars@[i].0@ + seq!['='] + self.vars@[i].1@, '\0')
                        &&& forall|j: int|
                            0 <= j < i ==> !has_char(
                                #[trigger] self.vars@[j].0@ + seq!['='] + self.vars@[j].1@,
                                '\0',
                            )
                        &&& e matches Error::Nul(t) && t@ == self.vars@[i].0@
                    },
            },
    {
        let ghost entries = self.vars@;
        let mut out: Vec<String> = Vec::new();
        let n = self.vars.len();
        let mut i: usize = 0;
        while i < n
            invariant
                0 <= i <= n == entries.len(),
                self.vars@ == entries,
                out@.len() == i,
                forall|j: int|
                    0 <= j < i ==> (#[trigger] out@[j])@ == entries[j].0@ + seq!['=']
                        + entries[j].1@ && !has_char(out@[j]@, '\0'),
            decreases n - i,
        {
            let mut line = self.vars[i].0.clone();
            line.push('=');
            line.append(self.vars[i].1.as_str());
            proof {
                assert(line@ =~= entries[i as int].0@ + seq!['='] + entries[i as int].1@);
            }
            if find_char_in(line.as_str(), '\0') < line.as_str().unicode_len() {
                proof {
                    assert(has_char(entries[i as int].0@ + seq!['='] + entries[i as int].1@, '\0'));
                    assert forall|j: int| 0 <= j < i implies !has_char(
                        #[trigger] entries[j].0@ + seq!['='] + entries[j].1@,
                        '\0',
                    ) by {
                        assert(out@[j]@ == entries[j].0@ + seq!['='] + entries[j].1@);
                        assert(!has_char(out@[j]@, '\0'));
                    }
                }
                return Err(Error::Nul(self.vars[i].0.clone()));
            }
            out.push(line);
            i += 1;
        }
        Ok(out)
    }
}

/// What a `vault` expression asks of the backend client when its path
/// is not cached.
#[derive(Debug)]
pub struct FetchRequest {
    /// The role to authenticate as: the first positional argument.
    pub role: String,
    /// The HTTP method, upper-cased, `GET` when not given.
    pub method: String,
    /// The path to fetch, also the cache key.
    pub path: String,
    /// The keyword arguments of the expression, handed through.
    pub kwargs: Option<Vec<(String, String)>>,
}

/// The model of a fetch request.
#[verifier::ext_equal]
pub ghost struct SpecFetch {
    pub role: Seq<char>,
    pub method: Seq<char>,
    pub path: Seq<char>,
    pub kwargs: Option<Seq<(Seq<char>, Seq<char>)>>,
}

impl FetchRequest {
    /// The model of this request.
    pub open spec fn view(&self) -> SpecFetch {
        SpecFetch {
            role: self.role@,
            method: self.method@,
            path: self.path@,
            kwargs: match self.kwargs {
                Some(kw) => Some(crate::secret::view_pairs(kw@)),
                None => None,
            },
        }
    }
}

/// How resolving one parsed expression ends: new variables, a fetch to
/// make, or an error.
pub ghost enum PathOutcome {
    /// Resolved locally; carries the new variable mapping.
    Done(Map<Seq<char>, Seq<char>>),
    /// The path must be fetched first.
    Fetch(SpecFetch),
    /// The expression is rejected.
    Failed(SpecPathError),
}

/// The errors `insert_path` itself can raise.
pub ghost enum SpecPathError {
    /// A `vault` expression without a role; carries the formatted
    /// expression.
    MissingRole(Seq<char>),
    /// A `const` expression whose first argument is neither `str` nor
    /// `js`; carries the formatted expression.
    BadConstArg(Seq<char>),
    /// The anchor finds nothing in the cached secret; carries the
    /// anchor.
    BadPointer(Seq<char>),
    /// The text of a `js` literal is not valid JSON; carries the text.
    BadLiteral(Seq<char>),
}

/// What resolving one expression does, given the current variables and
/// cache: a `vault` expression needs a role, is served from the cache
/// when its path is there (narrowed by its own anchor), and otherwise
/// asks for a fetch; a `const` expression stores its path text
/// verbatim under `str` or flattens it as a JSON literal under `js`.
pub open spec fn spec_insert_path(
    vars_m: Map<Seq<char>, Seq<char>>,
    cache_m: Map<Seq<char>, Json>,
    prefix: Seq<char>,
    sp: SpecSecretPath,
) -> PathOutcome {
    match sp.backend {
        Backend::Vault => {
            if sp.args.len() == 0 {
                PathOutcome::Failed(SpecPathError::MissingRole(spec_format(sp)))
            } else if cache_m.contains_key(sp.path) {
                match crate::json::spec_pointer(cache_m[sp.path], sp.anchor) {
                    None => PathOutcome::Failed(SpecPathError::BadPointer(sp.anchor)),
                    Some(narrowed) => PathOutcome::Done(
                        apply_entries(vars_m, crate::json::spec_flatten(narrowed, prefix)),
                    ),
                }
            } else {
                PathOutcome::Fetch(
                    SpecFetch {
                        role: sp.args[0],
                        method: if sp.args.len() > 1 {
                            crate::strutil::spec_upper(sp.args[1])
                        } else {
                            seq!['G', 'E', 'T']
                        },
                        path: sp.path,
                        kwargs: sp.kwargs,
                    },
                )
            }
        },
        Backend::Const => {
            if sp.args.len() > 0 && sp.args[0] == seq!['s', 't', 'r'] {
                PathOutcome::Done(vars_m.insert(prefix, sp.path))
            } else if sp.args.len() > 0 && sp.args[0] == seq!['j', 's'] {
                match crate::json::spec_json_parse(sp.path) {
                    None => PathOutcome::Failed(SpecPathError::BadLiteral(sp.path)),
                    Some(tree) => PathOutcome::Done(
                        apply_entries(vars_m, crate::json::spec_flatten(tree, prefix)),
                    ),
                }
            } else {
                PathOutcome::Failed(SpecPathError::BadConstArg(spec_format(sp)))
            }
        },
    }
}

impl Vars {
    /// The position of a path in the cache list, if it is there.
    fn cache_find(&self, path: &String) -> (r: Option<usize>)
        requires
            self.wf(),
        ensures
            match r {
                Some(i) => i < self.cache@.len() && self.cache@[i as int].0@ == path@
                    && self.cache_view().contains_key(path@) && self.cache@[i as int].1
                    == self.cache_view()[path@],
                None => !self.cache_view().contains_key(path@),
            },
    {
        let n = self.cache.len();
        let mut i: usize = 0;
        while i < n
            invariant
                0 <= i <= n == self.cache@.len(),
                self.wf(),
                forall|j: int| 0 <= j < i ==> self.cache@[j].0@ != path@,
            decreases n - i,
        {
            if self.cache[i].0 == *path {
                proof {
                    lemma_cache_map_entry(self.cache@, i as int);
                }
                return Some(i);
            }
            i += 1;
        }
        proof {
            lemma_cache_map_contains(self.cache@, path@);
        }
        None
    }

    /// Resolves one parsed expression as far as it can without the
    /// backend: fully for `const` and for a cached `vault` path, and
    /// otherwise hands back the fetch the caller must perform.
    pub fn insert_path(&mut self, prefix: &str, secret_path: SecretPath) -> (r: Result<
        Option<FetchRequest>,
        Error,
    >)
        requires
            old(self).wf(),
        ensures
            final(self).wf(),
            match spec_insert_path(
                old(self).map(),
                old(self).cache_view(),
                prefix@,
                secret_path@,
            ) {
                PathOutcome::Done(m2) => (r matches Ok(x) && x is None) && final(self).map() == m2
                    && final(self).cache@ == old(self).cache@,
                PathOutcome::Fetch(f) => (r matches Ok(x) && x matches Some(req) && req@ =~~= f)
                    && final(self).vars@ == old(self).vars@
                    && final(self).cache@ == old(self).cache@,
                PathOutcome::Failed(pe) => final(self).vars@ == old(self).vars@
                    && final(self).cache@ == old(self).cache@
                    && (r matches Err(e) && match pe {
                    SpecPathError::MissingRole(t) => e matches Error::MissingRole(s) && s@ == t,
                    SpecPathError::BadConstArg(t) => e matches Error::ExpectedArg(w, s) && s@ == t
                        && w@ == "\"str\" or \"js\""@,
                    SpecPathError::BadPointer(t) => e matches Error::Pointer(s) && s@ == t,
                    SpecPathError::BadLiteral(t) => e matches Error::Parse(s, _d) && s@ == t,
                }),
            },
    {
        match secret_path.backend {
            Backend::Vault => {
                if secret_path.args.len() == 0 {
                    let msg = secret_path.to_string();
                    return Err(Error::MissingRole(msg));
                }
                match self.cache_find(&secret_path.path) {
                    Some(ci) => {
                        match crate::json::json_pointer(
                            &self.cache[ci].1,
                            secret_path.anchor.as_str(),
                        ) {
                            None => Err(Error::Pointer(secret_path.anchor)),
                            Some(narrowed) => {
                                insert_entries(&mut self.vars, prefix, narrowed);
                                Ok(None)
                            },
                        }
                    },
                    None => {
                        let mut args = secret_path.args;
                        let method = if args.len() > 1 {
                            crate::strutil::to_upper(args[1].as_str())
                        } else {
                            let m = String::from_str("GET");
                            proof {
                                reveal_strlit("GET");
                                assert(m@ =~= seq!['G', 'E', 'T']);
                            }
                            m
                        };
                        let role = args.remove(0);
                        let req = FetchRequest {
                            role,
                            method,
                            path: secret_path.path,
                            kwargs: secret_path.kwargs,
                        };
                        proof {
                            let f = spec_insert_path(
                                old(self).map(),
                                old(self).cache_view(),
                                prefix@,
                                secret_path@,
                            )->Fetch_0;
                            assert(req@.kwargs =~~= f.kwargs);
                            assert(req@ =~~= f);
                        }
                        Ok(Some(req))
                    },
                }
            },
            Backend::Const => {
                proof {
                    reveal_strlit("str");
                    reveal_strlit("js");
                    assert("str"@ =~= seq!['s', 't', 'r']);
                    assert("js"@ =~= seq!['j', 's']);
                }
                let t_str = String::from_str("str");
                let t_js = String::from_str("js");
                if secret_path.args.len() > 0 && secret_path.args[0] == t_str {
                    self.insert(String::from_str(prefix), secret_path.path);
                    Ok(None)
                } else if secret_path.args.len() > 0 && secret_path.args[0] == t_js {
                    match crate::json::parse_json_text(secret_path.path.as_str()) {
                        Ok(tree) => {
                            insert_entries(&mut self.vars, prefix, &tree);
                            Ok(None)
                        },
                        Err(diag) => Err(Error::Parse(secret_path.path, diag)),
                    }
                } else {
                    let msg = secret_path.to_string();
                    Err(Error::ExpectedArg(String::from_str("\"str\" or \"js\""), msg))
                }
            },
        }
    }

    /// Finishes a `vault` expression once its secret has arrived: the
    /// anchor narrows the value, the narrowed part is flattened under
    /// the prefix, and the whole secret is cached under the path so a
    /// later expression for the same path fetches nothing.
    pub fn insert_fetched(
        &mut self,
        prefix: &str,
        path: String,
        anchor: &str,
        secret: Json,
    ) -> (r: Result<(), Error>)
        requires
            old(self).wf(),
            !old(self).cache_view().contains_key(path@),
        ensures
            final(self).wf(),
            match crate::json::spec_pointer(secret, anchor@) {
                None => (r matches Err(e) && e matches Error::Pointer(t) && t@ == anchor@)
                    && final(self).vars@ == old(self).vars@
                    && final(self).cache@ == old(self).cache@,
                Some(narrowed) => r is Ok && final(self).map() == apply_entries(
                    old(self).map(),
                    crate::json::spec_flatten(narrowed, prefix@),
                ) && final(self).cache_view() == old(self).cache_view().insert(path@, secret),
            },
    {
        match crate::json::json_pointer(&secret, anchor) {
            None => Err(Error::Pointer(String::from_str(anchor))),
            Some(narrowed) => {
                insert_entries(&mut self.vars, prefix, narrowed);
                self.cache_put(path, secret);
                Ok(())
            },
        }
    }
}

} // verus!
