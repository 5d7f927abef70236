//! The structured values a backend returns, and the two ways the engine
//! reads them: flattening into name/value entries and JSON-pointer
//! navigation.
//!
//! Numbers are carried as their canonical decimal rendering, so the tree
//! holds nothing but strings, booleans and nesting.

use vstd::prelude::*;
use vstd::string::*;

use crate::strutil::{find_char, find_char_in, has_char, spec_dec, spec_upper, split_char};

verus! {

broadcast use vstd::std_specs::vec::group_vec_axioms, vstd::seq::group_seq_axioms;

/// A JSON-like tree: the shape of a fetched secret or of a parsed
/// literal.  A number is kept as its rendered text.
#[derive(Debug, PartialEq)]
pub enum Json {
    Null,
    Bool(bool),
    Num(String),
    Text(String),
    Arr(Vec<Json>),
    Obj(Vec<(String, Json)>),
}

/// The number of scalar leaves of a value: what flattening will emit.
pub open spec fn leaf_count(j: Json) -> nat
    decreases j, 0int,
{
    match j {
        Json::Null => 1,
        Json::Bool(_) => 1,
        Json::Num(_) => 1,
        Json::Text(_) => 1,
        Json::Arr(v) => leaf_count_arr(v, v@.len() as int),
        Json::Obj(m) => leaf_count_obj(m, m@.len() as int),
    }
}

/// The leaves of the first `n` elements of an array.
pub open spec fn leaf_count_arr(v: Vec<Json>, n: int) -> nat
    decreases v, n,
{
    if n <= 0 || n > v@.len() {
        0
    } else {
        leaf_count_arr(v, n - 1) + leaf_count(v@[n - 1])
    }
}

/// The leaves of the first `n` fields of an object.
pub open spec fn leaf_count_obj(m: Vec<(String, Json)>, n: int) -> nat
    decreases m, n,
{
    if n <= 0 || n > m@.len() {
        0
    } else {
        leaf_count_obj(m, n - 1) + leaf_count(m@[n - 1].1)
    }
}

/// The flat entries of a value under a key prefix, in traversal order:
/// a scalar is one entry under the prefix itself; an array element `i`
/// recurses under `prefix_i`; an object field `k` recurses under
/// `prefix_K` with the field name upper-cased.
pub open spec fn spec_flatten(j: Json, prefix: Seq<char>) -> Seq<(Seq<char>, Seq<char>)>
    decreases j, 0int,
{
    match j {
        Json::Null => seq![(prefix, seq!['n', 'u', 'l', 'l'])],
        Json::Bool(b) => seq![
            (
                prefix,
                if b {
                    seq!['t', 'r', 'u', 'e']
                } else {
                    seq!['f', 'a', 'l', 's', 'e']
                },
            ),
        ],
        Json::Num(s) => seq![(prefix, s@)],
        Json::Text(s) => seq![(prefix, s@)],
        Json::Arr(v) => spec_flatten_arr(v, prefix, v@.len() as int),
        Json::Obj(m) => spec_flatten_obj(m, prefix, m@.len() as int),
    }
}

/// The flat entries of the first `n` elements of an array.
pub open spec fn spec_flatten_arr(v: Vec<Json>, prefix: Seq<char>, n: int) -> Seq<
    (Seq<char>, Seq<char>),
>
    decreases v, n,
{
    if n <= 0 || n > v@.len() {
        Seq::empty()
    } else {
        spec_flatten_arr(v, prefix, n - 1) + spec_flatten(
            v@[n - 1],
            prefix + seq!['_'] + spec_dec((n - 1) as nat),
        )
    }
}

/// The flat entries of the first `n` fields of an object.
pub open spec fn spec_flatten_obj(m: Vec<(String, Json)>, prefix: Seq<char>, n: int) -> Seq<
    (Seq<char>, Seq<char>),
>
    decreases m, n,
{
    if n <= 0 || n > m@.len() {
        Seq::empty()
    } else {
        spec_flatten_obj(m, prefix, n - 1) + spec_flatten(
            m@[n - 1].1,
            prefix + seq!['_'] + spec_upper(m@[n - 1].0@),
        )
    }
}

/// Flattening emits exactly one entry per leaf, whatever the prefix.
pub proof fn lemma_flatten_leaf_count(j: Json, prefix: Seq<char>)
    ensures
        spec_flatten(j, prefix).len() == leaf_count(j),
    decreases j, 0int,
{
    match j {
        Json::Arr(v) => {
            lemma_flatten_leaf_count_arr(v, prefix, v@.len() as int);
        },
        Json::Obj(m) => {
            lemma_flatten_leaf_count_obj(m, prefix, m@.len() as int);
        },
        _ => {},
    }
}

proof fn lemma_flatten_leaf_count_arr(v: Vec<Json>, prefix: Seq<char>, n: int)
    ensures
        spec_flatten_arr(v, prefix, n).len() == leaf_count_arr(v, n),
    decreases v, n,
{
    if n > 0 && n <= v@.len() {
        lemma_flatten_leaf_count_arr(v, prefix, n - 1);
        lemma_flatten_leaf_count(v@[n - 1], prefix + seq!['_'] + spec_dec((n - 1) as nat));
    }
}

proof fn lemma_flatten_leaf_count_obj(m: Vec<(String, Json)>, prefix: Seq<char>, n: int)
    ensures
        spec_flatten_obj(m, prefix, n).len() == leaf_count_obj(m, n),
    decreases m, n,
{
    if n > 0 && n <= m@.len() {
        lemma_flatten_leaf_count_obj(m, prefix, n - 1);
        lemma_flatten_leaf_count(m@[n - 1].1, prefix + seq!['_'] + spec_upper(m@[n - 1].0@));
    }
}

/// A reference token with `~1` read as `/` and `~0` as `~`, scanned
/// left to right.
pub open spec fn spec_unescape(t: Seq<char>) -> Seq<char>
    decreases t.len(),
{
    if t.len() == 0 {
        Seq::empty()
    } else if t.len() >= 2 && t[0] == '~' && t[1] == '1' {
        seq!['/'] + spec_unescape(t.skip(2))
    } else if t.len() >= 2 && t[0] == '~' && t[1] == '0' {
        seq!['~'] + spec_unescape(t.skip(2))
    } else {
        seq![t[0]] + spec_unescape(t.skip(1))
    }
}

/// True when every character of `t` is a decimal digit.
pub open spec fn all_digits(t: Seq<char>) -> bool {
    forall|i: int| 0 <= i < t.len() ==> '0' <= #[trigger] t[i] && t[i] <= '9'
}

/// The number the digits of `t` denote.
pub open spec fn digits_val(t: Seq<char>) -> nat
    decreases t.len(),
{
    if t.len() == 0 {
        0
    } else {
        digits_val(t.drop_last()) * 10 + (t.last() as nat - '0' as nat) as nat
    }
}

/// An array index per JSON-pointer rules: digits only, no leading zero
/// except `0` itself, and small enough to be an index.
pub open spec fn spec_parse_index(t: Seq<char>) -> Option<int> {
    if t.len() == 0 || !all_digits(t) || (t.len() > 1 && t[0] == '0') || digits_val(t)
        > usize::MAX {
        None
    } else {
        Some(digits_val(t) as int)
    }
}

/// The first value under `key` in an object's field list.
pub open spec fn spec_obj_get(m: Seq<(String, Json)>, key: Seq<char>) -> Option<Json>
    decreases m.len(),
{
    if m.len() == 0 {
        None
    } else if m[0].0@ == key {
        Some(m[0].1)
    } else {
        spec_obj_get(m.drop_first(), key)
    }
}

/// One navigation step per reference token: a field for an object, an
/// index for an array, nothing for a scalar.
pub open spec fn spec_ptr_lookup(j: Json, toks: Seq<Seq<char>>) -> Option<Json>
    decreases toks.len(),
{
    if toks.len() == 0 {
        Some(j)
    } else {
        let key = spec_unescape(toks[0]);
        match j {
            Json::Obj(m) => match spec_obj_get(m@, key) {
                Some(x) => spec_ptr_lookup(x, toks.drop_first()),
                None => None,
            },
            Json::Arr(v) => match spec_parse_index(key) {
                Some(i) => if 0 <= i < v@.len() {
                    spec_ptr_lookup(v@[i], toks.drop_first())
                } else {
                    None
                },
                None => None,
            },
            _ => None,
        }
    }
}

/// JSON-pointer navigation: the empty pointer is the value itself, a
/// pointer not starting with `/` finds nothing, and otherwise the
/// `/`-separated tokens are followed in order.
pub open spec fn spec_pointer(j: Json, ptr: Seq<char>) -> Option<Json> {
    if ptr.len() == 0 {
        Some(j)
    } else if ptr[0] != '/' {
        None
    } else {
        spec_ptr_lookup(j, split_char(ptr, '/').drop_first())
    }
}

/// A reference token with its escapes undone.
fn unescape_token(t: &str) -> (r: String)
    ensures
        r@ == spec_unescape(t@),
{
    let len = t.unicode_len();
    let mut out = String::new();
    let mut i: usize = 0;
    proof {
        assert(t@.skip(0) =~= t@);
        assert(out@ + spec_unescape(t@) =~= spec_unescape(t@));
    }
    while i < len
        invariant
            0 <= i <= len == t@.len(),
            out@ + spec_unescape(t@.skip(i as int)) == spec_unescape(t@),
        decreases len - i,
    {
        let c = t.get_char(i);
        if c == '~' && i + 1 < len && (t.get_char(i + 1) == '1' || t.get_char(i + 1) == '0') {
            if t.get_char(i + 1) == '1' {
                out.push('/');
            } else {
                out.push('~');
            }
            proof {
                assert(t@.skip(i as int).skip(2) =~= t@.skip(i + 2));
                assert(out@ + spec_unescape(t@.skip(i + 2)) =~= spec_unescape(t@));
            }
            i += 2;
        } else {
            out.push(c);
            proof {
                assert(t@.skip(i as int).skip(1) =~= t@.skip(i + 1));
                assert(t@.skip(i as int)[0] == c);
                assert(out@ + spec_unescape(t@.skip(i + 1)) =~= spec_unescape(t@));
            }
            i += 1;
        }
    }
    proof {
        assert(t@.skip(len as int) =~= Seq::<char>::empty());
        assert(out@ =~= out@ + spec_unescape(t@.skip(len as int)));
    }
    out
}

/// The value of a longer digit prefix is no smaller.
proof fn lemma_digits_val_prefix(t: Seq<char>, i: int)
    requires
        0 <= i <= t.len(),
    ensures
        digits_val(t.take(i)) <= digits_val(t),
    decreases t.len() - i,
{
    if i < t.len() {
        assert(t.take(i + 1).drop_last() =~= t.take(i));
        lemma_digits_val_prefix(t, i + 1);
    } else {
        assert(t.take(i) =~= t);
    }
}

/// An array index read per JSON-pointer rules; nothing on an empty
/// token, a non-digit, a superfluous leading zero, or overflow.
fn parse_index_token(key: &String) -> (r: Option<usize>)
    ensures
        match spec_parse_index(key@) {
            Some(v) => r matches Some(x) && x == v,
            None => r is None,
        },
{
    let t = key.as_str();
    let len = t.unicode_len();
    if len == 0 {
        return None;
    }
    if len > 1 && t.get_char(0) == '0' {
        return None;
    }
    let mut acc: usize = 0;
    let mut i: usize = 0;
    while i < len
        invariant
            0 <= i <= len == t@.len(),
            t@ == key@,
            len > 0,
            len > 1 ==> t@[0] != '0',
            forall|j: int| 0 <= j < i ==> '0' <= #[trigger] t@[j] && t@[j] <= '9',
            acc == digits_val(t@.take(i as int)),
        decreases len - i,
    {
        let c = t.get_char(i);
        let d: usize = match c {
            '0' => 0,
            '1' => 1,
            '2' => 2,
            '3' => 3,
            '4' => 4,
            '5' => 5,
            '6' => 6,
            '7' => 7,
            '8' => 8,
            '9' => 9,
            _ => {
                proof {
                    assert(!('0' <= t@[i as int] && t@[i as int] <= '9'));
                    assert(!all_digits(t@));
                }
                return None;
            },
        };
        assert(d == (c as nat - '0' as nat));
        if acc > (usize::MAX - d) / 10 {
            proof {
                assert(t@.take(i + 1).drop_last() =~= t@.take(i as int));
                assert(t@.take(i + 1).last() == c);
                assert(acc * 10 + d > usize::MAX) by (nonlinear_arith)
                    requires
                        acc > (usize::MAX - d) / 10,
                        d <= 9,
                ;
                assert(digits_val(t@.take(i + 1)) > usize::MAX);
                lemma_digits_val_prefix(t@, i + 1);
            }
            return None;
        }
        proof {
            assert(t@.take(i + 1).drop_last() =~= t@.take(i as int));
            assert(t@.take(i + 1).last() == c);
        }
        acc = acc * 10 + d;
        i += 1;
    }
    proof {
        assert(t@.take(len as int) =~= t@);
    }
    Some(acc)
}

/// The first value under `key` in an object's field list.
fn obj_get<'a>(m: &'a Vec<(String, Json)>, key: &String) -> (r: Option<&'a Json>)
    ensures
        match spec_obj_get(m@, key@) {
            Some(v) => r matches Some(x) && *x == v,
            None => r is None,
        },
{
    let n = m.len();
    let mut i: usize = 0;
    proof {
        assert(m@.skip(0) =~= m@);
    }
    while i < n
        invariant
            0 <= i <= n == m@.len(),
            spec_obj_get(m@, key@) == spec_obj_get(m@.skip(i as int), key@),
        decreases n - i,
    {
        proof {
            assert(m@.skip(i as int)[0] == m@[i as int]);
            assert(m@.skip(i as int).drop_first() =~= m@.skip(i + 1));
        }
        if m[i].0 == *key {
            return Some(&m[i].1);
        }
        i += 1;
    }
    proof {
        assert(m@.skip(n as int) =~= Seq::<(String, Json)>::empty());
    }
    None
}

/// Follows a JSON pointer into a value, as `spec_pointer` says.
pub fn json_pointer<'a>(j: &'a Json, ptr: &str) -> (r: Option<&'a Json>)
    ensures
        match spec_pointer(*j, ptr@) {
            Some(v) => r matches Some(x) && *x == v,
            None => r is None,
        },
{
    let len = ptr.unicode_len();
    if len == 0 {
        return Some(j);
    }
    if ptr.get_char(0) != '/' {
        return None;
    }
    let mut cur: &Json = j;
    let mut rest: &str = ptr.substring_char(1, len);
    proof {
        crate::strutil::lemma_find_char_is_first(ptr@, '/', 0);
        assert(ptr@.take(0) =~= Seq::<char>::empty());
        assert(ptr@.skip(1) == rest@);
        assert(split_char(ptr@, '/').drop_first() =~= split_char(rest@, '/'));
    }
    loop
        invariant
            spec_pointer(*j, ptr@) == spec_ptr_lookup(*cur, split_char(rest@, '/')),
        decreases rest@.len(),
    {
        let rlen = rest.unicode_len();
        let k = find_char_in(rest, '/');
        let tok: &str = if k < rlen {
            rest.substring_char(0, k)
        } else {
            rest
        };
        let ghost toks = split_char(rest@, '/');
        proof {
            crate::strutil::lemma_find_char(rest@, '/');
            if k < rlen {
                assert(toks == seq![rest@.take(k as int)] + split_char(rest@.skip(k + 1), '/'));
                assert(toks[0] == tok@);
                assert(toks.drop_first() =~= split_char(rest@.skip(k + 1), '/'));
            } else {
                assert(toks == seq![rest@]);
                assert(toks[0] == tok@);
                assert(toks.drop_first() =~= Seq::<Seq<char>>::empty());
            }
            assert(toks.len() > 0);
        }
        let key = unescape_token(tok);
        let ghost prev = *cur;
        let step: Option<&Json> = match cur {
            Json::Obj(fields) => obj_get(fields, &key),
            Json::Arr(items) => {
                match parse_index_token(&key) {
                    Some(ix) => {
                        if ix < items.len() {
                            Some(&items[ix])
                        } else {
                            None
                        }
                    },
                    None => None,
                }
            },
            _ => None,
        };
        match step {
            Some(next_val) => {
                cur = next_val;
                proof {
                    assert(spec_ptr_lookup(prev, toks) == spec_ptr_lookup(
                        *cur,
                        toks.drop_first(),
                    ));
                }
            },
            None => {
                proof {
                    assert(spec_ptr_lookup(prev, toks) is None);
                }
                return None;
            },
        }
        if k < rlen {
            rest = rest.substring_char(k + 1, rlen);
        } else {
            proof {
                assert(toks.drop_first().len() == 0);
                assert(spec_ptr_lookup(*cur, toks.drop_first()) == Some(*cur));
            }
            return Some(cur);
        }
    }
}

#[verifier::external_type_specification]
#[verifier::external_body]
pub struct ExValue(serde_json::Value);

/// The tree a text denotes when it is valid JSON, with numbers in their
/// canonical rendering; nothing when it is not.  The result depends on
/// the text alone; it is given by `serde_json::from_str` below and is
/// not otherwise specified.
pub uninterp spec fn spec_json_parse(s: Seq<char>) -> Option<Json>;

/// Relies on `serde_json::from_str`: whether a text is valid JSON, and
/// which tree it denotes, are functions of the text alone, here named
/// `spec_json_parse`.  The error message is serde_json's diagnostic,
/// about which nothing is claimed.
#[verifier::external_body]
pub fn parse_json_text(s: &str) -> (r: Result<Json, String>)
    ensures
        r is Ok <==> spec_json_parse(s@) is Some,
        r matches Ok(j) ==> spec_json_parse(s@) == Some(j),
{
    match serde_json::from_str::<serde_json::Value>(s) {
        Ok(v) => Ok(json_of_value(&v)),
        Err(e) => Err(e.to_string()),
    }
}

/// Relies on `serde_json::Value`'s variants: rebuilds the parsed tree
/// one node at a time, rendering numbers with their `Display` form.
/// This is the recursive arm of `parse_json_text` and is called from
/// there alone: a `Value` is opaque here, so no termination measure for
/// the conversion could be stated in verified code.
#[verifier::external_body]
fn json_of_value(v: &serde_json::Value) -> Json {
    match v {
        serde_json::Value::Null => Json::Null,
        serde_json::Value::Bool(b) => Json::Bool(*b),
        serde_json::Value::Number(n) => Json::Num(n.to_string()),
        serde_json::Value::String(s) => Json::Text(s.clone()),
        serde_json::Value::Array(a) => Json::Arr(a.iter().map(json_of_value).collect()),
        serde_json::Value::Object(m) => Json::Obj(
            m.iter().map(|(k, x)| (k.clone(), json_of_value(x))).collect(),
        ),
    }
}

} // verus!
