//! Reading request targets: path prefixes and `key=value` query parameters.

use vstd::prelude::*;

verus! {

/// `p` is a prefix of `s`.
pub open spec fn is_prefix(p: Seq<char>, s: Seq<char>) -> bool {
    p.len() <= s.len() && s.subrange(0, p.len() as int) == p
}

/// Index of the first `c` in `s` at or after `i`, or `s.len()` when there is none.
pub open spec fn find_from(s: Seq<char>, c: char, i: int) -> int
    decreases s.len() - i,
{
    if i >= s.len() {
        s.len() as int
    } else if s[i] == c {
        i
    } else {
        find_from(s, c, i + 1)
    }
}

/// The query part of a request target: what follows its first `?`, up to the
/// next `?` or the end.
pub open spec fn query_of(url: Seq<char>) -> Option<Seq<char>> {
    let q = find_from(url, '?', 0);
    if q >= url.len() {
        None
    } else {
        Some(url.subrange(q + 1, find_from(url, '?', q + 1)))
    }
}

/// The value of one `key=value` parameter whose key is `a` or `b`; the value
/// runs from the first `=` to the end of the parameter.
pub open spec fn param_value(p: Seq<char>, a: Seq<char>, b: Seq<char>) -> Option<Seq<char>> {
    let e = find_from(p, '=', 0);
    if e < p.len() && (p.subrange(0, e) == a || p.subrange(0, e) == b) {
        Some(p.subrange(e + 1, p.len() as int))
    } else {
        None
    }
}

/// The first parameter of `q` that begins at or after `start` (a parameter
/// start) and has key `a` or `b`; parameters are separated by `&`.
pub open spec fn first_param_from(q: Seq<char>, a: Seq<char>, b: Seq<char>, start: int) -> Option<Seq<char>>
    decreases q.len() - start
    via first_param_from_decreases
{
    let end = find_from(q, '&', start);
    let found = param_value(q.subrange(start, end), a, b);
    if found is Some || end >= q.len() || start < 0 {
        found
    } else {
        first_param_from(q, a, b, end + 1)
    }
}

#[via_fn]
proof fn first_param_from_decreases(q: Seq<char>, a: Seq<char>, b: Seq<char>, start: int) {
    if 0 <= start <= q.len() {
        lemma_find_from_bounds(q, '&', start);
    }
}

/// The value of the first parameter of query `q` with key `a` or `b`.
pub open spec fn first_param(q: Seq<char>, a: Seq<char>, b: Seq<char>) -> Option<Seq<char>> {
    first_param_from(q, a, b, 0)
}

/// The value of the first query parameter of `url` with key `a` or `b`.
pub open spec fn url_param(url: Seq<char>, a: Seq<char>, b: Seq<char>) -> Option<Seq<char>> {
    match query_of(url) {
        Some(q) => first_param(q, a, b),
        None => None,
    }
}

pub open spec fn opt_view(o: Option<String>) -> Option<Seq<char>> {
    match o {
        Some(s) => Some(s@),
        None => None,
    }
}

proof fn lemma_find_from_bounds(s: Seq<char>, c: char, i: int)
    requires
        0 <= i <= s.len(),
    ensures
        i <= find_from(s, c, i) <= s.len(),
        find_from(s, c, i) < s.len() ==> s[find_from(s, c, i)] == c,
    decreases s.len() - i,
{
    if i < s.len() && s[i] != c {
        lemma_find_from_bounds(s, c, i + 1);
    }
}

/// Whether `s` begins with `p`.
pub fn has_prefix(s: &str, p: &str) -> (r: bool)
    ensures
        r == is_prefix(p@, s@),
{
    let n = s.unicode_len();
    let m = p.unicode_len();
    if m > n {
        return false;
    }
    let mut i: usize = 0;
    while i < m
        invariant
            m == p@.len(),
            n == s@.len(),
            m <= n,
            i <= m,
            forall|k: int| 0 <= k < i ==> s@[k] == p@[k],
        decreases m - i,
    {
        if s.get_char(i) != p.get_char(i) {
            assert(s@.subrange(0, m as int)[i as int] != p@[i as int]);
            return false;
        }
        i = i + 1;
    }
    assert(s@.subrange(0, m as int) =~= p@);
    true
}

/// Index of the first `c` in `s` at or after `i` (`s@.len()` when none).
fn find_char(s: &str, c: char, i: usize, n: usize) -> (r: usize)
    requires
        n == s@.len(),
        i <= n,
    ensures
        r == find_from(s@, c, i as int),
{
    let mut j: usize = i;
    while j < n
        invariant
            n == s@.len(),
            i <= j <= n,
            find_from(s@, c, i as int) == find_from(s@, c, j as int),
        decreases n - j,
    {
        if s.get_char(j) == c {
            return j;
        }
        j = j + 1;
    }
    j
}

/// Whether the characters of `s` from `from` to `to` are exactly `k`.
pub(crate) fn span_is(s: &str, from: usize, to: usize, k: &str) -> (r: bool)
    requires
        from <= to <= s@.len(),
    ensures
        r == (s@.subrange(from as int, to as int) == k@),
{
    let m = k.unicode_len();
    if to - from != m {
        return false;
    }
    let mut i: usize = 0;
    while i < m
        invariant
            m == k@.len(),
            to - from == m,
            from <= to <= s@.len(),
            i <= m,
            forall|j: int| 0 <= j < i ==> s@[from + j] == k@[j],
        decreases m - i,
    {
        if s.get_char(from + i) != k.get_char(i) {
            assert(s@.subrange(from as int, to as int)[i as int] != k@[i as int]);
            return false;
        }
        i = i + 1;
    }
    assert(s@.subrange(from as int, to as int) =~= k@);
    true
}

/// The value of the first query parameter of `url` whose key is `a` or `b`.
/// The query is what follows the first `?` up to the next one; parameters are
/// separated by `&`, and a parameter's key ends at its first `=`.
pub fn find_query_param(url: &str, a: &str, b: &str) -> (r: Option<String>)
    ensures
        opt_view(r) == url_param(url@, a@, b@),
{
    let n = url.unicode_len();
    let q = find_char(url, '?', 0, n);
    if q >= n {
        return None;
    }
    proof {
        lemma_find_from_bounds(url@, '?', 0);
        lemma_find_from_bounds(url@, '?', q + 1);
    }
    let qe = find_char(url, '?', q + 1, n);
    let query = url.substring_char(q + 1, qe);
    let ql = query.unicode_len();
    let mut start: usize = 0;
    loop
        invariant
            ql == query@.len(),
            start <= ql,
            query_of(url@) == Some(query@),
            first_param(query@, a@, b@) == first_param_from(query@, a@, b@, start as int),
        decreases ql - start,
    {
        let end = find_char(query, '&', start, ql);
        proof {
            lemma_find_from_bounds(query@, '&', start as int);
        }
        let param = query.substring_char(start, end);
        let pl = param.unicode_len();
        let e = find_char(param, '=', 0, pl);
        proof {
            lemma_find_from_bounds(param@, '=', 0);
        }
        if e < pl && (span_is(param, 0, e, a) || span_is(param, 0, e, b)) {
            let v = param.substring_char(e + 1, pl);
            return Some(String::from_str(v));
        }
        if end >= ql {
            return None;
        }
        start = end + 1;
    }
}

} // verus!
