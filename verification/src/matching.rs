//! Fuzzy scoring of search results and the order in which scored results
//! are shown.
use vstd::prelude::*;

use fuzzy_matcher::skim::SkimMatcherV2;
use fuzzy_matcher::FuzzyMatcher;

verus! {

broadcast use vstd::seq_lib::group_to_multiset_ensures;

/// The score that `SkimMatcherV2::default().fuzzy_match(choice, pattern)`
/// returns: `None` where `pattern` does not match `choice`.
pub uninterp spec fn skim_score(choice: Seq<char>, pattern: Seq<char>) -> Option<i64>;

pub open spec fn is_ascii_upper(c: char) -> bool {
    'A' <= c && c <= 'Z'
}

pub open spec fn ascii_lower(c: char) -> char {
    if is_ascii_upper(c) {
        ((c as u32) + 32) as char
    } else {
        c
    }
}

/// The matcher is case sensitive exactly when the pattern holds an ASCII
/// upper-case letter.
pub open spec fn has_ascii_upper(p: Seq<char>) -> bool {
    exists|i: int| 0 <= i < p.len() && is_ascii_upper(#[trigger] p[i])
}

pub open spec fn same_char(a: char, b: char, case_sensitive: bool) -> bool {
    if case_sensitive {
        a == b
    } else {
        ascii_lower(a) == ascii_lower(b)
    }
}

/// `pattern` occurs in `choice` in order, not necessarily contiguously.
pub open spec fn is_fuzzy_subsequence(choice: Seq<char>, pattern: Seq<char>, case_sensitive: bool) -> bool
    decreases choice.len(),
{
    if pattern.len() == 0 {
        true
    } else if choice.len() == 0 {
        false
    } else if same_char(choice[0], pattern[0], case_sensitive) {
        is_fuzzy_subsequence(choice.drop_first(), pattern.drop_first(), case_sensitive)
    } else {
        is_fuzzy_subsequence(choice.drop_first(), pattern, case_sensitive)
    }
}

/// Calls `SkimMatcherV2::fuzzy_match` of a default matcher. Its result is
/// `skim_score` of the two arguments; as the crate's source shows, an empty
/// pattern scores `Some(0)`, and a score exists exactly when the pattern is
/// a subsequence of the choice (compared case-insensitively on ASCII unless
/// the pattern has an ASCII upper-case letter). The value of a score is not stated.
#[verifier::external_body]
pub(crate) fn fuzzy_score(choice: &str, pattern: &str) -> (r: Option<i64>)
    ensures
        r == skim_score(choice@, pattern@),
        r is Some <==> is_fuzzy_subsequence(choice@, pattern@, has_ascii_upper(pattern@)),
        pattern@.len() == 0 ==> r == Some(0i64),
{
    SkimMatcherV2::default().fuzzy_match(choice, pattern)
}

pub open spec fn unwrap_or_zero(o: Option<i64>) -> i64 {
    match o {
        Some(s) => s,
        None => 0,
    }
}

// ---------------------------------------------------------------------------
// Ordering scored results. A result is its index among the candidates and
// its score.
/// `s` with `x` placed after every element whose score is not above its own.
pub open spec fn insert_by_score(s: Seq<(usize, i64)>, x: (usize, i64)) -> Seq<(usize, i64)>
    decreases s.len(),
{
    if s.len() == 0 || s.last().1 <= x.1 {
        s.push(x)
    } else {
        insert_by_score(s.drop_last(), x).push(s.last())
    }
}

/// `s` sorted by ascending score, equal scores keeping their order.
pub open spec fn sort_by_score(s: Seq<(usize, i64)>) -> Seq<(usize, i64)>
    decreases s.len(),
{
    if s.len() == 0 {
        s
    } else {
        insert_by_score(sort_by_score(s.drop_last()), s.last())
    }
}

pub open spec fn ascending(s: Seq<(usize, i64)>) -> bool {
    forall|i: int, j: int| 0 <= i <= j < s.len() ==> s[i].1 <= s[j].1
}

pub open spec fn indices(s: Seq<(usize, i64)>) -> Seq<usize> {
    s.map_values(|p: (usize, i64)| p.0)
}

pub open spec fn min_len(n: nat, max: usize) -> int {
    if n < max {
        n as int
    } else {
        max as int
    }
}

/// The results best first, at most `max` of them: sorted by ascending
/// score, reversed, and cut to `max`.
pub open spec fn best_first(s: Seq<(usize, i64)>, max: usize) -> Seq<usize> {
    indices(sort_by_score(s).reverse().take(min_len(s.len(), max)))
}

/// The `max` lowest-scoring results, shown from the highest to the lowest
/// of them: sorted by ascending score, cut to `max`, reversed.
pub open spec fn lowest_reversed(s: Seq<(usize, i64)>, max: usize) -> Seq<usize> {
    indices(sort_by_score(s).take(min_len(s.len(), max)).reverse())
}

/// The results sorted by ascending score.
pub open spec fn lowest_first(s: Seq<(usize, i64)>) -> Seq<usize> {
    indices(sort_by_score(s))
}

proof fn lemma_insert_at(s: Seq<(usize, i64)>, x: (usize, i64), p: int)
    requires
        0 <= p <= s.len(),
        p == 0 || s[p - 1].1 <= x.1,
        forall|k: int| p <= k < s.len() ==> s[k].1 > x.1,
    ensures
        insert_by_score(s, x) == s.insert(p, x),
    decreases s.len(),
{
    if p == s.len() {
        assert(s.push(x) =~= s.insert(p, x));
    } else {
        lemma_insert_at(s.drop_last(), x, p);
        assert(s.drop_last().insert(p, x).push(s.last()) =~= s.insert(p, x));
    }
}

proof fn lemma_sort_len(s: Seq<(usize, i64)>)
    ensures
        sort_by_score(s).len() == s.len(),
    decreases s.len(),
{
    if s.len() > 0 {
        lemma_sort_len(s.drop_last());
        lemma_insert_len(sort_by_score(s.drop_last()), s.last());
    }
}

proof fn lemma_insert_len(s: Seq<(usize, i64)>, x: (usize, i64))
    ensures
        insert_by_score(s, x).len() == s.len() + 1,
    decreases s.len(),
{
    if s.len() > 0 && s.last().1 > x.1 {
        lemma_insert_len(s.drop_last(), x);
    }
}

/// Sorts `v` by ascending score; equal scores keep their order.
pub fn sort_scored(v: &Vec<(usize, i64)>) -> (r: Vec<(usize, i64)>)
    ensures
        r@ == sort_by_score(v@),
{
    let mut out: Vec<(usize, i64)> = Vec::new();
    let mut i: usize = 0;
    assert(v@.take(0) =~= Seq::<(usize, i64)>::empty());
    while i < v.len()
        invariant
            i <= v.len(),
            out@ == sort_by_score(v@.take(i as int)),
        decreases v.len() - i,
    {
        let x = v[i];
        let mut p = out.len();
        while p > 0 && out[p - 1].1 > x.1
            invariant
                p <= out.len(),
                forall|k: int| p <= k < out.len() ==> out@[k].1 > x.1,
            decreases p,
        {
            p = p - 1;
        }
        proof {
            lemma_insert_at(out@, x, p as int);
            assert(v@.take(i + 1).drop_last() =~= v@.take(i as int));
            assert(v@.take(i + 1).last() == x);
        }
        out.insert(p, x);
        i = i + 1;
    }
    assert(v@.take(v.len() as int) =~= v@);
    out
}

/// The results best first, at most `max` of them.
pub fn take_best_first(v: &Vec<(usize, i64)>, max: usize) -> (r: Vec<usize>)
    ensures
        r@ == best_first(v@, max),
{
    let sorted = sort_scored(v);
    proof {
        lemma_sort_len(v@);
    }
    let n = sorted.len();
    let count = if n < max {
        n
    } else {
        max
    };
    let mut out: Vec<usize> = Vec::new();
    let mut k: usize = 0;
    while k < count
        invariant
            n == sorted.len(),
            count <= n,
            k <= count,
            out@ == indices(sorted@.reverse().take(k as int)),
        decreases count - k,
    {
        out.push(sorted[n - 1 - k].0);
        assert(indices(sorted@.reverse().take(k + 1)) =~= indices(
            sorted@.reverse().take(k as int),
        ).push(sorted@[n - 1 - k].0));
        k = k + 1;
    }
    out
}

/// The `max` lowest-scoring results, highest of them first.
pub fn take_lowest_reversed(v: &Vec<(usize, i64)>, max: usize) -> (r: Vec<usize>)
    ensures
        r@ == lowest_reversed(v@, max),
{
    let sorted = sort_scored(v);
    proof {
        lemma_sort_len(v@);
    }
    let n = sorted.len();
    let count = if n < max {
        n
    } else {
        max
    };
    let mut out: Vec<usize> = Vec::new();
    let mut k: usize = 0;
    while k < count
        invariant
            n == sorted.len(),
            count <= n,
            k <= count,
            out@ == indices(sorted@.take(count as int).reverse().take(k as int)),
        decreases count - k,
    {
        out.push(sorted[count - 1 - k].0);
        assert(indices(sorted@.take(count as int).reverse().take(k + 1)) =~= indices(
            sorted@.take(count as int).reverse().take(k as int),
        ).push(sorted@[count - 1 - k].0));
        k = k + 1;
    }
    assert(sorted@.take(count as int).reverse().take(count as int) =~= sorted@.take(
        count as int,
    ).reverse());
    out
}

/// The results sorted by ascending score.
pub fn take_lowest_first(v: &Vec<(usize, i64)>) -> (r: Vec<usize>)
    ensures
        r@ == lowest_first(v@),
{
    let sorted = sort_scored(v);
    let mut out: Vec<usize> = Vec::new();
    let mut k: usize = 0;
    while k < sorted.len()
        invariant
            k <= sorted.len(),
            out@ == indices(sorted@.take(k as int)),
        decreases sorted.len() - k,
    {
        out.push(sorted[k].0);
        assert(indices(sorted@.take(k + 1)) =~= indices(sorted@.take(k as int)).push(
            sorted@[k as int].0,
        ));
        k = k + 1;
    }
    assert(sorted@.take(sorted.len() as int) =~= sorted@);
    out
}


/// Where `insert_by_score` places its element.
pub open spec fn insert_pos(s: Seq<(usize, i64)>, x: (usize, i64)) -> int
    decreases s.len(),
{
    if s.len() == 0 || s.last().1 <= x.1 {
        s.len() as int
    } else {
        insert_pos(s.drop_last(), x)
    }
}

proof fn lemma_insert_pos(s: Seq<(usize, i64)>, x: (usize, i64))
    ensures
        0 <= insert_pos(s, x) <= s.len(),
        insert_pos(s, x) == 0 || s[insert_pos(s, x) - 1].1 <= x.1,
        forall|k: int| insert_pos(s, x) <= k < s.len() ==> s[k].1 > x.1,
        insert_by_score(s, x) == s.insert(insert_pos(s, x), x),
    decreases s.len(),
{
    if s.len() > 0 && s.last().1 > x.1 {
        lemma_insert_pos(s.drop_last(), x);
        assert forall|k: int| insert_pos(s, x) <= k < s.len() implies s[k].1 > x.1 by {
            if k < s.len() - 1 {
                assert(s[k] == s.drop_last()[k]);
            }
        }
    }
    lemma_insert_at(s, x, insert_pos(s, x));
}

proof fn lemma_insert_ascending(s: Seq<(usize, i64)>, x: (usize, i64))
    requires
        ascending(s),
    ensures
        ascending(insert_by_score(s, x)),
{
    lemma_insert_pos(s, x);
    let p = insert_pos(s, x);
    let t = insert_by_score(s, x);
    assert forall|a: int, b: int| 0 <= a <= b < t.len() implies t[a].1 <= t[b].1 by {
        if a < p && b > p {
            assert(t[a] == s[a] && t[b] == s[b - 1]);
        } else if a < p && b == p {
            assert(t[a] == s[a]);
            assert(s[a].1 <= s[p - 1].1);
        } else if a == p && b > p {
            assert(t[b] == s[b - 1]);
        } else if a > p {
            assert(t[a] == s[a - 1] && t[b] == s[b - 1]);
        } else if b < p {
            assert(t[a] == s[a] && t[b] == s[b]);
        }
    }
}

proof fn lemma_insert_multiset(s: Seq<(usize, i64)>, x: (usize, i64))
    ensures
        insert_by_score(s, x).to_multiset() =~= s.to_multiset().insert(x),
    decreases s.len(),
{
    if s.len() > 0 && s.last().1 > x.1 {
        lemma_insert_multiset(s.drop_last(), x);
        assert(s.drop_last().push(s.last()) =~= s);
    }
}

/// Sorting scored results orders them by ascending score and keeps each of
/// them, as many times as it occurs.
pub proof fn law_sort_by_score(s: Seq<(usize, i64)>)
    ensures
        ascending(sort_by_score(s)),
        sort_by_score(s).to_multiset() =~= s.to_multiset(),
        sort_by_score(s).len() == s.len(),
    decreases s.len(),
{
    lemma_sort_len(s);
    if s.len() > 0 {
        law_sort_by_score(s.drop_last());
        lemma_insert_ascending(sort_by_score(s.drop_last()), s.last());
        lemma_insert_multiset(sort_by_score(s.drop_last()), s.last());
        assert(s.drop_last().push(s.last()) =~= s);
    }
}

/// The results shown best first are no more than `max`, each one of the
/// candidates, and in descending order of score.
pub proof fn law_best_first(s: Seq<(usize, i64)>, max: usize)
    ensures
        best_first(s, max).len() <= max,
        best_first(s, max).len() == min_len(s.len(), max),
        forall|k: int|
            0 <= k < best_first(s, max).len() ==> exists|j: int|
                0 <= j < s.len() && s[j].0 == #[trigger] best_first(s, max)[k],
        forall|a: int, b: int|
            0 <= a <= b < min_len(s.len(), max) ==> sort_by_score(s).reverse()[a].1 >= sort_by_score(
                s,
            ).reverse()[b].1,
{
    law_sort_by_score(s);
    let t = sort_by_score(s);
    let n = min_len(s.len(), max);
    assert forall|k: int| 0 <= k < best_first(s, max).len() implies exists|j: int|
        0 <= j < s.len() && s[j].0 == #[trigger] best_first(s, max)[k] by {
        let e = t.reverse()[k];
        assert(e == t[t.len() - 1 - k]);
        assert(t.contains(e));
        assert(t.to_multiset().count(e) > 0);
        assert(s.to_multiset().count(e) > 0);
        assert(s.contains(e));
        let j = choose|j: int| 0 <= j < s.len() && s[j] == e;
        assert(s[j].0 == best_first(s, max)[k]);
    }
    assert forall|a: int, b: int| 0 <= a <= b < n implies t.reverse()[a].1 >= t.reverse()[b].1 by {
        assert(t.reverse()[a] == t[t.len() - 1 - a]);
        assert(t.reverse()[b] == t[t.len() - 1 - b]);
    }
}


/// The `max` lowest-scoring results are no more than `max`, each one of the
/// candidates, shown in descending order of score, and none of the
/// candidates left out scores below one that is shown.
pub proof fn law_lowest_reversed(s: Seq<(usize, i64)>, max: usize)
    ensures
        lowest_reversed(s, max).len() == min_len(s.len(), max),
        forall|k: int|
            0 <= k < lowest_reversed(s, max).len() ==> exists|j: int|
                0 <= j < s.len() && s[j].0 == #[trigger] lowest_reversed(s, max)[k],
        forall|a: int, b: int|
            0 <= a <= b < min_len(s.len(), max) ==> sort_by_score(s).take(min_len(s.len(), max)).reverse()[a].1
                >= sort_by_score(s).take(min_len(s.len(), max)).reverse()[b].1,
        forall|a: int, b: int|
            0 <= a < min_len(s.len(), max) <= b < s.len() ==> sort_by_score(s)[a].1
                <= sort_by_score(s)[b].1,
{
    law_sort_by_score(s);
    let t = sort_by_score(s);
    let n = min_len(s.len(), max);
    assert forall|k: int| 0 <= k < lowest_reversed(s, max).len() implies exists|j: int|
        0 <= j < s.len() && s[j].0 == #[trigger] lowest_reversed(s, max)[k] by {
        let e = t.take(n).reverse()[k];
        assert(e == t[n - 1 - k]);
        assert(t.contains(e));
        assert(t.to_multiset().count(e) > 0);
        assert(s.to_multiset().count(e) > 0);
        assert(s.contains(e));
        let j = choose|j: int| 0 <= j < s.len() && s[j] == e;
        assert(s[j].0 == lowest_reversed(s, max)[k]);
    }
    assert forall|a: int, b: int| 0 <= a <= b < n implies t.take(n).reverse()[a].1 >= t.take(
        n,
    ).reverse()[b].1 by {
        assert(t.take(n).reverse()[a] == t[n - 1 - a]);
        assert(t.take(n).reverse()[b] == t[n - 1 - b]);
    }
}


proof fn lemma_sorted_members(s: Seq<(usize, i64)>)
    ensures
        sort_by_score(s).len() == s.len(),
        forall|k: int|
            0 <= k < sort_by_score(s).len() ==> s.contains(#[trigger] sort_by_score(s)[k]),
{
    law_sort_by_score(s);
    let t = sort_by_score(s);
    assert forall|k: int| 0 <= k < t.len() implies s.contains(#[trigger] t[k]) by {
        assert(t.contains(t[k]));
        assert(t.to_multiset().count(t[k]) > 0);
    }
}

/// Sorting by score neither adds nor drops a result: an index is shown in
/// ascending order of score exactly when some candidate has it.
pub proof fn lemma_lowest_first_members(s: Seq<(usize, i64)>, j: usize)
    ensures
        lowest_first(s).contains(j) <==> exists|k: int| 0 <= k < s.len() && (#[trigger] s[k]).0 == j,
{
    law_sort_by_score(s);
    let t = sort_by_score(s);
    if lowest_first(s).contains(j) {
        let p = choose|p: int| 0 <= p < lowest_first(s).len() && lowest_first(s)[p] == j;
        assert(t.contains(t[p]));
        assert(t.to_multiset().count(t[p]) > 0);
        assert(s.to_multiset().count(t[p]) > 0);
        assert(s.contains(t[p]));
        let k = choose|k: int| 0 <= k < s.len() && s[k] == t[p];
        assert(s[k].0 == j);
    }
    if exists|k: int| 0 <= k < s.len() && (#[trigger] s[k]).0 == j {
        let k = choose|k: int| 0 <= k < s.len() && (#[trigger] s[k]).0 == j;
        assert(s.contains(s[k]));
        assert(s.to_multiset().count(s[k]) > 0);
        assert(t.to_multiset().count(s[k]) > 0);
        assert(t.contains(s[k]));
        let p = choose|p: int| 0 <= p < t.len() && t[p] == s[k];
        assert(lowest_first(s)[p] == j);
    }
}

/// Where every candidate's index is below `bound`, so is every index that
/// an ordering of them gives.
pub proof fn lemma_orders_bounded(s: Seq<(usize, i64)>, max: usize, bound: int)
    requires
        forall|k: int| 0 <= k < s.len() ==> (#[trigger] s[k]).0 < bound,
    ensures
        forall|k: int| 0 <= k < best_first(s, max).len() ==> #[trigger] best_first(s, max)[k] < bound,
        forall|k: int|
            0 <= k < lowest_reversed(s, max).len() ==> #[trigger] lowest_reversed(s, max)[k] < bound,
        forall|k: int| 0 <= k < lowest_first(s).len() ==> #[trigger] lowest_first(s)[k] < bound,
{
    lemma_sorted_members(s);
    let t = sort_by_score(s);
    let n = min_len(s.len(), max);
    assert forall|k: int| 0 <= k < t.len() implies (#[trigger] t[k]).0 < bound by {
        assert(s.contains(t[k]));
    }
    assert forall|k: int| 0 <= k < best_first(s, max).len() implies #[trigger] best_first(s, max)[k]
        < bound by {
        assert(t.reverse().take(n)[k] == t[t.len() - 1 - k]);
    }
    assert forall|k: int| 0 <= k < lowest_reversed(s, max).len() implies #[trigger] lowest_reversed(
        s,
        max,
    )[k] < bound by {
        assert(t.take(n).reverse()[k] == t[n - 1 - k]);
    }
}

} // verus!
