//! System actions (shut down, reboot, sleep, hibernate): how a query ranks them.
use vstd::prelude::*;

use crate::matching::{
    fuzzy_score, lowest_first, skim_score, sort_by_score, take_lowest_first,
};
use crate::text::{chars_of, strip_prefix_char, strip_prefix_of, string_from_chars};

verus! {

broadcast use vstd::seq_lib::group_to_multiset_ensures;

/// The prefix that restricts a query to system actions.
pub const SYSTEM_PREFIX: char = '*';

/// The least score an action's name must reach to be shown for a query
/// without the prefix; with it, any positive score will do.
pub const SYSTEM_MIN_SCORE: i64 = 65;

/// A score that shows its action: a positive one for a query with the
/// prefix, one that reaches the least score otherwise.
pub open spec fn system_score_kept(score: Option<i64>, explicit: bool) -> Option<i64> {
    match score {
        Some(s) => if (explicit && s > 0) || (!explicit && s >= SYSTEM_MIN_SCORE) {
            Some(s)
        } else {
            None
        },
        None => None,
    }
}

pub fn keep_system_score(score: Option<i64>, explicit: bool) -> (r: Option<i64>)
    ensures
        r == system_score_kept(score, explicit),
{
    match score {
        Some(s) => if (explicit && s > 0) || (!explicit && s >= SYSTEM_MIN_SCORE) {
            Some(s)
        } else {
            None
        },
        None => None,
    }
}

/// The actions that `q` finds among `names`, with their indices and scores.
pub open spec fn system_candidates(names: Seq<Seq<char>>, q: Seq<char>, explicit: bool) -> Seq<
    (usize, i64),
>
    decreases names.len(),
{
    if names.len() == 0 {
        Seq::empty()
    } else {
        let prev = system_candidates(names.drop_last(), q, explicit);
        match system_score_kept(skim_score(names.last(), q), explicit) {
            Some(s) => prev.push(((names.len() - 1) as usize, s)),
            None => prev,
        }
    }
}

/// The actions shown for `query`, in ascending order of score.
pub open spec fn system_results(names: Seq<Seq<char>>, query: Seq<char>) -> Seq<usize> {
    let explicit = query.len() > 0 && query[0] == SYSTEM_PREFIX;
    lowest_first(system_candidates(names, strip_prefix_char(query, SYSTEM_PREFIX), explicit))
}

proof fn lemma_system_candidates(names: Seq<Seq<char>>, q: Seq<char>, explicit: bool)
    requires
        names.len() <= usize::MAX,
    ensures
        forall|k: int|
            0 <= k < system_candidates(names, q, explicit).len() ==> (
            #[trigger] system_candidates(names, q, explicit)[k]).0 < names.len()
                && system_score_kept(
                skim_score(names[system_candidates(names, q, explicit)[k].0 as int], q),
                explicit,
            ) == Some(system_candidates(names, q, explicit)[k].1),
    decreases names.len(),
{
    if names.len() > 0 {
        lemma_system_candidates(names.drop_last(), q, explicit);
        let prev = system_candidates(names.drop_last(), q, explicit);
        assert forall|k: int| 0 <= k < system_candidates(names, q, explicit).len() implies (
        #[trigger] system_candidates(names, q, explicit)[k]).0 < names.len() && system_score_kept(
            skim_score(names[system_candidates(names, q, explicit)[k].0 as int], q),
            explicit,
        ) == Some(system_candidates(names, q, explicit)[k].1) by {
            if k < prev.len() {
                assert(system_candidates(names, q, explicit)[k] == prev[k]);
                assert(names[prev[k].0 as int] == names.drop_last()[prev[k].0 as int]);
            } else {
                assert(system_candidates(names, q, explicit)[k].0 == names.len() - 1);
            }
        }
    }
}

proof fn lemma_system_candidates_complete(
    names: Seq<Seq<char>>,
    q: Seq<char>,
    explicit: bool,
    i: int,
    s: i64,
)
    requires
        names.len() <= usize::MAX,
        0 <= i < names.len(),
        system_score_kept(skim_score(names[i], q), explicit) == Some(s),
    ensures
        system_candidates(names, q, explicit).contains((i as usize, s)),
    decreases names.len(),
{
    let prev = system_candidates(names.drop_last(), q, explicit);
    if i < names.len() - 1 {
        assert(names.drop_last()[i] == names[i]);
        lemma_system_candidates_complete(names.drop_last(), q, explicit, i, s);
        let k = choose|k: int| 0 <= k < prev.len() && prev[k] == (i as usize, s);
        assert(system_candidates(names, q, explicit)[k] == prev[k]);
    } else {
        assert(system_candidates(names, q, explicit)[prev.len() as int] == (i as usize, s));
    }
}

/// Which system actions a query shows: with the `*` prefix, exactly those
/// whose name scores above zero against the rest of the query; without
/// it, exactly those whose name scores at least 65 against the query.
pub proof fn law_actions_shown(names: Seq<Seq<char>>, query: Seq<char>, i: int)
    requires
        names.len() <= usize::MAX,
        0 <= i < names.len(),
    ensures
        query.len() > 0 && query[0] == '*' ==> (system_results(names, query).contains(i as usize)
            <==> match skim_score(names[i], query.drop_first()) {
            Some(s) => s > 0,
            None => false,
        }),
        !(query.len() > 0 && query[0] == '*') ==> (system_results(names, query).contains(
            i as usize,
        ) <==> match skim_score(names[i], query) {
            Some(s) => s >= 65,
            None => false,
        }),
{
    let explicit = query.len() > 0 && query[0] == SYSTEM_PREFIX;
    let q = strip_prefix_char(query, SYSTEM_PREFIX);
    let c = system_candidates(names, q, explicit);
    lemma_system_candidates(names, q, explicit);
    crate::matching::lemma_lowest_first_members(c, i as usize);
    if system_results(names, query).contains(i as usize) {
        let k = choose|k: int| 0 <= k < c.len() && (#[trigger] c[k]).0 == i as usize;
        assert(system_score_kept(skim_score(names[c[k].0 as int], q), explicit) == Some(c[k].1));
    }
    match system_score_kept(skim_score(names[i], q), explicit) {
        Some(s) => {
            lemma_system_candidates_complete(names, q, explicit, i, s);
            let k = choose|k: int| 0 <= k < c.len() && c[k] == (i as usize, s);
            assert(c[k].0 == i as usize);
        },
        None => {},
    }
}

/// Every system action shown for a query matches it: its name scores
/// against the query (its prefix removed) above zero where the query has
/// the prefix, and at least the least score where it has not. (The names
/// are those of a `Vec`, so their number fits in a `usize`.)
pub proof fn law_shown_actions_match(names: Seq<Seq<char>>, query: Seq<char>)
    requires
        names.len() <= usize::MAX,
    ensures
        system_results(names, query).len() <= names.len(),
        forall|k: int|
            0 <= k < system_results(names, query).len() ==> #[trigger] system_results(names, query)[k]
                < names.len() && match skim_score(
                names[system_results(names, query)[k] as int],
                strip_prefix_char(query, SYSTEM_PREFIX),
            ) {
                Some(s) => if query.len() > 0 && query[0] == SYSTEM_PREFIX {
                    s > 0
                } else {
                    s >= SYSTEM_MIN_SCORE
                },
                None => false,
            },
{
    let explicit = query.len() > 0 && query[0] == SYSTEM_PREFIX;
    let q = strip_prefix_char(query, SYSTEM_PREFIX);
    let c = system_candidates(names, q, explicit);
    lemma_system_candidates(names, q, explicit);
    lemma_system_candidates_len(names, q, explicit);
    crate::matching::law_sort_by_score(c);
    let order = lowest_first(c);
    let t = sort_by_score(c);
    assert forall|k: int| 0 <= k < order.len() implies #[trigger] order[k] < names.len() && match skim_score(
        names[order[k] as int],
        q,
    ) {
        Some(s) => if explicit {
            s > 0
        } else {
            s >= SYSTEM_MIN_SCORE
        },
        None => false,
    } by {
        assert(t.contains(t[k]));
        assert(t.to_multiset().count(t[k]) > 0);
        assert(c.to_multiset().count(t[k]) > 0);
        assert(c.contains(t[k]));
        let j = choose|j: int| 0 <= j < c.len() && c[j] == t[k];
        assert(order[k] == c[j].0);
        assert(system_score_kept(skim_score(names[c[j].0 as int], q), explicit) == Some(c[j].1));
    }
}

proof fn lemma_system_candidates_len(names: Seq<Seq<char>>, q: Seq<char>, explicit: bool)
    ensures
        system_candidates(names, q, explicit).len() <= names.len(),
    decreases names.len(),
{
    if names.len() > 0 {
        lemma_system_candidates_len(names.drop_last(), q, explicit);
    }
}

/// The system actions named `names` that are shown for `query`, as indices.
pub fn rank_system_entries(names: &Vec<String>, query: &str) -> (r: Vec<usize>)
    ensures
        r@ == system_results(names.deep_view(), query@),
{
    let qc = chars_of(query);
    let explicit = qc.len() > 0 && qc[0] == SYSTEM_PREFIX;
    let q = string_from_chars(&strip_prefix_of(&qc, SYSTEM_PREFIX));
    let ghost nv = names.deep_view();
    let mut cands: Vec<(usize, i64)> = Vec::new();
    let mut i: usize = 0;
    assert(nv.take(0) =~= Seq::<Seq<char>>::empty());
    while i < names.len()
        invariant
            i <= names.len(),
            nv == names.deep_view(),
            q@ == strip_prefix_char(query@, SYSTEM_PREFIX),
            explicit == (query@.len() > 0 && query@[0] == SYSTEM_PREFIX),
            cands@ == system_candidates(nv.take(i as int), q@, explicit),
        decreases names.len() - i,
    {
        assert(nv.take(i + 1).drop_last() =~= nv.take(i as int));
        assert(nv.take(i + 1).last() == names[i as int]@);
        if let Some(s) = keep_system_score(fuzzy_score(names[i].as_str(), q.as_str()), explicit) {
            cands.push((i, s));
        }
        i = i + 1;
    }
    assert(nv.take(names.len() as int) =~= nv);
    take_lowest_first(&cands)
}

} // verus!
