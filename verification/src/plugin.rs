//! Plugins: the queries handed to them, the order of what they answer, and
//! how their results look.
use vstd::prelude::*;
use vstd::string::StringExecFns;

use crate::desktop::opt_str_view;
use crate::matching::{fuzzy_score, lowest_first, min_len, skim_score, take_lowest_first};
use crate::text::{chars_of, strip_prefix_char, strip_prefix_of, string_from_chars};

verus! {

/// A result or sidebar action that a plugin gives.
#[derive(Debug, Clone)]
pub struct PluginEntry {
    pub name: String,
    pub description: Option<String>,
    pub icon: Option<String>,
}

impl View for PluginEntry {
    type V = (Seq<char>, Option<Seq<char>>, Option<Seq<char>>);

    open spec fn view(&self) -> (Seq<char>, Option<Seq<char>>, Option<Seq<char>>) {
        (self.name@, opt_str_view(self.description), opt_str_view(self.icon))
    }
}

/// The query handed to a plugin whose prefix is `prefix`: the query
/// without that prefix; none where nothing is left.
pub open spec fn plugin_query_of(query: Seq<char>, prefix: char) -> Option<Seq<char>> {
    let q = strip_prefix_char(query, prefix);
    if q.len() == 0 {
        None
    } else {
        Some(q)
    }
}

pub fn plugin_query(query: &str, prefix: char) -> (r: Option<String>)
    ensures
        opt_str_view(r) == plugin_query_of(query@, prefix),
{
    let q = strip_prefix_of(&chars_of(query), prefix);
    if q.len() == 0 {
        None
    } else {
        Some(string_from_chars(&q))
    }
}

/// The positions of the results that the query does not match, in order.
pub open spec fn unmatched(keys: Seq<Option<i64>>) -> Seq<usize>
    decreases keys.len(),
{
    if keys.len() == 0 {
        Seq::empty()
    } else {
        let prev = unmatched(keys.drop_last());
        if keys.last() is None {
            prev.push((keys.len() - 1) as usize)
        } else {
            prev
        }
    }
}

/// The positions and scores of the results that the query matches, in order.
pub open spec fn matched(keys: Seq<Option<i64>>) -> Seq<(usize, i64)>
    decreases keys.len(),
{
    if keys.len() == 0 {
        Seq::empty()
    } else {
        let prev = matched(keys.drop_last());
        match keys.last() {
            Some(s) => prev.push(((keys.len() - 1) as usize, s)),
            None => prev,
        }
    }
}

/// The order in which a plugin's results are shown, given each one's
/// score (`None` where the query does not match it): where the plugin asks
/// for sorting, the unmatched ones, then the matched ones by ascending
/// score; all of it last first.
pub open spec fn plugin_order_of(keys: Seq<Option<i64>>, sort: bool) -> Seq<usize> {
    let base = if sort {
        unmatched(keys) + lowest_first(matched(keys))
    } else {
        Seq::new(keys.len(), |i: int| i as usize)
    };
    base.reverse()
}

/// The order in which results with the scores `keys` are shown.
pub fn order_plugin_results(keys: &Vec<Option<i64>>, sort: bool) -> (r: Vec<usize>)
    ensures
        r@ == plugin_order_of(keys@, sort),
{
    let mut base: Vec<usize> = Vec::new();
    if sort {
        let mut matched_keys: Vec<(usize, i64)> = Vec::new();
        let mut i: usize = 0;
        assert(keys@.take(0) =~= Seq::<Option<i64>>::empty());
        while i < keys.len()
            invariant
                i <= keys.len(),
                base@ == unmatched(keys@.take(i as int)),
                matched_keys@ == matched(keys@.take(i as int)),
            decreases keys.len() - i,
        {
            assert(keys@.take(i + 1).drop_last() =~= keys@.take(i as int));
            match keys[i] {
                Some(s) => matched_keys.push((i, s)),
                None => base.push(i),
            }
            i = i + 1;
        }
        assert(keys@.take(keys.len() as int) =~= keys@);
        let sorted = take_lowest_first(&matched_keys);
        let mut k: usize = 0;
        let ghost front = base@;
        while k < sorted.len()
            invariant
                k <= sorted.len(),
                base@ == front + sorted@.take(k as int),
            decreases sorted.len() - k,
        {
            base.push(sorted[k]);
            assert(sorted@.take(k + 1) =~= sorted@.take(k as int).push(sorted@[k as int]));
            k = k + 1;
        }
        assert(sorted@.take(sorted.len() as int) =~= sorted@);
    } else {
        let mut i: usize = 0;
        while i < keys.len()
            invariant
                i <= keys.len(),
                base@ =~= Seq::new(i as nat, |j: int| j as usize),
            decreases keys.len() - i,
        {
            base.push(i);
            i = i + 1;
        }
    }
    let mut out: Vec<usize> = Vec::new();
    let n = base.len();
    let mut k: usize = 0;
    while k < n
        invariant
            n == base.len(),
            k <= n,
            out@ == base@.reverse().take(k as int),
        decreases n - k,
    {
        out.push(base[n - 1 - k]);
        assert(base@.reverse().take(k + 1) =~= base@.reverse().take(k as int).push(
            base@[n - 1 - k],
        ));
        k = k + 1;
    }
    assert(base@.reverse().take(n as int) =~= base@.reverse());
    out
}

pub open spec fn plugin_names(v: Seq<PluginEntry>) -> Seq<Seq<char>> {
    v.map_values(|e: PluginEntry| e.name@)
}

/// The scores of the names `names` against `q`.
pub open spec fn name_scores(names: Seq<Seq<char>>, q: Seq<char>) -> Seq<Option<i64>> {
    names.map_values(|n: Seq<char>| skim_score(n, q))
}

/// The results of a plugin shown for the query `q` (its prefix removed):
/// the first `max` of them, in the order `plugin_order_of` gives.
pub open spec fn plugin_results(entries: Seq<PluginEntry>, q: Seq<char>, sort: bool, max: usize) -> Seq<
    usize,
> {
    plugin_order_of(name_scores(plugin_names(entries.take(min_len(entries.len(), max))), q), sort)
}

/// The results of a plugin shown for `q`, as indices into `entries`.
pub fn rank_plugin_results(entries: &Vec<PluginEntry>, q: &str, sort: bool, max_entries: usize) -> (r:
    Vec<usize>)
    ensures
        r@ == plugin_results(entries@, q@, sort, max_entries),
{
    let n = if entries.len() < max_entries {
        entries.len()
    } else {
        max_entries
    };
    let ghost names = plugin_names(entries@.take(n as int));
    let mut keys: Vec<Option<i64>> = Vec::new();
    let mut i: usize = 0;
    while i < n
        invariant
            n <= entries.len(),
            i <= n,
            names == plugin_names(entries@.take(n as int)),
            keys@.len() == i,
            sort ==> keys@ =~= name_scores(names, q@).take(i as int),
        decreases n - i,
    {
        if sort {
            keys.push(fuzzy_score(entries[i].name.as_str(), q));
        } else {
            keys.push(None);
        }
        proof {
            if sort {
                assert(entries@.take(n as int)[i as int] == entries@[i as int]);
                assert(name_scores(names, q@)[i as int] == skim_score(entries@[i as int].name@, q@));
            }
        }
        i = i + 1;
    }
    let ghost full = name_scores(names, q@);
    assert(full.len() == n);
    if sort {
        assert(keys@ =~= full.take(n as int));
        assert(full.take(n as int) =~= full);
    }
    let r = order_plugin_results(&keys, sort);
    assert(plugin_order_of(keys@, sort) =~= plugin_order_of(full, sort));
    r
}


/// The icon of a plugin's result: its own, or a puzzle piece.
pub open spec fn plugin_icon_of(icon: Option<Seq<char>>) -> Seq<char> {
    match icon {
        Some(i) => i,
        None => "puzzle-piece-symbolic"@,
    }
}

pub fn plugin_icon(entry: &PluginEntry) -> (r: String)
    ensures
        r@ == plugin_icon_of(entry@.2),
{
    match &entry.icon {
        Some(i) => i.clone(),
        None => String::from_str("puzzle-piece-symbolic"),
    }
}

/// The description under a result in the sidebar: none for an empty one.
pub fn sidebar_description(comment: &str) -> (r: Option<String>)
    ensures
        opt_str_view(r) == if comment@.len() > 0 {
            Some(comment@)
        } else {
            None::<Seq<char>>
        },
{
    if comment.is_empty() {
        None
    } else {
        Some(comment.to_owned())
    }
}

} // verus!
