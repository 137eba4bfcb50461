//! Files: the search request made of a query, the results read back from
//! the file index, and the icon that stands for a file.
use vstd::prelude::*;
use vstd::string::StringExecFns;

use mime_type::{MimeFormat, MimeType};

use crate::desktop::opt_str_view;
use crate::matching::{
    best_first, fuzzy_score, law_best_first, law_sort_by_score, min_len, skim_score, sort_by_score,
    take_best_first,
};
use crate::text::{
    chars_eq, chars_of, chars_of_string, contains_infix, ends_with, has_infix, lines, lines_of,
    lowercase, lowercase_string, replace_all, replace_chars, slice_chars, split_chars, split_on,
    string_from_chars, strip_prefix_char, strip_prefix_of, trim, trim_chars, trim_end, trim_start,
};

verus! {

broadcast use vstd::seq_lib::group_to_multiset_ensures;

/// The prefix that restricts a query to files.
pub const FILE_PREFIX: char = '/';

/// What the file index is asked for.
#[derive(Debug, Clone)]
pub struct FileSearch {
    pub term: String,
    pub folders_only: bool,
}

/// The search that `query` asks for: none for an empty query; a query that
/// ends with `/` asks for folders only, and loses that `/`.
pub open spec fn file_search_of(query: Seq<char>) -> Option<(Seq<char>, bool)> {
    let q = strip_prefix_char(query, FILE_PREFIX);
    if q.len() == 0 {
        None
    } else if q.last() == FILE_PREFIX {
        Some((q.drop_last(), true))
    } else {
        Some((q, false))
    }
}

pub fn file_search(query: &str) -> (r: Option<FileSearch>)
    ensures
        match r {
            Some(s) => file_search_of(query@) == Some((s.term@, s.folders_only)),
            None => file_search_of(query@) is None,
        },
{
    let q = strip_prefix_of(&chars_of(query), FILE_PREFIX);
    if q.len() == 0 {
        return None;
    }
    if q[q.len() - 1] == FILE_PREFIX {
        let term = slice_chars(&q, 0, q.len() - 1);
        assert(term@ == q@.drop_last());
        Some(FileSearch { term: string_from_chars(&term), folders_only: true })
    } else {
        Some(FileSearch { term: string_from_chars(&q), folders_only: false })
    }
}

/// The arguments of the `localsearch` command that runs `search`.
pub fn localsearch_args(search: &FileSearch) -> (r: Vec<String>)
    ensures
        r.deep_view() == if search.folders_only {
            seq!["search"@, search.term@, "--folders"@]
        } else {
            seq!["search"@, search.term@]
        },
{
    let mut args: Vec<String> = Vec::new();
    args.push(String::from_str("search"));
    args.push(search.term.clone());
    if search.folders_only {
        args.push(String::from_str("--folders"));
    }
    assert(args.deep_view() =~= if search.folders_only {
        seq!["search"@, search.term@, "--folders"@]
    } else {
        seq!["search"@, search.term@]
    });
    args
}

// ---------------------------------------------------------------------------
// Paths.
/// The components of a path that name something: neither empty nor `.`.
pub open spec fn named_components(parts: Seq<Seq<char>>) -> Seq<Seq<char>>
    decreases parts.len(),
{
    if parts.len() == 0 {
        parts
    } else {
        let prev = named_components(parts.drop_last());
        if parts.last().len() == 0 || parts.last() == "."@ {
            prev
        } else {
            prev.push(parts.last())
        }
    }
}

/// The final component of a path, as `Path::file_name` gives it: `None` for
/// a path with no component left, or one that ends in `..`.
pub open spec fn file_name_of(path: Seq<char>) -> Option<Seq<char>> {
    let comps = named_components(split_on(path, '/'));
    if comps.len() == 0 || comps.last() == ".."@ {
        None
    } else {
        Some(comps.last())
    }
}

/// The part of a file name after its last `.`, as `Path::extension` gives
/// it: `None` where there is no `.`, or only one, at the start.
pub open spec fn extension_of_name(name: Seq<char>) -> Option<Seq<char>> {
    let parts = split_on(name, '.');
    if parts.len() <= 1 || (parts.len() == 2 && parts[0].len() == 0) {
        None
    } else {
        Some(parts.last())
    }
}

pub open spec fn extension_of(path: Seq<char>) -> Option<Seq<char>> {
    match file_name_of(path) {
        Some(n) => extension_of_name(n),
        None => None,
    }
}

/// The final component of `path`.
pub fn file_name(path: &Vec<char>) -> (r: Option<Vec<char>>)
    ensures
        match r {
            Some(n) => file_name_of(path@) == Some(n@),
            None => file_name_of(path@) is None,
        },
{
    let parts = split_chars(path, '/');
    let ghost pv = parts.deep_view();
    let dot = chars_of(".");
    let mut last: Option<usize> = None;
    let mut i: usize = 0;
    assert(pv.take(0) =~= Seq::<Seq<char>>::empty());
    while i < parts.len()
        invariant
            i <= parts.len(),
            pv == parts.deep_view(),
            dot@ == "."@,
            match last {
                Some(k) => k < i && named_components(pv.take(i as int)).len() > 0
                    && named_components(pv.take(i as int)).last() == pv[k as int],
                None => named_components(pv.take(i as int)).len() == 0,
            },
        decreases parts.len() - i,
    {
        assert(pv.take(i + 1).drop_last() =~= pv.take(i as int));
        assert(parts[i as int]@ == pv[i as int]);
        if !(parts[i].len() == 0 || chars_eq(&parts[i], &dot)) {
            last = Some(i);
        }
        i = i + 1;
    }
    assert(pv.take(parts.len() as int) =~= pv);
    match last {
        None => None,
        Some(k) => {
            assert(parts[k as int]@ == pv[k as int]);
            if chars_eq(&parts[k], &chars_of("..")) {
                None
            } else {
                Some(parts[k].clone())
            }
        },
    }
}

/// The extension of the file name `name`.
pub fn name_extension(name: &Vec<char>) -> (r: Option<Vec<char>>)
    ensures
        match r {
            Some(e) => extension_of_name(name@) == Some(e@),
            None => extension_of_name(name@) is None,
        },
{
    let parts = split_chars(name, '.');
    let ghost pv = parts.deep_view();
    assert(parts[0]@ == pv[0]);
    if parts.len() <= 1 || (parts.len() == 2 && parts[0].len() == 0) {
        None
    } else {
        assert(parts[parts.len() - 1]@ == pv.last());
        Some(parts[parts.len() - 1].clone())
    }
}

// ---------------------------------------------------------------------------
// Reading search results.
/// What `urlencoding::decode` gives for `s`: the text with its `%XX`
/// escapes decoded, `None` where that is not UTF-8.
pub uninterp spec fn url_decoded(s: Seq<char>) -> Option<Seq<char>>;

pub open spec fn no_escapes(s: Seq<char>) -> bool {
    !s.contains('%')
}

/// Calls `urlencoding::decode`. Its result is `url_decoded` of the
/// argument; as the crate's source shows, a text with no `%` comes back as it is.
#[verifier::external_body]
fn decode_url(s: &str) -> (r: Option<String>)
    ensures
        opt_str_view(r) == url_decoded(s@),
        no_escapes(s@) ==> opt_str_view(r) == Some(s@),
{
    match urlencoding::decode(s) {
        Ok(d) => Some(d.into_owned()),
        Err(_) => None,
    }
}

/// A score that shows its file: a positive one.
pub open spec fn file_score_kept(score: Option<i64>) -> Option<i64> {
    match score {
        Some(s) => if s > 0 {
            Some(s)
        } else {
            None
        },
        None => None,
    }
}

pub fn keep_file_score(score: Option<i64>) -> (r: Option<i64>)
    ensures
        r == file_score_kept(score),
{
    match score {
        Some(s) => if s > 0 {
            Some(s)
        } else {
            None
        },
        None => None,
    }
}

/// The path that one line of the index's output names, and its score for
/// the term `lq` (already lower case): kept where the path decodes, has a
/// file name, and that name matches with a positive score.
pub open spec fn scored_path(line: Seq<char>, lq: Seq<char>) -> Option<(Seq<char>, i64)> {
    match url_decoded(line) {
        None => None,
        Some(d) => {
            let f = replace_all(d, "file://"@, Seq::empty());
            match file_name_of(f) {
                None => None,
                Some(n) => match file_score_kept(skim_score(lowercase(n), lq)) {
                    Some(s) => Some((f, s)),
                    None => None,
                },
            }
        },
    }
}

/// The paths found in `ls`, in order, with their scores.
pub open spec fn scored_paths(ls: Seq<Seq<char>>, lq: Seq<char>) -> Seq<(Seq<char>, i64)>
    decreases ls.len(),
{
    if ls.len() == 0 {
        Seq::empty()
    } else {
        let prev = scored_paths(ls.drop_last(), lq);
        match scored_path(ls.last(), lq) {
            Some(p) => prev.push(p),
            None => prev,
        }
    }
}

/// The index and score of each found path.
pub open spec fn numbered(s: Seq<(Seq<char>, i64)>) -> Seq<(usize, i64)> {
    Seq::new(s.len(), |i: int| (i as usize, s[i].1))
}

/// What a search gives back.
#[derive(Debug, Clone)]
pub struct FileResults {
    /// Every path found, in the order of the output.
    pub found: Vec<String>,
    /// The paths to show, best first.
    pub shown: Vec<String>,
}

/// The paths that the index's `output` names for `term`: every one found,
/// and the best `max` of them, best first.
pub open spec fn file_results_of(output: Seq<char>, term: Seq<char>, max: usize) -> (Seq<Seq<char>>, Seq<Seq<char>>) {
    let found = scored_paths(lines(trim(output)), lowercase(term));
    (
        found.map_values(|p: (Seq<char>, i64)| p.0),
        best_first(numbered(found), max).map_values(|i: usize| found[i as int].0),
    )
}

fn score_line(line: &Vec<char>, lq: &String) -> (r: Option<(Vec<char>, i64)>)
    ensures
        match r {
            Some((f, s)) => scored_path(line@, lq@) == Some((f@, s)),
            None => scored_path(line@, lq@) is None,
        },
{
    let text = string_from_chars(line);
    let decoded = match decode_url(text.as_str()) {
        Some(d) => d,
        None => return None,
    };
    let scheme = chars_of("file://");
    proof {
        reveal_strlit("file://");
    }
    let empty: Vec<char> = Vec::new();
    let f = replace_chars(&chars_of_string(&decoded), &scheme, &empty);
    let name = match file_name(&f) {
        Some(n) => n,
        None => return None,
    };
    let lname = lowercase_string(&name);
    match keep_file_score(fuzzy_score(lname.as_str(), lq.as_str())) {
        Some(s) => Some((f, s)),
        None => None,
    }
}

/// The paths in the output of the file index for `term`: all found, and
/// the `max` best, best first.
pub fn file_results(output: &str, term: &str, max: usize) -> (r: FileResults)
    ensures
        (r.found.deep_view(), r.shown.deep_view()) == file_results_of(output@, term@, max),
{
    let ls = lines_of(&trim_chars(&chars_of(output)));
    let ghost lv = ls.deep_view();
    let lq = lowercase_string(&chars_of(term));
    let mut found: Vec<String> = Vec::new();
    let mut scored: Vec<(usize, i64)> = Vec::new();
    let ghost mut fs: Seq<(Seq<char>, i64)> = Seq::empty();
    let mut i: usize = 0;
    assert(lv.take(0) =~= Seq::<Seq<char>>::empty());
    while i < ls.len()
        invariant
            i <= ls.len(),
            lv == ls.deep_view(),
            lv == lines(trim(output@)),
            lq@ == lowercase(term@),
            fs == scored_paths(lv.take(i as int), lq@),
            found.deep_view() == fs.map_values(|p: (Seq<char>, i64)| p.0),
            scored@ == numbered(fs),
        decreases ls.len() - i,
    {
        assert(lv.take(i + 1).drop_last() =~= lv.take(i as int));
        assert(ls[i as int]@ == lv[i as int]);
        match score_line(&ls[i], &lq) {
            Some((f, s)) => {
                let ghost prev_found = found.deep_view();
                let ghost prev_fs = fs;
                let n = found.len();
                found.push(string_from_chars(&f));
                scored.push((n, s));
                proof {
                    fs = fs.push((f@, s));
                }
                assert(found.deep_view() =~= prev_found.push(f@));
                assert(fs.map_values(|p: (Seq<char>, i64)| p.0) =~= prev_fs.map_values(
                    |p: (Seq<char>, i64)| p.0,
                ).push(f@));
                assert(scored@ =~= numbered(fs));
            },
            None => {},
        }
        i = i + 1;
    }
    assert(lv.take(ls.len() as int) =~= lv);
    let order = take_best_first(&scored, max);
    proof {
        assert forall|k: int| 0 <= k < scored@.len() implies (#[trigger] scored@[k]).0 < found.len() by {}
        crate::matching::lemma_orders_bounded(scored@, max, found.len() as int);
    }
    let ghost fv = found.deep_view();
    assert(fs.len() == fv.len());
    let mut shown: Vec<String> = Vec::new();
    let mut k: usize = 0;
    while k < order.len()
        invariant
            k <= order.len(),
            fv == found.deep_view(),
            fv == fs.map_values(|p: (Seq<char>, i64)| p.0),
            fs.len() == found.len(),
            forall|j: int| 0 <= j < order@.len() ==> #[trigger] order@[j] < found.len(),
            shown.deep_view() == order@.take(k as int).map_values(|j: usize| fs[j as int].0),
        decreases order.len() - k,
    {
        let p = found[order[k]].clone();
        let ghost prev = shown.deep_view();
        assert(p@ == fv[order@[k as int] as int]);
        assert(fv[order@[k as int] as int] == fs[order@[k as int] as int].0);
        shown.push(p);
        assert(shown.deep_view() =~= prev.push(fs[order@[k as int] as int].0));
        assert(order@.take(k + 1).map_values(|j: usize| fs[j as int].0) =~= order@.take(
            k as int,
        ).map_values(|j: usize| fs[j as int].0).push(fs[order@[k as int] as int].0));
        k = k + 1;
    }
    assert(order@.take(order.len() as int) =~= order@);
    FileResults { found, shown }
}

proof fn lemma_trim_start_len(s: Seq<char>)
    ensures
        trim_start(s).len() <= s.len(),
    decreases s.len(),
{
    if s.len() > 0 {
        lemma_trim_start_len(s.drop_first());
    }
}

proof fn lemma_trim_end_len(s: Seq<char>)
    ensures
        trim_end(s).len() <= s.len(),
    decreases s.len(),
{
    if s.len() > 0 {
        lemma_trim_end_len(s.drop_last());
    }
}

proof fn lemma_split_len(s: Seq<char>, sep: char)
    ensures
        1 <= split_on(s, sep).len() <= s.len() + 1,
    decreases s.len(),
{
    if s.len() > 0 {
        lemma_split_len(s.drop_last(), sep);
    }
}

proof fn lemma_scored_len(ls: Seq<Seq<char>>, lq: Seq<char>)
    ensures
        scored_paths(ls, lq).len() <= ls.len(),
    decreases ls.len(),
{
    if ls.len() > 0 {
        lemma_scored_len(ls.drop_last(), lq);
    }
}

/// No more paths are found than the output of the index has characters,
/// and one more.
proof fn lemma_found_len(output: Seq<char>, term: Seq<char>)
    ensures
        scored_paths(lines(trim(output)), lowercase(term)).len() <= output.len() + 1,
{
    lemma_trim_start_len(output);
    lemma_trim_end_len(trim_start(output));
    lemma_split_len(trim(output), '\n');
    lemma_scored_len(lines(trim(output)), lowercase(term));
}

/// Of what a search gives back, the paths shown are no more than `max`,
/// as many as that where enough are found, and each of them one of the
/// paths found. (The output of the index is a `str`, so its length fits in
/// a `usize`.)
pub proof fn law_shown_files_found(output: Seq<char>, term: Seq<char>, max: usize)
    requires
        output.len() < usize::MAX,
    ensures
        file_results_of(output, term, max).1.len() == min_len(
            file_results_of(output, term, max).0.len(),
            max,
        ),
        forall|k: int|
            0 <= k < file_results_of(output, term, max).1.len() ==> file_results_of(
                output,
                term,
                max,
            ).0.contains(#[trigger] file_results_of(output, term, max).1[k]),
{
    let found = scored_paths(lines(trim(output)), lowercase(term));
    lemma_found_len(output, term);
    let nb = numbered(found);
    law_best_first(nb, max);
    let order = best_first(nb, max);
    let (all, shown) = file_results_of(output, term, max);
    assert forall|k: int| 0 <= k < shown.len() implies all.contains(#[trigger] shown[k]) by {
        let j = choose|j: int| 0 <= j < nb.len() && nb[j].0 == order[k];
        assert(nb[j].0 == j as usize);
        assert(order[k] as int == j);
        assert(shown[k] == found[j].0);
        assert(all[j] == found[j].0);
    }
}

/// The score of the file at `path` for the search `term`: the fuzzy score
/// of its file name in lower case against the term in lower case, zero
/// where it has no file name or none matches.
pub open spec fn file_score(path: Seq<char>, term: Seq<char>) -> int {
    match file_name_of(path) {
        Some(n) => match skim_score(lowercase(n), lowercase(term)) {
            Some(s) => s as int,
            None => 0,
        },
        None => 0,
    }
}

proof fn lemma_found_scores(ls: Seq<Seq<char>>, term: Seq<char>)
    ensures
        forall|j: int|
            0 <= j < scored_paths(ls, lowercase(term)).len() ==> (#[trigger] scored_paths(
                ls,
                lowercase(term),
            )[j]).1 == file_score(scored_paths(ls, lowercase(term))[j].0, term),
    decreases ls.len(),
{
    if ls.len() > 0 {
        lemma_found_scores(ls.drop_last(), term);
        let prev = scored_paths(ls.drop_last(), lowercase(term));
        let cur = scored_paths(ls, lowercase(term));
        assert forall|j: int| 0 <= j < cur.len() implies (#[trigger] cur[j]).1 == file_score(
            cur[j].0,
            term,
        ) by {
            if j < prev.len() {
                assert(cur[j] == prev[j]);
            }
        }
    }
}

/// Of what a search gives back, the paths shown come in non-increasing
/// order of `file_score`, and no path found but left out scores above one
/// that is shown. (The output of the index is a `str`, so its length fits
/// in a `usize`.)
pub proof fn law_shown_files_best(output: Seq<char>, term: Seq<char>, max: usize)
    requires
        output.len() < usize::MAX,
    ensures
        forall|a: int, b: int|
            0 <= a <= b < file_results_of(output, term, max).1.len() ==> file_score(
                #[trigger] file_results_of(output, term, max).1[a],
                term,
            ) >= file_score(#[trigger] file_results_of(output, term, max).1[b], term),
        forall|j: int, b: int|
            0 <= j < file_results_of(output, term, max).0.len() && 0 <= b < file_results_of(
                output,
                term,
                max,
            ).1.len() && !file_results_of(output, term, max).1.contains(
                #[trigger] file_results_of(output, term, max).0[j],
            ) ==> file_score(file_results_of(output, term, max).0[j], term) <= file_score(
                #[trigger] file_results_of(output, term, max).1[b],
                term,
            ),
{
    let found = scored_paths(lines(trim(output)), lowercase(term));
    lemma_found_len(output, term);
    lemma_found_scores(lines(trim(output)), term);
    let nb = numbered(found);
    law_sort_by_score(nb);
    let t = sort_by_score(nb);
    let len = t.len();
    let n = min_len(nb.len(), max);
    let (all, shown) = file_results_of(output, term, max);
    let order = best_first(nb, max);
    assert(order.len() == n);
    assert(shown.len() == n);
    // Each entry of the sorted candidates is a found path with its score.
    assert forall|p: int| 0 <= p < len implies (#[trigger] t[p]).0 < found.len() && t[p].1
        == found[t[p].0 as int].1 && found[t[p].0 as int].1 == file_score(
        found[t[p].0 as int].0,
        term,
    ) by {
        assert(t.contains(t[p]));
        assert(t.to_multiset().count(t[p]) > 0);
        assert(nb.to_multiset().count(t[p]) > 0);
        assert(nb.contains(t[p]));
        let j = choose|j: int| 0 <= j < nb.len() && nb[j] == t[p];
        assert(nb[j].0 == j as usize);
        assert(found[j].1 == file_score(found[j].0, term));
    }
    // The `k`-th path shown is the one at `len - 1 - k` of the sorted candidates.
    assert forall|k: int| 0 <= k < n implies #[trigger] shown[k] == found[t[len - 1 - k].0 as int].0
        && file_score(shown[k], term) == t[len - 1 - k].1 by {
        assert(t.reverse().take(n)[k] == t[len - 1 - k]);
        assert(order[k] == t[len - 1 - k].0);
        assert(t[len - 1 - k].0 < found.len());
    }
    assert forall|a: int, b: int| 0 <= a <= b < shown.len() implies file_score(
        #[trigger] shown[a],
        term,
    ) >= file_score(#[trigger] shown[b], term) by {
        assert(t[len - 1 - b].1 <= t[len - 1 - a].1);
    }
    assert forall|j: int, b: int|
        0 <= j < all.len() && 0 <= b < shown.len() && !shown.contains(#[trigger] all[j]) implies file_score(
        all[j],
        term,
    ) <= file_score(#[trigger] shown[b], term) by {
        assert(all[j] == found[j].0);
        assert(nb[j] == (j as usize, found[j].1));
        assert(nb.contains(nb[j]));
        assert(nb.to_multiset().count(nb[j]) > 0);
        assert(t.to_multiset().count(nb[j]) > 0);
        assert(t.contains(nb[j]));
        let p = choose|p: int| 0 <= p < len && t[p] == nb[j];
        if p >= len - n {
            let k = len - 1 - p;
            assert(shown[k] == found[j].0);
            assert(shown.contains(all[j]));
        }
        assert(t[p].1 <= t[len - 1 - b].1);
        assert(file_score(all[j], term) == found[j].1);
    }
}

/// The keys of a cache of shown files that a search no longer finds, in the
/// order given.
pub open spec fn stale_of(keys: Seq<Seq<char>>, found: Seq<Seq<char>>) -> Seq<Seq<char>>
    decreases keys.len(),
{
    if keys.len() == 0 {
        keys
    } else {
        let prev = stale_of(keys.drop_last(), found);
        if found.contains(keys.last()) {
            prev
        } else {
            prev.push(keys.last())
        }
    }
}

/// The stale keys are exactly the cache keys that the search did not find:
/// once they are removed, every key left in the cache is a path found.
pub proof fn law_stale_keys(keys: Seq<Seq<char>>, found: Seq<Seq<char>>)
    ensures
        forall|x: Seq<char>|
            #[trigger] stale_of(keys, found).contains(x) <==> keys.contains(x) && !found.contains(x),
    decreases keys.len(),
{
    if keys.len() > 0 {
        law_stale_keys(keys.drop_last(), found);
        let prev = stale_of(keys.drop_last(), found);
        assert forall|x: Seq<char>| #[trigger] stale_of(keys, found).contains(x) <==> keys.contains(x)
            && !found.contains(x) by {
            assert(keys =~= keys.drop_last().push(keys.last()));
            if keys.contains(x) && !keys.drop_last().contains(x) {
                assert(x == keys.last()) by {
                    let i = choose|i: int| 0 <= i < keys.len() && keys[i] == x;
                    if i < keys.len() - 1 {
                        assert(keys.drop_last()[i] == x);
                    }
                }
            }
            if keys.drop_last().contains(x) {
                let i = choose|i: int| 0 <= i < keys.drop_last().len() && keys.drop_last()[i] == x;
                assert(keys[i] == x);
            }
            if !found.contains(keys.last()) {
                assert(stale_of(keys, found) == prev.push(keys.last()));
                if prev.contains(x) {
                    let i = choose|i: int| 0 <= i < prev.len() && prev[i] == x;
                    assert(prev.push(keys.last())[i] == x);
                }
                if x == keys.last() {
                    assert(prev.push(keys.last())[prev.len() as int] == x);
                }
                if stale_of(keys, found).contains(x) && x != keys.last() {
                    let i = choose|i: int| 0 <= i < prev.len() + 1 && prev.push(keys.last())[i] == x;
                    assert(prev[i] == x);
                }
            }
        }
    }
}

fn string_in(found: &Vec<String>, key: &String) -> (r: bool)
    ensures
        r == found.deep_view().contains(key@),
{
    let kc = chars_of_string(key);
    let mut i: usize = 0;
    while i < found.len()
        invariant
            i <= found.len(),
            kc@ == key@,
            forall|j: int| 0 <= j < i ==> found.deep_view()[j] != key@,
        decreases found.len() - i,
    {
        if chars_eq(&chars_of_string(&found[i]), &kc) {
            assert(found.deep_view()[i as int] == key@);
            return true;
        }
        i = i + 1;
    }
    false
}

/// The cache keys that are not among the paths found.
pub fn stale_keys(keys: &Vec<String>, found: &Vec<String>) -> (r: Vec<String>)
    ensures
        r.deep_view() == stale_of(keys.deep_view(), found.deep_view()),
{
    let ghost kv = keys.deep_view();
    let mut out: Vec<String> = Vec::new();
    let mut i: usize = 0;
    assert(kv.take(0) =~= Seq::<Seq<char>>::empty());
    while i < keys.len()
        invariant
            i <= keys.len(),
            kv == keys.deep_view(),
            out.deep_view() == stale_of(kv.take(i as int), found.deep_view()),
        decreases keys.len() - i,
    {
        assert(kv.take(i + 1).drop_last() =~= kv.take(i as int));
        assert(keys[i as int]@ == kv[i as int]);
        if !string_in(found, &keys[i]) {
            let ghost prev = out.deep_view();
            out.push(keys[i].clone());
            assert(out.deep_view() =~= prev.push(kv[i as int]));
        }
        i = i + 1;
    }
    assert(kv.take(keys.len() as int) =~= kv);
    out
}

// ---------------------------------------------------------------------------
// Opening a location.
/// What `Path::parent` gives for `path`: the path without its last
/// component, `None` where the path ends in a root or is empty.
pub uninterp spec fn path_parent(path: Seq<char>) -> Option<Seq<char>>;

/// Calls `Path::parent`; the result is `path_parent` of the path, and, as
/// its documentation says, `None` for the empty path.
#[verifier::external_body]
fn parent_of(path: &str) -> (r: Option<String>)
    ensures
        opt_str_view(r) == path_parent(path@),
        path@.len() == 0 ==> r is None,
{
    match std::path::Path::new(path).parent() {
        Some(p) => Some(p.to_string_lossy().to_string()),
        None => None,
    }
}

/// What the file browser is asked to open for `path`: the folder itself,
/// or, for anything else, the folder that holds it (the path itself where
/// it has none).
pub open spec fn location_to_open_of(path: Seq<char>, is_dir: bool) -> Seq<char> {
    if is_dir {
        path
    } else {
        match path_parent(path) {
            Some(p) => p,
            None => path,
        }
    }
}

/// The location the file browser opens for `path`; `is_dir` tells whether
/// it is a folder.
pub fn location_to_open(path: &str, is_dir: bool) -> (r: String)
    ensures
        r@ == location_to_open_of(path@, is_dir),
{
    if is_dir {
        return path.to_owned();
    }
    match parent_of(path) {
        Some(p) => p,
        None => path.to_owned(),
    }
}

// ---------------------------------------------------------------------------
// File icons.
/// What `MimeType::from_ext` gives for an extension, written as its MIME
/// type string; `None` where the extension is not known.
pub uninterp spec fn mime_of_ext(ext: Seq<char>) -> Option<Seq<char>>;

/// Calls `MimeType::from_ext` and writes the MIME type it finds with its
/// `Display`; the result is `mime_of_ext` of the extension.
#[verifier::external_body]
fn mime_for_extension(ext: &str) -> (r: Option<String>)
    ensures
        opt_str_view(r) == mime_of_ext(ext@),
{
    match MimeType::from_ext(ext) {
        Some(m) => Some(m.to_string()),
        None => None,
    }
}

/// The icon for a file that is not a folder, given its extension and the
/// MIME type of that extension.
pub open spec fn icon_of_mime(ext: Option<Seq<char>>, mime: Option<Seq<char>>) -> Seq<char> {
    match ext {
        None => "folder-documents-symbolic"@,
        Some(e) => if has_infix(e, "md"@) {
            "x-office-document-symbolic"@
        } else {
            match mime {
                None => "folder-documents-symbolic"@,
                Some(m) => if has_infix(m, "image"@) {
                    "image-x-generic-symbolic"@
                } else if has_infix(m, "audio"@) {
                    "folder-music-symbolic"@
                } else if has_infix(m, "video"@) {
                    "folder-videos-symbolic"@
                } else if has_infix(m, "text"@) || has_infix(m, "document"@) || has_infix(
                    m,
                    "pdf"@,
                ) {
                    "x-office-document-symbolic"@
                } else {
                    "folder-documents-symbolic"@
                },
            }
        },
    }
}

/// The icon that stands for the file at `path`.
pub open spec fn file_icon_of(path: Seq<char>, is_dir: bool) -> Seq<char> {
    if is_dir {
        "document-open-symbolic"@
    } else {
        match extension_of(path) {
            None => icon_of_mime(None, None),
            Some(e) => icon_of_mime(Some(e), mime_of_ext(e)),
        }
    }
}

/// The icon for a file that is not a folder, from its extension and that
/// extension's MIME type.
pub fn icon_for(ext: Option<&str>, mime: Option<&str>) -> (r: String)
    ensures
        r@ == icon_of_mime(
            match ext {
                Some(e) => Some(e@),
                None => None,
            },
            match mime {
                Some(m) => Some(m@),
                None => None,
            },
        ),
{
    let e = match ext {
        None => return String::from_str("folder-documents-symbolic"),
        Some(e) => chars_of(e),
    };
    if contains_infix(&e, &chars_of("md")) {
        return String::from_str("x-office-document-symbolic");
    }
    let m = match mime {
        None => return String::from_str("folder-documents-symbolic"),
        Some(m) => chars_of(m),
    };
    if contains_infix(&m, &chars_of("image")) {
        String::from_str("image-x-generic-symbolic")
    } else if contains_infix(&m, &chars_of("audio")) {
        String::from_str("folder-music-symbolic")
    } else if contains_infix(&m, &chars_of("video")) {
        String::from_str("folder-videos-symbolic")
    } else if contains_infix(&m, &chars_of("text")) || contains_infix(&m, &chars_of("document"))
        || contains_infix(&m, &chars_of("pdf")) {
        String::from_str("x-office-document-symbolic")
    } else {
        String::from_str("folder-documents-symbolic")
    }
}

/// The icon for the file at `path`; `is_dir` tells whether it is a folder.
pub fn file_icon(path: &str, is_dir: bool) -> (r: String)
    ensures
        r@ == file_icon_of(path@, is_dir),
{
    if is_dir {
        return String::from_str("document-open-symbolic");
    }
    let ext = match file_name(&chars_of(path)) {
        None => None,
        Some(n) => name_extension(&n),
    };
    match ext {
        None => icon_for(None, None),
        Some(e) => {
            let es = string_from_chars(&e);
            if contains_infix(&e, &chars_of("md")) {
                icon_for(Some(es.as_str()), None)
            } else {
                let mime = mime_for_extension(es.as_str());
                match mime {
                    Some(m) => icon_for(Some(es.as_str()), Some(m.as_str())),
                    None => icon_for(Some(es.as_str()), None),
                }
            }
        },
    }
}

} // verus!
