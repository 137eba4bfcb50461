//! Applications: where their desktop entries are looked for, how a query
//! ranks them, how their command lines are run, and which icon file stands
//! for them.
use vstd::prelude::*;
use vstd::string::StringExecFns;

use crate::desktop::{App, AppView};
use crate::matching::{
    fuzzy_score, lowest_reversed, skim_score, take_lowest_reversed, unwrap_or_zero,
};
use crate::text::{
    chars_of, chars_of_string, chars_eq, concat_chars, contains_char, contains_infix, has_infix,
    has_suffix, ends_with, lowercase, lowercase_chars, lowercase_string, split_chars, split_on,
    string_from_chars, strip_prefix_char, strip_prefix_of, words, words_of, is_ws,
};

verus! {

/// The prefix that restricts a query to applications.
pub const APP_PREFIX: char = '#';

/// The least score a name, command or keyword must reach for its
/// application to be shown.
pub const APP_MIN_SCORE: i64 = 25;

// ---------------------------------------------------------------------------
// Where desktop entries are.
/// `rel` appended to the path `base`, with a `/` between them unless `base`
/// is empty or already ends with one (as `Path::join` does for a relative path).
pub open spec fn join_relative(base: Seq<char>, rel: Seq<char>) -> Seq<char> {
    if base.len() > 0 && base.last() != '/' {
        base + seq!['/'] + rel
    } else {
        base + rel
    }
}

pub fn join_path(base: &Vec<char>, rel: &Vec<char>) -> (r: Vec<char>)
    ensures
        r@ == join_relative(base@, rel@),
{
    if base.len() > 0 && base[base.len() - 1] != '/' {
        let mut with_sep = base.clone();
        with_sep.push('/');
        concat_chars(&with_sep, rel)
    } else {
        concat_chars(base, rel)
    }
}

/// A folder that may hold desktop entries.
#[derive(Debug, Clone)]
pub struct AppDir {
    pub path: String,
    pub is_flatpak: bool,
}

pub open spec fn data_dirs(xdg_data_dirs: Seq<char>, home: Seq<char>) -> Seq<Seq<char>> {
    split_on(xdg_data_dirs, ':').push(join_relative(home, ".local/share"@))
}

/// The `applications` folder of each `:`-separated data folder and of
/// `$HOME/.local/share`, in that order; those under a path that mentions
/// `flatpak` hold Flatpak applications.
pub open spec fn application_dirs_of(xdg_data_dirs: Seq<char>, home: Seq<char>) -> Seq<
    (Seq<char>, bool),
> {
    data_dirs(xdg_data_dirs, home).map_values(
        |d: Seq<char>| (join_relative(d, "applications"@), has_infix(d, "flatpak"@)),
    )
}

/// The folders to search for desktop entries, given `$XDG_DATA_DIRS` and `$HOME`.
pub fn application_dirs(xdg_data_dirs: &str, home: &str) -> (r: Vec<AppDir>)
    ensures
        r@.map_values(|d: AppDir| (d.path@, d.is_flatpak)) == application_dirs_of(
            xdg_data_dirs@,
            home@,
        ),
{
    let mut dirs = split_chars(&chars_of(xdg_data_dirs), ':');
    let user = join_path(&chars_of(home), &chars_of(".local/share"));
    let ghost before = dirs.deep_view();
    assert(user.deep_view() =~= user@);
    dirs.push(user);
    let ghost dv = dirs.deep_view();
    assert(dv =~= data_dirs(xdg_data_dirs@, home@));
    let apps_rel = chars_of("applications");
    let flatpak = chars_of("flatpak");
    let mut out: Vec<AppDir> = Vec::new();
    let mut i: usize = 0;
    while i < dirs.len()
        invariant
            i <= dirs.len(),
            dv == dirs.deep_view(),
            apps_rel@ == "applications"@,
            flatpak@ == "flatpak"@,
            out@.map_values(|d: AppDir| (d.path@, d.is_flatpak)) == dv.take(i as int).map_values(
                |d: Seq<char>| (join_relative(d, "applications"@), has_infix(d, "flatpak"@)),
            ),
        decreases dirs.len() - i,
    {
        assert(dirs[i as int]@ == dv[i as int]);
        let path = join_path(&dirs[i], &apps_rel);
        let is_flatpak = contains_infix(&dirs[i], &flatpak);
        let ghost prev = out@;
        out.push(AppDir { path: string_from_chars(&path), is_flatpak });
        assert(out@.map_values(|d: AppDir| (d.path@, d.is_flatpak)) =~= prev.map_values(
            |d: AppDir| (d.path@, d.is_flatpak),
        ).push((path@, is_flatpak)));
        assert(dv.take(i + 1).map_values(
            |d: Seq<char>| (join_relative(d, "applications"@), has_infix(d, "flatpak"@)),
        ) =~= dv.take(i as int).map_values(
            |d: Seq<char>| (join_relative(d, "applications"@), has_infix(d, "flatpak"@)),
        ).push((path@, is_flatpak)));
        i = i + 1;
    }
    assert(dv.take(dirs.len() as int) =~= dv);
    out
}

/// A file whose name ends with `desktop` is read as a desktop entry.
pub fn is_desktop_file(file_name: &str) -> (r: bool)
    ensures
        r == ends_with(file_name@, "desktop"@),
{
    has_suffix(&chars_of(file_name), &chars_of("desktop"))
}

// ---------------------------------------------------------------------------
// Ranking applications for a query.
/// Every character of `lq` occurs in at least one of `a`, `b`, `c`.
pub open spec fn chars_covered(lq: Seq<char>, a: Seq<char>, b: Seq<char>, c: Seq<char>) -> bool {
    forall|i: int| 0 <= i < lq.len() ==> a.contains(#[trigger] lq[i]) || b.contains(lq[i]) || c.contains(
        lq[i],
    )
}

pub open spec fn max_i64(a: i64, b: i64) -> i64 {
    if a >= b {
        a
    } else {
        b
    }
}

/// The greatest of the scores that exist, `None` where none does.
pub open spec fn best_score(scores: Seq<Option<i64>>) -> Option<i64>
    decreases scores.len(),
{
    if scores.len() == 0 {
        None
    } else {
        match (best_score(scores.drop_last()), scores.last()) {
            (Some(a), Some(b)) => Some(max_i64(a, b)),
            (Some(a), None) => Some(a),
            (None, b) => b,
        }
    }
}

/// The score of an application whose name, command and keyword scores are
/// given, and whose words cover the query (`covered`): shown only where one
/// of the three reaches the least score, with the greatest of them.
pub open spec fn app_score_of(
    covered: bool,
    name: Option<i64>,
    tryexec: Option<i64>,
    keywords: Seq<Option<i64>>,
) -> Option<i64> {
    let n = unwrap_or_zero(name);
    let t = unwrap_or_zero(tryexec);
    let k = unwrap_or_zero(best_score(keywords));
    if covered && (n >= APP_MIN_SCORE || t >= APP_MIN_SCORE || k >= APP_MIN_SCORE) {
        Some(max_i64(max_i64(n, k), t))
    } else {
        None
    }
}

/// The scores of the non-empty keywords in `parts` against `lq`.
pub open spec fn keyword_scores(parts: Seq<Seq<char>>, lq: Seq<char>) -> Seq<Option<i64>>
    decreases parts.len(),
{
    if parts.len() == 0 {
        Seq::empty()
    } else {
        let prev = keyword_scores(parts.drop_last(), lq);
        if parts.last().len() > 0 {
            prev.push(skim_score(lowercase(parts.last()), lq))
        } else {
            prev
        }
    }
}

/// The score of `app` for the query `q` (its prefix already removed).
pub open spec fn app_score(app: AppView, q: Seq<char>) -> Option<i64> {
    let lq = lowercase(q);
    let name = lowercase(app.name);
    let tryexec = lowercase(app.tryexec);
    app_score_of(
        chars_covered(lq, name, tryexec, lowercase(app.keywords)),
        skim_score(name, lq),
        skim_score(tryexec, lq),
        keyword_scores(split_on(app.keywords, ';'), lq),
    )
}

/// The applications that `q` finds, each with its index and score, in the
/// order of `apps`.
pub open spec fn app_candidates(apps: Seq<AppView>, q: Seq<char>) -> Seq<(usize, i64)>
    decreases apps.len(),
{
    if apps.len() == 0 {
        Seq::empty()
    } else {
        let prev = app_candidates(apps.drop_last(), q);
        match app_score(apps.last(), q) {
            Some(s) => prev.push(((apps.len() - 1) as usize, s)),
            None => prev,
        }
    }
}

pub open spec fn apps_view(apps: Seq<App>) -> Seq<AppView> {
    apps.map_values(|a: App| a@)
}

/// The names of the applications shown for `query`, in the order shown: of
/// the candidates sorted by ascending score, the first `max`, last first.
pub open spec fn app_results(apps: Seq<AppView>, query: Seq<char>, max: usize) -> Seq<Seq<char>> {
    lowest_reversed(app_candidates(apps, strip_prefix_char(query, APP_PREFIX)), max).map_values(
        |i: usize| apps[i as int].name,
    )
}

/// The greatest of the scores that exist.
pub fn best_of(scores: &Vec<Option<i64>>) -> (r: Option<i64>)
    ensures
        r == best_score(scores@),
{
    let mut best: Option<i64> = None;
    let mut i: usize = 0;
    assert(scores@.take(0) =~= Seq::<Option<i64>>::empty());
    while i < scores.len()
        invariant
            i <= scores.len(),
            best == best_score(scores@.take(i as int)),
        decreases scores.len() - i,
    {
        assert(scores@.take(i + 1).drop_last() =~= scores@.take(i as int));
        best = match (best, scores[i]) {
            (Some(a), Some(b)) => Some(
                if a >= b {
                    a
                } else {
                    b
                },
            ),
            (Some(a), None) => Some(a),
            (None, b) => b,
        };
        i = i + 1;
    }
    assert(scores@.take(scores.len() as int) =~= scores@);
    best
}

/// The score of an application from the scores of its name, command and
/// keywords, and whether its words cover the query.
pub fn combine_app_scores(
    covered: bool,
    name: Option<i64>,
    tryexec: Option<i64>,
    keywords: &Vec<Option<i64>>,
) -> (r: Option<i64>)
    ensures
        r == app_score_of(covered, name, tryexec, keywords@),
{
    let n = match name {
        Some(s) => s,
        None => 0,
    };
    let t = match tryexec {
        Some(s) => s,
        None => 0,
    };
    let k = match best_of(keywords) {
        Some(s) => s,
        None => 0,
    };
    if covered && (n >= APP_MIN_SCORE || t >= APP_MIN_SCORE || k >= APP_MIN_SCORE) {
        let nk = if n >= k {
            n
        } else {
            k
        };
        Some(
            if nk >= t {
                nk
            } else {
                t
            },
        )
    } else {
        None
    }
}

fn covers_query(lq: &Vec<char>, a: &Vec<char>, b: &Vec<char>, c: &Vec<char>) -> (r: bool)
    ensures
        r == chars_covered(lq@, a@, b@, c@),
{
    let mut i: usize = 0;
    while i < lq.len()
        invariant
            i <= lq.len(),
            forall|k: int| 0 <= k < i ==> a@.contains(#[trigger] lq@[k]) || b@.contains(lq@[k]) || c@.contains(lq@[k]),
        decreases lq.len() - i,
    {
        let ch = lq[i];
        if !(contains_char(a, ch) || contains_char(b, ch) || contains_char(c, ch)) {
            return false;
        }
        i = i + 1;
    }
    true
}

/// The scores of the non-empty keywords in `parts`.
fn scores_of_keywords(parts: &Vec<Vec<char>>, lq: &String) -> (r: Vec<Option<i64>>)
    ensures
        r@ == keyword_scores(parts.deep_view(), lq@),
{
    let ghost pv = parts.deep_view();
    let mut out: Vec<Option<i64>> = Vec::new();
    let mut i: usize = 0;
    assert(pv.take(0) =~= Seq::<Seq<char>>::empty());
    while i < parts.len()
        invariant
            i <= parts.len(),
            pv == parts.deep_view(),
            out@ == keyword_scores(pv.take(i as int), lq@),
        decreases parts.len() - i,
    {
        assert(pv.take(i + 1).drop_last() =~= pv.take(i as int));
        assert(parts[i as int]@ == pv[i as int]);
        if parts[i].len() > 0 {
            let lk = lowercase_string(&parts[i]);
            out.push(fuzzy_score(lk.as_str(), lq.as_str()));
        }
        i = i + 1;
    }
    assert(pv.take(parts.len() as int) =~= pv);
    out
}

/// The score of `app` for the query `q`, its prefix already removed.
pub fn app_match_score(app: &App, q: &Vec<char>) -> (r: Option<i64>)
    ensures
        r == app_score(app@, q@),
{
    let lq = lowercase_string(q);
    let lq_chars = chars_of(lq.as_str());
    let name = lowercase_string(&chars_of_string(&app.name));
    let tryexec = lowercase_string(&chars_of_string(&app.tryexec));
    let keywords = chars_of_string(&app.keywords);
    let kw_lower = lowercase_chars(&keywords);
    let covered = covers_query(&lq_chars, &chars_of(name.as_str()), &chars_of(tryexec.as_str()), &kw_lower);
    let name_score = fuzzy_score(name.as_str(), lq.as_str());
    let tryexec_score = fuzzy_score(tryexec.as_str(), lq.as_str());
    let parts = split_chars(&keywords, ';');
    let kw_scores = scores_of_keywords(&parts, &lq);
    combine_app_scores(covered, name_score, tryexec_score, &kw_scores)
}

/// The applications that `q` finds, with their indices and scores.
pub fn find_app_candidates(apps: &Vec<App>, q: &Vec<char>) -> (r: Vec<(usize, i64)>)
    ensures
        r@ == app_candidates(apps_view(apps@), q@),
{
    let ghost av = apps_view(apps@);
    let mut out: Vec<(usize, i64)> = Vec::new();
    let mut i: usize = 0;
    assert(av.take(0) =~= Seq::<AppView>::empty());
    while i < apps.len()
        invariant
            i <= apps.len(),
            av == apps_view(apps@),
            out@ == app_candidates(av.take(i as int), q@),
        decreases apps.len() - i,
    {
        assert(av.take(i + 1).drop_last() =~= av.take(i as int));
        assert(av.take(i + 1).last() == apps[i as int]@);
        if let Some(s) = app_match_score(&apps[i], q) {
            out.push((i, s));
        }
        i = i + 1;
    }
    assert(av.take(apps.len() as int) =~= av);
    out
}

proof fn lemma_app_candidates_bound(apps: Seq<AppView>, q: Seq<char>)
    requires
        apps.len() <= usize::MAX,
    ensures
        forall|k: int|
            0 <= k < app_candidates(apps, q).len() ==> (#[trigger] app_candidates(apps, q)[k]).0
                < apps.len() && app_score(apps[app_candidates(apps, q)[k].0 as int], q) == Some(
                app_candidates(apps, q)[k].1,
            ),
    decreases apps.len(),
{
    if apps.len() > 0 {
        lemma_app_candidates_bound(apps.drop_last(), q);
        let prev = app_candidates(apps.drop_last(), q);
        assert forall|k: int| 0 <= k < app_candidates(apps, q).len() implies (
        #[trigger] app_candidates(apps, q)[k]).0 < apps.len() && app_score(
            apps[app_candidates(apps, q)[k].0 as int],
            q,
        ) == Some(app_candidates(apps, q)[k].1) by {
            if k < prev.len() {
                assert(app_candidates(apps, q)[k] == prev[k]);
                assert(apps[prev[k].0 as int] == apps.drop_last()[prev[k].0 as int]);
            } else {
                assert(app_score(apps.last(), q) is Some);
                assert(app_candidates(apps, q)[k].0 == apps.len() - 1);
            }
        }
    }
}

/// The names of the applications shown for `query`, in the order shown,
/// at most `max_entries` of them.
pub fn rank_apps(apps: &Vec<App>, query: &str, max_entries: usize) -> (r: Vec<String>)
    ensures
        r.deep_view() == app_results(apps_view(apps@), query@, max_entries),
{
    let q = strip_prefix_of(&chars_of(query), APP_PREFIX);
    let cands = find_app_candidates(apps, &q);
    let order = take_lowest_reversed(&cands, max_entries);
    let ghost av = apps_view(apps@);
    proof {
        assert(av.len() == apps.len());
        lemma_app_candidates_bound(av, q@);
        crate::matching::lemma_orders_bounded(cands@, max_entries, apps.len() as int);
    }
    let mut out: Vec<String> = Vec::new();
    let mut k: usize = 0;
    while k < order.len()
        invariant
            k <= order.len(),
            av == apps_view(apps@),
            forall|j: int| 0 <= j < order@.len() ==> #[trigger] order@[j] < apps.len(),
            out.deep_view() == order@.take(k as int).map_values(|i: usize| av[i as int].name),
        decreases order.len() - k,
    {
        let name = apps[order[k]].name.clone();
        let ghost prev = out.deep_view();
        out.push(name);
        assert(out.deep_view() =~= prev.push(av[order@[k as int] as int].name));
        assert(order@.take(k + 1).map_values(|i: usize| av[i as int].name) =~= order@.take(
            k as int,
        ).map_values(|i: usize| av[i as int].name).push(av[order@[k as int] as int].name));
        k = k + 1;
    }
    assert(order@.take(order.len() as int) =~= order@);
    out
}

/// Every application shown for a query is found by it: it bears the name
/// shown and has a score for the query (its prefix removed), and no more
/// than `max` are shown. (The applications are those of a `Vec`, so their
/// number fits in a `usize`.)
pub proof fn law_shown_apps_match(apps: Seq<AppView>, query: Seq<char>, max: usize)
    requires
        apps.len() <= usize::MAX,
    ensures
        app_results(apps, query, max).len() <= max,
        forall|k: int|
            0 <= k < app_results(apps, query, max).len() ==> exists|i: int|
                0 <= i < apps.len() && apps[i].name == #[trigger] app_results(apps, query, max)[k]
                    && app_score(apps[i], strip_prefix_char(query, APP_PREFIX)) is Some,
{
    let q = strip_prefix_char(query, APP_PREFIX);
    let c = app_candidates(apps, q);
    lemma_app_candidates_bound(apps, q);
    crate::matching::law_lowest_reversed(c, max);
    let order = lowest_reversed(c, max);
    assert forall|k: int| 0 <= k < app_results(apps, query, max).len() implies exists|i: int|
        0 <= i < apps.len() && apps[i].name == #[trigger] app_results(apps, query, max)[k]
            && app_score(apps[i], q) is Some by {
        let j = choose|j: int| 0 <= j < c.len() && c[j].0 == order[k];
        let i = order[k] as int;
        assert(c[j].0 < apps.len());
        assert(app_score(apps[c[j].0 as int], q) == Some(c[j].1));
        assert(app_results(apps, query, max)[k] == apps[i].name);
    }
}

proof fn lemma_app_candidates_complete(apps: Seq<AppView>, q: Seq<char>, i: int, t: i64)
    requires
        apps.len() <= usize::MAX,
        0 <= i < apps.len(),
        app_score(apps[i], q) == Some(t),
    ensures
        app_candidates(apps, q).contains((i as usize, t)),
    decreases apps.len(),
{
    let prev = app_candidates(apps.drop_last(), q);
    if i < apps.len() - 1 {
        assert(apps.drop_last()[i] == apps[i]);
        lemma_app_candidates_complete(apps.drop_last(), q, i, t);
        let k = choose|k: int| 0 <= k < prev.len() && prev[k] == (i as usize, t);
        match app_score(apps.last(), q) {
            Some(x) => assert(app_candidates(apps, q)[k] == prev[k]),
            None => {},
        }
    } else {
        assert(app_candidates(apps, q) == prev.push(((apps.len() - 1) as usize, t)));
        assert(app_candidates(apps, q)[prev.len() as int] == (i as usize, t));
    }
}

/// An application whose name or `TryExec`, in lower case, scores at least
/// 25 against the lower-cased query, and whose name, `TryExec` and keywords
/// hold every character of the lower-cased query between them, is a
/// candidate for the query, with a score no lower than that one.
pub proof fn law_name_or_tryexec_match(apps: Seq<AppView>, q: Seq<char>, i: int, s: i64)
    requires
        apps.len() <= usize::MAX,
        0 <= i < apps.len(),
        forall|k: int|
            0 <= k < lowercase(q).len() ==> lowercase(apps[i].name).contains(
                #[trigger] lowercase(q)[k],
            ) || lowercase(apps[i].tryexec).contains(lowercase(q)[k]) || lowercase(
                apps[i].keywords,
            ).contains(lowercase(q)[k]),
        skim_score(lowercase(apps[i].name), lowercase(q)) == Some(s) || skim_score(
            lowercase(apps[i].tryexec),
            lowercase(q),
        ) == Some(s),
        s >= 25,
    ensures
        exists|t: i64| t >= s && #[trigger] app_candidates(apps, q).contains((i as usize, t)),
{
    let app = apps[i];
    let lq = lowercase(q);
    assert(chars_covered(lq, lowercase(app.name), lowercase(app.tryexec), lowercase(app.keywords)));
    let t = app_score(app, q)->0;
    assert(app_score(app, q) == Some(t));
    assert(t >= s);
    lemma_app_candidates_complete(apps, q, i, t);
}

/// The index of the first application named `name`.
pub fn find_app_by_name(apps: &Vec<App>, name: &str) -> (r: Option<usize>)
    ensures
        match r {
            Some(i) => i < apps.len() && apps@[i as int].name@ == name@ && forall|j: int|
                0 <= j < i ==> apps@[j].name@ != name@,
            None => forall|j: int| 0 <= j < apps.len() ==> apps@[j].name@ != name@,
        },
{
    let target = chars_of(name);
    let mut i: usize = 0;
    while i < apps.len()
        invariant
            i <= apps.len(),
            target@ == name@,
            forall|j: int| 0 <= j < i ==> apps@[j].name@ != name@,
        decreases apps.len() - i,
    {
        if chars_eq(&chars_of_string(&apps[i].name), &target) {
            return Some(i);
        }
        i = i + 1;
    }
    None
}

// ---------------------------------------------------------------------------
// Running an application.
/// The words of a command line that are not field codes (those starting with `%`).
pub open spec fn command_words(ws: Seq<Seq<char>>) -> Seq<Seq<char>>
    decreases ws.len(),
{
    if ws.len() == 0 {
        ws
    } else {
        let prev = command_words(ws.drop_last());
        if ws.last().len() > 0 && ws.last()[0] == '%' {
            prev
        } else {
            prev.push(ws.last())
        }
    }
}

/// The program and arguments that a desktop entry's `Exec` value runs.
pub open spec fn argv_of(exec: Seq<char>) -> Seq<Seq<char>> {
    command_words(words(exec))
}

/// The program and its arguments for the command line `exec`: its words,
/// without the field codes; empty where nothing is left to run.
pub fn command_argv(exec: &str) -> (r: Vec<String>)
    ensures
        r.deep_view() == argv_of(exec@),
{
    let ws = words_of(&chars_of(exec));
    let ghost wv = ws.deep_view();
    let mut out: Vec<String> = Vec::new();
    let mut i: usize = 0;
    assert(wv.take(0) =~= Seq::<Seq<char>>::empty());
    while i < ws.len()
        invariant
            i <= ws.len(),
            wv == ws.deep_view(),
            out.deep_view() == command_words(wv.take(i as int)),
        decreases ws.len() - i,
    {
        assert(wv.take(i + 1).drop_last() =~= wv.take(i as int));
        assert(ws[i as int]@ == wv[i as int]);
        let w = &ws[i];
        if !(w.len() > 0 && w[0] == '%') {
            let ghost prev = out.deep_view();
            out.push(string_from_chars(w));
            assert(out.deep_view() =~= prev.push(w@));
        }
        i = i + 1;
    }
    assert(wv.take(ws.len() as int) =~= wv);
    out
}

proof fn lemma_words_shape(s: Seq<char>)
    ensures
        forall|k: int|
            0 <= k < words(s).len() ==> (#[trigger] words(s)[k]).len() > 0 && forall|j: int|
                0 <= j < words(s)[k].len() ==> !is_ws(words(s)[k][j]),
        s.len() > 0 && !is_ws(s.last()) ==> words(s).len() > 0,
    decreases s.len(),
{
    if s.len() > 0 {
        lemma_words_shape(s.drop_last());
        let prev = words(s.drop_last());
        let c = s.last();
        if !is_ws(c) && s.len() >= 2 && !is_ws(s[s.len() - 2]) {
            assert(s.drop_last().last() == s[s.len() - 2]);
            assert forall|k: int| 0 <= k < words(s).len() implies (#[trigger] words(s)[k]).len() > 0
                && forall|j: int| 0 <= j < words(s)[k].len() ==> !is_ws(words(s)[k][j]) by {
                if k == words(s).len() - 1 {
                    assert(words(s)[k] == prev.last().push(c));
                    assert forall|j: int| 0 <= j < words(s)[k].len() implies !is_ws(words(s)[k][j]) by {
                        if j < prev.last().len() {
                            assert(words(s)[k][j] == prev[prev.len() - 1][j]);
                        }
                    }
                } else {
                    assert(words(s)[k] == prev[k]);
                }
            }
        }
    }
}

proof fn lemma_command_words_subset(ws: Seq<Seq<char>>)
    ensures
        forall|k: int|
            0 <= k < command_words(ws).len() ==> ws.contains(#[trigger] command_words(ws)[k])
                && !(command_words(ws)[k].len() > 0 && command_words(ws)[k][0] == '%'),
    decreases ws.len(),
{
    if ws.len() > 0 {
        lemma_command_words_subset(ws.drop_last());
        let prev = command_words(ws.drop_last());
        assert forall|k: int| 0 <= k < command_words(ws).len() implies ws.contains(
            #[trigger] command_words(ws)[k],
        ) && !(command_words(ws)[k].len() > 0 && command_words(ws)[k][0] == '%') by {
            if k < prev.len() {
                assert(command_words(ws)[k] == prev[k]);
                let j = choose|j: int| 0 <= j < ws.drop_last().len() && ws.drop_last()[j] == prev[k];
                assert(ws[j] == prev[k]);
            } else {
                assert(ws[ws.len() - 1] == command_words(ws)[k]);
            }
        }
    }
}

/// Every argument that a command line runs is a non-empty run of
/// non-whitespace characters that does not start with `%`.
pub proof fn law_argv_shape(exec: Seq<char>)
    ensures
        forall|k: int|
            0 <= k < argv_of(exec).len() ==> {
                let a = #[trigger] argv_of(exec)[k];
                &&& a.len() > 0
                &&& a[0] != '%'
                &&& forall|j: int| 0 <= j < a.len() ==> !is_ws(a[j])
            },
{
    lemma_words_shape(exec);
    lemma_command_words_subset(words(exec));
    assert forall|k: int| 0 <= k < argv_of(exec).len() implies {
        let a = #[trigger] argv_of(exec)[k];
        &&& a.len() > 0
        &&& a[0] != '%'
        &&& forall|j: int| 0 <= j < a.len() ==> !is_ws(a[j])
    } by {
        let a = argv_of(exec)[k];
        assert(words(exec).contains(a));
        let m = choose|m: int| 0 <= m < words(exec).len() && words(exec)[m] == a;
        assert(words(exec)[m].len() > 0);
    }
}


// ---------------------------------------------------------------------------
// Icons.
/// The data files that may hold an icon named `name`, in the order tried.
pub open spec fn pixmap_candidates_of(name: Seq<char>) -> Seq<Seq<char>> {
    seq!["pixmaps/"@ + name + ".svg"@, "pixmaps/"@ + name + ".png"@]
}

pub fn pixmap_candidates(name: &str) -> (r: Vec<String>)
    ensures
        r.deep_view() == pixmap_candidates_of(name@),
{
    let mut svg = String::from_str("pixmaps/");
    svg.append(name);
    svg.append(".svg");
    let mut png = String::from_str("pixmaps/");
    png.append(name);
    png.append(".png");
    let mut r: Vec<String> = Vec::new();
    r.push(svg);
    r.push(png);
    assert(r.deep_view() =~= pixmap_candidates_of(name@));
    r
}

/// The first of `found` that is there.
pub open spec fn first_found(found: Seq<Option<Seq<char>>>) -> Option<Seq<char>>
    decreases found.len(),
{
    if found.len() == 0 {
        None
    } else if found[0] is Some {
        found[0]
    } else {
        first_found(found.drop_first())
    }
}

/// The icon file for the icon `name`: the name itself where it is an
/// absolute path that exists; else the theme's icon, unless the name is
/// `android-studio` (whose themed icons are often broken); else the first
/// pixmap found.
pub open spec fn icon_path_of(
    name: Seq<char>,
    exists: bool,
    themed: Option<Seq<char>>,
    pixmaps: Seq<Option<Seq<char>>>,
) -> Option<Seq<char>> {
    if name.len() > 0 && name[0] == '/' && exists {
        Some(name)
    } else if themed is Some && name != "android-studio"@ {
        themed
    } else {
        first_found(pixmaps)
    }
}

pub open spec fn opts_view(v: Seq<Option<String>>) -> Seq<Option<Seq<char>>> {
    v.map_values(|o: Option<String>| crate::desktop::opt_str_view(o))
}

/// Chooses the icon file for `name`, given whether `name` exists as a
/// path, the theme's icon for it, and the pixmaps found for each of
/// `pixmap_candidates(name)`.
pub fn resolve_icon_path(
    name: &str,
    exists: bool,
    themed: Option<String>,
    pixmaps: &Vec<Option<String>>,
) -> (r: Option<String>)
    ensures
        crate::desktop::opt_str_view(r) == icon_path_of(
            name@,
            exists,
            crate::desktop::opt_str_view(themed),
            opts_view(pixmaps@),
        ),
{
    let n = chars_of(name);
    if n.len() > 0 && n[0] == '/' && exists {
        return Some(name.to_owned());
    }
    if themed.is_some() && !chars_eq(&n, &chars_of("android-studio")) {
        return themed;
    }
    let ghost pv = opts_view(pixmaps@);
    let mut i: usize = 0;
    assert(pv.skip(0) =~= pv);
    assert(n@ == name@);
    while i < pixmaps.len()
        invariant
            i <= pixmaps.len(),
            pv == opts_view(pixmaps@),
            first_found(pv) == first_found(pv.skip(i as int)),
            icon_path_of(name@, exists, crate::desktop::opt_str_view(themed), pv) == first_found(pv),
        decreases pixmaps.len() - i,
    {
        assert(pv.skip(i as int)[0] == crate::desktop::opt_str_view(pixmaps@[i as int]));
        if let Some(p) = &pixmaps[i] {
            assert(pixmaps@[i as int] == Some(*p));
            assert(pv.skip(i as int)[0] == Some(p@));
            assert(first_found(pv.skip(i as int)) == Some(p@));
            return Some(p.clone());
        }
        assert(pv.skip(i as int).drop_first() =~= pv.skip(i + 1));
        i = i + 1;
    }
    None
}

/// The icon of an application's action in the sidebar: its own, or an
/// external-link sign.
pub fn action_icon(icon: &Option<String>) -> (r: String)
    ensures
        r@ == match icon {
            Some(i) => i@,
            None => "external-link-symbolic"@,
        },
{
    match icon {
        Some(i) => i.clone(),
        None => String::from_str("external-link-symbolic"),
    }
}

} // verus!
