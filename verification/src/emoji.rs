//! Emoji: the catalogue they are taken from and how a query ranks them.
use vstd::prelude::*;
use vstd::string::StringExecFns;

use crate::desktop::opt_str_view;
use crate::matching::{best_first, fuzzy_score, law_best_first, skim_score, take_best_first};
use crate::text::{chars_of, strip_prefix_char, strip_prefix_of, string_from_chars};

verus! {

/// The prefix that restricts a query to emoji.
pub const EMOJI_PREFIX: char = '!';

/// The least score an emoji's short code (or name) must reach to be shown.
pub const EMOJI_MIN_SCORE: i64 = 60;

/// An emoji: its text, its name and its first short code, if any.
#[derive(Debug, Clone)]
pub struct EmojiRecord {
    pub glyph: String,
    pub name: String,
    pub shortcode: Option<String>,
}

impl View for EmojiRecord {
    type V = (Seq<char>, Seq<char>, Option<Seq<char>>);

    open spec fn view(&self) -> (Seq<char>, Seq<char>, Option<Seq<char>>) {
        (self.glyph@, self.name@, opt_str_view(self.shortcode))
    }
}

/// The `i`-th emoji that `emojis::iter()` yields (text, name and first
/// short code), `None` past the last.
pub uninterp spec fn emoji_entry(i: nat) -> Option<(Seq<char>, Seq<char>, Option<Seq<char>>)>;

/// Collects what `emojis::iter()` yields, each emoji with its text
/// (`Emoji::as_str`), name (`Emoji::name`) and first short code
/// (`Emoji::shortcode`). The `i`-th of them is `emoji_entry(i)`, and
/// `emoji_entry` has nothing past them.
#[verifier::external_body]
fn all_emojis() -> (r: Vec<EmojiRecord>)
    ensures
        forall|i: int| 0 <= i < r.len() ==> emoji_entry(i as nat) == Some(#[trigger] r@[i]@),
        emoji_entry(r.len() as nat) is None,
{
    emojis::iter().map(
        |e| EmojiRecord {
            glyph: e.as_str().to_string(),
            name: e.name().to_string(),
            shortcode: e.shortcode().map(|s| s.to_string()),
        },
    ).collect()
}

/// Every emoji of the catalogue, in its order.
pub fn emoji_catalogue() -> (r: Vec<EmojiRecord>)
    ensures
        forall|i: int| 0 <= i < r.len() ==> emoji_entry(i as nat) == Some(#[trigger] r@[i]@),
        emoji_entry(r.len() as nat) is None,
{
    all_emojis()
}

pub open spec fn emojis_view(v: Seq<EmojiRecord>) -> Seq<(Seq<char>, Seq<char>, Option<Seq<char>>)> {
    v.map_values(|e: EmojiRecord| e@)
}

/// What a query is matched against: the short code, or the name where
/// there is none.
pub open spec fn emoji_key(e: (Seq<char>, Seq<char>, Option<Seq<char>>)) -> Seq<char> {
    match e.2 {
        Some(s) => s,
        None => e.1,
    }
}

/// A score that shows its emoji: one that reaches the least score.
pub open spec fn emoji_score_kept(score: Option<i64>) -> Option<i64> {
    match score {
        Some(s) => if s >= EMOJI_MIN_SCORE {
            Some(s)
        } else {
            None
        },
        None => None,
    }
}

pub fn keep_emoji_score(score: Option<i64>) -> (r: Option<i64>)
    ensures
        r == emoji_score_kept(score),
{
    match score {
        Some(s) => if s >= EMOJI_MIN_SCORE {
            Some(s)
        } else {
            None
        },
        None => None,
    }
}

/// The emoji that `q` finds, with their indices and scores.
pub open spec fn emoji_candidates(v: Seq<(Seq<char>, Seq<char>, Option<Seq<char>>)>, q: Seq<char>) -> Seq<
    (usize, i64),
>
    decreases v.len(),
{
    if v.len() == 0 {
        Seq::empty()
    } else {
        let prev = emoji_candidates(v.drop_last(), q);
        match emoji_score_kept(skim_score(emoji_key(v.last()), q)) {
            Some(s) => prev.push(((v.len() - 1) as usize, s)),
            None => prev,
        }
    }
}

/// The emoji shown for `query`, best first, at most `max` of them.
pub open spec fn emoji_results(v: Seq<(Seq<char>, Seq<char>, Option<Seq<char>>)>, query: Seq<char>, max: usize) -> Seq<
    usize,
> {
    best_first(emoji_candidates(v, strip_prefix_char(query, EMOJI_PREFIX)), max)
}

proof fn lemma_emoji_candidates(v: Seq<(Seq<char>, Seq<char>, Option<Seq<char>>)>, q: Seq<char>)
    requires
        v.len() <= usize::MAX,
    ensures
        forall|k: int|
            0 <= k < emoji_candidates(v, q).len() ==> (#[trigger] emoji_candidates(v, q)[k]).0
                < v.len() && emoji_score_kept(
                skim_score(emoji_key(v[emoji_candidates(v, q)[k].0 as int]), q),
            ) == Some(emoji_candidates(v, q)[k].1),
    decreases v.len(),
{
    if v.len() > 0 {
        lemma_emoji_candidates(v.drop_last(), q);
        let prev = emoji_candidates(v.drop_last(), q);
        assert forall|k: int| 0 <= k < emoji_candidates(v, q).len() implies (
        #[trigger] emoji_candidates(v, q)[k]).0 < v.len() && emoji_score_kept(
            skim_score(emoji_key(v[emoji_candidates(v, q)[k].0 as int]), q),
        ) == Some(emoji_candidates(v, q)[k].1) by {
            if k < prev.len() {
                assert(emoji_candidates(v, q)[k] == prev[k]);
                assert(v[prev[k].0 as int] == v.drop_last()[prev[k].0 as int]);
            } else {
                assert(emoji_candidates(v, q)[k].0 == v.len() - 1);
            }
        }
    }
}

/// Every emoji shown for a query matches it: its short code (or name)
/// scores at least the least score against the query (its prefix removed),
/// and no more than `max` are shown. (The emoji are those of a `Vec`, so
/// their number fits in a `usize`.)
pub proof fn law_shown_emojis_match(
    v: Seq<(Seq<char>, Seq<char>, Option<Seq<char>>)>,
    query: Seq<char>,
    max: usize,
)
    requires
        v.len() <= usize::MAX,
    ensures
        emoji_results(v, query, max).len() <= max,
        forall|k: int|
            0 <= k < emoji_results(v, query, max).len() ==> #[trigger] emoji_results(v, query, max)[k]
                < v.len() && match skim_score(
                emoji_key(v[emoji_results(v, query, max)[k] as int]),
                strip_prefix_char(query, EMOJI_PREFIX),
            ) {
                Some(s) => s >= EMOJI_MIN_SCORE,
                None => false,
            },
{
    let q = strip_prefix_char(query, EMOJI_PREFIX);
    let c = emoji_candidates(v, q);
    lemma_emoji_candidates(v, q);
    law_best_first(c, max);
    let order = best_first(c, max);
    assert forall|k: int| 0 <= k < order.len() implies #[trigger] order[k] < v.len() && match skim_score(
        emoji_key(v[order[k] as int]),
        q,
    ) {
        Some(s) => s >= EMOJI_MIN_SCORE,
        None => false,
    } by {
        let j = choose|j: int| 0 <= j < c.len() && c[j].0 == order[k];
        assert(emoji_score_kept(skim_score(emoji_key(v[c[j].0 as int]), q)) == Some(c[j].1));
    }
}

/// The emoji of `emojis` shown for `query`, as indices, best first.
pub fn rank_emojis(emojis: &Vec<EmojiRecord>, query: &str, max_entries: usize) -> (r: Vec<usize>)
    ensures
        r@ == emoji_results(emojis_view(emojis@), query@, max_entries),
{
    let q = string_from_chars(&strip_prefix_of(&chars_of(query), EMOJI_PREFIX));
    let ghost ev = emojis_view(emojis@);
    let mut cands: Vec<(usize, i64)> = Vec::new();
    let mut i: usize = 0;
    assert(ev.take(0) =~= Seq::<(Seq<char>, Seq<char>, Option<Seq<char>>)>::empty());
    while i < emojis.len()
        invariant
            i <= emojis.len(),
            ev == emojis_view(emojis@),
            q@ == strip_prefix_char(query@, EMOJI_PREFIX),
            cands@ == emoji_candidates(ev.take(i as int), q@),
        decreases emojis.len() - i,
    {
        assert(ev.take(i + 1).drop_last() =~= ev.take(i as int));
        assert(ev.take(i + 1).last() == emojis[i as int]@);
        let e = &emojis[i];
        let score = match &e.shortcode {
            Some(sc) => fuzzy_score(sc.as_str(), q.as_str()),
            None => fuzzy_score(e.name.as_str(), q.as_str()),
        };
        if let Some(s) = keep_emoji_score(score) {
            cands.push((i, s));
        }
        i = i + 1;
    }
    assert(ev.take(emojis.len() as int) =~= ev);
    take_best_first(&cands, max_entries)
}

/// The line under an emoji: its name, and `, ` and its short code where it
/// has one.
pub open spec fn emoji_subtitle_of(e: (Seq<char>, Seq<char>, Option<Seq<char>>)) -> Seq<char> {
    match e.2 {
        Some(sc) => e.1 + ", "@ + sc,
        None => e.1,
    }
}

pub fn emoji_subtitle(e: &EmojiRecord) -> (r: String)
    ensures
        r@ == emoji_subtitle_of(e@),
{
    let mut r = e.name.clone();
    match &e.shortcode {
        Some(sc) => {
            r.append(", ");
            r.append(sc.as_str());
        },
        None => {},
    }
    r
}

} // verus!
