//! Characters: the Unicode data table read into named characters, the order
//! they are kept in, and how a query ranks them.
use vstd::prelude::*;
use vstd::string::StringExecFns;
use vstd::utf8::encode_utf8;

use crate::matching::{
    best_first, fuzzy_score, indices, law_best_first, skim_score, sort_by_score, sort_scored,
    take_best_first, unwrap_or_zero,
};
use crate::text::{
    chars_of, chars_of_string, concat_chars, contains_infix, has_infix, lines, lines_of,
    lowercase, lowercase_chars, lowercase_string, split_chars, split_on, string_from_chars,
    strip_prefix_char, strip_prefix_of, words, words_of,
};

verus! {

/// The prefix that restricts a query to characters.
pub const CHAR_PREFIX: char = '!';

/// The least score a character's name or alias must reach to be shown.
pub const CHAR_MIN_SCORE: i64 = 60;

/// A character of the Unicode data table, with its name and alias.
#[derive(Debug, Clone)]
pub struct UnicodeIdentifier {
    pub character: char,
    pub name: String,
    pub alias: String,
}

impl View for UnicodeIdentifier {
    type V = (char, Seq<char>, Seq<char>);

    open spec fn view(&self) -> (char, Seq<char>, Seq<char>) {
        (self.character, self.name@, self.alias@)
    }
}

// ---------------------------------------------------------------------------
// Hexadecimal code points.
pub open spec fn hex_digit(c: char) -> Option<nat> {
    if '0' <= c && c <= '9' {
        Some((c as nat - '0' as nat) as nat)
    } else if 'a' <= c && c <= 'f' {
        Some((c as nat - 'a' as nat + 10) as nat)
    } else if 'A' <= c && c <= 'F' {
        Some((c as nat - 'A' as nat + 10) as nat)
    } else {
        None
    }
}

/// The value of a run of hexadecimal digits; `None` where a character is no digit.
pub open spec fn hex_value(s: Seq<char>) -> Option<nat>
    decreases s.len(),
{
    if s.len() == 0 {
        Some(0)
    } else {
        match (hex_value(s.drop_last()), hex_digit(s.last())) {
            (Some(v), Some(d)) => Some(v * 16 + d),
            _ => None,
        }
    }
}

/// A hexadecimal `u32`, as `u32::from_str_radix(s, 16)` reads it: an
/// optional `+`, then at least one digit, and a value that fits.
pub open spec fn hex_u32(s: Seq<char>) -> Option<u32> {
    let d = if s.len() > 0 && s[0] == '+' {
        s.drop_first()
    } else {
        s
    };
    if d.len() == 0 {
        None
    } else {
        match hex_value(d) {
            Some(v) => if v <= u32::MAX {
                Some(v as u32)
            } else {
                None
            },
            None => None,
        }
    }
}

fn digit_value(c: char) -> (r: Option<u32>)
    ensures
        match r {
            Some(d) => hex_digit(c) == Some(d as nat) && d < 16,
            None => hex_digit(c) is None,
        },
{
    if '0' <= c && c <= '9' {
        Some((c as u32) - ('0' as u32))
    } else if 'a' <= c && c <= 'f' {
        Some((c as u32) - ('a' as u32) + 10)
    } else if 'A' <= c && c <= 'F' {
        Some((c as u32) - ('A' as u32) + 10)
    } else {
        None
    }
}

/// Reads `s` as a hexadecimal `u32`.
pub fn parse_hex_u32(s: &Vec<char>) -> (r: Option<u32>)
    ensures
        r == hex_u32(s@),
{
    let start: usize = if s.len() > 0 && s[0] == '+' {
        1
    } else {
        0
    };
    let ghost d = if s@.len() > 0 && s@[0] == '+' {
        s@.drop_first()
    } else {
        s@
    };
    assert(d == s@.skip(start as int));
    if start >= s.len() {
        return None;
    }
    let mut value: u32 = 0;
    let mut big = false;
    let mut i = start;
    assert(d.take(0) =~= Seq::<char>::empty());
    while i < s.len()
        invariant
            start <= i <= s.len(),
            d == s@.skip(start as int),
            d == if s@.len() > 0 && s@[0] == '+' {
                s@.drop_first()
            } else {
                s@
            },
            hex_value(d.take(i - start)) is Some,
            big <==> hex_value(d.take(i - start))->0 > u32::MAX,
            !big ==> hex_value(d.take(i - start))->0 == value as nat,
        decreases s.len() - i,
    {
        let ghost k = i - start;
        assert(d.take(k + 1).drop_last() =~= d.take(k));
        assert(d.take(k + 1).last() == s@[i as int]);
        match digit_value(s[i]) {
            None => {
                assert(hex_value(d.take(k + 1)) is None);
                proof {
                    lemma_hex_none_extends(d, k + 1);
                }
                assert(d.len() > 0);
                assert(hex_value(d) is None);
                return None;
            },
            Some(dv) => {
                if !big {
                    if value > (u32::MAX - dv) / 16 {
                        big = true;
                    } else {
                        value = value * 16 + dv;
                    }
                }
            },
        }
        i = i + 1;
    }
    assert(d.take(d.len() as int) =~= d);
    if big {
        None
    } else {
        Some(value)
    }
}

proof fn lemma_hex_none_extends(d: Seq<char>, k: int)
    requires
        0 <= k <= d.len(),
        hex_value(d.take(k)) is None,
    ensures
        hex_value(d) is None,
    decreases d.len() - k,
{
    if k < d.len() {
        assert(d.take(k + 1).drop_last() =~= d.take(k));
        lemma_hex_none_extends(d, k + 1);
    } else {
        assert(d.take(k) =~= d);
    }
}

/// A `u32` that is a Unicode scalar value, the values `char` holds.
pub open spec fn is_scalar(v: u32) -> bool {
    v < 0xD800 || (0xE000 <= v && v < 0x110000)
}

/// Calls `char::from_u32`, which, as its documentation says, gives the
/// `char` with that value where the value is a Unicode scalar value, and
/// `None` otherwise.
#[verifier::external_body]
fn char_from_u32(v: u32) -> (r: Option<char>)
    ensures
        r == if is_scalar(v) {
            Some(v as char)
        } else {
            None
        },
{
    char::from_u32(v)
}

/// Whether `emojis::get` finds an emoji for the text `s`.
pub uninterp spec fn is_emoji_text(s: Seq<char>) -> bool;

/// Calls `emojis::get` on the one-character text `c`; the result tells
/// whether it found an emoji, and is `is_emoji_text` of that text.
#[verifier::external_body]
fn is_emoji_char(c: char) -> (r: bool)
    ensures
        r == is_emoji_text(seq![c]),
{
    emojis::get(&c.to_string()).is_some()
}

/// A control character, as `char::is_control` tells it: the general
/// category `Cc`, U+0000 to U+001F and U+007F to U+009F.
pub open spec fn is_control_char(c: char) -> bool {
    c <= '\u{1F}' || ('\u{7F}' <= c && c <= '\u{9F}')
}

pub fn is_control(c: char) -> (r: bool)
    ensures
        r == is_control_char(c),
{
    c <= '\u{1F}' || ('\u{7F}' <= c && c <= '\u{9F}')
}

// ---------------------------------------------------------------------------
// The Unicode data table.
pub open spec fn field(fields: Seq<Seq<char>>, i: int) -> Seq<char> {
    if 0 <= i < fields.len() {
        fields[i]
    } else {
        Seq::empty()
    }
}

/// The character that a line of `UnicodeData.txt` describes: its first
/// field read as a hexadecimal code point, its name the second field, its
/// alias the thirteenth (empty where missing). Private-use characters,
/// control characters and those that are emoji are left out.
pub open spec fn unicode_identifier_of(line: Seq<char>) -> Option<(char, Seq<char>, Seq<char>)> {
    let f = split_on(line, ';');
    let name = field(f, 1);
    let alias = field(f, 12);
    match hex_u32(field(f, 0)) {
        None => None,
        Some(v) => if is_scalar(v) && !has_infix(name, "Private Use"@) && !is_control_char(
            v as char,
        ) && !is_emoji_text(seq![v as char]) {
            Some((v as char, name, alias))
        } else {
            None
        },
    }
}

/// Reads one line of the Unicode data table. Whether the character is of
/// zero width or undefined is not decided here.
pub fn from_unicode_data_line(line: &str) -> (r: Option<UnicodeIdentifier>)
    ensures
        match r {
            Some(u) => unicode_identifier_of(line@) == Some(u@),
            None => unicode_identifier_of(line@) is None,
        },
{
    let fields = split_chars(&chars_of(line), ';');
    let ghost fv = fields.deep_view();
    assert(fields[0]@ == fv[0]);
    let name: Vec<char> = if fields.len() > 1 {
        assert(fields[1]@ == fv[1]);
        fields[1].clone()
    } else {
        Vec::new()
    };
    let alias: Vec<char> = if fields.len() > 12 {
        assert(fields[12]@ == fv[12]);
        fields[12].clone()
    } else {
        Vec::new()
    };
    assert(name@ == field(fv, 1));
    assert(alias@ == field(fv, 12));
    let v = match parse_hex_u32(&fields[0]) {
        Some(v) => v,
        None => return None,
    };
    let c = match char_from_u32(v) {
        Some(c) => c,
        None => return None,
    };
    if contains_infix(&name, &chars_of("Private Use")) {
        return None;
    }
    if is_control(c) {
        return None;
    }
    if is_emoji_char(c) {
        return None;
    }
    Some(
        UnicodeIdentifier {
            character: c,
            name: string_from_chars(&name),
            alias: string_from_chars(&alias),
        },
    )
}

/// Keeps the character `u` read from a line of the Unicode data table,
/// given whether it is of zero width and whether it is defined (answers of
/// glib's Unicode table): it is offered only where it is not of zero width
/// and is defined. A line of the table gives a character to offer exactly
/// where `from_unicode_data_line` reads one and this keeps it.
pub fn keep_identifier(u: UnicodeIdentifier, zero_width: bool, defined: bool) -> (r: Option<
    UnicodeIdentifier,
>)
    ensures
        match r {
            Some(k) => !zero_width && defined && k@ == u@,
            None => zero_width || !defined,
        },
{
    if !zero_width && defined {
        Some(u)
    } else {
        None
    }
}

/// The characters that the lines of `data` describe, in order.
pub open spec fn unicode_identifiers(ls: Seq<Seq<char>>) -> Seq<(char, Seq<char>, Seq<char>)>
    decreases ls.len(),
{
    if ls.len() == 0 {
        Seq::empty()
    } else {
        let prev = unicode_identifiers(ls.drop_last());
        match unicode_identifier_of(ls.last()) {
            Some(u) => prev.push(u),
            None => prev,
        }
    }
}

pub open spec fn identifiers_view(v: Seq<UnicodeIdentifier>) -> Seq<(char, Seq<char>, Seq<char>)> {
    v.map_values(|u: UnicodeIdentifier| u@)
}

/// The characters of the Unicode data table `data`.
pub fn discover_chars(data: &str) -> (r: Vec<UnicodeIdentifier>)
    ensures
        identifiers_view(r@) == unicode_identifiers(lines(data@)),
{
    let ls = lines_of(&chars_of(data));
    let ghost lv = ls.deep_view();
    let mut out: Vec<UnicodeIdentifier> = Vec::new();
    let mut i: usize = 0;
    assert(lv.take(0) =~= Seq::<Seq<char>>::empty());
    while i < ls.len()
        invariant
            i <= ls.len(),
            lv == ls.deep_view(),
            lv == lines(data@),
            identifiers_view(out@) == unicode_identifiers(lv.take(i as int)),
        decreases ls.len() - i,
    {
        assert(lv.take(i + 1).drop_last() =~= lv.take(i as int));
        assert(ls[i as int]@ == lv[i as int]);
        let line = string_from_chars(&ls[i]);
        if let Some(u) = from_unicode_data_line(line.as_str()) {
            let ghost prev = out@;
            out.push(u);
            assert(identifiers_view(out@) =~= identifiers_view(prev).push(u@));
        }
        i = i + 1;
    }
    assert(lv.take(ls.len() as int) =~= lv);
    out
}

/// Each character's index and the length of its name in UTF-8 bytes, as
/// `str::len` gives it.
pub open spec fn name_lengths(v: Seq<(char, Seq<char>, Seq<char>)>) -> Seq<(usize, i64)> {
    Seq::new(v.len(), |i: int| (i as usize, (encode_utf8(v[i].1).len() as usize) as i64))
}

/// The order in which characters are kept: by descending length of name,
/// those of equal length in reverse order.
pub open spec fn character_order_of(v: Seq<(char, Seq<char>, Seq<char>)>) -> Seq<usize> {
    indices(sort_by_score(name_lengths(v)).reverse())
}

/// The order in which the characters `chars` are kept, as indices.
pub fn character_order(chars: &Vec<UnicodeIdentifier>) -> (r: Vec<usize>)
    ensures
        r@ == character_order_of(identifiers_view(chars@)),
{
    let ghost iv = identifiers_view(chars@);
    let mut keys: Vec<(usize, i64)> = Vec::new();
    let mut i: usize = 0;
    while i < chars.len()
        invariant
            i <= chars.len(),
            iv == identifiers_view(chars@),
            keys@ == name_lengths(iv).take(i as int),
        decreases chars.len() - i,
    {
        let name = chars[i].name.as_str();
        assert(name@ == iv[i as int].1);
        let len = name.len();
        keys.push((i, len as i64));
        assert(keys@ =~= name_lengths(iv).take(i + 1));
        i = i + 1;
    }
    assert(name_lengths(iv).take(chars.len() as int) =~= name_lengths(iv));
    let sorted = sort_scored(&keys);
    let n = sorted.len();
    let mut out: Vec<usize> = Vec::new();
    let mut k: usize = 0;
    while k < n
        invariant
            n == sorted.len(),
            k <= n,
            out@ == indices(sorted@.reverse().take(k as int)),
        decreases n - k,
    {
        out.push(sorted[n - 1 - k].0);
        assert(indices(sorted@.reverse().take(k + 1)) =~= indices(
            sorted@.reverse().take(k as int),
        ).push(sorted@[n - 1 - k].0));
        k = k + 1;
    }
    assert(sorted@.reverse().take(n as int) =~= sorted@.reverse());
    out
}

// ---------------------------------------------------------------------------
// Ranking characters for a query.
/// The score of a character from the scores of its name and alias: shown
/// only where one of them reaches the least score, with the greater.
pub open spec fn char_score_of(name: Option<i64>, alias: Option<i64>) -> Option<i64> {
    let n = unwrap_or_zero(name);
    let a = unwrap_or_zero(alias);
    if n >= CHAR_MIN_SCORE || a >= CHAR_MIN_SCORE {
        Some(
            if n >= a {
                n
            } else {
                a
            },
        )
    } else {
        None
    }
}

pub fn combine_char_scores(name: Option<i64>, alias: Option<i64>) -> (r: Option<i64>)
    ensures
        r == char_score_of(name, alias),
{
    let n = match name {
        Some(s) => s,
        None => 0,
    };
    let a = match alias {
        Some(s) => s,
        None => 0,
    };
    if n >= CHAR_MIN_SCORE || a >= CHAR_MIN_SCORE {
        Some(
            if n >= a {
                n
            } else {
                a
            },
        )
    } else {
        None
    }
}

/// The characters that `q` finds, with their indices and scores.
pub open spec fn char_candidates(v: Seq<(char, Seq<char>, Seq<char>)>, q: Seq<char>) -> Seq<
    (usize, i64),
>
    decreases v.len(),
{
    if v.len() == 0 {
        Seq::empty()
    } else {
        let prev = char_candidates(v.drop_last(), q);
        let lq = lowercase(q);
        match char_score_of(
            skim_score(lowercase(v.last().1), lq),
            skim_score(lowercase(v.last().2), lq),
        ) {
            Some(s) => prev.push(((v.len() - 1) as usize, s)),
            None => prev,
        }
    }
}

/// The characters shown for `query`, best first, at most `max` of them.
pub open spec fn char_results(v: Seq<(char, Seq<char>, Seq<char>)>, query: Seq<char>, max: usize) -> Seq<
    usize,
> {
    best_first(char_candidates(v, strip_prefix_char(query, CHAR_PREFIX)), max)
}

/// The score of the character `c` for the query `q`.
pub open spec fn char_score(c: (char, Seq<char>, Seq<char>), q: Seq<char>) -> Option<i64> {
    char_score_of(skim_score(lowercase(c.1), lowercase(q)), skim_score(lowercase(c.2), lowercase(q)))
}

proof fn lemma_char_candidates(v: Seq<(char, Seq<char>, Seq<char>)>, q: Seq<char>)
    requires
        v.len() <= usize::MAX,
    ensures
        forall|k: int|
            0 <= k < char_candidates(v, q).len() ==> (#[trigger] char_candidates(v, q)[k]).0
                < v.len() && char_score(v[char_candidates(v, q)[k].0 as int], q) == Some(
                char_candidates(v, q)[k].1,
            ),
    decreases v.len(),
{
    if v.len() > 0 {
        lemma_char_candidates(v.drop_last(), q);
        let prev = char_candidates(v.drop_last(), q);
        assert forall|k: int| 0 <= k < char_candidates(v, q).len() implies (
        #[trigger] char_candidates(v, q)[k]).0 < v.len() && char_score(
            v[char_candidates(v, q)[k].0 as int],
            q,
        ) == Some(char_candidates(v, q)[k].1) by {
            if k < prev.len() {
                assert(char_candidates(v, q)[k] == prev[k]);
                assert(v[prev[k].0 as int] == v.drop_last()[prev[k].0 as int]);
            } else {
                assert(char_candidates(v, q)[k].0 == v.len() - 1);
            }
        }
    }
}

/// Every character shown for a query matches it: its name or its alias,
/// in lower case, scores at least the least score against the query (its
/// prefix removed, in lower case), and no more than `max` are shown. (The
/// characters are those of a `Vec`, so their number fits in a `usize`.)
pub proof fn law_shown_chars_match(v: Seq<(char, Seq<char>, Seq<char>)>, query: Seq<char>, max: usize)
    requires
        v.len() <= usize::MAX,
    ensures
        char_results(v, query, max).len() <= max,
        forall|k: int|
            0 <= k < char_results(v, query, max).len() ==> #[trigger] char_results(v, query, max)[k]
                < v.len() && char_score(
                v[char_results(v, query, max)[k] as int],
                strip_prefix_char(query, CHAR_PREFIX),
            ) is Some,
{
    let q = strip_prefix_char(query, CHAR_PREFIX);
    let c = char_candidates(v, q);
    lemma_char_candidates(v, q);
    law_best_first(c, max);
    let order = best_first(c, max);
    assert forall|k: int| 0 <= k < order.len() implies #[trigger] order[k] < v.len() && char_score(
        v[order[k] as int],
        q,
    ) is Some by {
        let j = choose|j: int| 0 <= j < c.len() && c[j].0 == order[k];
        assert(char_score(v[c[j].0 as int], q) == Some(c[j].1));
    }
}

/// The characters shown for `query`, as indices into `chars`, best first.
pub fn rank_characters(chars: &Vec<UnicodeIdentifier>, query: &str, max_entries: usize) -> (r: Vec<
    usize,
>)
    ensures
        r@ == char_results(identifiers_view(chars@), query@, max_entries),
{
    let q = strip_prefix_of(&chars_of(query), CHAR_PREFIX);
    let lq = lowercase_string(&q);
    let ghost iv = identifiers_view(chars@);
    let mut cands: Vec<(usize, i64)> = Vec::new();
    let mut i: usize = 0;
    assert(iv.take(0) =~= Seq::<(char, Seq<char>, Seq<char>)>::empty());
    while i < chars.len()
        invariant
            i <= chars.len(),
            iv == identifiers_view(chars@),
            lq@ == lowercase(q@),
            cands@ == char_candidates(iv.take(i as int), q@),
        decreases chars.len() - i,
    {
        assert(iv.take(i + 1).drop_last() =~= iv.take(i as int));
        assert(iv.take(i + 1).last() == chars[i as int]@);
        let name = lowercase_string(&chars_of_string(&chars[i].name));
        let alias = lowercase_string(&chars_of_string(&chars[i].alias));
        let ns = fuzzy_score(name.as_str(), lq.as_str());
        let als = fuzzy_score(alias.as_str(), lq.as_str());
        if let Some(s) = combine_char_scores(ns, als) {
            cands.push((i, s));
        }
        i = i + 1;
    }
    assert(iv.take(chars.len() as int) =~= iv);
    take_best_first(&cands, max_entries)
}

/// `ws` joined with `sep` between them.
pub open spec fn join_with(ws: Seq<Seq<char>>, sep: Seq<char>) -> Seq<char>
    decreases ws.len(),
{
    if ws.len() == 0 {
        Seq::empty()
    } else if ws.len() == 1 {
        ws[0]
    } else {
        join_with(ws.drop_last(), sep) + sep + ws.last()
    }
}

/// The line under a character: its name, and `; ` and its alias where it
/// has one, in lower-case words separated by single spaces.
pub open spec fn character_subtitle_of(name: Seq<char>, alias: Seq<char>) -> Seq<char> {
    let comment = if alias.len() > 0 {
        name + "; "@ + alias
    } else {
        name
    };
    join_with(words(comment).map_values(|w: Seq<char>| lowercase(w)), " "@)
}

pub fn character_subtitle(name: &str, alias: &str) -> (r: String)
    ensures
        r@ == character_subtitle_of(name@, alias@),
{
    let n = chars_of(name);
    let a = chars_of(alias);
    let comment = if a.len() > 0 {
        concat_chars(&concat_chars(&n, &chars_of("; ")), &a)
    } else {
        n
    };
    let ws = words_of(&comment);
    let ghost wl = ws.deep_view().map_values(|w: Seq<char>| lowercase(w));
    let sep = chars_of(" ");
    let mut out: Vec<char> = Vec::new();
    let mut i: usize = 0;
    while i < ws.len()
        invariant
            i <= ws.len(),
            wl == ws.deep_view().map_values(|w: Seq<char>| lowercase(w)),
            sep@ == " "@,
            out@ == join_with(wl.take(i as int), " "@),
        decreases ws.len() - i,
    {
        assert(ws[i as int]@ == ws.deep_view()[i as int]);
        let lw = lowercase_chars(&ws[i]);
        if i == 0 {
            out = lw;
            assert(wl.take(1) =~= seq![wl[0]]);
        } else {
            out = concat_chars(&concat_chars(&out, &sep), &lw);
            assert(wl.take(i + 1).drop_last() =~= wl.take(i as int));
        }
        i = i + 1;
    }
    assert(wl.take(ws.len() as int) =~= wl);
    string_from_chars(&out)
}

} // verus!
