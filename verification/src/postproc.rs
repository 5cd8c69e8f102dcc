//! The post-processing passes over the transducer's raw output.
//!
//! Four kinds of repair, applied in this order (earlier passes may enable
//! later ones): removing the space the transducer inserts after an opening
//! quote (`' top'-vorm`) and after an opening parenthesis (`( buiten)gewoon`);
//! reverting the pre-processor's enumeration markers (`1#` back to `1.`);
//! promoting a newswire dateline (`AMSTERDAM - …`) onto its own line; and
//! splitting dash-bracketed parentheticals (`-zoals gezegd-`) while leaving
//! coordinated compounds (`huis- tuin- en keuken`) intact.

use vstd::prelude::*;

use crate::chars::chars_to_string;
use crate::chars::digit_char;
use crate::chars::is_digit_char;
use crate::chars::is_letter_char;
use crate::chars::is_space_char;
use crate::chars::is_upper_char;
use crate::chars::letter_char;
use crate::chars::space_char;
use crate::chars::str_chars;
use crate::chars::upper_char;
use crate::rewrite::lemma_replace_from_no_match;
use crate::rewrite::push_range;
use crate::rewrite::replace_all;
use crate::rewrite::replace_from;
use crate::rewrite::Matcher;

verus! {

/// A quote character as the quote-repair pass understands it.
pub open spec fn is_quote_char(c: char) -> bool {
    c == '`' || c == '\'' || c == '"'
}

fn quote_char(c: char) -> (r: bool)
    ensures
        r == is_quote_char(c),
{
    c == '`' || c == '\'' || c == '"'
}

/// The character class of a dateline after its two leading capitals:
/// capitals, parentheses, space, slash, comma, digits, period, dash.
pub open spec fn is_news_class_char(c: char) -> bool {
    is_upper_char(c) || c == '(' || c == ')' || c == ' ' || c == '/' || c == ',' || is_digit_char(
        c,
    ) || c == '.' || c == '-'
}

fn news_class_char(c: char) -> (r: bool)
    ensures
        r == is_news_class_char(c),
{
    upper_char(c) || c == '(' || c == ')' || c == ' ' || c == '/' || c == ',' || digit_char(c) || c
        == '.' || c == '-'
}

/// End of the run of characters satisfying `cls` that starts at `i`.
pub open spec fn run_end(s: Seq<char>, i: int, cls: spec_fn(char) -> bool) -> int
    decreases s.len() - i,
{
    if 0 <= i < s.len() && cls(s[i]) {
        run_end(s, i + 1, cls)
    } else {
        i
    }
}

pub proof fn lemma_run_end_props(s: Seq<char>, i: int, cls: spec_fn(char) -> bool)
    requires
        0 <= i <= s.len(),
    ensures
        i <= run_end(s, i, cls) <= s.len(),
        forall|j: int| i <= j < run_end(s, i, cls) ==> cls(#[trigger] s[j]),
        run_end(s, i, cls) < s.len() ==> !cls(s[run_end(s, i, cls)]),
    decreases s.len() - i,
{
    if 0 <= i < s.len() && cls(s[i]) {
        lemma_run_end_props(s, i + 1, cls);
    }
}

pub open spec fn letter_cls() -> spec_fn(char) -> bool {
    |c: char| is_letter_char(c)
}

pub open spec fn digit_cls() -> spec_fn(char) -> bool {
    |c: char| is_digit_char(c)
}

pub open spec fn news_cls() -> spec_fn(char) -> bool {
    |c: char| is_news_class_char(c)
}

pub open spec fn nondash_cls() -> spec_fn(char) -> bool {
    |c: char| c != '-'
}

pub open spec fn dash_cls() -> spec_fn(char) -> bool {
    |c: char| c == '-'
}

fn letter_run(v: &Vec<char>, i: usize) -> (r: usize)
    requires
        i <= v@.len(),
    ensures
        r as int == run_end(v@, i as int, letter_cls()),
        i <= r <= v@.len(),
{
    let ghost cls = letter_cls();
    let mut j = i;
    loop
        invariant
            i <= j <= v@.len(),
            cls == letter_cls(),
            run_end(v@, i as int, cls) == run_end(v@, j as int, cls),
        decreases v@.len() - j,
    {
        if j >= v.len() {
            proof {
                lemma_run_end_props(v@, i as int, cls);
            }
            return j;
        }
        proof {
            assert(cls(v@[j as int]) == is_letter_char(v@[j as int]));
        }
        if !letter_char(v[j]) {
            proof {
                lemma_run_end_props(v@, i as int, cls);
            }
            return j;
        }
        j = j + 1;
    }
}

fn digit_run(v: &Vec<char>, i: usize) -> (r: usize)
    requires
        i <= v@.len(),
    ensures
        r as int == run_end(v@, i as int, digit_cls()),
        i <= r <= v@.len(),
{
    let ghost cls = digit_cls();
    let mut j = i;
    loop
        invariant
            i <= j <= v@.len(),
            cls == digit_cls(),
            run_end(v@, i as int, cls) == run_end(v@, j as int, cls),
        decreases v@.len() - j,
    {
        if j >= v.len() {
            proof {
                lemma_run_end_props(v@, i as int, cls);
            }
            return j;
        }
        proof {
            assert(cls(v@[j as int]) == is_digit_char(v@[j as int]));
        }
        if !digit_char(v[j]) {
            proof {
                lemma_run_end_props(v@, i as int, cls);
            }
            return j;
        }
        j = j + 1;
    }
}

fn news_run(v: &Vec<char>, i: usize) -> (r: usize)
    requires
        i <= v@.len(),
    ensures
        r as int == run_end(v@, i as int, news_cls()),
        i <= r <= v@.len(),
{
    let ghost cls = news_cls();
    let mut j = i;
    loop
        invariant
            i <= j <= v@.len(),
            cls == news_cls(),
            run_end(v@, i as int, cls) == run_end(v@, j as int, cls),
        decreases v@.len() - j,
    {
        if j >= v.len() {
            proof {
                lemma_run_end_props(v@, i as int, cls);
            }
            return j;
        }
        proof {
            assert(cls(v@[j as int]) == is_news_class_char(v@[j as int]));
        }
        if !news_class_char(v[j]) {
            proof {
                lemma_run_end_props(v@, i as int, cls);
            }
            return j;
        }
        j = j + 1;
    }
}

fn nondash_run(v: &Vec<char>, i: usize) -> (r: usize)
    requires
        i <= v@.len(),
    ensures
        r as int == run_end(v@, i as int, nondash_cls()),
        i <= r <= v@.len(),
{
    let ghost cls = nondash_cls();
    let mut j = i;
    loop
        invariant
            i <= j <= v@.len(),
            cls == nondash_cls(),
            run_end(v@, i as int, cls) == run_end(v@, j as int, cls),
        decreases v@.len() - j,
    {
        if j >= v.len() {
            proof {
                lemma_run_end_props(v@, i as int, cls);
            }
            return j;
        }
        proof {
            assert(cls(v@[j as int]) == (v@[j as int] != '-'));
        }
        if v[j] == '-' {
            proof {
                lemma_run_end_props(v@, i as int, cls);
            }
            return j;
        }
        j = j + 1;
    }
}

fn dash_run(v: &Vec<char>, i: usize) -> (r: usize)
    requires
        i <= v@.len(),
    ensures
        r as int == run_end(v@, i as int, dash_cls()),
        i <= r <= v@.len(),
{
    let ghost cls = dash_cls();
    let mut j = i;
    loop
        invariant
            i <= j <= v@.len(),
            cls == dash_cls(),
            run_end(v@, i as int, cls) == run_end(v@, j as int, cls),
        decreases v@.len() - j,
    {
        if j >= v.len() {
            proof {
                lemma_run_end_props(v@, i as int, cls);
            }
            return j;
        }
        proof {
            assert(cls(v@[j as int]) == (v@[j as int] == '-'));
        }
        if v[j] != '-' {
            proof {
                lemma_run_end_props(v@, i as int, cls);
            }
            return j;
        }
        j = j + 1;
    }
}

/// A match of `([`'"]) ([[:upper:][:lower:]]+[`'"]-)` at `p`, replaced by
/// `$1$2`: the space after the opening quote is dropped.
pub open spec fn quote_match_at(s: Seq<char>, p: int) -> Option<(int, Seq<char>)> {
    if 0 <= p && p + 2 < s.len() && is_quote_char(s[p]) && s[p + 1] == ' ' && is_letter_char(
        s[p + 2],
    ) {
        let q = run_end(s, p + 2, letter_cls());
        if q + 1 < s.len() && is_quote_char(s[q]) && s[q + 1] == '-' {
            Some((q + 2, seq![s[p]] + s.subrange(p + 2, q + 2)))
        } else {
            None
        }
    } else {
        None
    }
}

pub open spec fn quote_matcher() -> Matcher {
    |t: Seq<char>, p: int| quote_match_at(t, p)
}

/// A match of `[(] ([[:lower:][:upper:]]+[)])` at `p`, replaced by `($1`:
/// the space after the opening parenthesis is dropped.
pub open spec fn paren_match_at(s: Seq<char>, p: int) -> Option<(int, Seq<char>)> {
    if 0 <= p && p + 2 < s.len() && s[p] == '(' && s[p + 1] == ' ' && is_letter_char(s[p + 2]) {
        let q = run_end(s, p + 2, letter_cls());
        if q < s.len() && s[q] == ')' {
            Some((q + 1, seq!['('] + s.subrange(p + 2, q + 1)))
        } else {
            None
        }
    } else {
        None
    }
}

pub open spec fn paren_matcher() -> Matcher {
    |t: Seq<char>, p: int| paren_match_at(t, p)
}

/// A match of `([0-9]+)#(\s)` at `p`, replaced by `$1.$2`: the enumeration
/// marker becomes a period again.
pub open spec fn marker_match_at(s: Seq<char>, p: int) -> Option<(int, Seq<char>)> {
    if 0 <= p && p < s.len() && is_digit_char(s[p]) {
        let q = run_end(s, p, digit_cls());
        if q + 1 < s.len() && s[q] == '#' && is_space_char(s[q + 1]) {
            Some((q + 2, s.subrange(p, q) + seq!['.', s[q + 1]]))
        } else {
            None
        }
    } else {
        None
    }
}

pub open spec fn marker_matcher() -> Matcher {
    |t: Seq<char>, p: int| marker_match_at(t, p)
}

/// Descending search for the end of a dateline: the largest `k` at or after
/// `b2` where a space is followed by a dash run and another space.
pub open spec fn news_k_search(s: Seq<char>, b2: int, k: int) -> Option<(int, int)>
    decreases k - b2 + 1,
{
    if k < b2 || b2 < 0 {
        None
    } else if 0 <= k && k + 1 < s.len() && s[k] == ' ' && s[k + 1] == '-' && {
        let m = run_end(s, k + 1, dash_cls());
        m < s.len() && s[m] == ' '
    } {
        Some((k, run_end(s, k + 1, dash_cls())))
    } else {
        news_k_search(s, b2, k - 1)
    }
}

/// A dateline starting exactly at `b`: two capitals, a run of dateline
/// characters, a space, dashes, and a final space. Yields the end of the
/// match (after the final space) and the dateline text itself.
pub open spec fn news_body(s: Seq<char>, b: int) -> Option<(int, Seq<char>)> {
    if 0 <= b && b + 1 < s.len() && is_upper_char(s[b]) && is_upper_char(s[b + 1]) {
        let j = run_end(s, b + 2, news_cls());
        match news_k_search(s, b + 2, j - 1) {
            Some(km) => Some((km.1 + 1, s.subrange(b, km.1))),
            None => None,
        }
    } else {
        None
    }
}

/// A match of `(?:^|\n)([[:upper:]]{2}[[:upper:]() /,0-9.-]* -+) ` at `p`,
/// replaced by `$1\n`: the dateline is promoted onto its own line.
pub open spec fn news_match_at(s: Seq<char>, p: int) -> Option<(int, Seq<char>)> {
    if p == 0 {
        match news_body(s, 0) {
            Some(em) => Some((em.0, em.1 + seq!['\n'])),
            None => {
                if 0 < s.len() && s[0] == '\n' {
                    match news_body(s, 1) {
                        Some(em) => Some((em.0, em.1 + seq!['\n'])),
                        None => None,
                    }
                } else {
                    None
                }
            },
        }
    } else if 0 < p && p < s.len() && s[p] == '\n' {
        match news_body(s, p + 1) {
            Some(em) => Some((em.0, em.1 + seq!['\n'])),
            None => None,
        }
    } else {
        None
    }
}

pub open spec fn news_matcher() -> Matcher {
    |t: Seq<char>, p: int| news_match_at(t, p)
}

/// The verdict on one dash-parenthetical match: left untouched when the two
/// characters just before or just after it read `en` or `of` (Dutch
/// coordinated compounds), split into ` - inner - ` otherwise.
pub open spec fn dash_result(s: Seq<char>, p: int, gend: int, end: int) -> Option<
    (int, Seq<char>),
> {
    let keep = (p >= 2 && (s.subrange(p - 2, p) == seq!['e', 'n'] || s.subrange(p - 2, p)
        == seq!['o', 'f'])) || (end + 2 <= s.len() && (s.subrange(end, end + 2) == seq!['e', 'n']
        || s.subrange(end, end + 2) == seq!['o', 'f']));
    if keep {
        Some((end, s.subrange(p, end)))
    } else {
        Some((end, seq![' ', '-', ' '] + s.subrange(p + 2, gend) + seq![' ', '-', ' ']))
    }
}

/// A match of ` -([^ ][^-]*[^ ])- ` at `p`, handled by `dash_result`.
pub open spec fn dash_match_at(s: Seq<char>, p: int) -> Option<(int, Seq<char>)> {
    if 0 <= p && p + 2 < s.len() && s[p] == ' ' && s[p + 1] == '-' && s[p + 2] != ' ' {
        let d = run_end(s, p + 3, nondash_cls());
        if d < s.len() {
            if d + 2 < s.len() && s[d + 1] == '-' && s[d + 2] == ' ' {
                dash_result(s, p, d + 1, d + 3)
            } else if d >= p + 4 && s[d - 1] != ' ' && d + 1 < s.len() && s[d + 1] == ' ' {
                dash_result(s, p, d, d + 2)
            } else {
                None
            }
        } else {
            None
        }
    } else {
        None
    }
}

pub open spec fn dash_matcher() -> Matcher {
    |t: Seq<char>, p: int| dash_match_at(t, p)
}

pub open spec fn spec_fix_quotes(s: Seq<char>) -> Seq<char> {
    replace_all(s, quote_matcher()).0
}

pub open spec fn spec_fix_parens(s: Seq<char>) -> Seq<char> {
    replace_all(s, paren_matcher()).0
}

pub open spec fn spec_remove_markers(s: Seq<char>) -> Seq<char> {
    replace_all(s, marker_matcher()).0
}

pub open spec fn spec_fix_news(s: Seq<char>) -> Seq<char> {
    replace_all(s, news_matcher()).0
}

pub open spec fn spec_fix_dashes(s: Seq<char>) -> Seq<char> {
    replace_all(s, dash_matcher()).0
}

/// What post-processing yields: the five repairs in their fixed order.
pub open spec fn spec_postprocess(s: Seq<char>) -> Seq<char> {
    spec_fix_dashes(spec_fix_news(spec_remove_markers(spec_fix_parens(spec_fix_quotes(s)))))
}

fn quote_match(v: &Vec<char>, p: usize) -> (r: Option<(usize, Vec<char>)>)
    requires
        p < v@.len(),
    ensures
        match r {
            Some(er) => quote_match_at(v@, p as int) == Some((er.0 as int, er.1@)) && p < er.0
                <= v@.len(),
            None => quote_match_at(v@, p as int) is None,
        },
{
    if v.len() - p > 2 && quote_char(v[p]) && v[p + 1] == ' ' && letter_char(v[p + 2]) {
        let q = letter_run(v, p + 2);
        if q < v.len() && v.len() - q > 1 && quote_char(v[q]) && v[q + 1] == '-' {
            let mut rep: Vec<char> = Vec::new();
            rep.push(v[p]);
            push_range(&mut rep, v, p + 2, q + 2);
            proof {
                assert(rep@ =~= seq![v@[p as int]] + v@.subrange(p + 2 as int, q + 2 as int));
            }
            Some((q + 2, rep))
        } else {
            None
        }
    } else {
        None
    }
}

fn paren_match(v: &Vec<char>, p: usize) -> (r: Option<(usize, Vec<char>)>)
    requires
        p < v@.len(),
    ensures
        match r {
            Some(er) => paren_match_at(v@, p as int) == Some((er.0 as int, er.1@)) && p < er.0
                <= v@.len(),
            None => paren_match_at(v@, p as int) is None,
        },
{
    if v.len() - p > 2 && v[p] == '(' && v[p + 1] == ' ' && letter_char(v[p + 2]) {
        let q = letter_run(v, p + 2);
        if q < v.len() && v[q] == ')' {
            let mut rep: Vec<char> = Vec::new();
            rep.push('(');
            push_range(&mut rep, v, p + 2, q + 1);
            proof {
                assert(rep@ =~= seq!['('] + v@.subrange(p + 2 as int, q + 1 as int));
            }
            Some((q + 1, rep))
        } else {
            None
        }
    } else {
        None
    }
}

fn marker_match(v: &Vec<char>, p: usize) -> (r: Option<(usize, Vec<char>)>)
    requires
        p < v@.len(),
    ensures
        match r {
            Some(er) => marker_match_at(v@, p as int) == Some((er.0 as int, er.1@)) && p < er.0
                <= v@.len(),
            None => marker_match_at(v@, p as int) is None,
        },
{
    if digit_char(v[p]) {
        let q = digit_run(v, p);
        if q < v.len() && v.len() - q > 1 && v[q] == '#' && space_char(v[q + 1]) {
            let mut rep: Vec<char> = Vec::new();
            push_range(&mut rep, v, p, q);
            rep.push('.');
            rep.push(v[q + 1]);
            proof {
                assert(rep@ =~= v@.subrange(p as int, q as int) + seq!['.', v@[q + 1]]);
            }
            Some((q + 2, rep))
        } else {
            None
        }
    } else {
        None
    }
}

fn news_k_search_exec(v: &Vec<char>, b2: usize, k0: usize) -> (r: Option<(usize, usize)>)
    requires
        2 <= b2,
        k0 < v@.len(),
    ensures
        match r {
            Some(km) => news_k_search(v@, b2 as int, k0 as int) == Some(
                (km.0 as int, km.1 as int),
            ),
            None => news_k_search(v@, b2 as int, k0 as int) is None,
        },
{
    let mut k = k0;
    loop
        invariant
            2 <= b2,
            k <= k0 < v@.len(),
            news_k_search(v@, b2 as int, k0 as int) == news_k_search(v@, b2 as int, k as int),
        decreases k,
    {
        if k < b2 {
            return None;
        }
        let hit = if v[k] == ' ' && v.len() - k > 1 && v[k + 1] == '-' {
            let m = dash_run(v, k + 1);
            m < v.len() && v[m] == ' '
        } else {
            false
        };
        if hit {
            let m = dash_run(v, k + 1);
            return Some((k, m));
        }
        k = k - 1;
    }
}

fn news_body_exec(v: &Vec<char>, b: usize) -> (r: Option<(usize, Vec<char>)>)
    requires
        b <= v@.len(),
    ensures
        match r {
            Some(er) => news_body(v@, b as int) == Some((er.0 as int, er.1@)) && b < er.0
                <= v@.len(),
            None => news_body(v@, b as int) is None,
        },
{
    if v.len() - b > 1 && upper_char(v[b]) && upper_char(v[b + 1]) {
        let j = news_run(v, b + 2);
        proof {
            lemma_run_end_props(v@, b + 2 as int, news_cls());
        }
        match news_k_search_exec(v, b + 2, j - 1) {
            Some((k, m)) => {
                proof {
                    lemma_news_k_search_props(v@, b + 2 as int, j - 1 as int);
                }
                let mut g: Vec<char> = Vec::new();
                push_range(&mut g, v, b, m);
                Some((m + 1, g))
            },
            None => None,
        }
    } else {
        None
    }
}

/// A successful dateline-end search stays within the text and marks a space,
/// a dash run, and a space.
pub proof fn lemma_news_k_search_props(s: Seq<char>, b2: int, k0: int)
    ensures
        news_k_search(s, b2, k0) matches Some(km) ==> b2 <= km.0 <= k0 && km.0 + 1 < s.len()
            && km.0 < km.1 < s.len() && s[km.1] == ' ',
    decreases k0 - b2 + 1,
{
    if k0 < b2 || b2 < 0 {
    } else if 0 <= k0 && k0 + 1 < s.len() && s[k0] == ' ' && s[k0 + 1] == '-' && {
        let m = run_end(s, k0 + 1, dash_cls());
        m < s.len() && s[m] == ' '
    } {
        lemma_run_end_props(s, k0 + 1, dash_cls());
    } else {
        lemma_news_k_search_props(s, b2, k0 - 1);
    }
}

fn news_match(v: &Vec<char>, p: usize) -> (r: Option<(usize, Vec<char>)>)
    requires
        p < v@.len(),
    ensures
        match r {
            Some(er) => news_match_at(v@, p as int) == Some((er.0 as int, er.1@)) && p < er.0
                <= v@.len(),
            None => news_match_at(v@, p as int) is None,
        },
{
    let n = v.len();
    if p == 0 {
        match news_body_exec(v, 0) {
            Some((end, mut g)) => {
                g.push('\n');
                Some((end, g))
            },
            None => {
                if v[0] == '\n' {
                    match news_body_exec(v, 1) {
                        Some((end, mut g)) => {
                            g.push('\n');
                            Some((end, g))
                        },
                        None => None,
                    }
                } else {
                    None
                }
            },
        }
    } else if p < n && v[p] == '\n' {
        match news_body_exec(v, p + 1) {
            Some((end, mut g)) => {
                g.push('\n');
                Some((end, g))
            },
            None => None,
        }
    } else {
        None
    }
}

fn dash_build(v: &Vec<char>, p: usize, gend: usize, end: usize) -> (r: (usize, Vec<char>))
    requires
        p + 2 <= gend <= v@.len(),
        gend < end <= v@.len(),
    ensures
        dash_result(v@, p as int, gend as int, end as int) == Some((r.0 as int, r.1@)),
{
    let keep_left = p >= 2 && ((v[p - 2] == 'e' && v[p - 1] == 'n') || (v[p - 2] == 'o' && v[p - 1]
        == 'f'));
    let keep_right = v.len() - end >= 2 && ((v[end] == 'e' && v[end + 1] == 'n') || (v[end] == 'o'
        && v[end + 1] == 'f'));
    proof {
        if p >= 2 {
            assert(v@.subrange(p - 2 as int, p as int) =~= seq![v@[p - 2 as int], v@[p - 1 as int]]);
            assert(seq![v@[p - 2], v@[p - 1]] == seq!['e', 'n'] <==> (v@[p - 2] == 'e' && v@[p - 1]
                == 'n')) by {
                if v@[p - 2] == 'e' && v@[p - 1] == 'n' {
                    assert(seq![v@[p - 2], v@[p - 1]] =~= seq!['e', 'n']);
                }
            }
            assert(seq![v@[p - 2], v@[p - 1]] == seq!['o', 'f'] <==> (v@[p - 2] == 'o' && v@[p - 1]
                == 'f')) by {
                if v@[p - 2] == 'o' && v@[p - 1] == 'f' {
                    assert(seq![v@[p - 2], v@[p - 1]] =~= seq!['o', 'f']);
                }
            }
        }
        if end + 2 <= v@.len() {
            assert(v@.subrange(end as int, end + 2 as int) =~= seq![v@[end as int], v@[end + 1 as int]]);
            assert(seq![v@[end as int], v@[end + 1]] == seq!['e', 'n'] <==> (v@[end as int] == 'e'
                && v@[end + 1] == 'n')) by {
                if v@[end as int] == 'e' && v@[end + 1] == 'n' {
                    assert(seq![v@[end as int], v@[end + 1]] =~= seq!['e', 'n']);
                }
            }
            assert(seq![v@[end as int], v@[end + 1]] == seq!['o', 'f'] <==> (v@[end as int] == 'o'
                && v@[end + 1] == 'f')) by {
                if v@[end as int] == 'o' && v@[end + 1] == 'f' {
                    assert(seq![v@[end as int], v@[end + 1]] =~= seq!['o', 'f']);
                }
            }
        }
    }
    if keep_left || keep_right {
        let mut rep: Vec<char> = Vec::new();
        push_range(&mut rep, v, p, end);
        proof {
            assert(rep@ =~= v@.subrange(p as int, end as int));
        }
        (end, rep)
    } else {
        let mut rep: Vec<char> = Vec::new();
        rep.push(' ');
        rep.push('-');
        rep.push(' ');
        push_range(&mut rep, v, p + 2, gend);
        rep.push(' ');
        rep.push('-');
        rep.push(' ');
        proof {
            assert(rep@ =~= seq![' ', '-', ' '] + v@.subrange(p + 2 as int, gend as int) + seq![
                ' ',
                '-',
                ' ',
            ]);
        }
        (end, rep)
    }
}

fn dash_match(v: &Vec<char>, p: usize) -> (r: Option<(usize, Vec<char>)>)
    requires
        p < v@.len(),
    ensures
        match r {
            Some(er) => dash_match_at(v@, p as int) == Some((er.0 as int, er.1@)) && p < er.0
                <= v@.len(),
            None => dash_match_at(v@, p as int) is None,
        },
{
    if v.len() - p > 2 && v[p] == ' ' && v[p + 1] == '-' && v[p + 2] != ' ' {
        let d = nondash_run(v, p + 3);
        if d < v.len() {
            if v.len() - d > 2 && v[d + 1] == '-' && v[d + 2] == ' ' {
                Some(dash_build(v, p, d + 1, d + 3))
            } else if d >= p + 4 && v[d - 1] != ' ' && d + 1 < v.len() && v[d + 1] == ' ' {
                Some(dash_build(v, p, d, d + 2))
            } else {
                None
            }
        } else {
            None
        }
    } else {
        None
    }
}

fn quotes_pass(v: &Vec<char>) -> (r: Vec<char>)
    ensures
        r@ == spec_fix_quotes(v@),
{
    let ghost m = quote_matcher();
    let mut out: Vec<char> = Vec::new();
    let mut p: usize = 0;
    while p < v.len()
        invariant
            p <= v@.len(),
            replace_all(v@, m).0 == out@ + replace_from(v@, p as int, m).0,
            m == quote_matcher(),
        decreases v@.len() - p,
    {
        proof {
            assert(m(v@, p as int) == quote_match_at(v@, p as int));
        }
        match quote_match(v, p) {
            Some((e, mut rep)) => {
                out.append(&mut rep);
                p = e;
            },
            None => {
                out.push(v[p]);
                p = p + 1;
            },
        }
    }
    proof {
        assert(replace_from(v@, p as int, m).0 =~= Seq::<char>::empty());
        assert(out@ =~= out@ + replace_from(v@, p as int, m).0);
    }
    out
}

fn parens_pass(v: &Vec<char>) -> (r: Vec<char>)
    ensures
        r@ == spec_fix_parens(v@),
{
    let ghost m = paren_matcher();
    let mut out: Vec<char> = Vec::new();
    let mut p: usize = 0;
    while p < v.len()
        invariant
            p <= v@.len(),
            replace_all(v@, m).0 == out@ + replace_from(v@, p as int, m).0,
            m == paren_matcher(),
        decreases v@.len() - p,
    {
        proof {
            assert(m(v@, p as int) == paren_match_at(v@, p as int));
        }
        match paren_match(v, p) {
            Some((e, mut rep)) => {
                out.append(&mut rep);
                p = e;
            },
            None => {
                out.push(v[p]);
                p = p + 1;
            },
        }
    }
    proof {
        assert(replace_from(v@, p as int, m).0 =~= Seq::<char>::empty());
        assert(out@ =~= out@ + replace_from(v@, p as int, m).0);
    }
    out
}

fn markers_pass(v: &Vec<char>) -> (r: Vec<char>)
    ensures
        r@ == spec_remove_markers(v@),
{
    let ghost m = marker_matcher();
    let mut out: Vec<char> = Vec::new();
    let mut p: usize = 0;
    while p < v.len()
        invariant
            p <= v@.len(),
            replace_all(v@, m).0 == out@ + replace_from(v@, p as int, m).0,
            m == marker_matcher(),
        decreases v@.len() - p,
    {
        proof {
            assert(m(v@, p as int) == marker_match_at(v@, p as int));
        }
        match marker_match(v, p) {
            Some((e, mut rep)) => {
                out.append(&mut rep);
                p = e;
            },
            None => {
                out.push(v[p]);
                p = p + 1;
            },
        }
    }
    proof {
        assert(replace_from(v@, p as int, m).0 =~= Seq::<char>::empty());
        assert(out@ =~= out@ + replace_from(v@, p as int, m).0);
    }
    out
}

fn news_pass(v: &Vec<char>) -> (r: Vec<char>)
    ensures
        r@ == spec_fix_news(v@),
{
    let ghost m = news_matcher();
    let mut out: Vec<char> = Vec::new();
    let mut p: usize = 0;
    while p < v.len()
        invariant
            p <= v@.len(),
            replace_all(v@, m).0 == out@ + replace_from(v@, p as int, m).0,
            m == news_matcher(),
        decreases v@.len() - p,
    {
        proof {
            assert(m(v@, p as int) == news_match_at(v@, p as int));
        }
        match news_match(v, p) {
            Some((e, mut rep)) => {
                out.append(&mut rep);
                p = e;
            },
            None => {
                out.push(v[p]);
                p = p + 1;
            },
        }
    }
    proof {
        assert(replace_from(v@, p as int, m).0 =~= Seq::<char>::empty());
        assert(out@ =~= out@ + replace_from(v@, p as int, m).0);
    }
    out
}

fn dashes_pass(v: &Vec<char>) -> (r: Vec<char>)
    ensures
        r@ == spec_fix_dashes(v@),
{
    let ghost m = dash_matcher();
    let mut out: Vec<char> = Vec::new();
    let mut p: usize = 0;
    while p < v.len()
        invariant
            p <= v@.len(),
            replace_all(v@, m).0 == out@ + replace_from(v@, p as int, m).0,
            m == dash_matcher(),
        decreases v@.len() - p,
    {
        proof {
            assert(m(v@, p as int) == dash_match_at(v@, p as int));
        }
        match dash_match(v, p) {
            Some((e, mut rep)) => {
                out.append(&mut rep);
                p = e;
            },
            None => {
                out.push(v[p]);
                p = p + 1;
            },
        }
    }
    proof {
        assert(replace_from(v@, p as int, m).0 =~= Seq::<char>::empty());
        assert(out@ =~= out@ + replace_from(v@, p as int, m).0);
    }
    out
}

/// Repair the transducer's raw output: fix quote and parenthesis spacing,
/// revert enumeration markers, promote datelines, and split dash-bracketed
/// parentheticals.
pub fn postprocess(text: &str) -> (r: String)
    ensures
        r@ == spec_postprocess(text@),
{
    let v = str_chars(text);
    let v = quotes_pass(&v);
    let v = parens_pass(&v);
    let v = markers_pass(&v);
    let v = news_pass(&v);
    let v = dashes_pass(&v);
    chars_to_string(&v)
}

/// A text in which none of the five patterns occurs passes through
/// post-processing unchanged.
pub proof fn lemma_postprocess_identity(s: Seq<char>)
    requires
        forall|p: int| #[trigger] quote_match_at(s, p) is None,
        forall|p: int| #[trigger] paren_match_at(s, p) is None,
        forall|p: int| #[trigger] marker_match_at(s, p) is None,
        forall|p: int| #[trigger] news_match_at(s, p) is None,
        forall|p: int| #[trigger] dash_match_at(s, p) is None,
    ensures
        spec_postprocess(s) == s,
{
    assert forall|q: int| 0 <= q < s.len() implies #[trigger] quote_matcher()(s, q) is None by {
        assert(quote_matcher()(s, q) == quote_match_at(s, q));
    }
    lemma_replace_from_no_match(s, 0, quote_matcher());
    assert(s.skip(0) =~= s);
    assert(spec_fix_quotes(s) == s);
    assert forall|q: int| 0 <= q < s.len() implies #[trigger] paren_matcher()(s, q) is None by {
        assert(paren_matcher()(s, q) == paren_match_at(s, q));
    }
    lemma_replace_from_no_match(s, 0, paren_matcher());
    assert(spec_fix_parens(s) == s);
    assert forall|q: int| 0 <= q < s.len() implies #[trigger] marker_matcher()(s, q) is None by {
        assert(marker_matcher()(s, q) == marker_match_at(s, q));
    }
    lemma_replace_from_no_match(s, 0, marker_matcher());
    assert(spec_remove_markers(s) == s);
    assert forall|q: int| 0 <= q < s.len() implies #[trigger] news_matcher()(s, q) is None by {
        assert(news_matcher()(s, q) == news_match_at(s, q));
    }
    lemma_replace_from_no_match(s, 0, news_matcher());
    assert(spec_fix_news(s) == s);
    assert forall|q: int| 0 <= q < s.len() implies #[trigger] dash_matcher()(s, q) is None by {
        assert(dash_matcher()(s, q) == dash_match_at(s, q));
    }
    lemma_replace_from_no_match(s, 0, dash_matcher());
    assert(spec_fix_dashes(s) == s);
}

} // verus!
