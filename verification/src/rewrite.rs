//! Left-to-right, non-overlapping pattern replacement over character
//! sequences: the machinery shared by the pre- and post-processing passes.
//!
//! A pass is described by a matcher: at each position it either yields the
//! end of a match together with the replacement text, or nothing. The scan
//! visits positions from the left; on a match it emits the replacement and
//! continues after the match, otherwise it copies one character and moves on.

use vstd::prelude::*;

use crate::chars::is_space_char;
use crate::chars::is_word_char;
use crate::chars::space_char;
use crate::chars::word_char;

verus! {

/// A matcher: for a text and a position, the end of the match starting
/// there and the replacement for it, if any.
pub type Matcher = spec_fn(Seq<char>, int) -> Option<(int, Seq<char>)>;

/// Rewrite `s` from position `p` on: the rewritten suffix, and how many
/// matches were replaced. A match must make progress and stay in bounds to
/// be taken.
pub open spec fn replace_from(s: Seq<char>, p: int, m: Matcher) -> (Seq<char>, nat)
    decreases s.len() - p,
{
    if p < 0 || p >= s.len() {
        (Seq::empty(), 0)
    } else {
        match m(s, p) {
            Some(em) => {
                if p < em.0 <= s.len() {
                    let rest = replace_from(s, em.0, m);
                    (em.1 + rest.0, 1 + rest.1)
                } else {
                    let rest = replace_from(s, p + 1, m);
                    (seq![s[p]] + rest.0, rest.1)
                }
            },
            None => {
                let rest = replace_from(s, p + 1, m);
                (seq![s[p]] + rest.0, rest.1)
            },
        }
    }
}

/// Rewrite all of `s`.
pub open spec fn replace_all(s: Seq<char>, m: Matcher) -> (Seq<char>, nat) {
    replace_from(s, 0, m)
}

/// Where no position matches, the scan copies the text unchanged.
pub proof fn lemma_replace_from_no_match(s: Seq<char>, p: int, m: Matcher)
    requires
        forall|q: int| p <= q < s.len() ==> #[trigger] m(s, q) is None,
    ensures
        0 <= p <= s.len() ==> replace_from(s, p, m) == (s.skip(p), 0nat),
    decreases s.len() - p,
{
    if 0 <= p <= s.len() {
        if p >= s.len() {
            assert(s.skip(p) =~= Seq::<char>::empty());
        } else {
            lemma_replace_from_no_match(s, p + 1, m);
            assert(seq![s[p]] + s.skip(p + 1) =~= s.skip(p));
        }
    }
}

/// Number of occurrences of `c` in `s`.
pub open spec fn count_char(s: Seq<char>, c: char) -> nat
    decreases s.len(),
{
    if s.len() == 0 {
        0
    } else {
        count_char(s.drop_first(), c) + (if s[0] == c {
            1nat
        } else {
            0
        })
    }
}

pub proof fn lemma_count_char_concat(a: Seq<char>, b: Seq<char>, c: char)
    ensures
        count_char(a + b, c) == count_char(a, c) + count_char(b, c),
    decreases a.len(),
{
    if a.len() == 0 {
        assert(a + b =~= b);
    } else {
        lemma_count_char_concat(a.drop_first(), b, c);
        assert((a + b).drop_first() =~= a.drop_first() + b);
    }
}

pub proof fn lemma_count_char_le_len(s: Seq<char>, c: char)
    ensures
        count_char(s, c) <= s.len(),
    decreases s.len(),
{
    if s.len() > 0 {
        lemma_count_char_le_len(s.drop_first(), c);
    }
}

/// A scan whose every replacement removes exactly one occurrence of `c`
/// removes as many occurrences as it makes replacements.
pub proof fn lemma_replace_from_count(s: Seq<char>, p: int, m: Matcher, c: char)
    requires
        forall|q: int| #![trigger m(s, q)]
            0 <= q < s.len() && m(s, q) is Some ==> {
                let em = m(s, q).unwrap();
                q < em.0 <= s.len() ==> count_char(em.1, c) + 1 == count_char(
                    s.subrange(q, em.0),
                    c,
                )
            },
        0 <= p <= s.len(),
    ensures
        count_char(replace_from(s, p, m).0, c) + replace_from(s, p, m).1 == count_char(
            s.skip(p),
            c,
        ),
    decreases s.len() - p,
{
    if p >= s.len() {
        assert(s.skip(p) =~= Seq::<char>::empty());
    } else {
        let step = m(s, p);
        if step is Some && p < step.unwrap().0 <= s.len() {
            let e = step.unwrap().0;
            let rep = step.unwrap().1;
            assert(m(s, p) == Some((e, rep)));
            lemma_replace_from_count(s, e, m, c);
            lemma_count_char_concat(rep, replace_from(s, e, m).0, c);
            lemma_count_char_concat(s.subrange(p, e), s.skip(e), c);
            assert(s.subrange(p, e) + s.skip(e) =~= s.skip(p));
        } else {
            lemma_replace_from_count(s, p + 1, m, c);
            lemma_count_char_concat(seq![s[p]], replace_from(s, p + 1, m).0, c);
            lemma_count_char_concat(seq![s[p]], s.skip(p + 1), c);
            assert(seq![s[p]] + s.skip(p + 1) =~= s.skip(p));
            assert(seq![s[p]].drop_first() =~= Seq::<char>::empty());
            assert(seq![s[p]].len() == 1);
            assert(count_char(Seq::<char>::empty(), c) == 0);
            assert(count_char(seq![s[p]], c) == if s[p] == c {
                1nat
            } else {
                0
            });
        }
    }
}

pub proof fn lemma_count_char_singleton(x: char, c: char)
    ensures
        count_char(seq![x], c) == if x == c {
            1nat
        } else {
            0
        },
{
    assert(seq![x].drop_first() =~= Seq::<char>::empty());
    assert(seq![x].len() == 1);
    assert(count_char(Seq::<char>::empty(), c) == 0);
}

/// The lazy-segment condition of the enumeration patterns: at `e` stands a
/// non-word character, directly followed by `digits`, a period, and — when
/// `tws` is set — a whitespace character.
pub open spec fn tail_match_at(s: Seq<char>, e: int, digits: Seq<char>, tws: bool) -> bool {
    &&& e + 2 + digits.len() + (if tws {
        1int
    } else {
        0
    }) <= s.len()
    &&& !is_word_char(s[e])
    &&& s.subrange(e + 1, e + 1 + digits.len() as int) == digits
    &&& s[e + 1 + digits.len()] == '.'
    &&& (tws ==> is_space_char(s[e + 2 + digits.len()]))
}

/// The shortest extension of a lazy any-but-newline segment starting at `e`
/// that ends in the tail condition; nothing once a newline bars the way.
pub open spec fn find_tail(s: Seq<char>, e: int, digits: Seq<char>, tws: bool) -> Option<int>
    decreases s.len() - e,
{
    if e < 0 || e >= s.len() {
        None
    } else if tail_match_at(s, e, digits, tws) {
        Some(e)
    } else if s[e] == '\n' {
        None
    } else {
        find_tail(s, e + 1, digits, tws)
    }
}

/// Whether `pat` occurs in `v` directly at position `i`.
pub(crate) fn chars_at(v: &Vec<char>, i: usize, pat: &Vec<char>) -> (r: bool)
    ensures
        r == (i + pat@.len() <= v@.len() && v@.subrange(i as int, i + pat@.len() as int) == pat@),
{
    let n = v.len();
    let pl = pat.len();
    if pl > n || i > n - pl {
        return false;
    }
    let mut j: usize = 0;
    while j < pat.len()
        invariant
            j <= pat@.len(),
            i + pat@.len() <= v@.len(),
            v@.len() <= usize::MAX,
            forall|t: int| 0 <= t < j ==> v@[i + t] == pat@[t],
        decreases pat@.len() - j,
    {
        if v[i + j] != pat[j] {
            proof {
                assert(v@.subrange(i as int, i + pat@.len() as int)[j as int] != pat@[j as int]);
            }
            return false;
        }
        j = j + 1;
    }
    proof {
        assert(v@.subrange(i as int, i + pat@.len() as int) =~= pat@);
    }
    true
}

/// A successful lazy-segment search lands at or after its start, on a
/// position satisfying the tail condition.
pub proof fn lemma_find_tail_props(s: Seq<char>, t: int, digits: Seq<char>, tws: bool)
    ensures
        find_tail(s, t, digits, tws) matches Some(e) ==> t <= e && tail_match_at(
            s,
            e,
            digits,
            tws,
        ),
    decreases s.len() - t,
{
    if t < 0 || t >= s.len() {
    } else if tail_match_at(s, t, digits, tws) {
    } else if s[t] == '\n' {
    } else {
        lemma_find_tail_props(s, t + 1, digits, tws);
    }
}

/// Append `v[a..b]` to `out`.
pub(crate) fn push_range(out: &mut Vec<char>, v: &Vec<char>, a: usize, b: usize)
    requires
        a <= b <= v@.len(),
    ensures
        final(out)@ == old(out)@ + v@.subrange(a as int, b as int),
{
    let mut j: usize = a;
    while j < b
        invariant
            a <= j <= b <= v@.len(),
            out@ == old(out)@ + v@.subrange(a as int, j as int),
        decreases b - j,
    {
        out.push(v[j]);
        proof {
            assert(v@.subrange(a as int, j + 1 as int) =~= v@.subrange(a as int, j as int).push(
                v@[j as int],
            ));
        }
        j = j + 1;
    }
    proof {
        assert(out@ =~= old(out)@ + v@.subrange(a as int, b as int));
    }
}

/// Exec search for the lazy-segment end.
pub(crate) fn tail_search(v: &Vec<char>, start: usize, digits: &Vec<char>, tws: bool) -> (r: Option<
    usize,
>)
    ensures
        match r {
            Some(e) => find_tail(v@, start as int, digits@, tws) == Some(e as int),
            None => find_tail(v@, start as int, digits@, tws) is None,
        },
{
    let mut e: usize = start;
    loop
        invariant
            start <= e,
            find_tail(v@, start as int, digits@, tws) == find_tail(v@, e as int, digits@, tws),
        decreases v@.len() - e,
    {
        if e >= v.len() {
            return None;
        }
        let hit = if !word_char(v[e]) && chars_at(v, e + 1, digits) {
            let after = e + 1 + digits.len();
            if after < v.len() && v[after] == '.' {
                if !tws {
                    true
                } else {
                    after + 1 < v.len() && space_char(v[after + 1])
                }
            } else {
                false
            }
        } else {
            false
        };
        proof {
            assert(hit == tail_match_at(v@, e as int, digits@, tws));
        }
        if hit {
            return Some(e);
        }
        if v[e] == '\n' {
            return None;
        }
        e = e + 1;
    }
}

} // verus!
