//! The pre-processing pass: enumeration marking.
//!
//! The transducer treats `1.`, `2.`, `3.` as sentence terminators; this pass
//! disguises enumerations, rewriting `1. foo, 2. bar en 3. baz` to
//! `1# foo, 2# bar en 3# baz`, so that the transducer preserves them. The
//! post-processor reverts the markers on the transducer's output.
//!
//! One pass first marks the head of an enumeration (an unmarked `1.`
//! followed by `2.`); further passes then extend the marking to `2.`, `3.`,
//! and so on, as long as the preceding element has already been marked, so
//! enumerations of arbitrary length are converted.

use vstd::prelude::*;

use crate::chars::chars_to_string;
use crate::chars::is_space_char;
use crate::chars::space_char;
use crate::chars::str_chars;
use crate::rewrite::count_char;
use crate::rewrite::find_tail;
use crate::rewrite::lemma_count_char_concat;
use crate::rewrite::lemma_count_char_le_len;
use crate::rewrite::lemma_count_char_singleton;
use crate::rewrite::lemma_find_tail_props;
use crate::rewrite::lemma_replace_from_count;
use crate::rewrite::lemma_replace_from_no_match;
use crate::rewrite::push_range;
use crate::rewrite::replace_all;
use crate::rewrite::replace_from;
use crate::rewrite::tail_search;
use crate::rewrite::Matcher;

verus! {

/// The decimal digit characters of `n`, most significant first.
pub open spec fn dec_digits(n: nat) -> Seq<char>
    decreases n,
{
    if n < 10 {
        seq![digit_char_of(n)]
    } else {
        dec_digits(n / 10).push(digit_char_of(n % 10))
    }
}

pub open spec fn digit_char_of(d: nat) -> char {
    if d == 0 {
        '0'
    } else if d == 1 {
        '1'
    } else if d == 2 {
        '2'
    } else if d == 3 {
        '3'
    } else if d == 4 {
        '4'
    } else if d == 5 {
        '5'
    } else if d == 6 {
        '6'
    } else if d == 7 {
        '7'
    } else if d == 8 {
        '8'
    } else {
        '9'
    }
}

fn char_of_digit(d: u128) -> (c: char)
    requires
        d < 10,
    ensures
        c == digit_char_of(d as nat),
{
    if d == 0 {
        '0'
    } else if d == 1 {
        '1'
    } else if d == 2 {
        '2'
    } else if d == 3 {
        '3'
    } else if d == 4 {
        '4'
    } else if d == 5 {
        '5'
    } else if d == 6 {
        '6'
    } else if d == 7 {
        '7'
    } else if d == 8 {
        '8'
    } else {
        '9'
    }
}

fn dec_digits_vec(n: u128) -> (r: Vec<char>)
    ensures
        r@ == dec_digits(n as nat),
    decreases n,
{
    if n < 10 {
        let mut v: Vec<char> = Vec::new();
        v.push(char_of_digit(n));
        proof {
            assert(v@ =~= dec_digits(n as nat));
        }
        v
    } else {
        let mut v = dec_digits_vec(n / 10);
        v.push(char_of_digit(n % 10));
        v
    }
}

/// A match of the enumeration head `(\s?1)[.](\s.*?\W2[.])` at position `p`,
/// as end position and replacement `$1#$2`.
pub open spec fn enum_start_match_at(s: Seq<char>, p: int) -> Option<(int, Seq<char>)> {
    if 0 <= p && p + 3 < s.len() && is_space_char(s[p]) && s[p + 1] == '1' && s[p + 2] == '.'
        && is_space_char(s[p + 3]) {
        match find_tail(s, p + 4, seq!['2'], false) {
            Some(e) => Some(
                (e + 3, s.subrange(p, p + 2) + seq!['#'] + s.subrange(p + 3, e + 3)),
            ),
            None => None,
        }
    } else if 0 <= p && p + 2 < s.len() && s[p] == '1' && s[p + 1] == '.' && is_space_char(
        s[p + 2],
    ) {
        match find_tail(s, p + 3, seq!['2'], false) {
            Some(e) => Some((e + 3, seq![s[p], '#'] + s.subrange(p + 2, e + 3))),
            None => None,
        }
    } else {
        None
    }
}

pub open spec fn start_matcher() -> Matcher {
    |t: Seq<char>, p: int| enum_start_match_at(t, p)
}

/// A match of the extension pattern `({k}#\s.*?\W{k+1})[.](\s)` at `p`, for
/// the decimal digit strings `dk` of `k` and `dn` of `k + 1`, as end
/// position and replacement `$1#$2`.
pub open spec fn enum_round_match_at(s: Seq<char>, p: int, dk: Seq<char>, dn: Seq<char>) -> Option<
    (int, Seq<char>),
> {
    if 0 <= p && p + dk.len() + 1 < s.len() && s.subrange(p, p + dk.len() as int) == dk && s[p
        + dk.len()] == '#' && is_space_char(s[p + dk.len() + 1]) {
        match find_tail(s, p + dk.len() + 2, dn, true) {
            Some(e) => {
                let g1end = e + 1 + dn.len() as int;
                Some(
                    (
                        g1end + 2,
                        s.subrange(p, g1end) + seq!['#'] + s.subrange(g1end + 1, g1end + 2),
                    ),
                )
            },
            None => None,
        }
    } else {
        None
    }
}

pub open spec fn round_matcher(dk: Seq<char>, dn: Seq<char>) -> Matcher {
    |t: Seq<char>, p: int| enum_round_match_at(t, p, dk, dn)
}

/// One extension pass, for element `k`.
pub open spec fn round_replace(s: Seq<char>, k: nat) -> (Seq<char>, nat) {
    replace_all(s, round_matcher(dec_digits(k), dec_digits(k + 1)))
}

/// Every replacement of an extension pass turns exactly one period into a
/// marker, so a pass removes as many periods as it replaces matches.
proof fn lemma_round_replace_dots(s: Seq<char>, k: nat)
    ensures
        count_char(round_replace(s, k).0, '.') + round_replace(s, k).1 == count_char(s, '.'),
{
    let dk = dec_digits(k);
    let dn = dec_digits(k + 1);
    let m = round_matcher(dk, dn);
    assert forall|q: int| #![trigger m(s, q)] 0 <= q < s.len() && m(s, q) is Some implies {
        let em = m(s, q).unwrap();
        q < em.0 <= s.len() ==> count_char(em.1, '.') + 1 == count_char(s.subrange(q, em.0), '.')
    } by {
        if m(s, q) is Some {
            assert(m(s, q) == enum_round_match_at(s, q, dk, dn));
            let t = q + dk.len() + 2;
            let e = find_tail(s, t, dn, true).unwrap();
            lemma_find_tail_props(s, t, dn, true);
            let g1end = e + 1 + dn.len() as int;
            let g1 = s.subrange(q, g1end);
            let ws = s.subrange(g1end + 1, g1end + 2);
            let em = m(s, q).unwrap();
            assert(em.0 == g1end + 2);
            assert(em.1 == g1 + seq!['#'] + ws);
            assert(s[g1end] == '.');
            assert(ws =~= seq![s[g1end + 1]]);
            assert(is_space_char(s[g1end + 1]));
            assert(s[g1end + 1] != '.');
            lemma_count_char_singleton('#', '.');
            lemma_count_char_singleton(s[g1end + 1], '.');
            lemma_count_char_singleton(s[g1end], '.');
            lemma_count_char_concat(g1, seq!['#'], '.');
            lemma_count_char_concat(g1 + seq!['#'], ws, '.');
            assert(s.subrange(q, g1end + 2) =~= (g1 + seq![s[g1end]]) + ws);
            lemma_count_char_concat(g1, seq![s[g1end]], '.');
            lemma_count_char_concat(g1 + seq![s[g1end]], ws, '.');
        }
    }
    lemma_replace_from_count(s, 0, m, '.');
    assert(s.skip(0) =~= s);
}

/// The extension passes from element `k` on, until a pass changes nothing.
pub open spec fn mark_rounds(s: Seq<char>, k: nat) -> Seq<char>
    decreases count_char(s, '.'),
    via mark_rounds_decreases
{
    let r = round_replace(s, k);
    if r.1 == 0 {
        s
    } else {
        mark_rounds(r.0, k + 1)
    }
}

#[via_fn]
proof fn mark_rounds_decreases(s: Seq<char>, k: nat) {
    let r = round_replace(s, k);
    if r.1 != 0 {
        lemma_round_replace_dots(s, k);
    }
}

/// What preprocessing yields: the unchanged text when no enumeration head
/// is found, otherwise the marked text after all extension passes.
pub open spec fn spec_preprocess(s: Seq<char>) -> Seq<char> {
    let r = replace_all(s, start_matcher());
    if r.1 == 0 {
        s
    } else {
        mark_rounds(r.0, 1)
    }
}

/// Exec search for an enumeration-head match at `p`.
fn start_match(v: &Vec<char>, p: usize) -> (r: Option<(usize, Vec<char>)>)
    requires
        p < v@.len(),
    ensures
        match r {
            Some(er) => enum_start_match_at(v@, p as int) == Some((er.0 as int, er.1@)) && p
                < er.0 <= v@.len(),
            None => enum_start_match_at(v@, p as int) is None,
        },
{
    let mut two: Vec<char> = Vec::new();
    two.push('2');
    proof {
        assert(two@ =~= seq!['2']);
    }
    if v.len() - p > 3 && space_char(v[p]) && v[p + 1] == '1' && v[p + 2] == '.' && space_char(
        v[p + 3],
    ) {
        match tail_search(v, p + 4, &two, false) {
            Some(e) => {
                proof {
                    lemma_find_tail_props(v@, p + 4 as int, two@, false);
                }
                let mut rep: Vec<char> = Vec::new();
                push_range(&mut rep, v, p, p + 2);
                rep.push('#');
                push_range(&mut rep, v, p + 3, e + 3);
                proof {
                    assert(rep@ =~= v@.subrange(p as int, p + 2 as int) + seq!['#'] + v@.subrange(
                        p + 3 as int,
                        e + 3 as int,
                    ));
                }
                Some((e + 3, rep))
            },
            None => None,
        }
    } else if v.len() - p > 2 && v[p] == '1' && v[p + 1] == '.' && space_char(v[p + 2]) {
        match tail_search(v, p + 3, &two, false) {
            Some(e) => {
                proof {
                    lemma_find_tail_props(v@, p + 3 as int, two@, false);
                }
                let mut rep: Vec<char> = Vec::new();
                rep.push(v[p]);
                rep.push('#');
                push_range(&mut rep, v, p + 2, e + 3);
                proof {
                    assert(rep@ =~= seq![v@[p as int], '#'] + v@.subrange(
                        p + 2 as int,
                        e + 3 as int,
                    ));
                }
                Some((e + 3, rep))
            },
            None => None,
        }
    } else {
        None
    }
}

/// Exec search for an extension match at `p`.
fn round_match(v: &Vec<char>, p: usize, dk: &Vec<char>, dn: &Vec<char>) -> (r: Option<
    (usize, Vec<char>),
>)
    requires
        p < v@.len(),
    ensures
        match r {
            Some(er) => enum_round_match_at(v@, p as int, dk@, dn@) == Some(
                (er.0 as int, er.1@),
            ) && p < er.0 <= v@.len(),
            None => enum_round_match_at(v@, p as int, dk@, dn@) is None,
        },
{
    if crate::rewrite::chars_at(v, p, dk) && v.len() - (p + dk.len()) > 1 {
        let h = p + dk.len();
        if v[h] == '#' && space_char(v[h + 1]) {
            match tail_search(v, h + 2, dn, true) {
                Some(e) => {
                    proof {
                        lemma_find_tail_props(v@, h + 2 as int, dn@, true);
                    }
                    let g1end = e + 1 + dn.len();
                    let mut rep: Vec<char> = Vec::new();
                    push_range(&mut rep, v, p, g1end);
                    rep.push('#');
                    push_range(&mut rep, v, g1end + 1, g1end + 2);
                    proof {
                        assert(rep@ =~= v@.subrange(p as int, g1end as int) + seq!['#']
                            + v@.subrange(g1end + 1 as int, g1end + 2 as int));
                    }
                    Some((g1end + 2, rep))
                },
                None => None,
            }
        } else {
            None
        }
    } else {
        None
    }
}

/// One full left-to-right pass with the head matcher: the rewritten text,
/// and whether anything was replaced.
fn start_pass(v: &Vec<char>) -> (r: (Vec<char>, bool))
    ensures
        ({
            let sp = replace_all(v@, start_matcher());
            r.0@ == sp.0 && r.1 == (sp.1 > 0)
        }),
{
    let ghost m = start_matcher();
    let mut out: Vec<char> = Vec::new();
    let mut changed = false;
    let ghost mut gcnt: nat = 0nat;
    let mut p: usize = 0;
    while p < v.len()
        invariant
            p <= v@.len(),
            replace_all(v@, m).0 == out@ + replace_from(v@, p as int, m).0,
            replace_all(v@, m).1 == gcnt + replace_from(v@, p as int, m).1,
            changed == (gcnt > 0),
            m == start_matcher(),
        decreases v@.len() - p,
    {
        proof {
            assert(m(v@, p as int) == enum_start_match_at(v@, p as int));
        }
        match start_match(v, p) {
            Some((e, mut rep)) => {
                proof {
                    gcnt = gcnt + 1;
                }
                out.append(&mut rep);
                changed = true;
                p = e;
            },
            None => {
                out.push(v[p]);
                p = p + 1;
            },
        }
    }
    proof {
        assert(replace_from(v@, p as int, m).0 =~= Seq::<char>::empty());
        assert(out@ =~= out@ + replace_from(v@, p as int, m).0);
    }
    (out, changed)
}

/// One full left-to-right pass with the extension matcher for the digit
/// strings `dk` and `dn`.
fn round_pass(v: &Vec<char>, dk: &Vec<char>, dn: &Vec<char>) -> (r: (Vec<char>, bool))
    ensures
        ({
            let sp = replace_all(v@, round_matcher(dk@, dn@));
            r.0@ == sp.0 && r.1 == (sp.1 > 0)
        }),
{
    let ghost m = round_matcher(dk@, dn@);
    let mut out: Vec<char> = Vec::new();
    let mut changed = false;
    let ghost mut gcnt: nat = 0nat;
    let mut p: usize = 0;
    while p < v.len()
        invariant
            p <= v@.len(),
            replace_all(v@, m).0 == out@ + replace_from(v@, p as int, m).0,
            replace_all(v@, m).1 == gcnt + replace_from(v@, p as int, m).1,
            changed == (gcnt > 0),
            m == round_matcher(dk@, dn@),
        decreases v@.len() - p,
    {
        proof {
            assert(m(v@, p as int) == enum_round_match_at(v@, p as int, dk@, dn@));
        }
        match round_match(v, p, dk, dn) {
            Some((e, mut rep)) => {
                proof {
                    gcnt = gcnt + 1;
                }
                out.append(&mut rep);
                changed = true;
                p = e;
            },
            None => {
                out.push(v[p]);
                p = p + 1;
            },
        }
    }
    proof {
        assert(replace_from(v@, p as int, m).0 =~= Seq::<char>::empty());
        assert(out@ =~= out@ + replace_from(v@, p as int, m).0);
    }
    (out, changed)
}

/// Rewrite enumerations `1. foo, 2. bar en 3. baz` to their markered form
/// `1# foo, 2# bar en 3# baz`. Text without an enumeration head is returned
/// unchanged.
pub fn preprocess(text: &str) -> (r: String)
    ensures
        r@ == spec_preprocess(text@),
{
    let v = str_chars(text);
    let (t1, changed) = start_pass(&v);
    if !changed {
        return chars_to_string(&v);
    }
    let ghost dots0 = count_char(t1@, '.');
    proof {
        lemma_count_char_le_len(t1@, '.');
    }
    let n1 = t1.len();
    let mut cur = t1;
    let mut k: u128 = 1;
    loop
        invariant
            1 <= k,
            k <= 2 + dots0 - count_char(cur@, '.'),
            count_char(cur@, '.') <= dots0,
            dots0 <= n1 <= usize::MAX,
            spec_preprocess(text@) == mark_rounds(cur@, k as nat),
        ensures
            cur@ == spec_preprocess(text@),
        decreases count_char(cur@, '.'),
    {
        let dk = dec_digits_vec(k);
        let dn = dec_digits_vec(k + 1);
        let (t2, ch2) = round_pass(&cur, &dk, &dn);
        proof {
            assert(dn@ == dec_digits(k as nat + 1));
            assert(round_replace(cur@, k as nat) == replace_all(
                cur@,
                round_matcher(dk@, dn@),
            ));
            lemma_round_replace_dots(cur@, k as nat);
        }
        if !ch2 {
            proof {
                assert(mark_rounds(cur@, k as nat) == cur@);
            }
            break ;
        }
        proof {
            assert(mark_rounds(cur@, k as nat) == mark_rounds(t2@, k as nat + 1));
        }
        cur = t2;
        k = k + 1;
    }
    chars_to_string(&cur)
}

/// A text in which the enumeration-head pattern does not occur passes
/// through preprocessing unchanged.
pub proof fn lemma_preprocess_no_head_identity(s: Seq<char>)
    requires
        forall|p: int| #[trigger] enum_start_match_at(s, p) is None,
    ensures
        spec_preprocess(s) == s,
{
    let m = start_matcher();
    assert forall|q: int| 0 <= q < s.len() implies #[trigger] m(s, q) is None by {
        assert(m(s, q) == enum_start_match_at(s, q));
    }
    lemma_replace_from_no_match(s, 0, m);
}

/// Preprocessing is idempotent on every output in which no enumeration head
/// remains: marking `1.` requires an unmarked `1.`, which the first
/// application typically removes.
pub proof fn lemma_preprocess_idempotent(s: Seq<char>)
    requires
        forall|p: int| #[trigger] enum_start_match_at(spec_preprocess(s), p) is None,
    ensures
        spec_preprocess(spec_preprocess(s)) == spec_preprocess(s),
{
    lemma_preprocess_no_head_identity(spec_preprocess(s));
}

} // verus!
