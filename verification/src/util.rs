//! Splitting the transducer's raw output into the sentence matrix.
//!
//! The raw output separates sentences with `\n` and tokens with single
//! spaces. Splitting is literal: repeated separators produce empty tokens,
//! and nothing is trimmed or filtered.

use vstd::prelude::*;

use crate::chars::chars_to_string;
use crate::chars::str_chars;

verus! {

/// Index of the first occurrence of `sep` in `s`, or `s.len()` if absent.
pub open spec fn first_index_of(s: Seq<char>, sep: char) -> nat
    decreases s.len(),
{
    if s.len() == 0 {
        0
    } else if s[0] == sep {
        0
    } else {
        1 + first_index_of(s.drop_first(), sep)
    }
}

pub proof fn lemma_first_index_of(s: Seq<char>, sep: char)
    ensures
        first_index_of(s, sep) <= s.len(),
        forall|j: int| 0 <= j < first_index_of(s, sep) ==> s[j] != sep,
        first_index_of(s, sep) < s.len() ==> s[first_index_of(s, sep) as int] == sep,
    decreases s.len(),
{
    if s.len() == 0 {
    } else if s[0] == sep {
    } else {
        lemma_first_index_of(s.drop_first(), sep);
        assert forall|j: int| 0 <= j < first_index_of(s, sep) implies s[j] != sep by {
            if j > 0 {
                assert(s.drop_first()[j - 1] != sep);
            }
        }
    }
}

/// The pieces of `s` between occurrences of `sep`, in order. Always at
/// least one piece; empty pieces are kept.
pub open spec fn split_on(s: Seq<char>, sep: char) -> Seq<Seq<char>>
    decreases s.len(),
{
    let i = first_index_of(s, sep);
    if i >= s.len() {
        seq![s]
    } else {
        seq![s.take(i as int)] + split_on(s.skip(i + 1 as int), sep)
    }
}

/// The sentence matrix of a raw output string: sentences between newlines,
/// tokens between single spaces.
pub open spec fn spec_tokens(s: Seq<char>) -> Seq<Seq<Seq<char>>> {
    split_on(s, '\n').map_values(|sent: Seq<char>| split_on(sent, ' '))
}

/// Splitting never yields an empty piece list.
pub proof fn lemma_split_on_nonempty(s: Seq<char>, sep: char)
    ensures
        split_on(s, sep).len() >= 1,
{
}

/// Every splitting result is non-empty, and so is each of its sentences:
/// the sentence matrix of any raw output has at least one sentence, and
/// every sentence has at least one token.
pub proof fn lemma_tokens_shape(s: Seq<char>)
    ensures
        spec_tokens(s).len() >= 1,
        forall|i: int|
            0 <= i < spec_tokens(s).len() ==> #[trigger] spec_tokens(s)[i].len() >= 1,
{
    lemma_split_on_nonempty(s, '\n');
    assert forall|i: int| 0 <= i < spec_tokens(s).len() implies #[trigger] spec_tokens(s)[i].len()
        >= 1 by {
        lemma_split_on_nonempty(split_on(s, '\n')[i], ' ');
    }
}

/// `parts` with its first piece extended on the left by `pre`.
pub open spec fn prepend_first(pre: Seq<char>, parts: Seq<Seq<char>>) -> Seq<Seq<char>> {
    seq![pre + parts[0]] + parts.drop_first()
}

/// How `split_on` unfolds over its first character.
pub proof fn lemma_split_on_cons(s: Seq<char>, sep: char)
    requires
        s.len() > 0,
    ensures
        s[0] == sep ==> split_on(s, sep) == seq![Seq::<char>::empty()] + split_on(
            s.drop_first(),
            sep,
        ),
        s[0] != sep ==> split_on(s, sep) == prepend_first(
            seq![s[0]],
            split_on(s.drop_first(), sep),
        ),
{
    let rest = s.drop_first();
    if s[0] == sep {
        assert(first_index_of(s, sep) == 0);
        assert(s.take(0) =~= Seq::<char>::empty());
        assert(s.skip(1) =~= rest);
    } else {
        let i = first_index_of(s, sep);
        let ir = first_index_of(rest, sep);
        assert(i == 1 + ir);
        lemma_first_index_of(rest, sep);
        if ir >= rest.len() {
            assert(split_on(s, sep) == seq![s]);
            assert(split_on(rest, sep) == seq![rest]);
            assert(prepend_first(seq![s[0]], seq![rest]) =~= seq![seq![s[0]] + rest]);
            assert(seq![s[0]] + rest =~= s);
        } else {
            assert(s.take(i as int) =~= seq![s[0]] + rest.take(ir as int));
            assert(s.skip(i + 1 as int) =~= rest.skip(ir + 1 as int));
            assert(split_on(s, sep) == seq![s.take(i as int)] + split_on(s.skip(i + 1 as int), sep));
            assert(prepend_first(seq![s[0]], split_on(rest, sep)) =~= seq![s.take(i as int)]
                + split_on(rest.skip(ir + 1 as int), sep)) by {
                assert(split_on(rest, sep)[0] == rest.take(ir as int));
                assert(seq![s[0]] + rest.take(ir as int) =~= s.take(i as int));
                assert((seq![rest.take(ir as int)] + split_on(rest.skip(ir + 1 as int), sep)).drop_first()
                    =~= split_on(rest.skip(ir + 1 as int), sep));
            }
        }
    }
}

/// The pieces of `v` between occurrences of `sep`.
pub fn split_chars(v: &Vec<char>, sep: char) -> (r: Vec<Vec<char>>)
    ensures
        r.deep_view() == split_on(v@, sep),
{
    let mut out: Vec<Vec<char>> = Vec::new();
    let mut cur: Vec<char> = Vec::new();
    let mut i: usize = 0;
    proof {
        lemma_split_on_nonempty(v@, sep);
        let parts = split_on(v@.skip(0), sep);
        assert(v@.skip(0) =~= v@);
        assert(Seq::<char>::empty() + parts[0] =~= parts[0]);
        assert(prepend_first(Seq::<char>::empty(), parts) =~= parts);
        assert(out.deep_view() + prepend_first(cur@, parts) =~~= split_on(v@, sep));
    }
    while i < v.len()
        invariant
            i <= v@.len(),
            split_on(v@, sep) == out.deep_view() + prepend_first(cur@, split_on(v@.skip(i as int), sep)),
        decreases v@.len() - i,
    {
        let ghost rest = v@.skip(i as int);
        proof {
            assert(rest.len() > 0);
            assert(rest[0] == v@[i as int]);
            assert(rest.drop_first() =~= v@.skip(i + 1 as int));
            lemma_split_on_cons(rest, sep);
            lemma_split_on_nonempty(v@.skip(i + 1 as int), sep);
        }
        let c = v[i];
        if c == sep {
            let ghost old_out = out.deep_view();
            let ghost old_cur = cur@;
            out.push(cur);
            cur = Vec::new();
            proof {
                let parts = split_on(v@.skip(i + 1 as int), sep);
                assert(prepend_first(old_cur, split_on(rest, sep)) =~= seq![old_cur]
                    + prepend_first(Seq::<char>::empty(), parts)) by {
                    assert(split_on(rest, sep) == seq![Seq::<char>::empty()] + parts);
                    assert(split_on(rest, sep)[0] =~= Seq::<char>::empty());
                    assert(old_cur + split_on(rest, sep)[0] =~= old_cur);
                    assert(split_on(rest, sep).drop_first() =~= parts);
                    assert(prepend_first(Seq::<char>::empty(), parts)[0] =~= parts[0]);
                    assert(prepend_first(Seq::<char>::empty(), parts) =~= parts);
                }
                assert(out.deep_view() =~~= old_out + seq![old_cur]);
                assert(out.deep_view() + prepend_first(cur@, parts) =~= old_out + (seq![old_cur]
                    + prepend_first(Seq::<char>::empty(), parts)));
            }
        } else {
            let ghost old_cur = cur@;
            cur.push(c);
            proof {
                let parts = split_on(v@.skip(i + 1 as int), sep);
                assert(split_on(rest, sep) == prepend_first(seq![rest[0]], parts));
                assert(prepend_first(old_cur, prepend_first(seq![rest[0]], parts))
                    =~= prepend_first(cur@, parts)) by {
                    assert(prepend_first(seq![rest[0]], parts)[0] == seq![rest[0]] + parts[0]);
                    assert(old_cur + (seq![rest[0]] + parts[0]) =~= cur@ + parts[0]);
                    assert(prepend_first(seq![rest[0]], parts).drop_first() =~= parts.drop_first());
                }
            }
        }
        i = i + 1;
    }
    proof {
        let tail = split_on(v@.skip(i as int), sep);
        assert(v@.skip(i as int) =~= Seq::<char>::empty());
        assert(first_index_of(Seq::<char>::empty(), sep) == 0);
        assert(tail =~= seq![Seq::<char>::empty()]);
        assert(prepend_first(cur@, tail) =~= seq![cur@]) by {
            assert(cur@ + tail[0] =~= cur@);
            assert(tail.drop_first() =~= Seq::<Seq<char>>::empty());
        }
    }
    out.push(cur);
    proof {
        assert(out.deep_view() =~~= split_on(v@, sep));
    }
    out
}

/// Split a raw output string into sentences on `\n`, then each sentence
/// into tokens on single spaces.
pub fn str_to_tokens(tokenized: &str) -> (r: Vec<Vec<String>>)
    ensures
        r.deep_view() == spec_tokens(tokenized@),
{
    let chars = str_chars(tokenized);
    let sentences = split_chars(&chars, '\n');
    let mut r: Vec<Vec<String>> = Vec::new();
    let mut i: usize = 0;
    while i < sentences.len()
        invariant
            i <= sentences@.len(),
            sentences.deep_view() == split_on(chars@, '\n'),
            chars@ == tokenized@,
            r.deep_view() =~= spec_tokens(tokenized@).take(i as int),
            r@.len() == i,
        decreases sentences@.len() - i,
    {
        let sent = &sentences[i];
        let words = split_chars(sent, ' ');
        let mut toks: Vec<String> = Vec::new();
        let mut j: usize = 0;
        while j < words.len()
            invariant
                j <= words@.len(),
                toks.deep_view() =~= words.deep_view().take(j as int),
                toks@.len() == j,
            decreases words@.len() - j,
        {
            let t = chars_to_string(&words[j]);
            toks.push(t);
            proof {
                assert(toks.deep_view() =~~= words.deep_view().take(j + 1 as int));
            }
            j = j + 1;
        }
        proof {
            assert(toks.deep_view() =~= words.deep_view());
            assert(sent.deep_view() =~= sent@);
            assert(sent.deep_view() == sentences.deep_view()[i as int]);
            assert(words.deep_view() == split_on(split_on(tokenized@, '\n')[i as int], ' '));
            assert(words.deep_view() == spec_tokens(tokenized@)[i as int]);
        }
        r.push(toks);
        proof {
            assert(r.deep_view() =~= spec_tokens(tokenized@).take(i + 1 as int));
        }
        i = i + 1;
    }
    proof {
        assert(r.deep_view() =~= spec_tokens(tokenized@));
    }
    r
}

} // verus!
