//! The finite-state transducer and its interpreter.
//!
//! The transducer is a flat array of transitions in which the edges of a
//! state are contiguous and sorted by symbol; state boundaries are implicit
//! in `is_last_of_state`, and `next` points at the first edge of the
//! destination state. Index 0 is a reserved sentinel; a run begins at
//! index 1. Symbol 1 marks an epsilon edge, symbol 2 an unknown-character
//! edge: input characters outside the known-symbol set are consumed there,
//! queued, and emitted wherever a later output carries the placeholder
//! character `U+0002`.

use vstd::prelude::*;

use std::collections::HashSet;

use crate::chars::chars_to_string;
use crate::chars::str_chars;
use crate::proto::decode_transitions;
use crate::proto::spec_decode;
use crate::small_string::SmallString;
use crate::tokenizer::TokenizerError;
use crate::util::spec_tokens;
use crate::util::str_to_tokens;

verus! {

broadcast use vstd::std_specs::hash::group_hash_axioms;

/// Transition of a finite state transducer.
pub struct Transition {
    pub symbol: u32,
    pub is_last_of_state: bool,
    pub is_final_state: bool,
    pub next: u32,
    pub output: SmallString,
    pub final_output: SmallString,
}

/// The mathematical shape of one transition: its outputs as character
/// sequences.
pub ghost struct TransData {
    pub symbol: u32,
    pub is_last_of_state: bool,
    pub is_final_state: bool,
    pub next: u32,
    pub output: Seq<char>,
    pub final_output: Seq<char>,
}

impl View for Transition {
    type V = TransData;

    open spec fn view(&self) -> TransData {
        TransData {
            symbol: self.symbol,
            is_last_of_state: self.is_last_of_state,
            is_final_state: self.is_final_state,
            next: self.next,
            output: self.output@,
            final_output: self.final_output@,
        }
    }
}

impl Transition {
    pub open spec fn wf(&self) -> bool {
        self.output.wf() && self.final_output.wf()
    }
}

/// The transitions of a transducer, in table order.
pub open spec fn table_of(ts: Seq<Transition>) -> Seq<TransData> {
    ts.map_values(|tr: Transition| tr@)
}

/// Structural well-formedness of a transition table: the run begins at
/// index 1, every `next` pointer is in range, and every state's edge run is
/// closed off by an edge with `is_last_of_state` before the table ends.
pub open spec fn table_wf(t: Seq<TransData>) -> bool {
    &&& t.len() >= 2
    &&& forall|j: int| 0 <= j < t.len() ==> (#[trigger] t[j].next) < t.len()
    &&& forall|j: int|
        0 <= j < t.len() && !(#[trigger] t[j].is_last_of_state) ==> j + 1 < t.len()
}

/// The union of the `symbol` fields of all transitions.
pub open spec fn symbol_set(t: Seq<TransData>) -> Set<u32> {
    Set::new(|s: u32| exists|j: int| 0 <= j < t.len() && (#[trigger] t[j].symbol) == s)
}

/// One outcome of interpreting an input: its raw output, a rejection, or a
/// fatal placeholder-queue underflow that signals a corrupted table.
pub ghost enum InterpResult {
    Output(Seq<char>),
    Reject,
    Malformed,
}

/// Emit `out` with every placeholder `U+0002` replaced by the next queued
/// character, in first-in first-out order; nothing on queue underflow.
/// Yields the emitted text and the remaining queue.
pub open spec fn subst_out(out: Seq<char>, queue: Seq<char>) -> Option<(Seq<char>, Seq<char>)>
    decreases out.len(),
{
    if out.len() == 0 {
        Some((Seq::empty(), queue))
    } else if out[0] == '\u{2}' {
        if queue.len() == 0 {
            None
        } else {
            match subst_out(out.drop_first(), queue.drop_first()) {
                None => None,
                Some(rq) => Some((seq![queue[0]] + rq.0, rq.1)),
            }
        }
    } else {
        match subst_out(out.drop_first(), queue) {
            None => None,
            Some(rq) => Some((seq![out[0]] + rq.0, rq.1)),
        }
    }
}

/// The linear scan within a state's edge run: advance while the edge is not
/// the last of its state and the symbol sought is still larger.
pub open spec fn scan_edges(t: Seq<TransData>, o: int, sym: u32) -> int
    decreases t.len() - o,
{
    if 0 <= o < t.len() && !t[o].is_last_of_state && sym > t[o].symbol {
        scan_edges(t, o + 1, sym)
    } else {
        o
    }
}

pub proof fn lemma_scan_edges_in_range(t: Seq<TransData>, o: int, sym: u32)
    requires
        table_wf(t),
        0 <= o < t.len(),
    ensures
        o <= scan_edges(t, o, sym) < t.len(),
    decreases t.len() - o,
{
    if !t[o].is_last_of_state && sym > t[o].symbol {
        lemma_scan_edges_in_range(t, o + 1, sym);
    }
}

/// Prefix an emitted text onto the rest of a run's outcome.
pub open spec fn prepend_output(r: Seq<char>, rest: InterpResult) -> InterpResult {
    match rest {
        InterpResult::Output(s) => InterpResult::Output(r + s),
        InterpResult::Reject => InterpResult::Reject,
        InterpResult::Malformed => InterpResult::Malformed,
    }
}

/// The run from input position `i`, standing on edge `cur` with the queued
/// unknown characters `queue`: what the interpreter emits from here on.
///
/// At the end of the input the current edge's `final_output` is flushed.
/// For each character: advance to the destination state's first edge; an
/// epsilon edge met with an unknown character emits its output directly; an
/// unknown edge met with an unknown character queues the character and
/// emits; otherwise the edge run is scanned for the exact symbol, and a
/// missing match rejects the input.
pub open spec fn interp_from(
    t: Seq<TransData>,
    known: Set<u32>,
    input: Seq<char>,
    i: int,
    cur: int,
    queue: Seq<char>,
) -> InterpResult
    decreases input.len() - i,
{
    if i < 0 || i >= input.len() {
        match subst_out(t[cur].final_output, queue) {
            None => InterpResult::Malformed,
            Some(rq) => InterpResult::Output(rq.0),
        }
    } else {
        let sym = input[i] as u32;
        let adv = t[cur].next as int;
        if t[adv].symbol == 1 && !known.contains(sym) {
            match subst_out(t[adv].output, queue) {
                None => InterpResult::Malformed,
                Some(rq) => prepend_output(
                    rq.0,
                    interp_from(t, known, input, i + 1, adv, rq.1),
                ),
            }
        } else if t[adv].symbol == 2 && !known.contains(sym) {
            match subst_out(t[adv].output, queue.push(input[i])) {
                None => InterpResult::Malformed,
                Some(rq) => prepend_output(
                    rq.0,
                    interp_from(t, known, input, i + 1, adv, rq.1),
                ),
            }
        } else {
            let m = scan_edges(t, adv, sym);
            if t[m].symbol != sym {
                InterpResult::Reject
            } else {
                match subst_out(t[m].output, queue) {
                    None => InterpResult::Malformed,
                    Some(rq) => prepend_output(
                        rq.0,
                        interp_from(t, known, input, i + 1, m, rq.1),
                    ),
                }
            }
        }
    }
}

/// A whole run: fresh per-call state, starting at index 1 with an empty
/// queue and an empty output.
pub open spec fn spec_interpret(t: Seq<TransData>, known: Set<u32>, input: Seq<char>) -> InterpResult {
    interp_from(t, known, input, 0, 1, Seq::empty())
}

/// Emitting with substitution never changes the length: every placeholder
/// becomes exactly one queued character.
pub proof fn lemma_subst_out_len(out: Seq<char>, queue: Seq<char>)
    ensures
        subst_out(out, queue) matches Some(rq) ==> rq.0.len() == out.len(),
    decreases out.len(),
{
    if out.len() == 0 {
    } else if out[0] == '\u{2}' {
        if queue.len() > 0 {
            lemma_subst_out_len(out.drop_first(), queue.drop_first());
        }
    } else {
        lemma_subst_out_len(out.drop_first(), queue);
    }
}

/// Every edge output is at most `mo` characters and every final output at
/// most `mf`.
pub open spec fn outputs_bounded(t: Seq<TransData>, mo: nat, mf: nat) -> bool {
    forall|j: int|
        0 <= j < t.len() ==> (#[trigger] t[j]).output.len() <= mo && t[j].final_output.len() <= mf
}

proof fn lemma_interp_from_bounded(
    t: Seq<TransData>,
    known: Set<u32>,
    input: Seq<char>,
    i: int,
    cur: int,
    queue: Seq<char>,
    mo: nat,
    mf: nat,
)
    requires
        table_wf(t),
        outputs_bounded(t, mo, mf),
        0 <= i <= input.len(),
        0 <= cur < t.len(),
    ensures
        interp_from(t, known, input, i, cur, queue) matches InterpResult::Output(s) ==> s.len()
            <= (input.len() - i) * mo + mf,
    decreases input.len() - i,
{
    if i >= input.len() {
        lemma_subst_out_len(t[cur].final_output, queue);
        assert((input.len() - i) * mo == 0) by (nonlinear_arith)
            requires
                i == input.len(),
        ;
    } else {
        let sym = input[i] as u32;
        let adv = t[cur].next as int;
        assert(0 <= adv < t.len());
        assert((input.len() - i) * mo == mo + (input.len() - i - 1) * mo) by (nonlinear_arith)
            requires
                i < input.len(),
        ;
        if t[adv].symbol == 1 && !known.contains(sym) {
            lemma_subst_out_len(t[adv].output, queue);
            if subst_out(t[adv].output, queue) is Some {
                let rq = subst_out(t[adv].output, queue).unwrap();
                lemma_interp_from_bounded(t, known, input, i + 1, adv, rq.1, mo, mf);
            }
        } else if t[adv].symbol == 2 && !known.contains(sym) {
            lemma_subst_out_len(t[adv].output, queue.push(input[i]));
            if subst_out(t[adv].output, queue.push(input[i])) is Some {
                let rq = subst_out(t[adv].output, queue.push(input[i])).unwrap();
                lemma_interp_from_bounded(t, known, input, i + 1, adv, rq.1, mo, mf);
            }
        } else {
            let m = scan_edges(t, adv, sym);
            lemma_scan_edges_in_range(t, adv, sym);
            if t[m].symbol == sym {
                lemma_subst_out_len(t[m].output, queue);
                if subst_out(t[m].output, queue) is Some {
                    let rq = subst_out(t[m].output, queue).unwrap();
                    lemma_interp_from_bounded(t, known, input, i + 1, m, rq.1, mo, mf);
                }
            }
        }
    }
}

/// The interpreter's output length is bounded by the input length times the
/// largest edge output, plus one final output.
pub proof fn lemma_interpreter_output_bounded(
    t: Seq<TransData>,
    known: Set<u32>,
    input: Seq<char>,
    mo: nat,
    mf: nat,
)
    requires
        table_wf(t),
        outputs_bounded(t, mo, mf),
    ensures
        spec_interpret(t, known, input) matches InterpResult::Output(s) ==> s.len() <= input.len()
            * mo + mf,
{
    lemma_interp_from_bounded(t, known, input, 0, 1, Seq::empty(), mo, mf);
}

/// The outcome of running `a` and then `b` in one session: per-call state is
/// fresh, so the second run starts again at index 1 with an empty queue.
pub open spec fn interpret_then(
    t: Seq<TransData>,
    known: Set<u32>,
    a: Seq<char>,
    b: Seq<char>,
) -> InterpResult {
    match spec_interpret(t, known, a) {
        InterpResult::Output(oa) => prepend_output(oa, spec_interpret(t, known, b)),
        InterpResult::Reject => InterpResult::Reject,
        InterpResult::Malformed => InterpResult::Malformed,
    }
}

/// No interpreter state crosses calls: running `a` then `b` emits exactly
/// the concatenation of the two independent runs' outputs, and fails or
/// rejects exactly when one of them does.
pub proof fn lemma_interpret_fresh_state(
    t: Seq<TransData>,
    known: Set<u32>,
    a: Seq<char>,
    b: Seq<char>,
)
    ensures
        interpret_then(t, known, a, b) is Output <==> (spec_interpret(t, known, a) is Output
            && spec_interpret(t, known, b) is Output),
        forall|oa: Seq<char>, ob: Seq<char>|
            spec_interpret(t, known, a) == InterpResult::Output(oa) && spec_interpret(t, known, b)
                == InterpResult::Output(ob) ==> interpret_then(t, known, a, b)
                == InterpResult::Output(#[trigger] (oa + ob)),
{
}

struct Transducer {
    pub transitions: Vec<Transition>,
}

/// Finite state tokenizer and sentence splitter.
///
/// This type implements a tokenizer based on a finite-state transducer; it
/// applies no pre- or post-processing, so a transducer that expects those
/// steps should be driven through the types that add them.
pub struct FiniteStateTokenizer {
    known_symbols: HashSet<u32>,
    transducer: Transducer,
}

impl FiniteStateTokenizer {
    /// The transition table, in its mathematical shape.
    pub closed spec fn table(&self) -> Seq<TransData> {
        table_of(self.transducer.transitions@)
    }

    /// The known-symbol set the interpreter consults.
    pub closed spec fn known_set(&self) -> Set<u32> {
        self.known_symbols@
    }

    /// Every stored output string is validly represented.
    pub closed spec fn reps_wf(&self) -> bool {
        forall|j: int|
            0 <= j < self.transducer.transitions@.len() ==> (
            #[trigger] self.transducer.transitions@[j]).wf()
    }

    /// A loaded tokenizer is structurally sound: its table is well-formed
    /// and the known-symbol set is exactly the union of the table's symbols.
    pub open spec fn wf(&self) -> bool {
        &&& self.reps_wf()
        &&& table_wf(self.table())
        &&& self.known_set() == symbol_set(self.table())
    }

    /// The outcome of interpreting `input` with this tokenizer.
    pub open spec fn interp_of(&self, input: Seq<char>) -> InterpResult {
        spec_interpret(self.table(), self.known_set(), input)
    }

    /// Load a transducer from its persisted byte form and build the
    /// known-symbol set. Decoding failures and a structurally unsound table
    /// are reported as distinct errors.
    pub fn from_buf_read(data: &[u8]) -> (r: Result<FiniteStateTokenizer, TokenizerError>)
        ensures
            match r {
                Ok(tok) => tok.wf() && spec_decode(data@) == Some(tok.table()),
                Err(e) => match e {
                    TokenizerError::ProtobufDecodeError => spec_decode(data@) is None,
                    TokenizerError::MalformedTransducer => spec_decode(data@) matches Some(t)
                        && !table_wf(t),
                },
            },
    {
        let v = vstd::slice::slice_to_vec(data);
        let ts = match decode_transitions(&v) {
            None => {
                return Err(TokenizerError::ProtobufDecodeError);
            },
            Some(ts) => ts,
        };
        let ghost t = table_of(ts@);
        proof {
            assert(t =~= ts@.map_values(|tr: Transition| tr@));
        }
        if ts.len() < 2 {
            return Err(TokenizerError::MalformedTransducer);
        }
        let n = ts.len();
        let mut j: usize = 0;
        while j < n
            invariant
                j <= n,
                n == ts@.len(),
                t == table_of(ts@),
                spec_decode(data@) == Some(t),
                forall|q: int| 0 <= q < j ==> (#[trigger] t[q].next) < t.len(),
                forall|q: int| 0 <= q < j && !(#[trigger] t[q].is_last_of_state) ==> q + 1 < t.len(),
            decreases n - j,
        {
            if ts[j].next as usize >= n {
                proof {
                    assert(t[j as int] == ts@[j as int]@);
                    assert(t[j as int].next >= t.len());
                    assert(!table_wf(t));
                }
                return Err(TokenizerError::MalformedTransducer);
            }
            if !ts[j].is_last_of_state && j + 1 == n {
                proof {
                    assert(t[j as int] == ts@[j as int]@);
                    assert(!t[j as int].is_last_of_state && j + 1 == t.len());
                    assert(!table_wf(t));
                }
                return Err(TokenizerError::MalformedTransducer);
            }
            j = j + 1;
        }
        let mut known: HashSet<u32> = HashSet::new();
        let mut k: usize = 0;
        while k < n
            invariant
                k <= n,
                n == ts@.len(),
                t == table_of(ts@),
                known@ == Set::new(
                    |s: u32| exists|q: int| 0 <= q < k && (#[trigger] t[q].symbol) == s,
                ),
            decreases n - k,
        {
            let ghost old_known = known@;
            known.insert(ts[k].symbol);
            proof {
                let sym = ts@[k as int].symbol;
                let target = Set::new(
                    |s: u32| exists|q: int| 0 <= q < k + 1 && (#[trigger] t[q].symbol) == s,
                );
                assert(t[k as int] == ts@[k as int]@);
                assert(known@ == old_known.insert(sym));
                assert forall|s: u32| #[trigger] known@.contains(s) implies target.contains(s) by {
                    if s == sym {
                        assert(0 <= k < k + 1 && t[k as int].symbol == s);
                    } else {
                        assert(old_known.contains(s));
                        let q = choose|q: int| 0 <= q < k && (#[trigger] t[q].symbol) == s;
                        assert(0 <= q < k + 1 && t[q].symbol == s);
                    }
                }
                assert forall|s: u32| #[trigger] target.contains(s) implies known@.contains(s) by {
                    let q = choose|q: int| 0 <= q < k + 1 && (#[trigger] t[q].symbol) == s;
                    if q == k {
                        assert(s == sym);
                    } else {
                        assert(old_known.contains(s));
                    }
                }
                assert(known@ =~= target);
            }
            k = k + 1;
        }
        proof {
            assert(known@ =~= symbol_set(t));
        }
        Ok(FiniteStateTokenizer { known_symbols: known, transducer: Transducer { transitions: ts } })
    }

    /// Run the transducer over `text` and report the outcome in full: the
    /// raw output, a rejection, or a placeholder-queue underflow.
    pub fn try_tokenize_raw(&self, text: &str) -> (r: RawOutcome)
        requires
            self.wf(),
        ensures
            match self.interp_of(text@) {
                InterpResult::Output(s) => r matches RawOutcome::Output(o) && o@ == s,
                InterpResult::Reject => r == RawOutcome::NotInInputLanguage,
                InterpResult::Malformed => r == RawOutcome::MalformedTransducer,
            },
    {
        let input = str_chars(text);
        let ghost t = self.table();
        let ghost known = self.known_set();
        let n = input.len();
        let mut cur: usize = 1;
        let mut out: Vec<char> = Vec::new();
        let mut queue: Vec<char> = Vec::new();
        let mut i: usize = 0;
        proof {
            match interp_from(t, known, text@, 0, 1, queue@) {
                InterpResult::Output(s) => {
                    assert(Seq::<char>::empty() + s =~= s);
                },
                _ => {},
            }
        }
        while i < n
            invariant
                i <= n,
                n == input@.len(),
                input@ == text@,
                self.wf(),
                t == self.table(),
                known == self.known_set(),
                0 <= cur < t.len(),
                self.interp_of(text@) == prepend_output(
                    out@,
                    interp_from(t, known, text@, i as int, cur as int, queue@),
                ),
            decreases n - i,
        {
            let ch = input[i];
            let sym = ch as u32;
            let ghost cur0 = cur as int;
            let ghost q0 = queue@;
            let ghost out0 = out@;
            proof {
                assert(t[cur0] == self.transducer.transitions@[cur0]@);
            }
            let adv = self.transducer.transitions[cur].next as usize;
            proof {
                assert(adv as int == t[cur0].next as int);
                assert(adv < t.len());
                assert(t[adv as int] == self.transducer.transitions@[adv as int]@);
                assert(self.transducer.transitions@[adv as int].wf());
            }
            cur = adv;
            let known_has = self.known_symbols.contains(&sym);
            proof {
                assert(known_has == known.contains(sym));
                assert(sym == text@[i as int] as u32);
            }
            let ghost step = interp_from(t, known, text@, i as int, cur0, q0);
            if self.transducer.transitions[cur].symbol == 1 && !known_has {
                let ok = append_subst(
                    &mut out,
                    &self.transducer.transitions[cur].output,
                    &mut queue,
                );
                proof {
                    if subst_out(t[adv as int].output, q0) is None {
                        assert(step == InterpResult::Malformed);
                    }
                }
                if !ok {
                    return RawOutcome::MalformedTransducer;
                }
                proof {
                    let rq = subst_out(t[adv as int].output, q0).unwrap();
                    assert(step == prepend_output(
                        rq.0,
                        interp_from(t, known, text@, i + 1, adv as int, rq.1),
                    ));
                    lemma_prepend_assoc(out0, rq.0, interp_from(t, known, text@, i + 1, adv as int, rq.1));
                }
            } else if self.transducer.transitions[cur].symbol == 2 && !known_has {
                queue.push(ch);
                let ghost q1 = queue@;
                proof {
                    assert(q1 == q0.push(text@[i as int]));
                }
                let ok = append_subst(
                    &mut out,
                    &self.transducer.transitions[cur].output,
                    &mut queue,
                );
                proof {
                    if subst_out(t[adv as int].output, q1) is None {
                        assert(step == InterpResult::Malformed);
                    }
                }
                if !ok {
                    return RawOutcome::MalformedTransducer;
                }
                proof {
                    let rq = subst_out(t[adv as int].output, q1).unwrap();
                    assert(step == prepend_output(
                        rq.0,
                        interp_from(t, known, text@, i + 1, adv as int, rq.1),
                    ));
                    lemma_prepend_assoc(out0, rq.0, interp_from(t, known, text@, i + 1, adv as int, rq.1));
                }
            } else {
                let nt = self.transducer.transitions.len();
                while !self.transducer.transitions[cur].is_last_of_state && sym
                    > self.transducer.transitions[cur].symbol
                    invariant
                        self.wf(),
                        t == self.table(),
                        nt == t.len(),
                        adv <= cur < t.len(),
                        scan_edges(t, adv as int, sym) == scan_edges(t, cur as int, sym),
                    decreases t.len() - cur,
                {
                    proof {
                        assert(t[cur as int] == self.transducer.transitions@[cur as int]@);
                        assert(cur + 1 < t.len());
                    }
                    cur = cur + 1;
                }
                proof {
                    assert(t[cur as int] == self.transducer.transitions@[cur as int]@);
                    assert(scan_edges(t, cur as int, sym) == cur as int);
                    assert(scan_edges(t, adv as int, sym) == cur as int);
                    assert(self.transducer.transitions@[cur as int].wf());
                }
                if self.transducer.transitions[cur].symbol != sym {
                    proof {
                        assert(step == InterpResult::Reject);
                    }
                    return RawOutcome::NotInInputLanguage;
                }
                let ok = append_subst(
                    &mut out,
                    &self.transducer.transitions[cur].output,
                    &mut queue,
                );
                proof {
                    if subst_out(t[cur as int].output, q0) is None {
                        assert(step == InterpResult::Malformed);
                    }
                }
                if !ok {
                    return RawOutcome::MalformedTransducer;
                }
                proof {
                    let rq = subst_out(t[cur as int].output, q0).unwrap();
                    assert(step == prepend_output(
                        rq.0,
                        interp_from(t, known, text@, i + 1, cur as int, rq.1),
                    ));
                    lemma_prepend_assoc(out0, rq.0, interp_from(t, known, text@, i + 1, cur as int, rq.1));
                }
            }
            i = i + 1;
        }
        let ghost q0 = queue@;
        let ghost out0 = out@;
        proof {
            assert(t[cur as int] == self.transducer.transitions@[cur as int]@);
            assert(self.transducer.transitions@[cur as int].wf());
        }
        let ok = append_subst(&mut out, &self.transducer.transitions[cur].final_output, &mut queue);
        proof {
            if subst_out(t[cur as int].final_output, q0) is None {
                assert(interp_from(t, known, text@, i as int, cur as int, q0)
                    == InterpResult::Malformed);
            }
        }
        if !ok {
            return RawOutcome::MalformedTransducer;
        }
        proof {
            let rq = subst_out(t[cur as int].final_output, q0).unwrap();
            assert(interp_from(t, known, text@, i as int, cur as int, q0)
                == InterpResult::Output(rq.0));
            assert(self.interp_of(text@) == InterpResult::Output(out0 + rq.0));
            assert(out@ == out0 + rq.0);
        }
        RawOutcome::Output(chars_to_string(&out))
    }

    /// Run the transducer over `text`: the raw output string, or nothing
    /// when the input is not in the transducer's input language.
    pub fn tokenize_raw(&self, text: &str) -> (r: Option<String>)
        requires
            self.wf(),
            !(self.interp_of(text@) is Malformed),
        ensures
            match self.interp_of(text@) {
                InterpResult::Output(s) => r matches Some(o) && o@ == s,
                InterpResult::Reject => r is None,
                InterpResult::Malformed => false,
            },
    {
        match self.try_tokenize_raw(text) {
            RawOutcome::Output(s) => Some(s),
            RawOutcome::NotInInputLanguage => None,
            RawOutcome::MalformedTransducer => None,
        }
    }

    /// Run the transducer and split its raw output into the sentence
    /// matrix. No pre- or post-processing is applied.
    pub fn tokenize(&self, text: &str) -> (r: Option<Vec<Vec<String>>>)
        requires
            self.wf(),
            !(self.interp_of(text@) is Malformed),
        ensures
            match self.interp_of(text@) {
                InterpResult::Output(s) => r matches Some(m) && m.deep_view() == spec_tokens(s),
                InterpResult::Reject => r is None,
                InterpResult::Malformed => false,
            },
    {
        match self.tokenize_raw(text) {
            None => None,
            Some(raw) => Some(str_to_tokens(raw.as_str())),
        }
    }
}

/// Prefixing distributes over a prefixed outcome.
proof fn lemma_prepend_assoc(a: Seq<char>, b: Seq<char>, rest: InterpResult)
    ensures
        prepend_output(a, prepend_output(b, rest)) == prepend_output(a + b, rest),
{
    match rest {
        InterpResult::Output(s) => {
            assert(a + (b + s) =~= (a + b) + s);
        },
        _ => {},
    }
}

/// The raw outcome of one interpreter run.
#[derive(Debug, PartialEq, Eq)]
pub enum RawOutcome {
    /// The raw output string of an accepted input.
    Output(String),
    /// The input is not in the transducer's input language.
    NotInInputLanguage,
    /// A placeholder was emitted with an empty unknown-character queue: the
    /// transducer is corrupt.
    MalformedTransducer,
}

/// Append `s` to `out`, replacing each placeholder `U+0002` by the next
/// queued character; reports failure on queue underflow.
fn append_subst(out: &mut Vec<char>, s: &SmallString, queue: &mut Vec<char>) -> (ok: bool)
    requires
        s.wf(),
    ensures
        match subst_out(s@, old(queue)@) {
            Some(rq) => ok && final(out)@ == old(out)@ + rq.0 && final(queue)@ == rq.1,
            None => !ok,
        },
{
    let n = s.char_len();
    let mut j: usize = 0;
    proof {
        assert(s@.skip(0) =~= s@);
        assert(out@.skip(old(out)@.len() as int) =~= Seq::<char>::empty());
        assert(out@.subrange(0, old(out)@.len() as int) =~= old(out)@);
        match subst_out(s@, old(queue)@) {
            Some(rq) => {
                assert(Seq::<char>::empty() + rq.0 =~= rq.0);
            },
            None => {},
        }
    }
    while j < n
        invariant
            j <= n,
            n == s@.len(),
            s.wf(),
            out@.len() >= old(out)@.len(),
            out@.subrange(0, old(out)@.len() as int) == old(out)@,
            match subst_out(s@.skip(j as int), queue@) {
                Some(rq2) => subst_out(s@, old(queue)@) matches Some(rq) && rq.0 == out@.skip(
                    old(out)@.len() as int,
                ) + rq2.0 && rq.1 == rq2.1,
                None => subst_out(s@, old(queue)@) is None,
            },
        decreases n - j,
    {
        let ghost emitted = out@.skip(old(out)@.len() as int);
        let ghost qb = queue@;
        proof {
            assert(s@.skip(j as int).len() > 0);
            assert(s@.skip(j as int)[0] == s@[j as int]);
            assert(s@.skip(j as int).drop_first() =~= s@.skip(j + 1 as int));
        }
        let c = s.char_at(j);
        if c == '\u{2}' {
            if queue.len() == 0 {
                proof {
                    assert(subst_out(s@.skip(j as int), qb) is None);
                }
                return false;
            }
            let qc = queue.remove(0);
            proof {
                assert(qc == qb[0]);
                assert(queue@ =~= qb.drop_first());
            }
            out.push(qc);
            proof {
                assert(out@.subrange(0, old(out)@.len() as int) =~= old(out)@);
                assert(out@.skip(old(out)@.len() as int) =~= emitted.push(qc));
                match subst_out(s@.skip(j + 1 as int), queue@) {
                    Some(rq2) => {
                        assert(subst_out(s@.skip(j as int), qb) == Some(
                            (seq![qb[0]] + rq2.0, rq2.1),
                        ));
                        assert(emitted + (seq![qb[0]] + rq2.0) =~= emitted.push(qc) + rq2.0);
                    },
                    None => {
                        assert(subst_out(s@.skip(j as int), qb) is None);
                    },
                }
            }
        } else {
            out.push(c);
            proof {
                assert(out@.subrange(0, old(out)@.len() as int) =~= old(out)@);
                assert(out@.skip(old(out)@.len() as int) =~= emitted.push(c));
                match subst_out(s@.skip(j + 1 as int), queue@) {
                    Some(rq2) => {
                        assert(subst_out(s@.skip(j as int), qb) == Some(
                            (seq![s@[j as int]] + rq2.0, rq2.1),
                        ));
                        assert(emitted + (seq![s@[j as int]] + rq2.0) =~= emitted.push(c) + rq2.0);
                    },
                    None => {
                        assert(subst_out(s@.skip(j as int), qb) is None);
                    },
                }
            }
        }
        j = j + 1;
    }
    proof {
        assert(s@.skip(n as int) =~= Seq::<char>::empty());
        assert(subst_out(Seq::<char>::empty(), queue@) == Some((Seq::<char>::empty(), queue@)));
        let rq = subst_out(s@, old(queue)@).unwrap();
        assert(rq.0 =~= out@.skip(old(out)@.len() as int));
        assert(old(out)@ + out@.skip(old(out)@.len() as int) =~= out@);
    }
    true
}

} // verus!
