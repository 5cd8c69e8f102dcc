//! The full tokenization pipeline over a finite-state transducer.
//!
//! A `Tokenizer` composes the enumeration pre-processing, the transducer
//! run, the post-processing repairs and the split into the sentence matrix.
//! It is pure: no state crosses calls, and a loaded tokenizer may be shared
//! freely.

use vstd::prelude::*;

use crate::proto::spec_decode;
use crate::fst::FiniteStateTokenizer;
use crate::fst::InterpResult;
use crate::fst::RawOutcome;
use crate::fst::TransData;
use crate::postproc::postprocess;
use crate::postproc::spec_postprocess;
use crate::preproc::preprocess;
use crate::preproc::spec_preprocess;
use crate::util::lemma_tokens_shape;
use crate::util::spec_tokens;
use crate::util::str_to_tokens;

verus! {

/// Why loading a transducer failed: its persisted bytes did not decode, or
/// the decoded table breaks the structural invariants the interpreter needs.
#[derive(Clone, Copy, Debug, PartialEq, Eq, Structural)]
pub enum TokenizerError {
    /// Record framing or field decoding failed.
    ProtobufDecodeError,
    /// The decoded table is no well-formed transducer.
    MalformedTransducer,
}

/// The outcome of one full tokenization.
#[derive(Debug, PartialEq, Eq)]
pub enum Tokenization {
    /// The sentences of the paragraph, each a list of tokens.
    Sentences(Vec<Vec<String>>),
    /// The paragraph is not in the transducer's input language.
    NotInInputLanguage,
    /// A placeholder was emitted with an empty unknown-character queue: the
    /// transducer is corrupt.
    MalformedTransducer,
}

/// Tokenizer and sentence splitter over a finite-state transducer, with the
/// pre- and post-processing passes around the transducer run.
pub struct Tokenizer {
    fst: FiniteStateTokenizer,
}

impl Tokenizer {
    /// The underlying finite-state tokenizer.
    pub closed spec fn inner(&self) -> FiniteStateTokenizer {
        self.fst
    }

    /// The transition table, in its mathematical shape.
    pub open spec fn table(&self) -> Seq<TransData> {
        self.inner().table()
    }

    pub open spec fn wf(&self) -> bool {
        self.inner().wf()
    }

    /// The outcome of the transducer run alone on `input`.
    pub open spec fn interp_of(&self, input: Seq<char>) -> InterpResult {
        self.inner().interp_of(input)
    }

    /// The outcome of the transducer run within the full pipeline: the run
    /// over the pre-processed paragraph.
    pub open spec fn pipeline_of(&self, text: Seq<char>) -> InterpResult {
        self.interp_of(spec_preprocess(text))
    }

    /// Load a transducer from its persisted byte form. Decoding failures
    /// and a structurally unsound table are reported as distinct errors.
    pub fn from_buf_read(data: &[u8]) -> (r: Result<Tokenizer, TokenizerError>)
        ensures
            match r {
                Ok(tok) => tok.wf() && spec_decode(data@) == Some(tok.table()),
                Err(e) => match e {
                    TokenizerError::ProtobufDecodeError => spec_decode(data@) is None,
                    TokenizerError::MalformedTransducer => spec_decode(data@) matches Some(t)
                        && !crate::fst::table_wf(t),
                },
            },
    {
        match FiniteStateTokenizer::from_buf_read(data) {
            Ok(fst) => Ok(Tokenizer { fst }),
            Err(e) => Err(e),
        }
    }

    /// Sentence split and tokenize a paragraph of text, reporting the
    /// outcome in full. The paragraph should be on a single line.
    pub fn try_tokenize(&self, text: &str) -> (r: Tokenization)
        requires
            self.wf(),
        ensures
            match self.pipeline_of(text@) {
                InterpResult::Output(s) => r matches Tokenization::Sentences(m) && m.deep_view()
                    == spec_tokens(spec_postprocess(s)),
                InterpResult::Reject => r == Tokenization::NotInInputLanguage,
                InterpResult::Malformed => r == Tokenization::MalformedTransducer,
            },
    {
        let pre = preprocess(text);
        match self.fst.try_tokenize_raw(pre.as_str()) {
            RawOutcome::Output(raw) => {
                let post = postprocess(raw.as_str());
                Tokenization::Sentences(str_to_tokens(post.as_str()))
            },
            RawOutcome::NotInInputLanguage => Tokenization::NotInInputLanguage,
            RawOutcome::MalformedTransducer => Tokenization::MalformedTransducer,
        }
    }

    /// Sentence split and tokenize a paragraph of text, or nothing when the
    /// transducer rejects it.
    ///
    /// The paragraph should be on a single line.
    pub fn tokenize(&self, text: &str) -> (r: Option<Vec<Vec<String>>>)
        requires
            self.wf(),
            !(self.pipeline_of(text@) is Malformed),
        ensures
            match self.pipeline_of(text@) {
                InterpResult::Output(s) => r matches Some(m) && m.deep_view() == spec_tokens(
                    spec_postprocess(s),
                ),
                InterpResult::Reject => r is None,
                InterpResult::Malformed => false,
            },
    {
        match self.try_tokenize(text) {
            Tokenization::Sentences(m) => Some(m),
            Tokenization::NotInInputLanguage => None,
            Tokenization::MalformedTransducer => None,
        }
    }

    /// Run the transducer alone over `text`, without pre- or
    /// post-processing: the raw output string, or nothing when the input is
    /// not in the transducer's input language.
    pub fn tokenize_raw(&self, text: &str) -> (r: Option<String>)
        requires
            self.wf(),
            !(self.interp_of(text@) is Malformed),
        ensures
            match self.interp_of(text@) {
                InterpResult::Output(s) => r matches Some(o) && o@ == s,
                InterpResult::Reject => r is None,
                InterpResult::Malformed => false,
            },
    {
        self.fst.tokenize_raw(text)
    }
}

/// For every well-formed transducer and every paragraph it accepts, the full
/// pipeline yields a non-empty sentence matrix, and every sentence holds at
/// least one token.
pub proof fn lemma_accepted_input_yields_sentences(
    t: Seq<TransData>,
    known: Set<u32>,
    x: Seq<char>,
)
    ensures
        crate::fst::spec_interpret(t, known, spec_preprocess(x)) matches InterpResult::Output(o)
            ==> {
            let m = spec_tokens(spec_postprocess(o));
            m.len() >= 1 && forall|i: int| 0 <= i < m.len() ==> #[trigger] m[i].len() >= 1
        },
{
    match crate::fst::spec_interpret(t, known, spec_preprocess(x)) {
        InterpResult::Output(o) => {
            lemma_tokens_shape(spec_postprocess(o));
        },
        _ => {},
    }
}

} // verus!
