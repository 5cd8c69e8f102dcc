//! The tokenizer configured for Alpino's transducer.

use vstd::prelude::*;

use crate::proto::spec_decode;
use crate::fst::InterpResult;
use crate::fst::TransData;
use crate::postproc::spec_postprocess;
use crate::tokenizer::Tokenization;
use crate::tokenizer::Tokenizer;
use crate::tokenizer::TokenizerError;
use crate::util::spec_tokens;

verus! {

/// Alpino tokenizer and sentence splitter.
///
/// Drives a tokenizing transducer with the pre- and post-processing steps
/// that Alpino's transducer expects.
pub struct AlpinoTokenizer {
    inner: Tokenizer,
}

impl AlpinoTokenizer {
    /// The underlying pipeline tokenizer.
    pub closed spec fn pipeline(&self) -> Tokenizer {
        self.inner
    }

    /// The transition table, in its mathematical shape.
    pub open spec fn table(&self) -> Seq<TransData> {
        self.pipeline().table()
    }

    pub open spec fn wf(&self) -> bool {
        self.pipeline().wf()
    }

    /// The outcome of the transducer run over the pre-processed paragraph.
    pub open spec fn pipeline_of(&self, text: Seq<char>) -> InterpResult {
        self.pipeline().pipeline_of(text)
    }

    /// Load Alpino's transducer from its persisted byte form.
    pub fn from_buf_read(data: &[u8]) -> (r: Result<AlpinoTokenizer, TokenizerError>)
        ensures
            match r {
                Ok(tok) => tok.wf() && spec_decode(data@) == Some(tok.table()),
                Err(e) => match e {
                    TokenizerError::ProtobufDecodeError => spec_decode(data@) is None,
                    TokenizerError::MalformedTransducer => spec_decode(data@) matches Some(t)
                        && !crate::fst::table_wf(t),
                },
            },
    {
        match Tokenizer::from_buf_read(data) {
            Ok(inner) => Ok(AlpinoTokenizer { inner }),
            Err(e) => Err(e),
        }
    }

    /// Sentence split and tokenize a paragraph of text, reporting the
    /// outcome in full. The paragraph should be on a single line.
    pub fn try_tokenize(&self, text: &str) -> (r: Tokenization)
        requires
            self.wf(),
        ensures
            match self.pipeline_of(text@) {
                InterpResult::Output(s) => r matches Tokenization::Sentences(m) && m.deep_view()
                    == spec_tokens(spec_postprocess(s)),
                InterpResult::Reject => r == Tokenization::NotInInputLanguage,
                InterpResult::Malformed => r == Tokenization::MalformedTransducer,
            },
    {
        self.inner.try_tokenize(text)
    }

    /// Sentence split and tokenize a paragraph of text, or nothing when the
    /// transducer rejects it.
    ///
    /// The paragraph should be on a single line.
    pub fn tokenize(&self, text: &str) -> (r: Option<Vec<Vec<String>>>)
        requires
            self.wf(),
            !(self.pipeline_of(text@) is Malformed),
        ensures
            match self.pipeline_of(text@) {
                InterpResult::Output(s) => r matches Some(m) && m.deep_view() == spec_tokens(
                    spec_postprocess(s),
                ),
                InterpResult::Reject => r is None,
                InterpResult::Malformed => false,
            },
    {
        self.inner.tokenize(text)
    }
}

} // verus!
