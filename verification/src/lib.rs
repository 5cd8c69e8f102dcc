//! Sentence splitting and tokenization of Dutch text with a finite-state
//! transducer, following the conventions of the Alpino parser.
//!
//! The transducer is loaded from a compact persisted form (a sequence of
//! length-delimited records); the interpreter runs its sorted transition
//! table over the input characters and emits a raw output string in which
//! `\n` separates sentences and single spaces separate tokens. A small
//! pipeline of text rewriters works around systematic weaknesses of the
//! transducer (enumerations, parentheses, quote-adjacent hyphens,
//! dash-bracketed parentheticals, newswire datelines).

mod alpino;
mod chars;
mod ctokenize;
mod fst;
mod postproc;
mod preproc;
mod proto;
pub mod rewrite;
mod small_string;
mod tokenizer;
mod util;

pub use alpino::AlpinoTokenizer;
pub use chars::is_digit_char;
pub use chars::is_letter_char;
pub use chars::is_space_char;
pub use chars::is_upper_char;
pub use chars::is_word_char;
pub use ctokenize::TokenizeError;
pub use fst::interp_from;
pub use fst::interpret_then;
pub use fst::lemma_interpret_fresh_state;
pub use fst::lemma_interpreter_output_bounded;
pub use fst::outputs_bounded;
pub use fst::prepend_output;
pub use fst::scan_edges;
pub use fst::spec_interpret;
pub use fst::subst_out;
pub use fst::symbol_set;
pub use fst::table_wf;
pub use fst::FiniteStateTokenizer;
pub use fst::InterpResult;
pub use fst::RawOutcome;
pub use fst::TransData;
pub use postproc::dash_match_at;
pub use postproc::lemma_postprocess_identity;
pub use postproc::marker_match_at;
pub use postproc::news_match_at;
pub use postproc::paren_match_at;
pub use postproc::postprocess;
pub use postproc::quote_match_at;
pub use postproc::spec_fix_dashes;
pub use postproc::spec_fix_news;
pub use postproc::spec_fix_parens;
pub use postproc::spec_fix_quotes;
pub use postproc::spec_postprocess;
pub use postproc::spec_remove_markers;
pub use preproc::dec_digits;
pub use preproc::enum_round_match_at;
pub use preproc::enum_start_match_at;
pub use preproc::lemma_preprocess_idempotent;
pub use preproc::lemma_preprocess_no_head_identity;
pub use preproc::mark_rounds;
pub use preproc::preprocess;
pub use preproc::spec_preprocess;
pub use proto::spec_decode;
pub use small_string::SmallString;
pub use tokenizer::lemma_accepted_input_yields_sentences;
pub use tokenizer::Tokenization;
pub use tokenizer::Tokenizer;
pub use tokenizer::TokenizerError;
pub use util::spec_tokens;
pub use util::split_on;
pub use util::str_to_tokens;
