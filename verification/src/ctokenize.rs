//! The error type for driving an externally linked tokenizing transducer
//! through its C interface. The foreign calls themselves live in the
//! programs around this library; the library only defines how their
//! failures are reported.

use vstd::prelude::*;

use vstd::string::StringExecFns;

verus! {

/// Why a call into the externally linked tokenizer failed.
#[derive(Clone, Copy, Debug, Eq, PartialEq, Structural)]
pub enum TokenizeError {
    /// Could not allocate memory for tokenization output.
    AllocationError,
    /// The input contains the NUL character.
    InputContainsNul,
    /// The transducer returned a non-terminated string.
    NoStringTerminator,
    /// The string is not in the input language of the transducer.
    NotInInputLanguage,
}

impl TokenizeError {
    /// A human-readable description of the failure.
    pub fn message(&self) -> (m: String)
        ensures
            match self {
                TokenizeError::AllocationError => m@
                    == "could not allocate memory for output string"@,
                TokenizeError::InputContainsNul => m@
                    == "the input string contained a NUL character"@,
                TokenizeError::NoStringTerminator => m@
                    == "the transducer returned a non-terminated string"@,
                TokenizeError::NotInInputLanguage => m@
                    == "the input string is not in the input language of the transducer"@,
            },
    {
        match self {
            TokenizeError::AllocationError => String::from_str(
                "could not allocate memory for output string",
            ),
            TokenizeError::InputContainsNul => String::from_str(
                "the input string contained a NUL character",
            ),
            TokenizeError::NoStringTerminator => String::from_str(
                "the transducer returned a non-terminated string",
            ),
            TokenizeError::NotInInputLanguage => String::from_str(
                "the input string is not in the input language of the transducer",
            ),
        }
    }
}

} // verus!
