//! The pipeline's single error type. Decoding either runs to completion or
//! stops at the first failure; these are the failures that reach the caller.

use vstd::prelude::*;
use crate::charset::Charset;

verus! {

/// A failure of the pipeline.
#[derive(Debug, Clone, Copy, PartialEq, Eq, Structural)]
pub enum PipelineError {
    /// The selected charset could not validly decode the byte sequence.
    CharsetDecodeError { charset: Charset },
    /// A form key splits into more than two bracket segments; the whole
    /// parse stops rather than guessing at deeper nesting.
    KeyFormatFault,
}

/// The text of an error, for callers that print it.
pub open spec fn spec_error_message(e: PipelineError) -> Seq<char> {
    match e {
        PipelineError::CharsetDecodeError { charset } => match charset {
            Charset::Utf8 => "UTF-8 decoding error"@,
            Charset::EucKr => "EUC-KR decoding error"@,
            Charset::Latin1 => "Latin-1 decoding error"@,
        },
        PipelineError::KeyFormatFault => "unexpected key format"@,
    }
}

impl PipelineError {
    /// A short description of the error.
    pub fn message(&self) -> (r: String)
        ensures
            r@ == spec_error_message(*self),
    {
        match self {
            PipelineError::CharsetDecodeError { charset } => match charset {
                Charset::Utf8 => "UTF-8 decoding error".to_owned(),
                Charset::EucKr => "EUC-KR decoding error".to_owned(),
                Charset::Latin1 => "Latin-1 decoding error".to_owned(),
            },
            PipelineError::KeyFormatFault => "unexpected key format".to_owned(),
        }
    }
}

} // verus!
