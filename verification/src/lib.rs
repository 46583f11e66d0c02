//! Decoding pipeline for possibly percent-encoded, possibly legacy-charset
//! text, and a structural parser that interprets the decoded text as JSON or
//! as a form-encoded key/value body folded into a nested JSON value.

pub mod charset;
pub mod decoder;
pub mod error;
pub mod escape;
pub mod form;
pub mod hex;
pub mod json;
pub mod parser;
pub mod percent;
pub mod pipeline;
pub mod serialize;
pub mod text;

