//! The dispatcher: one entry point that runs the decoding pass, then the
//! structural parse, then serialisation, and stops at the first failure.

use vstd::prelude::*;
use crate::charset::Charset;
use crate::decoder::{spec_decode_input, decode_input};
use crate::error::PipelineError;
use crate::parser::{spec_parse_to_json, parse_to_json};
use crate::serialize::{spec_serialize, to_json_string};

verus! {

/// The meaning of the whole pipeline: decode the raw input under the
/// selected charset, parse the text as JSON or as a form body, and
/// serialise the value; the first failure stops everything.
pub open spec fn spec_process_input(s: Seq<char>, charset: Charset) -> Result<
    Seq<char>,
    PipelineError,
> {
    match spec_decode_input(s, charset) {
        Ok(t) => match spec_parse_to_json(t) {
            Ok(m) => Ok(spec_serialize(m)),
            Err(e) => Err(e),
        },
        Err(e) => Err(e),
    }
}

/// Run the whole pipeline on a raw input string and return the canonical
/// text of the resulting JSON value.
pub fn process_input(input: &str, charset: Charset) -> (r: Result<String, PipelineError>)
    ensures
        match spec_process_input(input@, charset) {
            Ok(t) => r matches Ok(out) && out@ == t,
            Err(e) => r matches Err(got) && got == e,
        },
{
    match decode_input(input, charset) {
        Ok(text) => match parse_to_json(text.as_str()) {
            Ok(value) => Ok(to_json_string(&value)),
            Err(e) => Err(e),
        },
        Err(e) => Err(e),
    }
}

} // verus!
