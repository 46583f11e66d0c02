//! The decoding half of the pipeline: percent-decode the raw input's bytes,
//! decode them to text under the selected charset, then resolve literal
//! `\xNN` escapes in the text.

use vstd::prelude::*;
use vstd::utf8::encode_utf8;
use vstd::string::StringSliceAdditionalSpecFns;
use crate::charset::{Charset, spec_charset_decode, charset_decode};
use crate::error::PipelineError;
use crate::escape::{spec_unescape, decode_escape_sequences};
use crate::percent::{spec_percent_decode, percent_decode_bytes};

verus! {

/// The meaning of the whole decoding pass on the characters of the raw
/// input: percent-decode its UTF-8 bytes, decode those under `charset`, then
/// resolve `\xNN` escapes; a charset failure stops everything.
pub open spec fn spec_decode_input(s: Seq<char>, charset: Charset) -> Result<
    Seq<char>,
    PipelineError,
> {
    match spec_charset_decode(spec_percent_decode(encode_utf8(s)), charset) {
        Ok(t) => Ok(spec_unescape(t)),
        Err(e) => Err(e),
    }
}

/// Decode a raw input string: percent-decoding, charset decoding under
/// `charset`, then escape-sequence decoding.
pub fn decode_input(input: &str, charset: Charset) -> (r: Result<String, PipelineError>)
    ensures
        match spec_decode_input(input@, charset) {
            Ok(t) => r matches Ok(out) && out@ == t,
            Err(e) => r matches Err(got) && got == e,
        },
{
    let bytes = input.as_bytes();
    proof {
        assert(bytes@ == encode_utf8(input@));
    }
    let percent_decoded = percent_decode_bytes(bytes);
    match charset_decode(&percent_decoded, charset) {
        Ok(text) => Ok(decode_escape_sequences(text.as_str())),
        Err(e) => Err(e),
    }
}

} // verus!
