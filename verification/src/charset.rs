//! Charset selection and byte-to-text decoding. UTF-8 and EUC-KR decoding is
//! validated and fails on unmappable byte sequences; the Latin-1 family
//! fallback maps every byte, so that path never fails. Each decode is a
//! function of the bytes alone, named here and carried out by encoding_rs.

use vstd::prelude::*;
use crate::error::PipelineError;

verus! {

/// The charset a caller selects, once per invocation.
#[derive(Debug, Clone, Copy, PartialEq, Eq, Structural)]
pub enum Charset {
    Utf8,
    EucKr,
    Latin1,
}

/// What decoding bytes as UTF-8 (with byte-order-mark handling) returns:
/// `None` where some byte sequence cannot be mapped.
pub uninterp spec fn utf8_decoded(bytes: Seq<u8>) -> Option<Seq<char>>;

/// What decoding bytes as EUC-KR returns: `None` where some byte sequence
/// cannot be mapped.
pub uninterp spec fn euc_kr_decoded(bytes: Seq<u8>) -> Option<Seq<char>>;

/// What decoding bytes with the Latin-1 family fallback (windows-1252)
/// returns; this decode is total.
pub uninterp spec fn latin1_decoded(bytes: Seq<u8>) -> Seq<char>;

/// Relies on encoding_rs::UTF_8.decode: the result is a function of the
/// bytes alone; the error flag reports bytes that could not be mapped.
#[verifier::external_body]
fn decode_utf8_call(bytes: &Vec<u8>) -> (r: Option<String>)
    ensures
        r is Some <==> utf8_decoded(bytes@) is Some,
        r matches Some(t) ==> t@ == utf8_decoded(bytes@)->0,
{
    let (text, _, had_errors) = encoding_rs::UTF_8.decode(bytes.as_slice());
    if had_errors {
        None
    } else {
        Some(text.into_owned())
    }
}

/// Relies on encoding_rs::EUC_KR.decode: the result is a function of the
/// bytes alone; the error flag reports bytes that could not be mapped.
#[verifier::external_body]
fn decode_euc_kr_call(bytes: &Vec<u8>) -> (r: Option<String>)
    ensures
        r is Some <==> euc_kr_decoded(bytes@) is Some,
        r matches Some(t) ==> t@ == euc_kr_decoded(bytes@)->0,
{
    let (text, _, had_errors) = encoding_rs::EUC_KR.decode(bytes.as_slice());
    if had_errors {
        None
    } else {
        Some(text.into_owned())
    }
}

/// Relies on encoding_rs::WINDOWS_1252.decode: a single-byte charset of the
/// Latin-1 family maps every byte to a character, so the lenient fallback
/// path keeps whatever text comes back and never fails.
#[verifier::external_body]
fn decode_latin1_call(bytes: &Vec<u8>) -> (r: String)
    ensures
        r@ == latin1_decoded(bytes@),
{
    let (text, _, _) = encoding_rs::WINDOWS_1252.decode(bytes.as_slice());
    text.into_owned()
}

/// The meaning of decoding `bytes` under `charset`: validated for UTF-8 and
/// EUC-KR, total for the Latin-1 fallback.
pub open spec fn spec_charset_decode(bytes: Seq<u8>, charset: Charset) -> Result<
    Seq<char>,
    PipelineError,
> {
    match charset {
        Charset::Utf8 => match utf8_decoded(bytes) {
            Some(t) => Ok(t),
            None => Err(PipelineError::CharsetDecodeError { charset }),
        },
        Charset::EucKr => match euc_kr_decoded(bytes) {
            Some(t) => Ok(t),
            None => Err(PipelineError::CharsetDecodeError { charset }),
        },
        Charset::Latin1 => Ok(latin1_decoded(bytes)),
    }
}

/// Decode `bytes` to text under the selected charset.
pub fn charset_decode(bytes: &Vec<u8>, charset: Charset) -> (r: Result<String, PipelineError>)
    ensures
        match spec_charset_decode(bytes@, charset) {
            Ok(t) => r matches Ok(out) && out@ == t,
            Err(e) => r matches Err(got) && got == e,
        },
{
    match charset {
        Charset::Utf8 => match decode_utf8_call(bytes) {
            Some(text) => Ok(text),
            None => Err(PipelineError::CharsetDecodeError { charset: Charset::Utf8 }),
        },
        Charset::EucKr => match decode_euc_kr_call(bytes) {
            Some(text) => Ok(text),
            None => Err(PipelineError::CharsetDecodeError { charset: Charset::EucKr }),
        },
        Charset::Latin1 => Ok(decode_latin1_call(bytes)),
    }
}

} // verus!
