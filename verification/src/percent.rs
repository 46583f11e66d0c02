//! Percent decoding: every well-formed `%` triplet (`%` followed by two hex
//! digits) becomes the byte the digits write; every other byte passes through
//! unchanged. The stage works on bytes alone; charset interpretation comes
//! later.

use vstd::prelude::*;
use crate::hex::{is_hex_byte, hex_byte_pair_value};

verus! {

/// The meaning of percent-decoding a byte sequence: a `%` followed by two hex
/// digits yields the byte they write; a `%` not followed by two hex digits,
/// and every other byte, is kept as it stands.
pub open spec fn spec_percent_decode(s: Seq<u8>) -> Seq<u8>
    decreases s.len(),
{
    if s.len() == 0 {
        Seq::empty()
    } else if s[0] == 37u8 && s.len() >= 3 && is_hex_byte(s[1]) && is_hex_byte(s[2]) {
        seq![hex_byte_pair_value(s[1], s[2])] + spec_percent_decode(s.skip(3))
    } else {
        seq![s[0]] + spec_percent_decode(s.skip(1))
    }
}

/// Relies on percent_encoding::percent_decode: each `%` followed by two hex
/// digits (upper or lower case) is replaced by the byte they write; a `%` not
/// followed by two hex digits is passed through, and the bytes after it are
/// examined in their own right.
#[verifier::external_body]
fn percent_decode_call(input: &[u8]) -> (r: Vec<u8>)
    ensures
        r@ == spec_percent_decode(input@),
{
    percent_encoding::percent_decode(input).collect()
}

/// Percent-decode a byte sequence.
pub fn percent_decode_bytes(input: &[u8]) -> (r: Vec<u8>)
    ensures
        r@ == spec_percent_decode(input@),
{
    percent_decode_call(input)
}

/// On a byte sequence holding no `%`, percent-decoding is the identity.
pub proof fn lemma_percent_decode_identity(s: Seq<u8>)
    requires
        forall|i: int| 0 <= i < s.len() ==> s[i] != 37u8,
    ensures
        spec_percent_decode(s) == s,
    decreases s.len(),
{
    if s.len() == 0 {
        assert(spec_percent_decode(s) =~= s);
    } else {
        lemma_percent_decode_identity(s.skip(1));
        assert(spec_percent_decode(s) =~= s);
    }
}

} // verus!
