//! The escape-sequence decoder: a second decoding pass that resolves literal
//! `\xNN` text (backslash, `x`, two hex digits, all as characters) into raw
//! bytes. Adjacent escapes are buffered and reinterpreted as UTF-8 in one
//! batch, since one multi-byte character may span several escapes; the batch
//! is flushed when a non-escape character or the end of input breaks the run.

use vstd::prelude::*;
use vstd::utf8::{valid_utf8, decode_utf8};
use crate::hex::{is_hex_digit, hex_digit_value, hex_pair_value, char_is_hex_digit, char_hex_value};
use crate::text::{chars_vec, string_from_chars};

verus! {

/// What `String::from_utf8_lossy` returns on bytes that are not valid UTF-8:
/// the text with each invalid sequence replaced. This crate does not spell
/// the replacement out; it relies on the same call wherever the value is
/// needed.
pub uninterp spec fn lossy_decoded(bytes: Seq<u8>) -> Seq<char>;

/// A pending run of escape bytes, reinterpreted as text: valid UTF-8 decodes
/// exactly, anything else decodes with replacement.
pub open spec fn spec_flush(pending: Seq<u8>) -> Seq<char> {
    if valid_utf8(pending) {
        decode_utf8(pending)
    } else {
        lossy_decoded(pending)
    }
}

/// Relies on String::from_utf8_lossy: bytes that form valid UTF-8 decode to
/// exactly their characters; invalid sequences are replaced.
#[verifier::external_body]
fn utf8_lossy(bytes: &Vec<u8>) -> (r: String)
    ensures
        valid_utf8(bytes@) ==> r@ == decode_utf8(bytes@),
        !valid_utf8(bytes@) ==> r@ == lossy_decoded(bytes@),
{
    String::from_utf8_lossy(bytes.as_slice()).into_owned()
}

/// Whether position `i` of `s` starts a `\x` escape.
pub open spec fn escape_starts_at(s: Seq<char>, i: int) -> bool {
    0 <= i && i + 1 < s.len() && s[i] == '\\' && s[i + 1] == 'x'
}

/// The meaning of the escape decoding pass from position `i` on, with the
/// bytes of the escape run seen so far still pending.
///
/// A `\x` with two following hex digits adds their byte to the pending run.
/// A `\x` with two following characters that are not both hex digits emits
/// `\x` and both characters verbatim, consuming them, and keeps the pending
/// run pending. A `\x` cut short by the end of input emits `\x` plus the one
/// following character, if any. Any other character first flushes the
/// pending run as UTF-8 text, then stands as itself.
pub open spec fn spec_unescape_from(s: Seq<char>, i: int, pending: Seq<u8>) -> Seq<char>
    decreases s.len() - i,
{
    if i < 0 || i >= s.len() {
        spec_flush(pending)
    } else if escape_starts_at(s, i) {
        if i + 3 < s.len() {
            if is_hex_digit(s[i + 2]) && is_hex_digit(s[i + 3]) {
                spec_unescape_from(s, i + 4, pending.push(hex_pair_value(s[i + 2], s[i + 3])))
            } else {
                seq!['\\', 'x', s[i + 2], s[i + 3]] + spec_unescape_from(s, i + 4, pending)
            }
        } else if i + 2 < s.len() {
            seq!['\\', 'x', s[i + 2]] + spec_unescape_from(s, i + 3, pending)
        } else {
            seq!['\\', 'x'] + spec_unescape_from(s, i + 2, pending)
        }
    } else {
        spec_flush(pending) + seq![s[i]] + spec_unescape_from(s, i + 1, Seq::empty())
    }
}

/// The meaning of the whole escape decoding pass.
pub open spec fn spec_unescape(s: Seq<char>) -> Seq<char> {
    spec_unescape_from(s, 0, Seq::empty())
}

/// Resolve literal `\xNN` escapes in `input` into bytes, reinterpreting each
/// maximal run of escape bytes as UTF-8 text; `\x` followed by anything but
/// two hex digits is kept verbatim.
pub fn decode_escape_sequences(input: &str) -> (r: String)
    ensures
        r@ == spec_unescape(input@),
{
    let ghost s = input@;
    let cs = chars_vec(input);
    let n = cs.len();
    let mut out: Vec<char> = Vec::new();
    let mut pending: Vec<u8> = Vec::new();
    let mut i: usize = 0;
    while i < n
        invariant
            cs@ == s,
            s == input@,
            n == cs.len(),
            i <= n,
            spec_unescape(s) == out@ + spec_unescape_from(s, i as int, pending@),
        decreases n - i,
    {
        let ghost out0 = out@;
        let ghost p0 = pending@;
        let ghost i0 = i as int;
        let c = cs[i];
        if c == '\\' && i + 1 < n && cs[i + 1] == 'x' {
            if n - i > 3 {
                let h1 = cs[i + 2];
                let h2 = cs[i + 3];
                if char_is_hex_digit(h1) && char_is_hex_digit(h2) {
                    proof {
                        lemma_hex_digit_value_bound(h1);
                        lemma_hex_digit_value_bound(h2);
                    }
                    let b = char_hex_value(h1) * 16 + char_hex_value(h2);
                    pending.push(b);
                    proof {
                        assert(pending@ == p0.push(hex_pair_value(s[i0 + 2], s[i0 + 3])));
                        assert(spec_unescape_from(s, i0, p0) == spec_unescape_from(
                            s,
                            i0 + 4,
                            pending@,
                        ));
                    }
                } else {
                    out.push('\\');
                    out.push('x');
                    out.push(h1);
                    out.push(h2);
                    proof {
                        assert(out@ =~= out0 + seq!['\\', 'x', s[i0 + 2], s[i0 + 3]]);
                        assert(out0 + spec_unescape_from(s, i0, p0) =~= out@
                            + spec_unescape_from(s, i0 + 4, pending@));
                    }
                }
                i = i + 4;
            } else if n - i > 2 {
                let h1 = cs[i + 2];
                out.push('\\');
                out.push('x');
                out.push(h1);
                proof {
                    assert(out@ =~= out0 + seq!['\\', 'x', s[i0 + 2]]);
                    assert(out0 + spec_unescape_from(s, i0, p0) =~= out@ + spec_unescape_from(
                        s,
                        i0 + 3,
                        pending@,
                    ));
                }
                i = i + 3;
            } else {
                out.push('\\');
                out.push('x');
                proof {
                    assert(out@ =~= out0 + seq!['\\', 'x']);
                    assert(out0 + spec_unescape_from(s, i0, p0) =~= out@ + spec_unescape_from(
                        s,
                        i0 + 2,
                        pending@,
                    ));
                }
                i = i + 2;
            }
        } else {
            proof {
                assert(!escape_starts_at(s, i0));
            }
            if pending.len() > 0 {
                let text = utf8_lossy(&pending);
                let mut flushed = chars_vec(text.as_str());
                proof {
                    assert(flushed@ == spec_flush(p0));
                }
                out.append(&mut flushed);
                pending.clear();
            } else {
                proof {
                    lemma_flush_empty();
                    assert(p0 =~= Seq::<u8>::empty());
                }
            }
            out.push(c);
            proof {
                assert(spec_unescape_from(s, i0, p0) == spec_flush(p0) + seq![s[i0]]
                    + spec_unescape_from(s, i0 + 1, Seq::empty()));
                assert(out@ =~= out0 + spec_flush(p0) + seq![s[i0]]);
                assert(pending@ =~= Seq::<u8>::empty());
                assert(out0 + spec_unescape_from(s, i0, p0) =~= out@ + spec_unescape_from(
                    s,
                    i0 + 1,
                    pending@,
                ));
            }
            i = i + 1;
        }
    }
    if pending.len() > 0 {
        let text = utf8_lossy(&pending);
        let mut flushed = chars_vec(text.as_str());
        out.append(&mut flushed);
    } else {
        proof {
            lemma_flush_empty();
        }
    }
    proof {
        assert(spec_unescape(s) == out@);
    }
    string_from_chars(&out)
}

/// The value of a hex digit is at most 15.
proof fn lemma_hex_digit_value_bound(c: char)
    requires
        is_hex_digit(c),
    ensures
        hex_digit_value(c) <= 15,
{
}

/// Flushing an empty pending run adds nothing.
proof fn lemma_flush_empty()
    ensures
        spec_flush(Seq::<u8>::empty()) == Seq::<char>::empty(),
{
    assert(valid_utf8(Seq::<u8>::empty()));
    assert(decode_utf8(Seq::<u8>::empty()) =~= Seq::<char>::empty());
}

/// No position of `s` starts a `\x` escape.
pub open spec fn has_no_escape(s: Seq<char>) -> bool {
    forall|i: int| !escape_starts_at(s, i)
}

proof fn lemma_unescape_from_no_escape(s: Seq<char>, i: int)
    requires
        0 <= i <= s.len(),
        has_no_escape(s),
    ensures
        spec_unescape_from(s, i, Seq::empty()) == s.skip(i),
    decreases s.len() - i,
{
    lemma_flush_empty();
    if i < s.len() {
        assert(!escape_starts_at(s, i));
        lemma_unescape_from_no_escape(s, i + 1);
        assert(spec_unescape_from(s, i, Seq::empty()) =~= s.skip(i));
    } else {
        assert(s.skip(i) =~= Seq::<char>::empty());
    }
}

/// On text with no `\x` sequence, escape decoding changes nothing, and doing
/// it twice is the same as doing it once.
pub proof fn lemma_unescape_identity_no_escape(s: Seq<char>)
    requires
        has_no_escape(s),
    ensures
        spec_unescape(s) == s,
        spec_unescape(spec_unescape(s)) == spec_unescape(s),
{
    lemma_unescape_from_no_escape(s, 0);
    assert(s.skip(0) =~= s);
}

/// Position `j` of a pure escape run holds the character its place asks for:
/// `\`, then `x`, then two hex digits, over and over.
pub open spec fn escape_run_char_ok(s: Seq<char>, j: int) -> bool {
    if j % 4 == 0 {
        s[j] == '\\'
    } else if j % 4 == 1 {
        s[j] == 'x'
    } else {
        is_hex_digit(s[j])
    }
}

/// `s` is a run of `\x` escapes with two hex digits each and nothing in
/// between.
pub open spec fn is_escape_run(s: Seq<char>) -> bool {
    &&& s.len() % 4 == 0
    &&& forall|j: int| 0 <= j < s.len() ==> #[trigger] escape_run_char_ok(s, j)
}

/// The bytes written by a run of `\x` escapes, in order.
pub open spec fn escape_run_bytes(s: Seq<char>) -> Seq<u8> {
    Seq::new((s.len() / 4) as nat, |k: int| hex_pair_value(s[4 * k + 2], s[4 * k + 3]))
}

proof fn lemma_unescape_run_from(s: Seq<char>, i: int, pending: Seq<u8>)
    requires
        is_escape_run(s),
        0 <= i <= s.len(),
        i % 4 == 0,
    ensures
        spec_unescape_from(s, i, pending) == spec_flush(
            pending + escape_run_bytes(s).skip(i / 4),
        ),
    decreases s.len() - i,
{
    if i == s.len() {
        assert(pending + escape_run_bytes(s).skip(i / 4) =~= pending);
    } else {
        assert(i + 4 <= s.len());
        assert(escape_run_char_ok(s, i));
        assert(escape_run_char_ok(s, i + 1));
        assert(escape_run_char_ok(s, i + 2));
        assert(escape_run_char_ok(s, i + 3));
        assert(s[i] == '\\' && s[i + 1] == 'x');
        assert(is_hex_digit(s[i + 2]) && is_hex_digit(s[i + 3]));
        let b = hex_pair_value(s[i + 2], s[i + 3]);
        lemma_unescape_run_from(s, i + 4, pending.push(b));
        assert(escape_run_bytes(s)[i / 4] == b);
        assert(pending.push(b) + escape_run_bytes(s).skip(i / 4 + 1) =~= pending
            + escape_run_bytes(s).skip(i / 4));
    }
}

/// On a run of two-hex-digit escapes, escape decoding yields the bytes the
/// escapes write, read back as UTF-8 text in one batch; when those bytes form
/// valid UTF-8, that is exactly their UTF-8 decoding.
pub proof fn lemma_unescape_escape_run(s: Seq<char>)
    requires
        is_escape_run(s),
    ensures
        spec_unescape(s) == spec_flush(escape_run_bytes(s)),
        valid_utf8(escape_run_bytes(s)) ==> spec_unescape(s) == decode_utf8(
            escape_run_bytes(s),
        ),
{
    lemma_unescape_run_from(s, 0, Seq::empty());
    assert(Seq::<u8>::empty() + escape_run_bytes(s).skip(0) =~= escape_run_bytes(s));
}

} // verus!
