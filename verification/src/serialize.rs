//! The canonical text of a JSON value: `null`, `true`/`false`, numbers by
//! their decimal text, strings quoted with the usual escapes, arrays and
//! objects with comma-separated members and no extra whitespace.

use vstd::prelude::*;
use crate::json::{Json, JsonValue, json_model, json_model_items, json_model_entries, lemma_json_model_items, lemma_json_model_entries};
use crate::text::{chars_vec, string_from_chars};

verus! {

broadcast use vstd::seq::axiom_seq_index_decreases, vstd::std_specs::vec::axiom_vec_index_decreases;

/// The lower-case hex digit character for `d`.
pub open spec fn hex_char_lower(d: u32) -> char
    recommends
        d <= 15,
{
    if d < 10 {
        ((48 + d) as u8) as char
    } else {
        ((87 + d) as u8) as char
    }
}

/// One character inside a JSON string literal: quote and backslash escaped,
/// the usual short escapes for the control characters that have one,
/// `\u00XX` for the other control characters, anything else as itself.
pub open spec fn spec_escape_char(c: char) -> Seq<char> {
    if c == '"' {
        seq!['\\', '"']
    } else if c == '\\' {
        seq!['\\', '\\']
    } else if c == '\u{08}' {
        seq!['\\', 'b']
    } else if c == '\u{09}' {
        seq!['\\', 't']
    } else if c == '\u{0a}' {
        seq!['\\', 'n']
    } else if c == '\u{0c}' {
        seq!['\\', 'f']
    } else if c == '\u{0d}' {
        seq!['\\', 'r']
    } else if (c as u32) < 32 {
        seq!['\\', 'u', '0', '0', hex_char_lower((c as u32) / 16), hex_char_lower((c as u32) % 16)]
    } else {
        seq![c]
    }
}

/// The escaped text of a string literal's characters from `i` on.
pub open spec fn spec_escape_string_from(text: Seq<char>, i: int) -> Seq<char>
    decreases text.len() - i,
{
    if i < 0 || i >= text.len() {
        Seq::empty()
    } else {
        spec_escape_char(text[i]) + spec_escape_string_from(text, i + 1)
    }
}

/// The canonical text of a JSON value.
pub open spec fn spec_serialize(m: Json) -> Seq<char>
    decreases m, 0int, 0int,
{
    match m {
        Json::Null => "null"@,
        Json::Bool { b } => if b {
            "true"@
        } else {
            "false"@
        },
        Json::Number { text } => text,
        Json::String { text } => seq!['"'] + spec_escape_string_from(text, 0) + seq!['"'],
        Json::Array { items } => seq!['['] + spec_serialize_items_from(items, 0) + seq![']'],
        Json::Object { entries } => seq!['{'] + spec_serialize_entries_from(entries, 0)
            + seq!['}'],
    }
}

/// The text of an array's items from `i` on, comma-separated.
pub open spec fn spec_serialize_items_from(items: Seq<Json>, i: int) -> Seq<char>
    decreases items, items.len() - i, 1int,
{
    if i < 0 || i >= items.len() {
        Seq::empty()
    } else {
        (if i > 0 {
            seq![',']
        } else {
            Seq::<char>::empty()
        }) + spec_serialize(items[i]) + spec_serialize_items_from(items, i + 1)
    }
}

/// The text of one object entry: quoted escaped key, colon, value.
pub open spec fn spec_serialize_entry(e: (Seq<char>, Json)) -> Seq<char>
    decreases e, 0int, 0int,
{
    seq!['"'] + spec_escape_string_from(e.0, 0) + seq!['"', ':'] + spec_serialize(e.1)
}

/// The text of an object's entries from `i` on, comma-separated.
pub open spec fn spec_serialize_entries_from(entries: Seq<(Seq<char>, Json)>, i: int) -> Seq<char>
    decreases entries, entries.len() - i, 1int,
{
    if i < 0 || i >= entries.len() {
        Seq::empty()
    } else {
        (if i > 0 {
            seq![',']
        } else {
            Seq::<char>::empty()
        }) + spec_serialize_entry(entries[i]) + spec_serialize_entries_from(entries, i + 1)
    }
}

/// Append the escaped form of `text` to `out`.
fn write_escaped(text: &str, out: &mut Vec<char>)
    ensures
        final(out)@ == old(out)@ + spec_escape_string_from(text@, 0),
{
    let ghost s = text@;
    let ghost out0 = old(out)@;
    let cs = chars_vec(text);
    let mut i: usize = 0;
    while i < cs.len()
        invariant
            cs@ == s,
            i <= cs.len(),
            out@ + spec_escape_string_from(s, i as int) == out0 + spec_escape_string_from(s, 0),
        decreases cs@.len() - i,
    {
        let ghost outp = out@;
        let c = cs[i];
        if c == '"' {
            out.push('\\');
            out.push('"');
        } else if c == '\\' {
            out.push('\\');
            out.push('\\');
        } else if c == '\u{08}' {
            out.push('\\');
            out.push('b');
        } else if c == '\u{09}' {
            out.push('\\');
            out.push('t');
        } else if c == '\u{0a}' {
            out.push('\\');
            out.push('n');
        } else if c == '\u{0c}' {
            out.push('\\');
            out.push('f');
        } else if c == '\u{0d}' {
            out.push('\\');
            out.push('r');
        } else if (c as u32) < 32 {
            out.push('\\');
            out.push('u');
            out.push('0');
            out.push('0');
            let d = c as u32;
            let hi = d / 16;
            let lo = d % 16;
            let hi_c = if hi < 10 {
                (48 + hi) as u8 as char
            } else {
                (87 + hi) as u8 as char
            };
            let lo_c = if lo < 10 {
                (48 + lo) as u8 as char
            } else {
                (87 + lo) as u8 as char
            };
            out.push(hi_c);
            out.push(lo_c);
            proof {
                assert(hi_c == hex_char_lower((s[i as int] as u32) / 16));
                assert(lo_c == hex_char_lower((s[i as int] as u32) % 16));
            }
        } else {
            out.push(c);
        }
        proof {
            assert(out@ =~= outp + spec_escape_char(s[i as int]));
            assert(outp + (spec_escape_char(s[i as int]) + spec_escape_string_from(
                s,
                i + 1,
            )) =~= out@ + spec_escape_string_from(s, i + 1));
        }
        i = i + 1;
    }
    proof {
        assert(out@ =~= out0 + spec_escape_string_from(s, 0));
    }
}

/// Append the canonical text of `v` to `out`.
fn write_json(v: &JsonValue, out: &mut Vec<char>)
    ensures
        final(out)@ == old(out)@ + spec_serialize(v@),
    decreases v,
{
    let ghost out0 = old(out)@;
    match v {
        JsonValue::Null => {
            out.push('n');
            out.push('u');
            out.push('l');
            out.push('l');
            proof {
                reveal_strlit("null");
                assert(out@ =~= out0 + "null"@);
            }
        },
        JsonValue::Bool(b) => {
            if *b {
                out.push('t');
                out.push('r');
                out.push('u');
                out.push('e');
                proof {
                    reveal_strlit("true");
                    assert(out@ =~= out0 + "true"@);
                }
            } else {
                out.push('f');
                out.push('a');
                out.push('l');
                out.push('s');
                out.push('e');
                proof {
                    reveal_strlit("false");
                    assert(out@ =~= out0 + "false"@);
                }
            }
        },
        JsonValue::Number(t) => {
            let mut tc = chars_vec(t.as_str());
            out.append(&mut tc);
        },
        JsonValue::String(t) => {
            out.push('"');
            write_escaped(t.as_str(), out);
            out.push('"');
            proof {
                assert(out@ =~= out0 + (seq!['"'] + spec_escape_string_from(t@, 0)
                    + seq!['"']));
            }
        },
        JsonValue::Array(items) => {
            let ghost m_items = json_model_items(*items, 0);
            proof {
                lemma_json_model_items(*items, 0);
            }
            out.push('[');
            let ghost out1 = out@;
            let mut j: usize = 0;
            while j < items.len()
                invariant
                    *v == JsonValue::Array(*items),
                    m_items == json_model_items(*items, 0),
                    m_items.len() == items.len(),
                    forall|t: int|
                        0 <= t < items.len() ==> #[trigger] m_items[t] == json_model(items[t]),
                    j <= items.len(),
                    out@ + spec_serialize_items_from(m_items, j as int) == out1
                        + spec_serialize_items_from(m_items, 0),
                decreases items@.len() - j,
            {
                let ghost outp = out@;
                if j > 0 {
                    out.push(',');
                }
                proof {
                    assert(*items == v->Array_0);
                    assert(decreases_to!(*v => v->Array_0));
                    assert(decreases_to!(*items => items[j as int]));
                    assert(decreases_to!(*v => items[j as int]));
                }
                write_json(&items[j], out);
                proof {
                    let sep: Seq<char> = if j > 0 {
                        seq![',']
                    } else {
                        Seq::<char>::empty()
                    };
                    assert(out@ =~= outp + sep + spec_serialize(m_items[j as int]));
                    assert(outp + (sep + spec_serialize(m_items[j as int])
                        + spec_serialize_items_from(m_items, j + 1)) =~= out@
                        + spec_serialize_items_from(m_items, j + 1));
                }
                j = j + 1;
            }
            out.push(']');
            proof {
                assert(out@ =~= out0 + (seq!['['] + spec_serialize_items_from(m_items, 0)
                    + seq![']']));
            }
        },
        JsonValue::Object(entries) => {
            let ghost m_entries = json_model_entries(*entries, 0);
            proof {
                lemma_json_model_entries(*entries, 0);
            }
            out.push('{');
            let ghost out1 = out@;
            let mut j: usize = 0;
            while j < entries.len()
                invariant
                    *v == JsonValue::Object(*entries),
                    m_entries == json_model_entries(*entries, 0),
                    m_entries.len() == entries.len(),
                    forall|t: int|
                        0 <= t < entries.len() ==> #[trigger] m_entries[t] == (
                        entries[t].0@,
                        json_model(entries[t].1),
                        ),
                    j <= entries.len(),
                    out@ + spec_serialize_entries_from(m_entries, j as int) == out1
                        + spec_serialize_entries_from(m_entries, 0),
                decreases entries@.len() - j,
            {
                let ghost outp = out@;
                if j > 0 {
                    out.push(',');
                }
                out.push('"');
                write_escaped(entries[j].0.as_str(), out);
                out.push('"');
                out.push(':');
                proof {
                    assert(*entries == v->Object_0);
                    assert(decreases_to!(*v => v->Object_0));
                    assert(decreases_to!(*entries => entries[j as int]));
                    assert(decreases_to!(entries[j as int] => entries[j as int].1));
                    assert(decreases_to!(*v => entries[j as int].1));
                }
                write_json(&entries[j].1, out);
                proof {
                    let sep: Seq<char> = if j > 0 {
                        seq![',']
                    } else {
                        Seq::<char>::empty()
                    };
                    assert(out@ =~= outp + sep + spec_serialize_entry(m_entries[j as int]));
                    assert(outp + (sep + spec_serialize_entry(m_entries[j as int])
                        + spec_serialize_entries_from(m_entries, j + 1)) =~= out@
                        + spec_serialize_entries_from(m_entries, j + 1));
                }
                j = j + 1;
            }
            out.push('}');
            proof {
                assert(out@ =~= out0 + (seq!['{'] + spec_serialize_entries_from(m_entries, 0)
                    + seq!['}']));
            }
        },
    }
}

/// The canonical text of a JSON value, as a string.
pub fn to_json_string(v: &JsonValue) -> (r: String)
    ensures
        r@ == spec_serialize(v@),
{
    let mut out: Vec<char> = Vec::new();
    write_json(v, &mut out);
    string_from_chars(&out)
}

} // verus!
