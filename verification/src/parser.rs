//! The structural parser: text is first tried under the standard JSON
//! grammar and, when it succeeds, taken as it stands; any other text is read
//! as a form-encoded body, split into `key=value` pairs, and folded into one
//! JSON object by the key-path inserter.

use vstd::prelude::*;
use crate::error::PipelineError;
use crate::form::{spec_fold_pairs, spec_fold_pairs_from, insert_into_json_map};
use crate::json::{Json, JsonValue, json_model_entries, lemma_json_model_entries};

verus! {

#[verifier::external_type_specification]
#[verifier::external_body]
pub struct ExSerdeValue(serde_json::Value);

/// What parsing text under the standard JSON grammar returns: `None` where
/// the text is not valid JSON, else the shape of the parsed value.
pub uninterp spec fn json_parsed(s: Seq<char>) -> Option<Json>;

/// The shape held by a parsed serde_json value.
pub uninterp spec fn serde_json_shape(v: serde_json::Value) -> Json;

/// Relies on serde_json::from_str::<Value>: whether the text parses, and
/// what it parses to, depend on the text alone.
#[verifier::external_body]
fn json_from_str(input: &str) -> (r: Option<serde_json::Value>)
    ensures
        r is Some <==> json_parsed(input@) is Some,
        r matches Some(v) ==> serde_json_shape(v) == json_parsed(input@)->0,
{
    serde_json::from_str::<serde_json::Value>(input).ok()
}

/// Relies on serde_json::Value's variants: each one is carried over to the
/// crate's own value tree, one arm each, numbers by their decimal text
/// (serde_json::Number::to_string).
#[verifier::external_body]
fn from_serde(v: serde_json::Value) -> (r: JsonValue)
    ensures
        r@ == serde_json_shape(v),
{
    match v {
        serde_json::Value::Null => JsonValue::Null,
        serde_json::Value::Bool(b) => JsonValue::Bool(b),
        serde_json::Value::Number(n) => JsonValue::Number(n.to_string()),
        serde_json::Value::String(s) => JsonValue::String(s),
        serde_json::Value::Array(a) => JsonValue::Array(a.into_iter().map(from_serde).collect()),
        serde_json::Value::Object(o) => JsonValue::Object(
            o.into_iter().map(|(k, w)| (k, from_serde(w))).collect(),
        ),
    }
}

/// What splitting a form-encoded body into decoded key/value pairs returns.
pub uninterp spec fn form_parsed(s: Seq<char>) -> Seq<(Seq<char>, Seq<char>)>;

/// Relies on url::form_urlencoded::parse: splits the body on `&` (empty
/// chunks are skipped) and each chunk on its first `=` (a chunk without `=`
/// gets an empty value), then decodes `+` and percent escapes in keys and
/// values as UTF-8.
#[verifier::external_body]
fn form_pairs(input: &str) -> (r: Vec<(String, String)>)
    ensures
        r@.len() == form_parsed(input@).len(),
        forall|i: int|
            0 <= i < r@.len() ==> (#[trigger] r@[i]).0@ == form_parsed(input@)[i].0 && r@[i].1@
                == form_parsed(input@)[i].1,
{
    url::form_urlencoded::parse(input.as_bytes()).into_owned().collect()
}

/// The meaning of the structural parse: JSON text is taken as it stands; any
/// other text is read as form pairs and folded into one object; a
/// multi-level bracket key is the one fault.
pub open spec fn spec_parse_to_json(s: Seq<char>) -> Result<Json, PipelineError> {
    match json_parsed(s) {
        Some(m) => Ok(m),
        None => match spec_fold_pairs(form_parsed(s)) {
            Some(es) => Ok(Json::Object { entries: es }),
            None => Err(PipelineError::KeyFormatFault),
        },
    }
}

/// Parse text as JSON, or fall back to form decoding folded into an object.
pub fn parse_to_json(input: &str) -> (r: Result<JsonValue, PipelineError>)
    ensures
        match spec_parse_to_json(input@) {
            Ok(m) => r matches Ok(v) && v@ == m,
            Err(e) => r matches Err(got) && got == e,
        },
{
    match json_from_str(input) {
        Some(v) => Ok(from_serde(v)),
        None => {
            let pairs = form_pairs(input);
            let ghost ps = form_parsed(input@);
            let mut entries: Vec<(String, JsonValue)> = Vec::new();
            proof {
                lemma_json_model_entries(entries, 0);
                assert(json_model_entries(entries, 0) =~= Seq::<(Seq<char>, Json)>::empty());
            }
            let mut i: usize = 0;
            while i < pairs.len()
        invariant
                    json_parsed(input@) is None,
                    ps == form_parsed(input@),
                    pairs@.len() == ps.len(),
                    forall|t: int|
                        0 <= t < ps.len() ==> (#[trigger] pairs@[t]).0@ == ps[t].0
                            && pairs@[t].1@ == ps[t].1,
                    i <= pairs.len(),
                    spec_fold_pairs(ps) == spec_fold_pairs_from(
                        ps,
                        i as int,
                        json_model_entries(entries, 0),
                    ),
                decreases pairs@.len() - i,
            {
                let key_ref = &pairs[i].0;
                let value_ref = &pairs[i].1;
                match insert_into_json_map(&mut entries, key_ref.as_str(), value_ref.as_str()) {
                    Ok(_) => {},
                    Err(e) => {
                        proof {
                            assert(spec_fold_pairs_from(
                                ps,
                                i as int,
                                json_model_entries(entries, 0),
                            ) is None);
                            assert(spec_fold_pairs(ps) is None);
                        }
                        return Err(e);
                    },
                }
                i = i + 1;
            }
            Ok(JsonValue::Object(entries))
        },
    }
}

} // verus!
