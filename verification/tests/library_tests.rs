use formjson::charset::Charset;
use formjson::decoder::decode_input;
use formjson::error::PipelineError;
use formjson::escape::decode_escape_sequences;
use formjson::json::JsonValue;
use formjson::parser::parse_to_json;
use formjson::percent::percent_decode_bytes;
use formjson::pipeline::process_input;
use formjson::serialize::to_json_string;

fn s(text: &str) -> String {
    String::from(text)
}

#[test]
fn test_percent_decode_identity_without_percent() {
    let input = "hello world, nothing encoded here!";
    let decoded = percent_decode_bytes(input.as_bytes());
    assert_eq!(decoded, input.as_bytes().to_vec());
}

#[test]
fn test_escape_run_decodes_as_utf8_batch() {
    assert_eq!(decode_escape_sequences("\\x48\\x65\\x6C\\x6C\\x6F"), "Hello");
}

#[test]
fn test_escape_run_multibyte_character() {
    // Three escapes carrying the UTF-8 bytes of one Hangul syllable.
    assert_eq!(decode_escape_sequences("\\xEC\\x95\\x88"), "안");
}

#[test]
fn test_escape_decode_identity_and_idempotence() {
    let input = "plain text, no escapes";
    let once = decode_escape_sequences(input);
    assert_eq!(once, input);
    let twice = decode_escape_sequences(&once);
    assert_eq!(twice, once);
}

#[test]
fn test_truncated_escape_preserved() {
    assert_eq!(decode_escape_sequences("hello\\x6"), "hello\\x6");
}

#[test]
fn test_bare_trailing_escape_preserved() {
    assert_eq!(decode_escape_sequences("hello\\x"), "hello\\x");
}

#[test]
fn test_invalid_hex_pair_preserved() {
    assert_eq!(decode_escape_sequences("hello\\xGG"), "hello\\xGG");
}

#[test]
fn test_invalid_pair_does_not_flush_pending_run() {
    // An invalid pair is emitted verbatim without breaking the byte run
    // around it, so the run's text lands after the literal.
    assert_eq!(decode_escape_sequences("\\x41\\xGG\\x42"), "\\xGGAB");
}

#[test]
fn test_truncated_escape_then_final_flush() {
    // The truncated escape is written first; the pending byte run is
    // flushed at end of input.
    assert_eq!(decode_escape_sequences("\\x41\\x6"), "\\x6A");
}

#[test]
fn test_invalid_escape_byte_uses_replacement() {
    // 0xFF alone is not valid UTF-8, so the flushed batch decodes with the
    // replacement character.
    assert_eq!(decode_escape_sequences("\\xFF"), "\u{FFFD}");
}

#[test]
fn test_invalid_euc_kr_is_charset_error() {
    let result = decode_input("%FF%FF", Charset::EucKr);
    assert_eq!(
        result,
        Err(PipelineError::CharsetDecodeError { charset: Charset::EucKr })
    );
}

#[test]
fn test_invalid_utf8_is_charset_error() {
    let result = decode_input("%FF", Charset::Utf8);
    assert_eq!(
        result,
        Err(PipelineError::CharsetDecodeError { charset: Charset::Utf8 })
    );
}

#[test]
fn test_latin1_never_fails() {
    let result = decode_input("%FF", Charset::Latin1).unwrap();
    assert_eq!(result, "ÿ");
}

#[test]
fn test_error_message_text() {
    let e = PipelineError::CharsetDecodeError { charset: Charset::EucKr };
    assert_eq!(e.message(), "EUC-KR decoding error");
    assert_eq!(PipelineError::KeyFormatFault.message(), "unexpected key format");
}

#[test]
fn test_plain_key_overwrites() {
    let result = parse_to_json("a=1&a=2").unwrap();
    let expected = JsonValue::Object(vec![(s("a"), JsonValue::String(s("2")))]);
    assert_eq!(result, expected);
}

#[test]
fn test_type_conflict_first_write_wins() {
    // `a` is first written as a plain string; the later array push finds the
    // wrong shape and is dropped.
    let result = parse_to_json("a=1&a[]=2").unwrap();
    let expected = JsonValue::Object(vec![(s("a"), JsonValue::String(s("1")))]);
    assert_eq!(result, expected);

    // Likewise for a nested-object write against an array.
    let result = parse_to_json("b[]=1&b[c]=2").unwrap();
    let expected = JsonValue::Object(vec![(
        s("b"),
        JsonValue::Array(vec![JsonValue::String(s("1"))]),
    )]);
    assert_eq!(result, expected);
}

#[test]
fn test_sub_key_overwrites_in_nested_object() {
    let result = parse_to_json("m[k]=1&m[k]=2&m[l]=3").unwrap();
    let expected = JsonValue::Object(vec![(
        s("m"),
        JsonValue::Object(vec![
            (s("k"), JsonValue::String(s("2"))),
            (s("l"), JsonValue::String(s("3"))),
        ]),
    )]);
    assert_eq!(result, expected);
}

#[test]
fn test_serialize_form_object() {
    let value = JsonValue::Object(vec![
        (s("key1"), JsonValue::String(s("value1"))),
        (
            s("arr"),
            JsonValue::Array(vec![
                JsonValue::String(s("item1")),
                JsonValue::String(s("item2")),
            ]),
        ),
    ]);
    assert_eq!(
        to_json_string(&value),
        r#"{"key1":"value1","arr":["item1","item2"]}"#
    );
}

#[test]
fn test_serialize_scalars() {
    assert_eq!(to_json_string(&JsonValue::Null), "null");
    assert_eq!(to_json_string(&JsonValue::Bool(true)), "true");
    assert_eq!(to_json_string(&JsonValue::Bool(false)), "false");
    assert_eq!(to_json_string(&JsonValue::Number(s("42"))), "42");
    assert_eq!(to_json_string(&JsonValue::Array(vec![])), "[]");
    assert_eq!(to_json_string(&JsonValue::Object(vec![])), "{}");
}

#[test]
fn test_serialize_string_escapes() {
    let value = JsonValue::String(s("a\"b\\c\nd\u{1}"));
    assert_eq!(to_json_string(&value), "\"a\\\"b\\\\c\\nd\\u0001\"");
}

#[test]
fn test_serialize_matches_serde_json() {
    // The canonical text of a parsed JSON value is the text serde_json
    // prints for it.
    let input = r#"{"key":"value","nested":{"array":[1,2,3]}}"#;
    let value = parse_to_json(input).unwrap();
    let expected = serde_json::to_string(&serde_json::from_str::<serde_json::Value>(input).unwrap())
        .unwrap();
    assert_eq!(to_json_string(&value), expected);
}

#[test]
fn test_json_with_bracket_keys_is_left_alone() {
    // Valid JSON is returned as parsed, even where its keys look like form
    // key paths.
    let result = parse_to_json(r#"{"a[]":"x"}"#).unwrap();
    let expected = JsonValue::Object(vec![(s("a[]"), JsonValue::String(s("x")))]);
    assert_eq!(result, expected);
}

#[test]
fn test_open_bracket_without_close_is_array_push() {
    // `a[` splits into main key `a` and an empty sub key, so it appends to
    // an array just as `a[]` does.
    let result = parse_to_json("a[=1").unwrap();
    let expected = JsonValue::Object(vec![(
        s("a"),
        JsonValue::Array(vec![JsonValue::String(s("1"))]),
    )]);
    assert_eq!(result, expected);
}

#[test]
fn test_empty_input_becomes_empty_object() {
    assert_eq!(process_input("", Charset::Utf8).unwrap(), "{}");
}

#[test]
fn test_pipeline_euc_kr_form_body() {
    let result = process_input("key=%BE%C8%B3%E7&arr[]=value2", Charset::EucKr).unwrap();
    assert_eq!(result, r#"{"key":"안녕","arr":["value2"]}"#);
}

#[test]
fn test_pipeline_json_body() {
    let result = process_input("{\"a\":1}", Charset::Utf8).unwrap();
    assert_eq!(result, r#"{"a":1}"#);
}

#[test]
fn test_pipeline_stops_on_charset_error() {
    let result = process_input("%FF%FF", Charset::EucKr);
    assert_eq!(
        result,
        Err(PipelineError::CharsetDecodeError { charset: Charset::EucKr })
    );
}

#[test]
fn test_pipeline_escape_pass_after_charset() {
    // The literal text `\x48\x69` (with percent-encoded backslashes)
    // decodes to the bytes of "Hi" in the escape pass.
    let result = process_input("a=%5Cx48%5Cx69", Charset::Utf8).unwrap();
    assert_eq!(result, r#"{"a":"Hi"}"#);
}
