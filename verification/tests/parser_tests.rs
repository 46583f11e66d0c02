use formjson::charset::Charset;
use formjson::decoder::decode_input;
use formjson::error::PipelineError;
use formjson::json::JsonValue;
use formjson::parser::parse_to_json;

fn s(text: &str) -> String {
    String::from(text)
}

#[test]
fn parser_test_decode_input_euc_kr() {
    let input = "%BE%C8%B3%E7%C7%CF%BC%BC%BF%E4";
    let result = decode_input(input, Charset::EucKr).unwrap();
    assert_eq!(result, "안녕하세요");
}

#[test]
fn parser_test_decode_input_utf8() {
    let input = "%EC%95%88%EB%85%95%ED%95%98%EC%84%B8%EC%9A%94";
    let result = decode_input(input, Charset::Utf8).unwrap();
    assert_eq!(result, "안녕하세요");
}

#[test]
fn parser_test_decode_input_with_query_params() {
    let input = "key=%BE%C8%B3%E7&arr[]=value2&somemap[key3]=value3";
    let result = decode_input(input, Charset::EucKr).unwrap();
    assert_eq!(result, "key=안녕&arr[]=value2&somemap[key3]=value3");
}

#[test]
fn test_parse_to_json_form_urlencoded() {
    let input = "key1=value1&key2=value2&arr[]=item1&arr[]=item2";
    let result = parse_to_json(input).unwrap();
    let expected = JsonValue::Object(vec![
        (s("key1"), JsonValue::String(s("value1"))),
        (s("key2"), JsonValue::String(s("value2"))),
        (
            s("arr"),
            JsonValue::Array(vec![
                JsonValue::String(s("item1")),
                JsonValue::String(s("item2")),
            ]),
        ),
    ]);
    assert_eq!(result, expected);
}

#[test]
fn test_parse_to_json_json() {
    let input = r#"{"key":"value","nested":{"array":[1,2,3]}}"#;
    let result = parse_to_json(input).unwrap();
    let expected = JsonValue::Object(vec![
        (s("key"), JsonValue::String(s("value"))),
        (
            s("nested"),
            JsonValue::Object(vec![(
                s("array"),
                JsonValue::Array(vec![
                    JsonValue::Number(s("1")),
                    JsonValue::Number(s("2")),
                    JsonValue::Number(s("3")),
                ]),
            )]),
        ),
    ]);
    assert_eq!(result, expected);
}

#[test]
fn test_multi_bracket_key_is_a_fault() {
    let input = "parent[child1][child2]=value2";
    let result = parse_to_json(input);
    assert_eq!(result, Err(PipelineError::KeyFormatFault));
}

#[test]
fn test_nested_single_level_key_paths() {
    let input = "parent[child]=value1&arr[]=item1";
    let result = parse_to_json(input).unwrap();
    let expected = JsonValue::Object(vec![
        (
            s("parent"),
            JsonValue::Object(vec![(s("child"), JsonValue::String(s("value1")))]),
        ),
        (s("arr"), JsonValue::Array(vec![JsonValue::String(s("item1"))])),
    ]);
    assert_eq!(result, expected);
}
