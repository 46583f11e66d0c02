use formjson::charset::Charset;
use formjson::decoder::decode_input;
use formjson::percent::percent_decode_bytes;

#[test]
fn decoder_test_decode_input_euc_kr() {
    let input = "%BE%C8%B3%E7%C7%CF%BC%BC%BF%E4";
    let result = decode_input(input, Charset::EucKr).unwrap();
    assert_eq!(result, "안녕하세요");
}

#[test]
fn decoder_test_decode_input_utf8() {
    let input = "%EC%95%88%EB%85%95%ED%95%98%EC%84%B8%EC%9A%94";
    let result = decode_input(input, Charset::Utf8).unwrap();
    assert_eq!(result, "안녕하세요");
}

#[test]
fn test_decode_input_iso_8859_1() {
    let input = "Caf%E9"; // "Café" in ISO-8859-1
    let result = decode_input(input, Charset::Latin1).unwrap();
    assert_eq!(result, "Café");
}

#[test]
fn decoder_test_decode_input_with_query_params() {
    let input = "key=%BE%C8%B3%E7&arr[]=value2&somemap[key3]=value3";
    let result = decode_input(input, Charset::EucKr).unwrap();
    assert_eq!(result, "key=안녕&arr[]=value2&somemap[key3]=value3");
}

fn percent_decode_utf8(input: &str) -> String {
    String::from_utf8(percent_decode_bytes(input.as_bytes())).unwrap()
}

#[test]
fn test_default_ascii() {
    let decoded = percent_decode_utf8("Hello%20World");
    assert_eq!(decoded, "Hello World");
}

#[test]
fn test_special_characters() {
    let decoded = percent_decode_utf8("Hello%21%40%23%24%25%5E%26%2A%28%29");
    assert_eq!(decoded, "Hello!@#$%^&*()");
}

#[test]
fn test_unicode() {
    let decoded = percent_decode_utf8("%E3%81%93%E3%82%93%E3%81%AB%E3%81%A1%E3%81%AF");
    assert_eq!(decoded, "こんにちは");
}

#[test]
fn test_mixed_case_unicode() {
    let decoded = percent_decode_utf8("Hello%20World%21%20This%20is%20a%20test.");
    assert_eq!(decoded, "Hello World! This is a test.");
}

#[test]
fn test_percent_sign_itself() {
    let decoded = percent_decode_utf8("50%25%20off");
    assert_eq!(decoded, "50% off");
}

#[test]
fn test_invalid_encoding() {
    let decoded = percent_decode_utf8("Invalid%2");
    assert_eq!(decoded, "Invalid%2");
}

#[test]
fn test_empty_string() {
    let decoded = percent_decode_utf8("");
    assert_eq!(decoded, "");
}
