use respkv::data::{DecodeError, RespObj};
use respkv::parser::parse;

#[test]
fn simple_string_decodes() {
    let (obj, used) = parse(b"+hello\r\n").unwrap();
    assert_eq!(obj, RespObj::String("hello".to_string()));
    assert_eq!(used, 8);
}

#[test]
fn simple_string_empty_payload() {
    let (obj, used) = parse(b"+\r\n").unwrap();
    assert_eq!(obj, RespObj::String(String::new()));
    assert_eq!(used, 3);
}

#[test]
fn integer_decodes() {
    let (obj, used) = parse(b":123\r\n").unwrap();
    assert_eq!(obj, RespObj::Integer(123));
    assert_eq!(used, 6);
}

#[test]
fn negative_integer_decodes() {
    let (obj, used) = parse(b":-42\r\n").unwrap();
    assert_eq!(obj, RespObj::Integer(-42));
    assert_eq!(used, 6);
}

#[test]
fn plus_signed_integer_decodes() {
    let (obj, _) = parse(b":+7\r\n").unwrap();
    assert_eq!(obj, RespObj::Integer(7));
}

#[test]
fn bulk_string_decodes() {
    let (obj, used) = parse(b"$5\r\nhello\r\n").unwrap();
    assert_eq!(obj, RespObj::String("hello".to_string()));
    assert_eq!(used, 11);
}

#[test]
fn bulk_string_multibyte_utf8_decodes() {
    // "café" is five bytes of UTF-8 for four characters; a decoder that
    // handed the raw bytes back unchanged could not produce this string.
    let (obj, used) = parse(b"$5\r\ncaf\xc3\xa9\r\n").unwrap();
    assert_eq!(obj, RespObj::String("caf\u{e9}".to_string()));
    assert_eq!(used, 11);
}

#[test]
fn array_decodes_in_order() {
    let (obj, used) = parse(b"*2\r\n+a\r\n:5\r\n").unwrap();
    assert_eq!(
        obj,
        RespObj::Array(vec![
            RespObj::String("a".to_string()),
            RespObj::Integer(5),
        ])
    );
    assert_eq!(used, 12);
}

#[test]
fn nested_array_decodes() {
    let (obj, used) = parse(b"*1\r\n*1\r\n+x\r\n").unwrap();
    assert_eq!(
        obj,
        RespObj::Array(vec![RespObj::Array(vec![RespObj::String(
            "x".to_string()
        )])])
    );
    assert_eq!(used, 12);
}

#[test]
fn empty_array_decodes() {
    let (obj, used) = parse(b"*0\r\n").unwrap();
    assert_eq!(obj, RespObj::Array(vec![]));
    assert_eq!(used, 4);
}

#[test]
fn one_call_consumes_one_frame() {
    let stream = b"+a\r\n+b\r\n";
    let (first, used) = parse(stream).unwrap();
    assert_eq!(first, RespObj::String("a".to_string()));
    assert_eq!(used, 4);
    let (second, used2) = parse(&stream[used..]).unwrap();
    assert_eq!(second, RespObj::String("b".to_string()));
    assert_eq!(used2, 4);
}

#[test]
fn empty_buffer_is_unsupported() {
    assert_eq!(parse(b""), Err(DecodeError::UnsupportedType));
}

#[test]
fn unknown_tag_is_unsupported() {
    assert_eq!(parse(b"?x\r\n"), Err(DecodeError::UnsupportedType));
}

#[test]
fn missing_terminator_is_unterminated() {
    assert_eq!(parse(b"+abc"), Err(DecodeError::UnterminatedFrame));
}

#[test]
fn frame_cut_after_carriage_return_is_truncated() {
    assert_eq!(parse(b"+abc\r"), Err(DecodeError::Truncated));
}

#[test]
fn non_numeric_integer_payload_is_malformed() {
    assert_eq!(parse(b":12a\r\n"), Err(DecodeError::MalformedPayload));
}

#[test]
fn empty_integer_payload_is_malformed() {
    assert_eq!(parse(b":\r\n"), Err(DecodeError::MalformedPayload));
}

#[test]
fn bulk_string_shorter_than_declared_is_truncated() {
    // Declared length 3, actual content 2 bytes: the frame's trailing \r\n
    // would lie past the end of the buffer.
    assert_eq!(parse(b"$3\r\nab\r\n"), Err(DecodeError::Truncated));
}

#[test]
fn invalid_utf8_payload_is_malformed() {
    assert_eq!(parse(b"+ab\xff\r\n"), Err(DecodeError::MalformedPayload));
}

#[test]
fn truncated_array_reports_an_error() {
    assert!(parse(b"*2\r\n+a\r\n").is_err());
}

#[test]
fn resp_obj_from_drops_consumed_count() {
    let obj = RespObj::from(b"+ok\r\n").unwrap();
    assert_eq!(obj, RespObj::String("ok".to_string()));
    assert_eq!(RespObj::from(b"+x"), Err(DecodeError::UnterminatedFrame));
}

#[test]
fn reply_roundtrip_on_bytes() {
    // The reply formatter's output decodes back to the text it framed.
    let reply = respkv::reply::format_simple("bar");
    assert_eq!(reply, "+bar\r\n");
    let (obj, used) = parse(reply.as_bytes()).unwrap();
    assert_eq!(obj, RespObj::String("bar".to_string()));
    assert_eq!(used, reply.len());
}
