use ipc_transport::codec::{decode_chunked_at, encode_chunked, parse_response, ChunkedStep, ParseStep};

fn done(step: ParseStep) -> (u16, Vec<u8>) {
    match step {
        ParseStep::Done(code, body) => (code, body),
        ParseStep::NeedMore => panic!("expected a finished parse, got NeedMore"),
        ParseStep::Fail => panic!("expected a finished parse, got Fail"),
    }
}

#[test]
fn content_length_framing_exact() {
    let data = b"HTTP/1.1 200 OK\r\nContent-Length: 5\r\n\r\nhello".to_vec();
    let (code, body) = done(parse_response(&data, false));
    assert_eq!(code, 200);
    assert_eq!(body, b"hello".to_vec());
    assert_eq!(body.len(), 5);
}

#[test]
fn content_length_waits_for_full_body() {
    let data = b"HTTP/1.1 200 OK\r\nContent-Length: 5\r\n\r\nhel".to_vec();
    assert!(matches!(parse_response(&data, false), ParseStep::NeedMore));
    assert!(matches!(parse_response(&data, true), ParseStep::Fail));
}

#[test]
fn content_length_ignores_extra_bytes() {
    let data = b"HTTP/1.1 204 No Content\r\nContent-Length: 2\r\n\r\nokEXTRA".to_vec();
    let (code, body) = done(parse_response(&data, false));
    assert_eq!(code, 204);
    assert_eq!(body, b"ok".to_vec());
}

#[test]
fn header_keys_match_case_insensitively() {
    let data = b"HTTP/1.1 200 OK\r\ncOnTeNt-LeNgTh: 3\r\n\r\nabc".to_vec();
    let (_, body) = done(parse_response(&data, false));
    assert_eq!(body, b"abc".to_vec());
}

#[test]
fn later_content_length_wins() {
    let data = b"HTTP/1.1 200 OK\r\nContent-Length: 9\r\nContent-Length: 2\r\n\r\nab".to_vec();
    let (_, body) = done(parse_response(&data, false));
    assert_eq!(body, b"ab".to_vec());
}

#[test]
fn read_until_close_waits_for_eof() {
    let data = b"HTTP/1.1 200 OK\r\n\r\nsome tail".to_vec();
    assert!(matches!(parse_response(&data, false), ParseStep::NeedMore));
    let (code, body) = done(parse_response(&data, true));
    assert_eq!(code, 200);
    assert_eq!(body, b"some tail".to_vec());
}

#[test]
fn premature_close_in_headers_fails() {
    let data = b"HTTP/1.1 200 OK\r\nContent-Le".to_vec();
    assert!(matches!(parse_response(&data, true), ParseStep::Fail));
    assert!(matches!(parse_response(&data, false), ParseStep::NeedMore));
}

#[test]
fn empty_header_section_fails() {
    let data = b"\r\nHTTP/1.1 200 OK\r\n\r\n".to_vec();
    assert!(matches!(parse_response(&data, false), ParseStep::Fail));
}

#[test]
fn status_line_without_code_fails() {
    let data = b"HTTP/1.1\r\n\r\n".to_vec();
    assert!(matches!(parse_response(&data, true), ParseStep::Fail));
    let data2 = b"HTTP/1.1 abc OK\r\n\r\n".to_vec();
    assert!(matches!(parse_response(&data2, true), ParseStep::Fail));
    let data3 = b"HTTP/1.1 99999 OK\r\n\r\n".to_vec();
    assert!(matches!(parse_response(&data3, true), ParseStep::Fail));
}

#[test]
fn chunked_body_reassembled() {
    let data =
        b"HTTP/1.1 200 OK\r\nTransfer-Encoding: chunked\r\n\r\n5\r\nhello\r\n6\r\n world\r\n0\r\n\r\n"
            .to_vec();
    let (code, body) = done(parse_response(&data, false));
    assert_eq!(code, 200);
    assert_eq!(body, b"hello world".to_vec());
}

#[test]
fn chunked_round_trip_sizes_five_then_zero() {
    let chunks = vec![b"hello".to_vec()];
    let encoded = encode_chunked(&chunks);
    assert_eq!(encoded, b"5\r\nhello\r\n0\r\n\r\n".to_vec());
    match decode_chunked_at(&encoded, 0, false) {
        ChunkedStep::Done(body) => assert_eq!(body, b"hello".to_vec()),
        _ => panic!("decoding the encoder's output must finish"),
    }
}

#[test]
fn chunked_decoding_stops_at_terminator() {
    let mut data = b"5\r\nhello\r\n0\r\n\r\n".to_vec();
    data.extend_from_slice(b"6\r\nJUNKJU\r\n");
    match decode_chunked_at(&data, 0, false) {
        ChunkedStep::Done(body) => assert_eq!(body, b"hello".to_vec()),
        _ => panic!("decoding must stop after the zero-size chunk"),
    }
}

#[test]
fn chunked_blank_size_lines_are_skipped() {
    let data = b"\r\n5\r\nhello\r\n0\r\n\r\n".to_vec();
    match decode_chunked_at(&data, 0, false) {
        ChunkedStep::Done(body) => assert_eq!(body, b"hello".to_vec()),
        _ => panic!("a blank line before a chunk size must be skipped"),
    }
}

#[test]
fn chunked_bad_size_line_fails() {
    let data = b"xyz\r\nhello\r\n0\r\n\r\n".to_vec();
    assert!(matches!(decode_chunked_at(&data, 0, false), ChunkedStep::Fail));
}

#[test]
fn chunked_hex_sizes_parse() {
    let data = b"A\r\n0123456789\r\n0\r\n\r\n".to_vec();
    match decode_chunked_at(&data, 0, false) {
        ChunkedStep::Done(body) => assert_eq!(body, b"0123456789".to_vec()),
        _ => panic!("an upper-case hex size must parse"),
    }
    let data2 = b"a\r\n0123456789\r\n0\r\n\r\n".to_vec();
    assert!(matches!(decode_chunked_at(&data2, 0, false), ChunkedStep::Done(_)));
}

#[test]
fn chunked_incomplete_needs_more() {
    let data = b"5\r\nhel".to_vec();
    assert!(matches!(decode_chunked_at(&data, 0, false), ChunkedStep::NeedMore));
    assert!(matches!(decode_chunked_at(&data, 0, true), ChunkedStep::Fail));
}

#[test]
fn multi_chunk_encode_round_trip() {
    let chunks = vec![b"ab".to_vec(), b"cde".to_vec(), b"f".to_vec()];
    let encoded = encode_chunked(&chunks);
    match decode_chunked_at(&encoded, 0, false) {
        ChunkedStep::Done(body) => assert_eq!(body, b"abcdef".to_vec()),
        _ => panic!("decoding the encoder's output must finish"),
    }
}

#[test]
fn chunked_wins_over_content_length() {
    let data =
        b"HTTP/1.1 200 OK\r\nContent-Length: 2\r\nTransfer-Encoding: chunked\r\n\r\n3\r\nabc\r\n0\r\n\r\n"
            .to_vec();
    let (_, body) = done(parse_response(&data, false));
    assert_eq!(body, b"abc".to_vec());
}

#[test]
fn largest_status_code_parses() {
    let data = b"HTTP/1.1 65535 odd\r\nContent-Length: 0\r\n\r\n".to_vec();
    let (code, body) = done(parse_response(&data, false));
    assert_eq!(code, 65535);
    assert!(body.is_empty());
}

#[test]
fn overflowing_content_length_is_ignored() {
    let data = b"HTTP/1.1 200 OK\r\nContent-Length: 99999999999999999999999\r\n\r\nok".to_vec();
    let (_, body) = done(parse_response(&data, true));
    assert_eq!(body, b"ok".to_vec());
}

#[test]
fn plus_signed_content_length_parses_like_std() {
    let data = b"HTTP/1.1 200 OK\r\nContent-Length: +2\r\n\r\nok!!".to_vec();
    let (_, body) = done(parse_response(&data, false));
    assert_eq!(body, b"ok".to_vec());
}

#[test]
fn chunk_size_with_extension_fails() {
    let data = b"5;name=v\r\nhello\r\n0\r\n\r\n".to_vec();
    assert!(matches!(decode_chunked_at(&data, 0, false), ChunkedStep::Fail));
}

#[test]
fn unparsable_content_length_reads_to_close() {
    let data = b"HTTP/1.1 200 OK\r\nContent-Length: many\r\n\r\ntail".to_vec();
    assert!(matches!(parse_response(&data, false), ParseStep::NeedMore));
    let (_, body) = done(parse_response(&data, true));
    assert_eq!(body, b"tail".to_vec());
}
