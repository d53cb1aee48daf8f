use prost::encoding::{decode_key, decode_varint, int64, WireType};
use sakuin::grpc_web::{
    encode_request_body, ensure_frame_present, ensure_grpc_success, is_trailer_frame, next_frame,
    parse_frame_length, parse_response_frames, parse_trailer_lines, read_response,
    request_headers, request_url, response_payload, update_status_from_trailer_line,
    GrpcWebError, ParsedFrames, FRAME_HEADER_LEN, TRAILER_FRAME_FLAG,
};

fn frame(flag: u8, payload: &[u8]) -> Vec<u8> {
    let mut bytes = Vec::with_capacity(FRAME_HEADER_LEN + payload.len());
    bytes.push(flag);
    bytes.extend_from_slice(&(payload.len() as u32).to_be_bytes());
    bytes.extend_from_slice(payload);
    bytes
}

/// The protobuf encoding of `Stats { cleaned_manga, raw_manga }`.
fn encode_stats(cleaned_manga: i64, raw_manga: i64) -> Vec<u8> {
    let mut buf = Vec::new();
    if cleaned_manga != 0 {
        int64::encode(1, &cleaned_manga, &mut buf);
    }
    if raw_manga != 0 {
        int64::encode(2, &raw_manga, &mut buf);
    }
    buf
}

/// Decodes `Stats` into `(cleaned_manga, raw_manga)`.
fn decode_stats(bytes: &[u8]) -> (i64, i64) {
    let mut buf = bytes;
    let mut stats = (0, 0);
    while !buf.is_empty() {
        let (tag, wire_type) = decode_key(&mut buf).unwrap();
        assert_eq!(wire_type, WireType::Varint);
        let value = decode_varint(&mut buf).unwrap() as i64;
        match tag {
            1 => stats.0 = value,
            2 => stats.1 = value,
            _ => {}
        }
    }
    stats
}

#[test]
fn encode_request_body_wraps_protobuf_message_in_grpc_web_frame() {
    // An empty request message encodes to no bytes.
    let body = encode_request_body(&encode_stats(0, 0));

    assert_eq!(body[0], 0);
    assert_eq!(parse_frame_length(&body, 1), 0);
    assert_eq!(body.len(), FRAME_HEADER_LEN);
}

#[test]
fn parse_response_frames_extracts_message_and_trailers() {
    let message = encode_stats(10, 20);
    let trailers = b"grpc-status: 0\r\ngrpc-message: ok\r\n";
    let mut response = frame(0, &message);
    response.extend_from_slice(&frame(TRAILER_FRAME_FLAG, trailers));

    let parsed = parse_response_frames(&response).unwrap();
    let decoded = decode_stats(&response_payload(parsed.message_data).unwrap());

    assert_eq!(decoded.0, 10);
    assert_eq!(decoded.1, 20);
    assert_eq!(parsed.grpc_status, Some(0));
    assert_eq!(parsed.grpc_message.as_deref(), Some("ok"));
}

#[test]
fn next_frame_rejects_invalid_lengths_and_ignores_short_headers() {
    let mut offset = 0;
    assert!(next_frame(&[0, 0], &mut offset).unwrap().is_none());

    let invalid = [0, 0, 0, 0, 10, 1, 2];
    let mut offset = 0;
    assert!(next_frame(&invalid, &mut offset).is_err());
}

#[test]
fn ensure_grpc_success_reports_nonzero_status() {
    assert!(ensure_grpc_success(Some(0), None).is_ok());
    assert_eq!(
        ensure_grpc_success(Some(7), Some("permission denied".to_string()))
            .unwrap_err()
            .message(),
        "permission denied"
    );
    assert!(ensure_grpc_success(Some(13), None)
        .unwrap_err()
        .message()
        .contains("gRPC error 13"));
}

#[test]
fn decode_response_message_requires_message_data() {
    let err = response_payload(None).unwrap_err();

    assert!(err.message().contains("No message data"));
}

#[test]
fn encode_request_body_writes_big_endian_length() {
    let message: Vec<u8> = (0..300u32).map(|i| i as u8).collect();
    let body = encode_request_body(&message);
    assert_eq!(&body[..5], &[0, 0, 0, 1, 44]);
    assert_eq!(&body[5..], &message[..]);
    assert_eq!(parse_frame_length(&body, 1), 300);
}

#[test]
fn parse_frame_length_reads_all_four_bytes() {
    assert_eq!(parse_frame_length(&[9, 1, 2, 3, 4], 1), 0x0102_0304);
    assert_eq!(parse_frame_length(&[0xff, 0xff, 0xff, 0xff], 0), 0xffff_ffff);
}

#[test]
fn encoded_body_reads_back_as_the_message() {
    for message in [vec![], vec![1u8], encode_stats(3, 4), vec![7u8; 1000]] {
        let body = encode_request_body(&message);
        assert_eq!(read_response(&body).unwrap(), message);
        let parsed = parse_response_frames(&body).unwrap();
        assert_eq!(parsed.message_data, Some(message));
        assert_eq!(parsed.grpc_status, None);
        assert_eq!(parsed.grpc_message, None);
    }
}

#[test]
fn frames_are_read_in_order_and_last_data_frame_wins() {
    let mut response = frame(0, b"first");
    response.extend_from_slice(&frame(TRAILER_FRAME_FLAG, b"grpc-status: 5\n"));
    response.extend_from_slice(&frame(0, b"second"));
    response.extend_from_slice(&frame(TRAILER_FRAME_FLAG, b"grpc-status: 0\n"));
    let parsed = parse_response_frames(&response).unwrap();
    assert_eq!(parsed.message_data, Some(b"second".to_vec()));
    assert_eq!(parsed.grpc_status, Some(0));
}

#[test]
fn next_frame_advances_past_header_and_payload() {
    let mut response = frame(0x80, b"abc");
    response.extend_from_slice(&frame(1, b""));
    let mut offset = 0;
    let first = next_frame(&response, &mut offset).unwrap().unwrap();
    assert_eq!(first.flag, 0x80);
    assert_eq!(first.data, b"abc");
    assert_eq!(offset, 8);
    let second = next_frame(&response, &mut offset).unwrap().unwrap();
    assert_eq!(second.flag, 1);
    assert!(second.data.is_empty());
    assert_eq!(offset, 13);
    assert!(next_frame(&response, &mut offset).unwrap().is_none());
    assert_eq!(offset, 13);
}

#[test]
fn next_frame_leaves_offset_on_invalid_length() {
    let invalid = [0, 0, 0, 0, 10, 1, 2];
    let mut offset = 0;
    assert!(matches!(
        next_frame(&invalid, &mut offset),
        Err(GrpcWebError::InvalidFrameLength)
    ));
    assert_eq!(offset, 0);
}

#[test]
fn trailing_bytes_shorter_than_a_header_are_ignored() {
    let mut response = frame(0, b"msg");
    response.extend_from_slice(&[0, 0, 0]);
    let parsed = parse_response_frames(&response).unwrap();
    assert_eq!(parsed.message_data, Some(b"msg".to_vec()));
}

#[test]
fn is_trailer_frame_checks_high_bit() {
    assert!(is_trailer_frame(0x80));
    assert!(is_trailer_frame(0xff));
    assert!(is_trailer_frame(0x81));
    assert!(!is_trailer_frame(0x7f));
    assert!(!is_trailer_frame(0));
}

#[test]
fn trailer_lines_trim_and_ignore_key_case() {
    let mut parsed = ParsedFrames::new();
    update_status_from_trailer_line("  GRPC-Status :  14  ", &mut parsed);
    assert_eq!(parsed.grpc_status, Some(14));
    update_status_from_trailer_line("Grpc-Message:\t unavailable: try later \u{a0}", &mut parsed);
    assert_eq!(parsed.grpc_message.as_deref(), Some("unavailable: try later"));
    update_status_from_trailer_line("no colon here", &mut parsed);
    update_status_from_trailer_line("content-type: application/grpc", &mut parsed);
    assert_eq!(parsed.grpc_status, Some(14));
    assert_eq!(parsed.grpc_message.as_deref(), Some("unavailable: try later"));
}

#[test]
fn grpc_status_values_parse_like_i32() {
    let cases: [(&str, Option<i32>); 10] = [
        ("grpc-status: 0", Some(0)),
        ("grpc-status: +7", Some(7)),
        ("grpc-status: -3", Some(-3)),
        ("grpc-status: 2147483647", Some(2147483647)),
        ("grpc-status: -2147483648", Some(-2147483648)),
        ("grpc-status: 2147483648", None),
        ("grpc-status: 99999999999999999999", None),
        ("grpc-status: +", None),
        ("grpc-status: 1 2", None),
        ("grpc-status:", None),
    ];
    for (line, expected) in cases {
        let mut parsed = ParsedFrames::new();
        parsed.grpc_status = Some(42);
        update_status_from_trailer_line(line, &mut parsed);
        assert_eq!(parsed.grpc_status, expected, "{line}");
    }
}

#[test]
fn later_trailer_lines_override_earlier_ones() {
    let mut parsed = ParsedFrames::new();
    parse_trailer_lines(b"grpc-status: 3\ngrpc-message: a\r\ngrpc-status: 4\r\ngrpc-message: b", &mut parsed);
    assert_eq!(parsed.grpc_status, Some(4));
    assert_eq!(parsed.grpc_message.as_deref(), Some("b"));
}

#[test]
fn lone_carriage_return_stays_in_last_line() {
    let mut parsed = ParsedFrames::new();
    parse_trailer_lines(b"grpc-message: x\r", &mut parsed);
    // The trailing carriage return is whitespace, so trimming removes it.
    assert_eq!(parsed.grpc_message.as_deref(), Some("x"));
    let mut parsed = ParsedFrames::new();
    parse_trailer_lines(b"grpc-message: a\rb\n", &mut parsed);
    assert_eq!(parsed.grpc_message.as_deref(), Some("a\rb"));
}

#[test]
fn invalid_utf8_in_trailers_is_replaced() {
    let mut parsed = ParsedFrames::new();
    parse_trailer_lines(b"grpc-message: bad \xff byte\n", &mut parsed);
    assert_eq!(parsed.grpc_message.as_deref(), Some("bad \u{fffd} byte"));
}

#[test]
fn ensure_frame_present_needs_a_header() {
    let err = ensure_frame_present(&[1, 2, 3, 4]).unwrap_err();
    assert!(matches!(err, GrpcWebError::ResponseTooShort { len: 4 }));
    assert_eq!(err.message(), "Response too short: 4 bytes");
    assert!(ensure_frame_present(&[0, 0, 0, 0, 0]).is_ok());
}

#[test]
fn read_response_reports_each_error() {
    assert_eq!(read_response(&[0, 0]).unwrap_err().message(), "Response too short: 2 bytes");
    assert_eq!(
        read_response(&[0, 0, 0, 0, 10, 1, 2]).unwrap_err().message(),
        "Invalid frame length"
    );
    let mut failed = frame(0, b"payload");
    failed.extend_from_slice(&frame(0x80, b"grpc-status: 5\r\ngrpc-message: not found\r\n"));
    assert_eq!(read_response(&failed).unwrap_err().message(), "not found");
    let status_only = frame(0x80, b"grpc-status: -2\r\n");
    let err = read_response(&status_only).unwrap_err();
    assert!(matches!(err, GrpcWebError::GrpcStatus { code: -2, message: None }));
    assert_eq!(err.message(), "gRPC error -2");
    let no_message = frame(0x80, b"grpc-status: 0\r\n");
    assert_eq!(
        read_response(&no_message).unwrap_err().message(),
        "No message data in response"
    );
    let mut ok = frame(0, b"payload");
    ok.extend_from_slice(&frame(0x80, b"grpc-status: 0\r\n"));
    assert_eq!(read_response(&ok).unwrap(), b"payload".to_vec());
}

#[test]
fn request_url_joins_with_slashes() {
    assert_eq!(
        request_url("https://sakuin.org", "manga.v1.MangaService", "GetStats"),
        "https://sakuin.org/manga.v1.MangaService/GetStats"
    );
}

#[test]
fn request_headers_add_bearer_token_when_set() {
    let expected = vec![
        ("Content-Type".to_string(), "application/grpc-web+proto".to_string()),
        ("Accept".to_string(), "application/grpc-web+proto".to_string()),
        ("x-grpc-web".to_string(), "1".to_string()),
    ];
    assert_eq!(request_headers(&None), expected);
    let mut with_token = expected.clone();
    with_token.push(("Authorization".to_string(), "Bearer abc".to_string()));
    assert_eq!(request_headers(&Some("abc".to_string())), with_token);
}
