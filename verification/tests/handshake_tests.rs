use wust_socket::{
    build_client_request, build_server_response, bytes_eq, hash_key, header_get, next_token,
    parse_header_line, request_line_ok, status_is_switching, str_eq_ignore_case, trim_bytes,
    u16_dec_bytes, validate_header, Args, UpgradeError,
};

#[test]
fn accept_key_matches_the_protocol_example() {
    // the worked example of RFC 6455 section 1.3
    assert_eq!(
        hash_key("dGhlIHNhbXBsZSBub25jZQ=="),
        "s3pPLMBiTxaQ9kYGzzhZRbK+xOo="
    );
}

#[test]
fn client_request_carries_host_and_key() {
    let req = build_client_request("example.com:80", "a2V5a2V5a2V5a2V5a2V5a2==");
    assert_eq!(
        req,
        "GET / HTTP/1.1\r\nHost: example.com:80\r\nUpgrade: websocket\r\nConnection: Upgrade\r\n\
         Sec-WebSocket-Key: a2V5a2V5a2V5a2V5a2V5a2==\r\nSec-WebSocket-Version: 13\r\n\r\n"
    );
}

#[test]
fn server_response_carries_the_accept_key() {
    let resp = build_server_response("s3pPLMBiTxaQ9kYGzzhZRbK+xOo=");
    assert_eq!(
        resp,
        "HTTP/1.1 101 Switching Protocols\r\nUpgrade: websocket\r\nConnection: Upgrade\r\n\
         Sec-WebSocket-Accept: s3pPLMBiTxaQ9kYGzzhZRbK+xOo=\r\n\r\n"
    );
}

#[test]
fn status_line_checks() {
    assert!(status_is_switching("HTTP/1.1 101 Switching Protocols\r\n"));
    assert!(status_is_switching("  HTTP/1.1   101"));
    assert!(!status_is_switching("HTTP/1.1 400 Bad Request"));
    assert!(!status_is_switching(""));
    assert!(!status_is_switching("101"));
}

#[test]
fn request_line_checks() {
    assert!(request_line_ok("GET / HTTP/1.1\r\n"));
    assert!(request_line_ok("GET /chat HTTP/1.1"));
    assert!(!request_line_ok("POST / HTTP/1.1"));
    assert!(!request_line_ok("GET / HTTP/1.0"));
    assert!(!request_line_ok("GET"));
}

#[test]
fn tokens_split_on_whitespace_runs() {
    let (t1, rest) = next_token(b"  GET   /path x");
    assert_eq!(t1, b"GET");
    let (t2, rest2) = next_token(rest);
    assert_eq!(t2, b"/path");
    let (t3, rest3) = next_token(rest2);
    assert_eq!(t3, b"x");
    let (t4, _) = next_token(rest3);
    assert_eq!(t4, b"");
}

#[test]
fn header_lines_are_split_and_trimmed() {
    let r = parse_header_line("Host:  example.com \r\n");
    match r {
        Some((name, value)) => {
            assert_eq!(name, "Host");
            assert_eq!(value, "example.com");
        }
        None => panic!("expected a parsed header"),
    }
    assert!(parse_header_line("no colon here").is_none());
    let empty = parse_header_line("X-Empty:");
    match empty {
        Some((name, value)) => {
            assert_eq!(name, "X-Empty");
            assert_eq!(value, "");
        }
        None => panic!("expected a parsed header"),
    }
}

#[test]
fn trimming_strips_both_ends() {
    assert_eq!(trim_bytes(b"  a b\t\r\n"), b"a b");
    assert_eq!(trim_bytes(b""), b"");
    assert_eq!(trim_bytes(b" \t "), b"");
    assert!(bytes_eq(b"abc", b"abc"));
    assert!(!bytes_eq(b"abc", b"abd"));
    assert!(!bytes_eq(b"abc", b"ab"));
}

#[test]
fn header_validation_is_case_insensitive() {
    let headers = vec![
        (String::from("Upgrade"), String::from("WebSocket")),
        (String::from("Connection"), String::from("upgrade")),
    ];
    assert!(validate_header(&headers, "Upgrade", "websocket").is_ok());
    assert!(validate_header(&headers, "Connection", "Upgrade").is_ok());
    match validate_header(&headers, "Sec-WebSocket-Version", "13") {
        Err(UpgradeError::MissingHeader(f)) => assert_eq!(f, "Sec-WebSocket-Version"),
        other => panic!("expected a missing header, got {other:?}"),
    }
    let bad = vec![(String::from("Upgrade"), String::from("h2c"))];
    match validate_header(&bad, "Upgrade", "websocket") {
        Err(UpgradeError::Header {
            field,
            expected,
            got,
        }) => {
            assert_eq!(field, "Upgrade");
            assert_eq!(expected, "websocket");
            assert_eq!(got, "h2c");
        }
        other => panic!("expected a header mismatch, got {other:?}"),
    }
}

#[test]
fn later_headers_shadow_earlier_ones() {
    let headers = vec![
        (String::from("X"), String::from("one")),
        (String::from("X"), String::from("two")),
    ];
    assert_eq!(header_get(&headers, "X").map(String::as_str), Some("two"));
    assert_eq!(header_get(&headers, "Y"), None);
}

#[test]
fn case_folding_compares_ascii_only() {
    assert!(str_eq_ignore_case("WebSocket", "wEBsOCKET"));
    assert!(!str_eq_ignore_case("websocket", "websockets"));
    assert!(!str_eq_ignore_case("a", "b"));
}

#[test]
fn ports_format_in_decimal() {
    assert_eq!(u16_dec_bytes(0), b"0".to_vec());
    assert_eq!(u16_dec_bytes(7), b"7".to_vec());
    assert_eq!(u16_dec_bytes(80), b"80".to_vec());
    assert_eq!(u16_dec_bytes(9001), b"9001".to_vec());
    assert_eq!(u16_dec_bytes(65535), b"65535".to_vec());
}

#[test]
fn as_url_names_the_endpoint() {
    let args = Args {
        addr: String::from("127.0.0.1"),
        port: 9001,
    };
    assert_eq!(args.as_url(), "ws://127.0.0.1:9001");
    let args = Args {
        addr: String::from("localhost"),
        port: 0,
    };
    assert_eq!(args.as_url(), "ws://localhost:0");
}
