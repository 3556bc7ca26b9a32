use ipc_transport::client::{finish_response, IpcClient, IpcHttpResponse};
use ipc_transport::client::pipe_retry_decision;
use ipc_transport::errors::IpcError;

#[test]
fn request_without_body_closes_connection() {
    let r = IpcClient::build_http_request("GET", "/version", None, false);
    assert_eq!(r, "GET /version HTTP/1.1\r\nHost: localhost\r\nConnection: close\r\n\r\n");
}

#[test]
fn request_with_keep_alive_omits_connection_close() {
    let r = IpcClient::build_http_request("GET", "/version", None, true);
    assert_eq!(r, "GET /version HTTP/1.1\r\nHost: localhost\r\n\r\n");
}

#[test]
fn request_with_body_carries_exact_content_length() {
    let r = IpcClient::build_http_request("PUT", "/configs", Some("{\"mode\":1}"), false);
    assert_eq!(
        r,
        "PUT /configs HTTP/1.1\r\nHost: localhost\r\nConnection: close\r\nContent-Type: application/json\r\nContent-Length: 10\r\n\r\n{\"mode\":1}"
    );
}

#[test]
fn content_length_counts_bytes_not_characters() {
    let r = IpcClient::build_http_request("POST", "/x", Some("é"), true);
    assert!(r.contains("Content-Length: 2\r\n"));
}

#[test]
fn default_paths_differ_by_platform_and_build() {
    assert_eq!(IpcClient::default_ipc_path(true, true), "\\\\.\\pipe\\stelliberty_dev");
    assert_eq!(IpcClient::default_ipc_path(true, false), "\\\\.\\pipe\\stelliberty");
    assert_eq!(IpcClient::default_ipc_path(false, true), "/tmp/stelliberty_dev.sock");
    assert_eq!(IpcClient::default_ipc_path(false, false), "/tmp/stelliberty.sock");
}

#[test]
fn status_code_parses_second_token() {
    assert_eq!(IpcClient::parse_status_code("HTTP/1.1 200 OK\r\n").unwrap(), 200);
    assert_eq!(IpcClient::parse_status_code("HTTP/1.1 404 Not Found").unwrap(), 404);
    assert_eq!(IpcClient::parse_status_code("  HTTP/1.1   503  busy").unwrap(), 503);
    assert!(IpcClient::parse_status_code("HTTP/1.1").is_err());
    assert!(IpcClient::parse_status_code("HTTP/1.1 abc").is_err());
    assert!(IpcClient::parse_status_code("").is_err());
    assert!(IpcClient::parse_status_code("HTTP/1.1 70000 huge").is_err());
}

#[test]
fn two_hundreds_yield_body() {
    let resp = IpcHttpResponse { status_code: 204, body: String::from("payload") };
    assert_eq!(IpcClient::classify_status(resp).unwrap(), "payload");
}

#[test]
fn status_outside_2xx_is_an_error_with_the_code() {
    let resp = IpcHttpResponse { status_code: 404, body: String::from("gone") };
    match IpcClient::classify_status(resp) {
        Err(IpcError::HttpStatus(code)) => {
            assert_eq!(code, 404);
            assert_eq!(IpcError::HttpStatus(code).message(), "HTTP 404");
        },
        _ => panic!("a 404 must become an HTTP status error"),
    }
    let resp199 = IpcHttpResponse { status_code: 199, body: String::new() };
    assert!(matches!(IpcClient::classify_status(resp199), Err(IpcError::HttpStatus(199))));
    let resp300 = IpcHttpResponse { status_code: 300, body: String::new() };
    assert!(matches!(IpcClient::classify_status(resp300), Err(IpcError::HttpStatus(300))));
}

#[test]
fn valid_utf8_body_decodes() {
    let r = finish_response(200, "héllo".as_bytes().to_vec()).unwrap();
    assert_eq!(r.status_code, 200);
    assert_eq!(r.body, "héllo");
}

#[test]
fn invalid_utf8_body_is_a_decode_error() {
    let r = finish_response(200, vec![0xff, 0xfe, 0x20]);
    assert!(matches!(r, Err(IpcError::Decode)));
}

#[test]
fn error_messages_name_their_kind() {
    assert_eq!(IpcError::Protocol.message(), "protocol error");
    assert_eq!(IpcError::Timeout.message(), "timeout");
    assert_eq!(IpcError::Decode.message(), "decode error");
    assert_eq!(IpcError::Connect(String::from("no peer")).message(), "no peer");
    assert_eq!(IpcError::HttpStatus(503).message(), "HTTP 503");
}

#[test]
fn pipe_busy_backoff_grows_linearly() {
    assert_eq!(pipe_retry_decision(0, true), (15, true));
    assert_eq!(pipe_retry_decision(1, true), (30, true));
    assert_eq!(pipe_retry_decision(18, true), (285, true));
    assert_eq!(pipe_retry_decision(19, true), (300, false));
    assert_eq!(pipe_retry_decision(0, false), (0, false));
}
