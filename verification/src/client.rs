//! The IPC client façade: endpoint naming, request serialization, response
//! finishing, and the status-code policy shared by the `get` entry points.

use vstd::prelude::*;
use vstd::string::StrSliceExecFns;
use vstd::string::StringExecFns;
use vstd::string::StringSliceAdditionalSpecFns;
use vstd::utf8::{decode_utf8, encode_utf8, valid_utf8};

use crate::ascii::{spec_dec_chars, u64_to_dec_string};
use crate::codec::spec_status_code_of;
use crate::codec::status_code_of_line;
use crate::errors::IpcError;

verus! {

/// A decoded HTTP response: the status code and the body text.
pub struct IpcHttpResponse {
    pub status_code: u16,
    pub body: String,
}

/// The IPC client. It holds no state of its own: connections are owned by
/// the caller or by a connection pool passed alongside.
pub struct IpcClient {}

/// The request text sent on the wire: request line, `Host` header,
/// `Connection: close` only without keep-alive, and — only with a body —
/// `Content-Type` and an exact byte-count `Content-Length`, then the body.
pub open spec fn spec_http_request(
    method: Seq<char>,
    path: Seq<char>,
    body: Option<Seq<char>>,
    keep_alive: bool,
) -> Seq<char> {
    let head = method + " "@ + path + " HTTP/1.1\r\n"@ + "Host: localhost\r\n"@ + (if keep_alive {
        Seq::<char>::empty()
    } else {
        "Connection: close\r\n"@
    });
    match body {
        Some(b) => head + "Content-Type: application/json\r\n"@ + "Content-Length: "@
            + spec_dec_chars(encode_utf8(b).len() as usize as int) + "\r\n"@ + "\r\n"@ + b,
        None => head + "\r\n"@,
    }
}

impl IpcClient {
    /// The fixed, build-mode-dependent endpoint: a named-pipe path on the
    /// platform using pipes, a filesystem socket path elsewhere, with
    /// distinct debug and release names so the two never share a channel.
    pub fn default_ipc_path(named_pipe: bool, debug_build: bool) -> (r: String)
        ensures
            named_pipe && debug_build ==> r@ == "\\\\.\\pipe\\stelliberty_dev"@,
            named_pipe && !debug_build ==> r@ == "\\\\.\\pipe\\stelliberty"@,
            !named_pipe && debug_build ==> r@ == "/tmp/stelliberty_dev.sock"@,
            !named_pipe && !debug_build ==> r@ == "/tmp/stelliberty.sock"@,
    {
        if named_pipe {
            if debug_build {
                String::from_str("\\\\.\\pipe\\stelliberty_dev")
            } else {
                String::from_str("\\\\.\\pipe\\stelliberty")
            }
        } else {
            if debug_build {
                String::from_str("/tmp/stelliberty_dev.sock")
            } else {
                String::from_str("/tmp/stelliberty.sock")
            }
        }
    }

    /// Serializes one request.
    pub fn build_http_request(method: &str, path: &str, body: Option<&str>, keep_alive: bool) -> (r:
        String)
        ensures
            r@ == spec_http_request(
                method@,
                path@,
                match body {
                    Some(b) => Some(b@),
                    None => None,
                },
                keep_alive,
            ),
    {
        let mut r = String::new();
        r.append(method);
        r.append(" ");
        r.append(path);
        r.append(" HTTP/1.1\r\n");
        r.append("Host: localhost\r\n");
        if !keep_alive {
            r.append("Connection: close\r\n");
        }
        match body {
            Some(b) => {
                r.append("Content-Type: application/json\r\n");
                r.append("Content-Length: ");
                let len_digits = u64_to_dec_string(b.len() as u64);
                r.append(len_digits.as_str());
                r.append("\r\n");
                r.append("\r\n");
                r.append(b);
                assert(r@ =~= spec_http_request(method@, path@, Some(b@), keep_alive));
            },
            None => {
                r.append("\r\n");
                assert(r@ =~= spec_http_request(method@, path@, None, keep_alive));
            },
        }
        r
    }

    /// Parses the status code out of a status line: the second
    /// whitespace-separated token read as a 16-bit decimal number.
    pub fn parse_status_code(status_line: &str) -> (r: Result<u16, IpcError>)
        ensures
            match r {
                Ok(c) => spec_status_code_of(status_line.spec_bytes()) == Some(c as int),
                Err(e) => spec_status_code_of(status_line.spec_bytes()) is None && e is Protocol,
            },
    {
        let bytes = status_line.as_bytes_vec();
        match status_code_of_line(&bytes) {
            Some(c) => Ok(c),
            None => Err(IpcError::Protocol),
        }
    }

    /// The status policy of `get` and `get_with_pool`: a code in the 2xx
    /// range yields the body, any other code becomes an error carrying
    /// exactly that code.
    pub fn classify_status(resp: IpcHttpResponse) -> (r: Result<String, IpcError>)
        ensures
            200 <= resp.status_code < 300 ==> (r matches Ok(b) && b@ == resp.body@),
            !(200 <= resp.status_code < 300) ==> r == Err::<String, IpcError>(
                IpcError::HttpStatus(resp.status_code),
            ),
    {
        if 200 <= resp.status_code && resp.status_code < 300 {
            Ok(resp.body)
        } else {
            Err(IpcError::HttpStatus(resp.status_code))
        }
    }
}

/// Relies on `String::from_utf8`: it succeeds exactly on valid UTF-8 input
/// and returns the text those bytes encode.
#[verifier::external_body]
fn bytes_to_string(b: Vec<u8>) -> (r: Option<String>)
    ensures
        r is Some <==> valid_utf8(b@),
        r is Some ==> r.unwrap()@ == decode_utf8(b@),
{
    String::from_utf8(b).ok()
}

/// Turns a parsed status code and raw body bytes into a response, requiring
/// the body to be UTF-8 text.
pub fn finish_response(status_code: u16, body_bytes: Vec<u8>) -> (r: Result<
    IpcHttpResponse,
    IpcError,
>)
    ensures
        valid_utf8(body_bytes@) ==> (r matches Ok(resp) && resp.status_code == status_code
            && resp.body@ == decode_utf8(body_bytes@)),
        !valid_utf8(body_bytes@) ==> r == Err::<IpcHttpResponse, IpcError>(IpcError::Decode),
{
    match bytes_to_string(body_bytes) {
        Some(body) => Ok(IpcHttpResponse { status_code, body }),
        None => Err(IpcError::Decode),
    }
}

/// How many times a busy named pipe is tried before giving up.
pub const PIPE_BUSY_MAX_ATTEMPTS: u32 = 20;

/// The OS error code reported when every instance of a named pipe is busy.
pub const PIPE_BUSY_OS_CODE: i32 = 231;

/// The connector's retry policy after a failed named-pipe open: only the
/// "pipe busy" condition is retried, with a linearly growing backoff of
/// 15 ms per attempt already made, and a bounded number of attempts.
/// Returns how long to sleep before the next step and whether another
/// attempt should be made at all.
pub fn pipe_retry_decision(attempt: u32, pipe_busy: bool) -> (r: (u64, bool))
    requires
        attempt < PIPE_BUSY_MAX_ATTEMPTS,
    ensures
        r.0 == if pipe_busy {
            15 * (attempt + 1) as u64
        } else {
            0
        },
        r.1 == (pipe_busy && attempt + 1 < PIPE_BUSY_MAX_ATTEMPTS),
{
    if pipe_busy {
        (15 * (attempt as u64 + 1), attempt + 1 < PIPE_BUSY_MAX_ATTEMPTS)
    } else {
        (0, false)
    }
}

} // verus!
