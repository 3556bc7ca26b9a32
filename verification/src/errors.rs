//! The error kinds a transport exchange can surface.

use vstd::prelude::*;
use vstd::string::StringExecFns;

use crate::ascii::{spec_dec_chars, u64_to_dec_string};

verus! {

/// What went wrong with an exchange.
#[derive(Debug)]
pub enum IpcError {
    /// The peer could not be reached; carries the underlying description.
    Connect(String),
    /// Malformed status line, chunk header, or premature stream close.
    Protocol,
    /// The read-to-close fallback or a per-target deadline ran out.
    Timeout,
    /// The body is not valid UTF-8 text.
    Decode,
    /// A well-formed response outside the 2xx range, carrying its code.
    HttpStatus(u16),
}

impl IpcError {
    /// A short description of the failure; an HTTP status failure names its
    /// exact code, `HTTP 404` style.
    pub fn message(&self) -> (r: String)
        ensures
            match self {
                IpcError::Connect(m) => r@ == m@,
                IpcError::Protocol => r@ == "protocol error"@,
                IpcError::Timeout => r@ == "timeout"@,
                IpcError::Decode => r@ == "decode error"@,
                IpcError::HttpStatus(c) => r@ == "HTTP "@ + spec_dec_chars(*c as int),
            },
    {
        match self {
            IpcError::Connect(m) => m.clone(),
            IpcError::Protocol => String::from_str("protocol error"),
            IpcError::Timeout => String::from_str("timeout"),
            IpcError::Decode => String::from_str("decode error"),
            IpcError::HttpStatus(c) => {
                let mut s = String::from_str("HTTP ");
                let digits = u64_to_dec_string(*c as u64);
                s.append(digits.as_str());
                s
            },
        }
    }
}

} // verus!
