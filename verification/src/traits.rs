//! The capability interfaces the engine consumes: the host's transport role,
//! the application's per-request role, and the response-writing sink handed
//! to the application while a response is produced.

use vstd::prelude::*;

verus! {

use crate::{Address, Error};
use crate::http_utilities::HttpMethod;

/// Outcome of handing parsed input to a connection handler.
#[derive(Clone, Copy, PartialEq, Eq, Structural, Debug)]
pub enum ReadResult {
    Continue,
    Failed(Error),
    EndReading,
}

/// Outcome of one write attempt.
#[derive(Clone, Copy, PartialEq, Eq, Structural, Debug)]
pub enum WriteResult {
    Written { bytes_written: usize },
    Failed(Error),
    EndWriting,
}

impl WriteResult {
    /// Whether this outcome reports a failed write.
    pub fn is_err(&self) -> (r: bool)
        ensures
            r == (*self matches WriteResult::Failed(_)),
    {
        match self {
            WriteResult::Failed(_) => true,
            _ => false,
        }
    }
}

/// The host/transport role: it builds application handlers for new requests,
/// pushes response bytes to the transport, and is told when a response is
/// complete.
pub trait ServerConfig {
    type ConnectionType: Connection;

    /// Builds the application handler for a request that arrived at `addr`.
    fn new_connection(&self, addr: Address, method: HttpMethod, path: &str) -> Result<
        Self::ConnectionType,
        Error,
    >;

    /// Invoked once, after a handler has finished writing its response.
    fn on_client_done_writing(&mut self, addr: Address, client: &mut Self::ConnectionType);

    /// Pushes raw bytes to the transport for `addr`.
    fn write(&mut self, addr: Address, bytes: &[u8]) -> WriteResult;
}

/// The application role: one handler per request, fed parsed headers and
/// body bytes, and polled for response bytes once reading is over.
pub trait Connection {
    fn header_received(&mut self, key: &str, value: &str) -> ReadResult;

    fn switch_from_headers_to_body(&mut self) -> ReadResult;

    fn body_received(&mut self, bytes: &[u8]) -> ReadResult;

    fn poll_write<W: ResponseWriter>(&mut self, writer: &mut W) -> WriteResult;
}

/// The decimal digits of `n`, most significant first, as ASCII bytes.
pub open spec fn spec_decimal(n: nat) -> Seq<u8>
    decreases n,
{
    if n < 10 {
        seq![(48 + n) as u8]
    } else {
        spec_decimal(n / 10).push((48 + n % 10) as u8)
    }
}

/// The ASCII decimal spelling of a status code.
fn decimal_bytes(n: u16) -> (v: Vec<u8>)
    ensures
        v@ == spec_decimal(n as nat),
    decreases n,
{
    if n < 10 {
        let mut v: Vec<u8> = Vec::new();
        v.push(48 + (n as u8));
        proof {
            assert(v@ =~= spec_decimal(n as nat));
        }
        v
    } else {
        let mut v = decimal_bytes(n / 10);
        v.push(48 + ((n % 10) as u8));
        v
    }
}

/// Saturating sum of two byte counts.
fn add_counts(a: usize, b: usize) -> (r: usize)
    ensures
        r == if a + b <= usize::MAX { a + b } else { usize::MAX as int },
{
    if a <= usize::MAX - b {
        a + b
    } else {
        usize::MAX
    }
}

/// The writing-side role handed to a handler: a sink with one low-level
/// write primitive and convenience methods composed from it.  Every
/// composed write short-circuits on the first outcome that is not a plain
/// write, reporting that outcome unchanged, and otherwise accumulates the
/// byte counts (saturating).
pub trait ResponseWriter {
    /// The single low-level write primitive every convenience method
    /// funnels through.
    fn write_bytes(&mut self, bytes: &[u8]) -> WriteResult;

    /// Writes the status line `"HTTP/1.1 <code> <text>\n"`.
    fn write_status(&mut self, code: u16, text: &str) -> WriteResult {
        let mut total: usize = 0;
        match self.write_bytes("HTTP/1.1 ".as_bytes()) {
            WriteResult::Written { bytes_written } => {
                total = add_counts(total, bytes_written);
            },
            other => {
                return other;
            },
        }
        let digits = decimal_bytes(code);
        match self.write_bytes(digits.as_slice()) {
            WriteResult::Written { bytes_written } => {
                total = add_counts(total, bytes_written);
            },
            other => {
                return other;
            },
        }
        match self.write_bytes(" ".as_bytes()) {
            WriteResult::Written { bytes_written } => {
                total = add_counts(total, bytes_written);
            },
            other => {
                return other;
            },
        }
        match self.write_bytes(text.as_bytes()) {
            WriteResult::Written { bytes_written } => {
                total = add_counts(total, bytes_written);
            },
            other => {
                return other;
            },
        }
        match self.write_bytes("\n".as_bytes()) {
            WriteResult::Written { bytes_written } => {
                total = add_counts(total, bytes_written);
            },
            other => {
                return other;
            },
        }
        WriteResult::Written { bytes_written: total }
    }

    /// Writes one response header line `"<key>: <value>\n"`.
    fn write_response_header(&mut self, key: &str, value: &str) -> WriteResult {
        let mut total: usize = 0;
        match self.write_bytes(key.as_bytes()) {
            WriteResult::Written { bytes_written } => {
                total = add_counts(total, bytes_written);
            },
            other => {
                return other;
            },
        }
        match self.write_bytes(": ".as_bytes()) {
            WriteResult::Written { bytes_written } => {
                total = add_counts(total, bytes_written);
            },
            other => {
                return other;
            },
        }
        match self.write_bytes(value.as_bytes()) {
            WriteResult::Written { bytes_written } => {
                total = add_counts(total, bytes_written);
            },
            other => {
                return other;
            },
        }
        match self.write_bytes("\n".as_bytes()) {
            WriteResult::Written { bytes_written } => {
                total = add_counts(total, bytes_written);
            },
            other => {
                return other;
            },
        }
        WriteResult::Written { bytes_written: total }
    }

    /// Writes the blank line that separates the headers from the body.
    fn end_headers_start_body(&mut self) -> WriteResult {
        self.write_bytes("\n".as_bytes())
    }
}

/// The engine's own response writer: it forwards every write to the server
/// configuration's transport primitive, bound to one address.
pub(crate) struct ServerConfigWriter<'a, S: ServerConfig> {
    pub(crate) addr: Address,
    pub(crate) config: &'a mut S,
}

impl<'a, S: ServerConfig> ResponseWriter for ServerConfigWriter<'a, S> {
    fn write_bytes(&mut self, bytes: &[u8]) -> WriteResult {
        self.config.write(self.addr, bytes)
    }
}

} // verus!
