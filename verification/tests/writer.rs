use embedded_web::traits::{ResponseWriter, WriteResult};
use embedded_web::Error;

struct RecordingWriter {
    written: Vec<u8>,
    fail_from_call: Option<usize>,
    calls: usize,
}

impl RecordingWriter {
    fn new() -> RecordingWriter {
        RecordingWriter { written: Vec::new(), fail_from_call: None, calls: 0 }
    }
}

impl ResponseWriter for RecordingWriter {
    fn write_bytes(&mut self, bytes: &[u8]) -> WriteResult {
        self.calls += 1;
        if let Some(n) = self.fail_from_call {
            if self.calls > n {
                return WriteResult::Failed(Error::InvalidClientState);
            }
        }
        self.written.extend_from_slice(bytes);
        WriteResult::Written { bytes_written: bytes.len() }
    }
}

#[test]
fn write_status_formats_the_status_line() {
    let mut w = RecordingWriter::new();
    let r = w.write_status(200, "OK");
    assert_eq!(r, WriteResult::Written { bytes_written: 16 });
    assert_eq!(w.written, b"HTTP/1.1 200 OK\n".to_vec());
}

#[test]
fn write_status_formats_small_and_large_codes() {
    let mut w = RecordingWriter::new();
    assert!(!w.write_status(7, "odd").is_err());
    assert!(!w.write_status(65535, "big").is_err());
    assert_eq!(w.written, b"HTTP/1.1 7 odd\nHTTP/1.1 65535 big\n".to_vec());
}

#[test]
fn write_response_header_formats_the_line() {
    let mut w = RecordingWriter::new();
    let r = w.write_response_header("content-type", "text/plain");
    assert_eq!(r, WriteResult::Written { bytes_written: 25 });
    assert_eq!(w.written, b"content-type: text/plain\n".to_vec());
}

#[test]
fn end_headers_start_body_writes_a_blank_line() {
    let mut w = RecordingWriter::new();
    let r = w.end_headers_start_body();
    assert_eq!(r, WriteResult::Written { bytes_written: 1 });
    assert_eq!(w.written, b"\n".to_vec());
}

#[test]
fn composed_writes_short_circuit_on_failure() {
    let mut w = RecordingWriter::new();
    w.fail_from_call = Some(1);
    let r = w.write_status(404, "Not Found");
    assert_eq!(r, WriteResult::Failed(Error::InvalidClientState));
    assert_eq!(w.written, b"HTTP/1.1 ".to_vec());
    let calls_after_failure = w.calls;
    assert_eq!(calls_after_failure, 2);
}

#[test]
fn is_err_reports_only_failures() {
    assert!(WriteResult::Failed(Error::TooManyConnections).is_err());
    assert!(!WriteResult::Written { bytes_written: 3 }.is_err());
    assert!(!WriteResult::EndWriting.is_err());
}
