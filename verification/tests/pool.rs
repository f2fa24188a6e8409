use embedded_web::client::{apply_body_outcome, apply_read_outcome, Client, ClientState};
use embedded_web::http_utilities::HttpMethod;
use embedded_web::traits::{Connection, ReadResult, ResponseWriter, ServerConfig, WriteResult};
use embedded_web::{Address, Error, Server};

struct TestHandler {
    method: HttpMethod,
    path: String,
    headers: Vec<(String, String)>,
    body: Vec<u8>,
}

impl Connection for TestHandler {
    fn header_received(&mut self, key: &str, value: &str) -> ReadResult {
        self.headers.push((key.to_owned(), value.to_owned()));
        ReadResult::Continue
    }

    fn switch_from_headers_to_body(&mut self) -> ReadResult {
        if self.method == HttpMethod::Get {
            ReadResult::EndReading
        } else {
            ReadResult::Continue
        }
    }

    fn body_received(&mut self, bytes: &[u8]) -> ReadResult {
        self.body.extend_from_slice(bytes);
        ReadResult::Continue
    }

    fn poll_write<W: ResponseWriter>(&mut self, writer: &mut W) -> WriteResult {
        let status = writer.write_status(200, "OK");
        if status.is_err() {
            return status;
        }
        let body = writer.write_bytes(self.path.as_bytes());
        if body.is_err() {
            return body;
        }
        WriteResult::EndWriting
    }
}

struct TestConfig {
    written: Vec<u8>,
    completed: Vec<Address>,
    fail_writes: bool,
}

impl TestConfig {
    fn new() -> TestConfig {
        TestConfig { written: Vec::new(), completed: Vec::new(), fail_writes: false }
    }
}

impl ServerConfig for TestConfig {
    type ConnectionType = TestHandler;

    fn new_connection(
        &self,
        _addr: Address,
        method: HttpMethod,
        path: &str,
    ) -> Result<TestHandler, Error> {
        Ok(TestHandler { method, path: path.to_owned(), headers: Vec::new(), body: Vec::new() })
    }

    fn on_client_done_writing(&mut self, addr: Address, _client: &mut TestHandler) {
        self.completed.push(addr);
    }

    fn write(&mut self, _addr: Address, bytes: &[u8]) -> WriteResult {
        if self.fail_writes {
            WriteResult::Failed(Error::ClientNotFound)
        } else {
            self.written.extend_from_slice(bytes);
            WriteResult::Written { bytes_written: bytes.len() }
        }
    }
}

fn addr(id: u64) -> Address {
    Address { id }
}

#[test]
fn accept_rejects_active_duplicate() {
    let mut server: Server<TestConfig, 4> = Server::new(TestConfig::new());
    assert_eq!(server.new_connection(addr(1)), Ok(()));
    assert_eq!(server.new_connection(addr(1)), Err(Error::AlreadyConnected));
    assert_eq!(server.new_connection(addr(2)), Ok(()));
}

#[test]
fn accept_succeeds_again_after_completion() {
    let mut server: Server<TestConfig, 4> = Server::new(TestConfig::new());
    assert_eq!(server.new_connection(addr(7)), Ok(()));
    assert_eq!(server.data_received(addr(7), b"GET /x HTTP/1.1\n\r\n"), Ok(()));
    assert_eq!(server.new_connection(addr(7)), Err(Error::AlreadyConnected));
    assert_eq!(server.poll_write(), Ok(()));
    assert_eq!(server.clients.len(), 0);
    assert_eq!(server.new_connection(addr(7)), Ok(()));
}

#[test]
fn accept_beyond_capacity_fails_until_pruned() {
    let mut server: Server<TestConfig, 2> = Server::new(TestConfig::new());
    assert_eq!(server.new_connection(addr(1)), Ok(()));
    assert_eq!(server.new_connection(addr(2)), Ok(()));
    assert_eq!(server.new_connection(addr(3)), Err(Error::TooManyConnections));
    assert_eq!(server.data_received(addr(1), b"GET /done HTTP/1.1\n\r\n"), Ok(()));
    assert_eq!(server.poll_write(), Ok(()));
    assert_eq!(server.clients.len(), 1);
    assert_eq!(server.new_connection(addr(3)), Ok(()));
}

#[test]
fn end_to_end_get_request() {
    let mut server: Server<TestConfig, 4> = Server::new(TestConfig::new());
    assert_eq!(server.new_connection(addr(9)), Ok(()));
    assert_eq!(server.data_received(addr(9), b"GET /x HTTP/1.1\n\r\n"), Ok(()));
    assert_eq!(server.clients.len(), 1);
    assert_eq!(server.poll_write(), Ok(()));
    assert_eq!(server.inner.written, b"HTTP/1.1 200 OK\n/x".to_vec());
    assert_eq!(server.inner.completed, vec![addr(9)]);
    assert_eq!(server.clients.len(), 0);
    for id in 10..14 {
        assert_eq!(server.new_connection(addr(id)), Ok(()));
    }
}

#[test]
fn headers_are_handed_to_the_handler() {
    let mut server: Server<TestConfig, 4> = Server::new(TestConfig::new());
    assert_eq!(server.new_connection(addr(3)), Ok(()));
    assert_eq!(
        server.data_received(addr(3), b"GET /h HTTP/1.1\nHost: here\nAccept: text\n\r\n"),
        Ok(())
    );
    let client = &server.clients[0];
    let handler = client.connection.as_ref().unwrap();
    assert_eq!(
        handler.headers,
        vec![
            ("Host".to_owned(), "here".to_owned()),
            ("Accept".to_owned(), "text".to_owned()),
        ]
    );
}

#[test]
fn body_bytes_reach_the_handler() {
    let mut server: Server<TestConfig, 4> = Server::new(TestConfig::new());
    assert_eq!(server.new_connection(addr(5)), Ok(()));
    assert_eq!(server.data_received(addr(5), b"POST /b HTTP/1.1\n\r\nhello"), Ok(()));
    let handler = server.clients[0].connection.as_ref().unwrap();
    assert_eq!(handler.body, b"hello".to_vec());
}

#[test]
fn poll_write_without_writers_is_a_noop() {
    let mut server: Server<TestConfig, 4> = Server::new(TestConfig::new());
    assert_eq!(server.poll_write(), Ok(()));
    assert_eq!(server.new_connection(addr(2)), Ok(()));
    assert_eq!(server.poll_write(), Ok(()));
    assert_eq!(server.clients.len(), 1);
    assert!(server.inner.written.is_empty());
}

#[test]
fn poll_write_propagates_write_failures() {
    let mut server: Server<TestConfig, 4> = Server::new(TestConfig::new());
    assert_eq!(server.new_connection(addr(6)), Ok(()));
    assert_eq!(server.data_received(addr(6), b"GET /f HTTP/1.1\n\r\n"), Ok(()));
    server.inner.fail_writes = true;
    assert_eq!(server.poll_write(), Err(Error::ClientNotFound));
    assert_eq!(server.clients.len(), 1);
}

#[test]
fn deliver_to_unknown_address_fails() {
    let mut server: Server<TestConfig, 4> = Server::new(TestConfig::new());
    assert_eq!(server.data_received(addr(1), b"GET / HTTP/1.1\n"), Err(Error::ClientNotFound));
}

#[test]
fn parse_errors_are_surfaced() {
    let mut server: Server<TestConfig, 4> = Server::new(TestConfig::new());
    assert_eq!(server.new_connection(addr(1)), Ok(()));
    assert_eq!(server.data_received(addr(1), b"NOPE / HTTP/1.1\n"), Err(Error::InvalidHttpMethod));
    assert_eq!(server.new_connection(addr(2)), Ok(()));
    assert_eq!(server.data_received(addr(2), b"no line feed"), Err(Error::InvalidRequestLine));
    assert_eq!(server.new_connection(addr(3)), Ok(()));
    assert_eq!(
        server.data_received(addr(3), b"GET /ok HTTP/1.1\nbad header line"),
        Err(Error::InvalidHttpHeader)
    );
}

#[test]
fn disconnect_frees_the_address() {
    let mut server: Server<TestConfig, 4> = Server::new(TestConfig::new());
    assert_eq!(server.new_connection(addr(8)), Ok(()));
    server.client_disconnected(addr(8));
    assert_eq!(server.clients.len(), 0);
    assert_eq!(server.new_connection(addr(8)), Ok(()));
    server.client_disconnected(addr(99));
    assert_eq!(server.clients.len(), 1);
}

#[test]
fn data_after_writing_is_ignored() {
    let mut server: Server<TestConfig, 4> = Server::new(TestConfig::new());
    assert_eq!(server.new_connection(addr(4)), Ok(()));
    assert_eq!(server.data_received(addr(4), b"GET /w HTTP/1.1\n\r\n"), Ok(()));
    assert_eq!(server.data_received(addr(4), b"anything at all"), Ok(()));
    assert_eq!(server.clients.len(), 1);
}

#[test]
fn reading_transition_table_matches_the_documented_machine() {
    assert_eq!(
        apply_read_outcome(ClientState::ReadingHeaders, false, ReadResult::Continue),
        (ClientState::ReadingHeaders, None)
    );
    assert_eq!(
        apply_read_outcome(ClientState::ReadingHeaders, true, ReadResult::Continue),
        (ClientState::ReadingBody, None)
    );
    assert_eq!(
        apply_read_outcome(ClientState::ReadingHeaders, false, ReadResult::EndReading),
        (ClientState::Writing, Some(Ok(())))
    );
    assert_eq!(
        apply_read_outcome(
            ClientState::ReadingHeaders,
            true,
            ReadResult::Failed(Error::InvalidClientState)
        ),
        (ClientState::ReadingHeaders, Some(Err(Error::InvalidClientState)))
    );
    assert_eq!(apply_body_outcome(ReadResult::Continue), (ClientState::ReadingBody, Ok(())));
    assert_eq!(apply_body_outcome(ReadResult::EndReading), (ClientState::Writing, Ok(())));
    assert_eq!(
        apply_body_outcome(ReadResult::Failed(Error::TooManyConnections)),
        (ClientState::ReadingBody, Err(Error::TooManyConnections))
    );
}

#[test]
fn write_outcome_moves_finished_clients_to_done() {
    let mut client: Client<TestHandler> = Client::new(addr(1));
    client.apply_write_outcome(WriteResult::Written { bytes_written: 3 });
    assert_eq!(client.state, ClientState::ReadingRequestLine);
    client.apply_write_outcome(WriteResult::Failed(Error::ClientNotFound));
    assert_eq!(client.state, ClientState::ReadingRequestLine);
    client.apply_write_outcome(WriteResult::EndWriting);
    assert_eq!(client.state, ClientState::Done);
}
