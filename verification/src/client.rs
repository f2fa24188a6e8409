//! The per-connection state machine: it consumes delivered byte chunks
//! through the line parser, drives the application handler, and tracks how
//! far the connection has progressed.

use vstd::prelude::*;

verus! {

use crate::{Address, Error};
use crate::http_utilities::{
    HeaderLine,
    read_header_line,
    read_http_request_line,
    spec_header_split,
    spec_is_blank_line,
    spec_request_line,
};
use crate::traits::{Connection, ReadResult, ServerConfig, ServerConfigWriter, WriteResult};

/// The phases a connection passes through, in order.  Bodyless requests
/// skip `ReadingBody`; `Done` is terminal and triggers removal from the
/// pool.
#[derive(PartialEq, Eq, Structural, Copy, Clone, Debug)]
pub enum ClientState {
    ReadingRequestLine,
    ReadingHeaders,
    ReadingBody,
    Writing,
    Done,
}

/// The position of a state in the progression; handling input only ever
/// moves a client forward.
pub open spec fn state_rank(s: ClientState) -> int {
    match s {
        ClientState::ReadingRequestLine => 0,
        ClientState::ReadingHeaders => 1,
        ClientState::ReadingBody => 2,
        ClientState::Writing => 3,
        ClientState::Done => 4,
    }
}

/// The reading-phase transition table, made explicit: given the current
/// state, whether the line just consumed was the blank end-of-headers
/// line, and the handler's answer, yields the next state and, when the
/// delivery call ends here, its result.
pub fn apply_read_outcome(state: ClientState, blank: bool, outcome: ReadResult) -> (r: (
    ClientState,
    Option<Result<(), Error>>,
))
    ensures
        outcome matches ReadResult::Failed(e) ==> r == (state, Some(Err::<(), Error>(e))),
        outcome is EndReading ==> r == (ClientState::Writing, Some(Ok::<(), Error>(()))),
        outcome is Continue ==> r.1 is None && r.0 == (if blank {
            ClientState::ReadingBody
        } else {
            state
        }),
{
    match outcome {
        ReadResult::Continue => {
            if blank {
                (ClientState::ReadingBody, None)
            } else {
                (state, None)
            }
        },
        ReadResult::Failed(e) => (state, Some(Err(e))),
        ReadResult::EndReading => (ClientState::Writing, Some(Ok(()))),
    }
}

/// The body-phase transition table: the handler's answer decides whether
/// the client keeps reading body bytes or starts writing, and what the
/// delivery call returns.
pub fn apply_body_outcome(outcome: ReadResult) -> (r: (ClientState, Result<(), Error>))
    ensures
        outcome is Continue ==> r == (ClientState::ReadingBody, Ok::<(), Error>(())),
        outcome matches ReadResult::Failed(e) ==> r == (
            ClientState::ReadingBody,
            Err::<(), Error>(e),
        ),
        outcome is EndReading ==> r == (ClientState::Writing, Ok::<(), Error>(())),
{
    match outcome {
        ReadResult::Continue => (ClientState::ReadingBody, Ok(())),
        ReadResult::Failed(e) => (ClientState::ReadingBody, Err(e)),
        ReadResult::EndReading => (ClientState::Writing, Ok(())),
    }
}

/// One tracked connection: its current phase, its application handler once
/// the request line has been parsed, and the address it is keyed by.
pub struct Client<T: Connection> {
    pub connection: Option<T>,
    pub state: ClientState,
    pub address: Address,
}

impl<T: Connection> Client<T> {
    /// The handler is present exactly from the moment the request line has
    /// been parsed.
    pub open spec fn wf(self) -> bool {
        self.connection is Some <==> self.state != ClientState::ReadingRequestLine
    }

    /// A fresh client, waiting for the request line.
    pub fn new(address: Address) -> (r: Client<T>)
        ensures
            r == (Client::<T> {
                connection: None,
                state: ClientState::ReadingRequestLine,
                address,
            }),
            r.wf(),
    {
        Client { connection: None, state: ClientState::ReadingRequestLine, address }
    }

    /// Stores the handler the host built for the parsed request line and
    /// moves the client to the header-reading phase.
    fn begin_headers(&mut self, connection: T)
        ensures
            final(self).state == ClientState::ReadingHeaders,
            final(self).connection == Some(connection),
            final(self).address == old(self).address,
    {
        self.connection = Some(connection);
        self.state = ClientState::ReadingHeaders;
    }

    /// Feeds one delivered chunk to the state machine.  The chunk is
    /// consumed line by line within this one call; a line that is not fully
    /// contained in it is a parse error, never buffered.
    pub fn data_received<S: ServerConfig<ConnectionType = T>>(
        &mut self,
        config: &mut S,
        data: &[u8],
    ) -> (r: Result<(), Error>)
        requires
            old(self).wf(),
        ensures
            final(self).wf(),
            final(self).address == old(self).address,
            state_rank(final(self).state) >= state_rank(old(self).state),
            old(self).state != ClientState::Done ==> final(self).state != ClientState::Done,
            (old(self).state == ClientState::Writing || old(self).state == ClientState::Done)
                ==> *final(self) == *old(self) && r == Ok::<(), Error>(()),
            old(self).state == ClientState::ReadingRequestLine ==> (spec_request_line(data@) matches Err(e)
                ==> r == Err::<(), Error>(e) && *final(self) == *old(self)),
            old(self).state == ClientState::ReadingRequestLine
                && final(self).state == ClientState::ReadingRequestLine
                ==> *final(self) == *old(self) && r is Err,
            old(self).state == ClientState::ReadingHeaders && !spec_is_blank_line(data@)
                && spec_header_split(data@) is None ==> r == Err::<(), Error>(
                Error::InvalidHttpHeader,
            ) && *final(self) == *old(self),
            *final(config) == *old(config),
    {
        let mut rest = data;
        match self.state {
            ClientState::Writing | ClientState::Done => {
                return Ok(());
            },
            ClientState::ReadingRequestLine => {
                let (method, path, remaining) = match read_http_request_line(data) {
                    Ok(t) => t,
                    Err(e) => {
                        return Err(e);
                    },
                };
                let connection = match config.new_connection(self.address, method, path) {
                    Ok(c) => c,
                    Err(e) => {
                        return Err(e);
                    },
                };
                self.begin_headers(connection);
                rest = remaining;
            },
            ClientState::ReadingHeaders | ClientState::ReadingBody => {
            },
        }
        let ghost data0 = rest@;
        let mut connection = match self.connection.take() {
            Some(c) => c,
            None => {
                return Err(Error::InvalidClientState);
            },
        };
        while self.state == ClientState::ReadingHeaders
            invariant
                self.connection is None,
                self.state == ClientState::ReadingHeaders || self.state
                    == ClientState::ReadingBody,
                self.address == old(self).address,
                state_rank(self.state) >= state_rank(old(self).state),
                old(self).state == ClientState::ReadingRequestLine ==> spec_request_line(
                    data@,
                ) is Ok,
                old(self).state == ClientState::ReadingHeaders ==> data0 == data@,
                old(self).state == ClientState::ReadingHeaders && !spec_is_blank_line(data0)
                    && spec_header_split(data0) is None ==> rest@ == data0 && self.state
                    == ClientState::ReadingHeaders && old(self).connection == Some(connection),
                *config == *old(config),
            decreases rest@.len(),
        {
            match read_header_line(rest) {
                HeaderLine::Error(e) => {
                    self.connection = Some(connection);
                    return Err(e);
                },
                HeaderLine::Whiteline { remaining } => {
                    let outcome = connection.switch_from_headers_to_body();
                    let (next, done) = apply_read_outcome(self.state, true, outcome);
                    self.state = next;
                    match done {
                        Some(res) => {
                            self.connection = Some(connection);
                            return res;
                        },
                        None => {
                            rest = remaining;
                        },
                    }
                },
                HeaderLine::Header { key, value, remaining } => {
                    let outcome = connection.header_received(key, value);
                    let (next, done) = apply_read_outcome(self.state, false, outcome);
                    self.state = next;
                    match done {
                        Some(res) => {
                            self.connection = Some(connection);
                            return res;
                        },
                        None => {
                            rest = remaining;
                        },
                    }
                },
            }
        }
        let (next, r) = apply_body_outcome(connection.body_received(rest));
        self.state = next;
        self.connection = Some(connection);
        r
    }

    /// One attempt to let the handler produce response bytes through the
    /// engine's writer.
    pub fn poll_write<S: ServerConfig<ConnectionType = T>>(&mut self, config: &mut S) -> (r:
        WriteResult)
        ensures
            final(self).state == old(self).state,
            final(self).address == old(self).address,
            final(self).connection is Some <==> old(self).connection is Some,
            old(self).connection is None ==> *final(self) == *old(self) && r
                == WriteResult::EndWriting,
            old(self).wf() ==> final(self).wf(),
    {
        let mut connection = match self.connection.take() {
            Some(c) => c,
            None => {
                return WriteResult::EndWriting;
            },
        };
        let mut writer = ServerConfigWriter { addr: self.address, config };
        let r = connection.poll_write(&mut writer);
        self.connection = Some(connection);
        r
    }

    /// The pool's step for one write-poll answer: a plain write or a
    /// failure leaves the client as it is (on failure the caller tears the
    /// connection down); a finished signal moves the client to `Done`,
    /// after which the pool notifies the host and prunes it.
    pub fn apply_write_outcome(&mut self, outcome: WriteResult)
        ensures
            !(outcome is EndWriting) ==> *final(self) == *old(self),
            outcome is EndWriting ==> final(self).state == ClientState::Done
                && final(self).connection == old(self).connection
                && final(self).address == old(self).address,
    {
        match outcome {
            WriteResult::EndWriting => {
                self.state = ClientState::Done;
            },
            _ => {},
        }
    }
}

} // verus!
