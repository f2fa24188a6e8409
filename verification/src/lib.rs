//! A minimal HTTP/1.1 server engine for statically bounded environments.
//!
//! The engine owns no transport: a host hands it raw bytes per connection and
//! it drives a per-connection parsing/writing state machine, producing
//! response bytes through host-supplied capability objects.

use vstd::prelude::*;

pub mod client;
pub mod http_utilities;
pub mod traits;

verus! {

/// Opaque identifier for a connection's remote endpoint.
///
/// The host maps its transport-level addresses (socket addresses, link ids)
/// to values of this type; the engine uses it only as a lookup key.
#[derive(Clone, Copy, PartialEq, Eq, Structural, Debug, Hash)]
pub struct Address {
    pub id: u64,
}

use crate::client::{Client, ClientState, state_rank};
use crate::http_utilities::{spec_header_split, spec_is_blank_line, spec_request_line};
pub use crate::http_utilities::HttpMethod;
pub use crate::traits::{Connection, ReadResult, ResponseWriter, ServerConfig, WriteResult};

/// Removes every client that has reached `Done`, keeping the others in
/// order.
#[verifier::rlimit(100)]
fn prune_done<C: Connection>(clients: &mut Vec<Client<C>>)
    requires
        forall|k1: int, k2: int|
            0 <= k1 < k2 < old(clients)@.len() ==> old(clients)@[k1].address
                != old(clients)@[k2].address,
    ensures
        final(clients)@.len() <= old(clients)@.len(),
        forall|k: int|
            0 <= k < final(clients)@.len() ==> (#[trigger] final(clients)@[k]).state
                != ClientState::Done,
        forall|k: int|
            0 <= k < final(clients)@.len() ==> old(clients)@.contains(
                #[trigger] final(clients)@[k],
            ),
        forall|k2: int|
            0 <= k2 < old(clients)@.len() && (#[trigger] old(clients)@[k2]).state
                != ClientState::Done ==> final(clients)@.contains(old(clients)@[k2]),
        forall|k1: int, k2: int|
            0 <= k1 < k2 < final(clients)@.len() ==> final(clients)@[k1].address
                != final(clients)@[k2].address,
        (forall|k: int|
            0 <= k < old(clients)@.len() ==> (#[trigger] old(clients)@[k]).state
                != ClientState::Done) ==> final(clients)@ == old(clients)@,
{
    let ghost orig = clients@;
    let mut j: usize = 0;
    while j < clients.len()
        invariant
            orig == old(clients)@,
            0 <= j <= clients@.len(),
            clients@.len() <= orig.len(),
            forall|k: int|
                0 <= k < j ==> (#[trigger] clients@[k]).state != ClientState::Done,
            forall|l: int|
                j <= l < clients@.len() ==> #[trigger] clients@[l] == orig[l + orig.len()
                    - clients@.len()],
            forall|k: int|
                0 <= k < j ==> orig.contains(#[trigger] clients@[k]),
            forall|k2: int|
                0 <= k2 < j + orig.len() - clients@.len() && (#[trigger] orig[k2]).state
                    != ClientState::Done ==> clients@.subrange(0, j as int).contains(orig[k2]),
            forall|k1: int, k2: int|
                0 <= k1 < k2 < clients@.len() ==> clients@[k1].address != clients@[k2].address,
            (forall|k: int|
                0 <= k < orig.len() ==> (#[trigger] orig[k]).state != ClientState::Done)
                ==> clients@ == orig,
        decreases clients@.len() - j,
    {
        let ghost before = clients@;
        let ghost d = orig.len() - before.len();
        if clients[j].state == ClientState::Done {
            clients.remove(j);
            proof {
                assert(clients@ =~= before.remove(j as int));
                assert(before[j as int] == orig[j + d]);
                if forall|k: int|
                    0 <= k < orig.len() ==> (#[trigger] orig[k]).state != ClientState::Done {
                    assert(orig[j as int].state != ClientState::Done);
                    assert(false);
                }
                assert(clients@.subrange(0, j as int) =~= before.subrange(0, j as int));
                assert forall|k2: int|
                    0 <= k2 < j + orig.len() - clients@.len() && (#[trigger] orig[k2]).state
                        != ClientState::Done implies clients@.subrange(0, j as int).contains(
                    orig[k2],
                ) by {
                    assert(orig[j + d].state == ClientState::Done);
                    assert(k2 < j + d);
                    assert(before.subrange(0, j as int).contains(orig[k2]));
                }
            }
        } else {
            proof {
                assert(clients@[j as int] == orig[j + d]);
                assert(orig.contains(clients@[j as int]));
                assert(clients@.subrange(0, j + 1) =~= clients@.subrange(0, j as int).push(
                    clients@[j as int],
                ));
                assert forall|k2: int|
                    0 <= k2 < j + 1 + orig.len() - clients@.len() && (#[trigger] orig[k2]).state
                        != ClientState::Done implies clients@.subrange(0, j + 1).contains(
                    orig[k2],
                ) by {
                    if k2 < j + orig.len() - clients@.len() {
                        let w = choose|w: int|
                            0 <= w < j && clients@.subrange(0, j as int)[w] == orig[k2];
                        assert(clients@.subrange(0, j + 1)[w] == orig[k2]);
                    } else {
                        assert(orig[k2] == clients@[j as int]);
                        assert(clients@.subrange(0, j + 1)[j as int] == orig[k2]);
                    }
                }
            }
            j = j + 1;
        }
    }
    proof {
        assert(clients@.subrange(0, clients@.len() as int) =~= clients@);
    }
}

/// The connection pool: a bounded registry of per-connection state machines
/// keyed by address, plus the host's server configuration, owned for the
/// pool's lifetime.
pub struct Server<T: ServerConfig, const NUMBER_OF_CONNECTIONS: usize> {
    pub inner: T,
    pub clients: Vec<Client<T::ConnectionType>>,
}

impl<T: ServerConfig, const NUMBER_OF_CONNECTIONS: usize> Server<T, NUMBER_OF_CONNECTIONS> {
    /// The pool never exceeds its capacity, tracks at most one client per
    /// address, and every client is well formed.
    pub open spec fn wf(self) -> bool {
        &&& self.clients@.len() <= NUMBER_OF_CONNECTIONS
        &&& (forall|i: int|
            0 <= i < self.clients@.len() ==> (#[trigger] self.clients@[i]).wf())
        &&& (forall|i: int, j: int|
            0 <= i < j < self.clients@.len() ==> self.clients@[i].address
                != self.clients@[j].address)
    }

    /// Whether some client is tracked for `addr`.
    pub open spec fn has_client(self, addr: Address) -> bool {
        exists|i: int|
            0 <= i < self.clients@.len() && (#[trigger] self.clients@[i]).address == addr
    }

    /// The index of the client tracked for `addr` (meaningful only when
    /// `has_client(addr)` holds; under `wf` it is unique).
    pub open spec fn client_index(self, addr: Address) -> int {
        choose|i: int|
            0 <= i < self.clients@.len() && (#[trigger] self.clients@[i]).address == addr
    }

    /// The client tracked for `addr`.
    pub open spec fn client_at(self, addr: Address) -> Client<T::ConnectionType> {
        self.clients@[self.client_index(addr)]
    }

    /// Under `wf`, any index holding `addr` is the index `client_at` speaks
    /// of.
    pub proof fn lemma_index_unique(self, addr: Address, i: int)
        requires
            self.wf(),
            0 <= i < self.clients@.len(),
            self.clients@[i].address == addr,
        ensures
            self.has_client(addr),
            self.client_index(addr) == i,
            self.client_at(addr) == self.clients@[i],
    {
        assert(self.has_client(addr));
        let k = self.client_index(addr);
        if k != i {
            assert(self.clients@[k].address != self.clients@[i].address);
        }
    }

    /// A fresh pool around the given configuration.
    pub fn new(config: T) -> (r: Server<T, NUMBER_OF_CONNECTIONS>)
        ensures
            r.wf(),
            r.inner == config,
            r.clients@.len() == 0,
    {
        Server { inner: config, clients: Vec::new() }
    }

    /// Index of the client holding `addr`, or the pool's length when there
    /// is none.
    fn find_client(&self, addr: Address) -> (r: usize)
        requires
            self.wf(),
        ensures
            r <= self.clients@.len(),
            r < self.clients@.len() ==> self.clients@[r as int].address == addr
                && self.has_client(addr) && self.client_index(addr) == r,
            r == self.clients@.len() ==> !self.has_client(addr),
    {
        let n = self.clients.len();
        let mut i: usize = 0;
        while i < n
            invariant
                0 <= i <= n,
                n == self.clients@.len(),
                self.wf(),
                forall|j: int| 0 <= j < i ==> (#[trigger] self.clients@[j]).address != addr,
            decreases n - i,
        {
            if self.clients[i].address == addr {
                proof {
                    self.lemma_index_unique(addr, i as int);
                }
                return i;
            }
            i = i + 1;
        }
        proof {
            if self.has_client(addr) {
                let k = self.client_index(addr);
            }
        }
        n
    }

    /// Accepts a connection at `addr`: rejected while an active client
    /// holds the address or while the pool is full; a finished (`Done`)
    /// client at the address is evicted and replaced.
    pub fn new_connection(&mut self, addr: Address) -> (r: Result<(), Error>)
        requires
            old(self).wf(),
        ensures
            final(self).wf(),
            final(self).inner == old(self).inner,
            old(self).has_client(addr) && old(self).client_at(addr).state != ClientState::Done
                ==> r == Err::<(), Error>(Error::AlreadyConnected) && *final(self) == *old(self),
            !old(self).has_client(addr) && old(self).clients@.len() == NUMBER_OF_CONNECTIONS
                ==> r == Err::<(), Error>(Error::TooManyConnections) && *final(self) == *old(
                self,
            ),
            r is Ok <==> (!old(self).has_client(addr) && old(self).clients@.len()
                < NUMBER_OF_CONNECTIONS) || (old(self).has_client(addr) && old(self).client_at(
                addr,
            ).state == ClientState::Done),
            r is Err ==> *final(self) == *old(self),
            r is Ok ==> final(self).has_client(addr) && final(self).client_at(addr) == (Client::<
                T::ConnectionType,
            > { connection: None, state: ClientState::ReadingRequestLine, address: addr }),
            r is Ok ==> final(self).clients@.len() == old(self).clients@.len() + (if old(
                self,
            ).has_client(addr) {
                0int
            } else {
                1int
            }),
            forall|a: Address|
                a != addr ==> #[trigger] final(self).has_client(a) == old(self).has_client(a),
            forall|a: Address|
                a != addr && old(self).has_client(a) ==> #[trigger] final(self).client_at(a)
                    == old(self).client_at(a),
    {
        let n = self.clients.len();
        let idx = self.find_client(addr);
        if idx < n {
            if self.clients[idx].state != ClientState::Done {
                return Err(Error::AlreadyConnected);
            }
            self.clients.remove(idx);
        }
        if self.clients.len() >= NUMBER_OF_CONNECTIONS {
            return Err(Error::TooManyConnections);
        }
        self.clients.push(Client::new(addr));
        proof {
            let fin = *self;
            let pre = *old(self);
            fin.lemma_index_unique(addr, fin.clients@.len() - 1);
            assert forall|a: Address| a != addr implies #[trigger] fin.has_client(a)
                == pre.has_client(a) by {
                if pre.has_client(a) {
                    let j = pre.client_index(a);
                    pre.lemma_index_unique(a, j);
                    if idx < n && j > idx {
                        assert(fin.clients@[j - 1].address == a);
                    } else {
                        assert(fin.clients@[j].address == a);
                    }
                }
                if fin.has_client(a) {
                    let j = fin.client_index(a);
                    fin.lemma_index_unique(a, j);
                    if idx < n && j >= idx {
                        assert(pre.clients@[j + 1].address == a);
                    } else {
                        assert(pre.clients@[j].address == a);
                    }
                }
            }
            assert forall|a: Address| a != addr && pre.has_client(a) implies
                #[trigger] fin.client_at(a) == pre.client_at(a) by {
                let j = pre.client_index(a);
                pre.lemma_index_unique(a, j);
                if idx < n && j > idx {
                    fin.lemma_index_unique(a, j - 1);
                } else {
                    fin.lemma_index_unique(a, j);
                }
            }
        }
        Ok(())
    }

    /// Unconditionally removes any client tracked for `addr`.
    pub fn client_disconnected(&mut self, addr: Address)
        requires
            old(self).wf(),
        ensures
            final(self).wf(),
            final(self).inner == old(self).inner,
            !final(self).has_client(addr),
            !old(self).has_client(addr) ==> *final(self) == *old(self),
            old(self).has_client(addr) ==> final(self).clients@ == old(self).clients@.remove(
                old(self).client_index(addr),
            ),
            old(self).has_client(addr) ==> final(self).clients@.len() == old(
                self,
            ).clients@.len() - 1,
            forall|a: Address|
                a != addr ==> #[trigger] final(self).has_client(a) == old(self).has_client(a),
            forall|a: Address|
                a != addr && old(self).has_client(a) ==> #[trigger] final(self).client_at(a)
                    == old(self).client_at(a),
    {
        let n = self.clients.len();
        let idx = self.find_client(addr);
        if idx < n {
            self.clients.remove(idx);
            proof {
                let fin = *self;
                let pre = *old(self);
                if fin.has_client(addr) {
                    let k = fin.client_index(addr);
                    if k < idx {
                        pre.lemma_index_unique(addr, k);
                    } else {
                        pre.lemma_index_unique(addr, k + 1);
                    }
                }
                assert forall|a: Address| a != addr implies #[trigger] fin.has_client(a)
                    == pre.has_client(a) by {
                    if pre.has_client(a) {
                        let j = pre.client_index(a);
                        pre.lemma_index_unique(a, j);
                        if j > idx {
                            assert(fin.clients@[j - 1].address == a);
                        } else {
                            assert(fin.clients@[j].address == a);
                        }
                    }
                    if fin.has_client(a) {
                        let j = fin.client_index(a);
                        fin.lemma_index_unique(a, j);
                        if j >= idx {
                            assert(pre.clients@[j + 1].address == a);
                        } else {
                            assert(pre.clients@[j].address == a);
                        }
                    }
                }
                assert forall|a: Address| a != addr && pre.has_client(a) implies
                    #[trigger] fin.client_at(a) == pre.client_at(a) by {
                    let j = pre.client_index(a);
                    pre.lemma_index_unique(a, j);
                    if j > idx {
                        fin.lemma_index_unique(a, j - 1);
                    } else {
                        fin.lemma_index_unique(a, j);
                    }
                }
            }
        }
    }

    /// Routes one delivered chunk to the client tracked for `addr`.
    pub fn data_received(&mut self, addr: Address, data: &[u8]) -> (r: Result<(), Error>)
        requires
            old(self).wf(),
        ensures
            final(self).wf(),
            final(self).clients@.len() == old(self).clients@.len(),
            !old(self).has_client(addr) ==> r == Err::<(), Error>(Error::ClientNotFound)
                && *final(self) == *old(self),
            forall|a: Address|
                #[trigger] final(self).has_client(a) == old(self).has_client(a),
            forall|a: Address|
                a != addr && old(self).has_client(a) ==> #[trigger] final(self).client_at(a)
                    == old(self).client_at(a),
            old(self).has_client(addr) ==> {
                let pre = old(self).client_at(addr);
                let post = final(self).client_at(addr);
                &&& post.address == addr
                &&& post.wf()
                &&& state_rank(post.state) >= state_rank(pre.state)
                &&& (pre.state != ClientState::Done ==> post.state != ClientState::Done)
                &&& ((pre.state == ClientState::Writing || pre.state == ClientState::Done) ==> post
                    == pre && r == Ok::<(), Error>(()))
                &&& (pre.state == ClientState::ReadingRequestLine ==> (spec_request_line(data@) matches Err(e)
                    ==> r == Err::<(), Error>(e) && post == pre))
                &&& (pre.state == ClientState::ReadingHeaders && !spec_is_blank_line(data@)
                    && spec_header_split(data@) is None ==> r == Err::<(), Error>(
                    Error::InvalidHttpHeader,
                ) && post == pre)
            },
    {
        let n = self.clients.len();
        let idx = self.find_client(addr);
        if idx == n {
            return Err(Error::ClientNotFound);
        }
        let ghost pre = *old(self);
        let mut client = self.clients.remove(idx);
        let r = client.data_received(&mut self.inner, data);
        self.clients.insert(idx, client);
        proof {
            let fin = *self;
            assert(fin.clients@ =~= pre.clients@.update(idx as int, client));
            fin.lemma_index_unique(addr, idx as int);
            assert forall|a: Address| #[trigger] fin.has_client(a) == pre.has_client(a) by {
                if fin.has_client(a) {
                    let j = fin.client_index(a);
                    pre.lemma_index_unique(a, j);
                }
                if pre.has_client(a) {
                    let j = pre.client_index(a);
                    fin.lemma_index_unique(a, j);
                }
            }
            assert forall|a: Address| a != addr && pre.has_client(a) implies
                #[trigger] fin.client_at(a) == pre.client_at(a) by {
                let j = pre.client_index(a);
                pre.lemma_index_unique(a, j);
                fin.lemma_index_unique(a, j);
            }
        }
        r
    }

    /// One write pass: every client in `Writing` gets one `poll_write`
    /// attempt; the first failure aborts the pass; afterwards every client
    /// that reached `Done` is pruned, reclaiming pool capacity.
    #[verifier::rlimit(100)]
    pub fn poll_write(&mut self) -> (r: Result<(), Error>)
        requires
            old(self).wf(),
        ensures
            final(self).wf(),
            final(self).clients@.len() <= old(self).clients@.len(),
            r is Ok ==> forall|k: int|
                0 <= k < final(self).clients@.len() ==> (#[trigger] final(self).clients@[k]).state
                    != ClientState::Done,
            forall|a: Address| #[trigger] final(self).has_client(a) ==> old(self).has_client(a),
            forall|a: Address|
                old(self).has_client(a) && old(self).client_at(a).state != ClientState::Writing
                    && old(self).client_at(a).state != ClientState::Done
                    ==> #[trigger] final(self).has_client(a) && final(self).client_at(a) == old(
                    self,
                ).client_at(a),
            r is Err ==> final(self).clients@.len() == old(self).clients@.len(),
            r is Err ==> forall|a: Address|
                #[trigger] final(self).has_client(a) == old(self).has_client(a),
            r is Err ==> exists|k: int|
                0 <= k < old(self).clients@.len() && (#[trigger] old(self).clients@[k]).state
                    == ClientState::Writing,
            r is Ok ==> forall|a: Address|
                old(self).has_client(a) && old(self).client_at(a).state == ClientState::Writing
                    && #[trigger] final(self).has_client(a) ==> final(self).client_at(a).state
                    == ClientState::Writing,
            (forall|k: int|
                0 <= k < old(self).clients@.len() ==> (#[trigger] old(self).clients@[k]).state
                    != ClientState::Writing) ==> r == Ok::<(), Error>(()),
            (forall|k: int|
                0 <= k < old(self).clients@.len() ==> (#[trigger] old(self).clients@[k]).state
                    != ClientState::Writing && old(self).clients@[k].state != ClientState::Done)
                ==> final(self).clients@ == old(self).clients@ && final(self).inner == old(
                self,
            ).inner && r == Ok::<(), Error>(()),
    {
        let ghost pre = *old(self);
        let mut i: usize = 0;
        while i < self.clients.len()
            invariant
                pre == *old(self),
                pre.wf(),
                0 <= i <= self.clients@.len(),
                self.clients@.len() == pre.clients@.len(),
                forall|k: int|
                    0 <= k < self.clients@.len() ==> (#[trigger] self.clients@[k]).address
                        == pre.clients@[k].address,
                forall|k: int|
                    0 <= k < self.clients@.len() ==> (#[trigger] self.clients@[k]).wf(),
                forall|k: int|
                    0 <= k < self.clients@.len() && pre.clients@[k].state != ClientState::Writing
                        ==> #[trigger] self.clients@[k] == pre.clients@[k],
                forall|k: int|
                    i <= k < self.clients@.len() ==> #[trigger] self.clients@[k]
                        == pre.clients@[k],
                forall|k: int|
                    0 <= k < i && pre.clients@[k].state == ClientState::Writing ==> (
                    #[trigger] self.clients@[k].state == ClientState::Writing
                        || self.clients@[k].state == ClientState::Done),
                (forall|k: int|
                    0 <= k < pre.clients@.len() ==> (#[trigger] pre.clients@[k]).state
                        != ClientState::Writing && pre.clients@[k].state != ClientState::Done)
                    ==> self.inner == pre.inner && self.clients@ == pre.clients@,
            decreases self.clients@.len() - i,
        {
            if self.clients[i].state == ClientState::Writing {
                let ghost before = self.clients@;
                let mut client = self.clients.remove(i);
                let outcome = client.poll_write(&mut self.inner);
                client.apply_write_outcome(outcome);
                match outcome {
                    WriteResult::Written { .. } => {
                        self.clients.insert(i, client);
                        proof {
                            assert(self.clients@ =~= before.update(i as int, client));
                        }
                        i = i + 1;
                    },
                    WriteResult::Failed(e) => {
                        self.clients.insert(i, client);
                        proof {
                            assert(self.clients@ =~= before.update(i as int, client));
                            let fin = *self;
                            assert(pre.clients@[i as int].state == ClientState::Writing);
                            assert forall|a: Address| #[trigger] fin.has_client(a) implies
                                pre.has_client(a) by {
                                let k = fin.client_index(a);
                                fin.lemma_index_unique(a, k);
                                assert(pre.clients@[k].address == a);
                            }
                            assert forall|a: Address| #[trigger] pre.has_client(a) implies
                                fin.has_client(a) by {
                                let k = pre.client_index(a);
                                pre.lemma_index_unique(a, k);
                                assert(fin.clients@[k].address == a);
                            }
                            assert forall|a: Address|
                                pre.has_client(a) && pre.client_at(a).state != ClientState::Writing
                                    && pre.client_at(a).state != ClientState::Done implies
                                #[trigger] fin.has_client(a) && fin.client_at(a) == pre.client_at(
                                a,
                            ) by {
                                let k = pre.client_index(a);
                                pre.lemma_index_unique(a, k);
                                assert(fin.clients@[k] == pre.clients@[k]);
                                fin.lemma_index_unique(a, k);
                            }
                        }
                        return Err(e);
                    },
                    WriteResult::EndWriting => {
                        match client.connection.take() {
                            Some(mut c) => {
                                self.inner.on_client_done_writing(client.address, &mut c);
                                client.connection = Some(c);
                            },
                            None => {},
                        }
                        self.clients.insert(i, client);
                        proof {
                            assert(self.clients@ =~= before.update(i as int, client));
                        }
                        i = i + 1;
                    },
                }
            } else {
                i = i + 1;
            }
        }
        let ghost mid = self.clients@;
        prune_done(&mut self.clients);
        proof {
            let fin = *self;
            assert forall|k: int| 0 <= k < fin.clients@.len() implies (
            #[trigger] fin.clients@[k]).wf() by {
                assert(mid.contains(fin.clients@[k]));
                let k2 = choose|k2: int| 0 <= k2 < mid.len() && mid[k2] == fin.clients@[k];
                assert(mid[k2].wf());
            }
            assert forall|a: Address| #[trigger] fin.has_client(a) implies pre.has_client(a) by {
                let k = fin.client_index(a);
                fin.lemma_index_unique(a, k);
                assert(mid.contains(fin.clients@[k]));
                let k2 = choose|k2: int| 0 <= k2 < mid.len() && mid[k2] == fin.clients@[k];
                assert(pre.clients@[k2].address == a);
            }
            assert forall|a: Address|
                pre.has_client(a) && pre.client_at(a).state == ClientState::Writing
                    && #[trigger] fin.has_client(a) implies fin.client_at(a).state
                == ClientState::Writing by {
                let k2 = pre.client_index(a);
                pre.lemma_index_unique(a, k2);
                assert(mid[k2].state == ClientState::Writing || mid[k2].state
                    == ClientState::Done);
                let k = fin.client_index(a);
                fin.lemma_index_unique(a, k);
                assert(mid.contains(fin.clients@[k]));
                let k2b = choose|i: int| 0 <= i < mid.len() && mid[i] == fin.clients@[k];
                assert(pre.clients@[k2b].address == a);
                pre.lemma_index_unique(a, k2b);
                assert(fin.clients@[k] == mid[k2]);
                assert(fin.clients@[k].state != ClientState::Done);
            }
            assert forall|a: Address|
                pre.has_client(a) && pre.client_at(a).state != ClientState::Writing
                    && pre.client_at(a).state != ClientState::Done implies
                #[trigger] fin.has_client(a) && fin.client_at(a) == pre.client_at(a) by {
                let k2 = pre.client_index(a);
                pre.lemma_index_unique(a, k2);
                assert(mid[k2] == pre.clients@[k2]);
                assert(mid[k2].state != ClientState::Done);
                assert(fin.clients@.contains(mid[k2]));
                let k = choose|k: int| 0 <= k < fin.clients@.len() && fin.clients@[k] == mid[k2];
                assert(0 <= k < fin.clients@.len() && fin.clients@[k] == mid[k2]);
                fin.lemma_index_unique(a, k);
            }
        }
        Ok(())
    }
}

/// The error kinds the engine can report.
#[derive(Clone, Copy, PartialEq, Eq, Structural, Debug)]
pub enum Error {
    /// The pool is at capacity.
    TooManyConnections,
    /// The request line was malformed or not fully contained in one delivery.
    InvalidRequestLine,
    /// The method token matched none of the recognized spellings.
    InvalidHttpMethod,
    /// A header line was malformed or not fully contained in one delivery.
    InvalidHttpHeader,
    /// An accept was issued for an address that still has an active client.
    AlreadyConnected,
    /// Internal invariant violation: state and handler presence disagree.
    InvalidClientState,
    /// An operation named an address the pool does not track.
    ClientNotFound,
}

} // verus!
