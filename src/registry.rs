use vstd::prelude::*;
use crate::channel::{after_send, send_error, ChannelModel};
use crate::connection::{
    after_close, connection_ok, keep_alive_expired, tagged_messages, Connection, ConnectionModel,
};
use crate::error::QuinnetError;
use crate::ClientId;

verus! {

/// The clients that ids and connections stored side by side describe.
pub open spec fn client_map(ids: Seq<ClientId>, conns: Seq<ConnectionModel>) -> Map<ClientId, ConnectionModel> {
    Map::new(|id: ClientId| ids.contains(id), |id: ClientId| conns[ids.index_of(id)])
}

proof fn lemma_index_of_unique(ids: Seq<ClientId>, k: int)
    requires
        ids.no_duplicates(),
        0 <= k < ids.len(),
    ensures
        ids.index_of(ids[k]) == k,
{
    assert(ids.contains(ids[k]));
}

proof fn lemma_client_map_get(ids: Seq<ClientId>, conns: Seq<ConnectionModel>, k: int)
    requires
        ids.no_duplicates(),
        0 <= k < ids.len(),
    ensures
        client_map(ids, conns).contains_key(ids[k]),
        client_map(ids, conns)[ids[k]] == conns[k],
{
    lemma_index_of_unique(ids, k);
    assert(ids.contains(ids[k]));
}

proof fn lemma_client_map_push(ids: Seq<ClientId>, conns: Seq<ConnectionModel>, id: ClientId, c: ConnectionModel)
    requires
        ids.no_duplicates(),
        ids.len() == conns.len(),
        !ids.contains(id),
    ensures
        ids.push(id).no_duplicates(),
        client_map(ids.push(id), conns.push(c)) == client_map(ids, conns).insert(id, c),
{
    let ids2 = ids.push(id);
    let conns2 = conns.push(c);
    assert(ids2.no_duplicates()) by {
        assert forall|a: int, b: int| 0 <= a < ids2.len() && 0 <= b < ids2.len() && a != b implies ids2[a]
            != ids2[b] by {
            if a < ids.len() && b < ids.len() {
            } else if a < ids.len() {
                assert(ids.contains(ids[a]));
            } else if b < ids.len() {
                assert(ids.contains(ids[b]));
            }
        }
    }
    let m2 = client_map(ids2, conns2);
    let m1 = client_map(ids, conns).insert(id, c);
    assert forall|x: ClientId| m2.contains_key(x) == m1.contains_key(x) by {
        if ids.contains(x) {
            let k = choose|k: int| 0 <= k < ids.len() && ids[k] == x;
            assert(ids2[k] == x);
        }
        if ids2.contains(x) && x != id {
            let k = choose|k: int| 0 <= k < ids2.len() && ids2[k] == x;
            assert(ids[k] == x);
        }
        if x == id {
            assert(ids2[ids.len() as int] == x);
        }
    }
    assert forall|x: ClientId| #[trigger] m2.contains_key(x) implies m2[x] == m1[x] by {
        let k = choose|k: int| 0 <= k < ids2.len() && ids2[k] == x;
        lemma_index_of_unique(ids2, k);
        if k < ids.len() {
            lemma_index_of_unique(ids, k);
            assert(ids[k] == x);
        }
    }
    assert(m2 =~= m1);
}

proof fn lemma_client_map_update(ids: Seq<ClientId>, conns: Seq<ConnectionModel>, k: int, c: ConnectionModel)
    requires
        ids.no_duplicates(),
        ids.len() == conns.len(),
        0 <= k < ids.len(),
    ensures
        client_map(ids, conns.update(k, c)) == client_map(ids, conns).insert(ids[k], c),
{
    let m2 = client_map(ids, conns.update(k, c));
    let m1 = client_map(ids, conns).insert(ids[k], c);
    assert(ids.contains(ids[k]));
    assert forall|x: ClientId| #[trigger] m2.contains_key(x) implies m2[x] == m1[x] by {
        let j = choose|j: int| 0 <= j < ids.len() && ids[j] == x;
        lemma_index_of_unique(ids, j);
    }
    assert(m2 =~= m1);
}

proof fn lemma_client_map_remove(ids: Seq<ClientId>, conns: Seq<ConnectionModel>, k: int)
    requires
        ids.no_duplicates(),
        ids.len() == conns.len(),
        0 <= k < ids.len(),
    ensures
        ids.remove(k).no_duplicates(),
        client_map(ids.remove(k), conns.remove(k)) == client_map(ids, conns).remove(ids[k]),
{
    let ids2 = ids.remove(k);
    let conns2 = conns.remove(k);
    let shift = |j: int| if j < k { j } else { j + 1 };
    assert forall|j: int| 0 <= j < ids2.len() implies ids2[j] == ids[shift(j)] by {}
    assert(ids2.no_duplicates()) by {
        assert forall|a: int, b: int| 0 <= a < ids2.len() && 0 <= b < ids2.len() && a != b implies ids2[a]
            != ids2[b] by {
            assert(ids2[a] == ids[shift(a)]);
            assert(ids2[b] == ids[shift(b)]);
        }
    }
    let m2 = client_map(ids2, conns2);
    let m1 = client_map(ids, conns).remove(ids[k]);
    assert forall|x: ClientId| m2.contains_key(x) == m1.contains_key(x) by {
        if ids2.contains(x) {
            let j = choose|j: int| 0 <= j < ids2.len() && ids2[j] == x;
            assert(ids[shift(j)] == x);
            assert(ids.contains(x));
        }
        if ids.contains(x) && x != ids[k] {
            let j = choose|j: int| 0 <= j < ids.len() && ids[j] == x;
            if j < k {
                assert(ids2[j] == x);
            } else {
                assert(ids2[j - 1] == x);
            }
        }
    }
    assert forall|x: ClientId| #[trigger] m2.contains_key(x) implies m2[x] == m1[x] by {
        let j = choose|j: int| 0 <= j < ids2.len() && ids2[j] == x;
        lemma_index_of_unique(ids2, j);
        assert(ids[shift(j)] == x);
        lemma_index_of_unique(ids, shift(j));
    }
    assert(m2 =~= m1);
}

/// What the registry holds: the next identifier it will assign, the number
/// of data channels of every registered connection, and the live
/// connections by client identifier.
pub struct RegistryModel {
    pub next_id: nat,
    pub num_channels: nat,
    pub clients: Map<ClientId, ConnectionModel>,
}

/// Maps client identifiers to their connections on the server, and assigns
/// identifiers: each one is issued once and never again while the registry
/// lives.
pub struct ClientRegistry {
    next_id: ClientId,
    num_channels: usize,
    ids: Vec<ClientId>,
    connections: Vec<Connection>,
}

impl View for ClientRegistry {
    type V = RegistryModel;

    closed spec fn view(&self) -> RegistryModel {
        RegistryModel {
            next_id: self.next_id as nat,
            num_channels: self.num_channels as nat,
            clients: client_map(self.ids@, self.connections@.map_values(|c: Connection| c@)),
        }
    }
}

impl ClientRegistry {
    /// How the stored identifiers and connections fit together.
    pub closed spec fn inv(&self) -> bool {
        &&& self.ids.len() == self.connections.len()
        &&& self.ids@.no_duplicates()
        &&& forall|i: int| 0 <= i < self.ids.len() ==> #[trigger] self.ids@[i] < self.next_id
        &&& forall|i: int| 0 <= i < self.connections.len() ==> (#[trigger] self.connections@[i]).wf()
        &&& forall|i: int|
            0 <= i < self.connections.len() ==> (#[trigger] self.connections@[i])@.outbound.len()
                == self.num_channels
    }

    /// Every registered identifier was issued before, and every registered
    /// connection is well formed with the registry's number of channels.
    pub open spec fn wf(&self) -> bool {
        &&& self.inv()
        &&& forall|id: ClientId| #[trigger] self@.clients.contains_key(id) ==> id < self@.next_id
        &&& forall|id: ClientId| #[trigger] self@.clients.contains_key(id) ==> connection_ok(self@.clients[id])
            && self@.clients[id].outbound.len() == self@.num_channels
    }

    proof fn lemma_wf(&self)
        requires
            self.inv(),
        ensures
            self.wf(),
    {
        let conns = self.connections@.map_values(|c: Connection| c@);
        assert forall|id: ClientId| #[trigger] self@.clients.contains_key(id) implies id < self@.next_id
            && connection_ok(self@.clients[id]) && self@.clients[id].outbound.len()
            == self@.num_channels by {
            let k = choose|k: int| 0 <= k < self.ids.len() && self.ids@[k] == id;
            lemma_client_map_get(self.ids@, conns, k);
            assert(self.connections@[k].wf());
        }
    }

    /// An empty registry whose connections have `num_channels` data channels
    /// in each direction.
    pub fn new(num_channels: usize) -> (r: ClientRegistry)
        ensures
            r.wf(),
            r@.next_id == 0,
            r@.num_channels == num_channels,
            r@.clients == Map::<ClientId, ConnectionModel>::empty(),
    {
        let r = ClientRegistry { next_id: 0, num_channels, ids: Vec::new(), connections: Vec::new() };
        proof {
            r.lemma_wf();
            assert(r@.clients =~= Map::<ClientId, ConnectionModel>::empty());
        }
        r
    }

    /// Issues a fresh identifier: the next one in order, never issued
    /// before and held by no registered client.
    pub fn assign(&mut self) -> (r: ClientId)
        requires
            old(self).wf(),
            old(self)@.next_id < ClientId::MAX,
        ensures
            final(self).wf(),
            r == old(self)@.next_id,
            !old(self)@.clients.contains_key(r),
            final(self)@ == (RegistryModel { next_id: old(self)@.next_id + 1, ..old(self)@ }),
    {
        let id = self.next_id;
        self.next_id = self.next_id + 1;
        proof {
            self.lemma_wf();
        }
        id
    }

    /// Registers `connection` under a freshly assigned identifier, which it
    /// returns.
    pub fn register(&mut self, connection: Connection) -> (r: ClientId)
        requires
            old(self).wf(),
            old(self)@.next_id < ClientId::MAX,
            connection.wf(),
            connection@.outbound.len() == old(self)@.num_channels,
        ensures
            final(self).wf(),
            r == old(self)@.next_id,
            !old(self)@.clients.contains_key(r),
            final(self)@ == (RegistryModel {
                next_id: old(self)@.next_id + 1,
                clients: old(self)@.clients.insert(r, connection@),
                ..old(self)@
            }),
    {
        let id = self.next_id;
        self.next_id = self.next_id + 1;
        let ghost cm = connection@;
        proof {
            if self.ids@.contains(id) {
                let k = choose|k: int| 0 <= k < self.ids.len() && self.ids@[k] == id;
                assert(self.ids@[k] < old(self).next_id);
            }
            lemma_client_map_push(self.ids@, self.connections@.map_values(|c: Connection| c@), id, cm);
        }
        self.ids.push(id);
        self.connections.push(connection);
        proof {
            assert(self.connections@.map_values(|c: Connection| c@) =~= old(self).connections@.map_values(
                |c: Connection| c@,
            ).push(cm));
            self.lemma_wf();
        }
        id
    }

    /// The number of data channels in each direction of every registered
    /// connection.
    pub fn num_channels(&self) -> (r: usize)
        ensures
            r == self@.num_channels,
    {
        self.num_channels
    }

    /// The identifier that the next assignment will hand out.
    pub fn next_id(&self) -> (r: ClientId)
        ensures
            r == self@.next_id,
    {
        self.next_id
    }

    /// The number of registered clients.
    pub fn len(&self) -> (r: usize)
        requires
            self.wf(),
        ensures
            r == self@.clients.len(),
    {
        proof {
            assert(self@.clients.dom() =~= self.ids@.to_set());
            self.ids@.unique_seq_to_set();
        }
        self.ids.len()
    }

    fn position(&self, id: ClientId) -> (r: Option<usize>)
        requires
            self.inv(),
        ensures
            match r {
                Some(k) => k < self.ids.len() && self.ids@[k as int] == id,
                None => !self.ids@.contains(id),
            },
    {
        let mut k: usize = 0;
        while k < self.ids.len()
            invariant
                0 <= k <= self.ids.len(),
                forall|j: int| 0 <= j < k ==> self.ids@[j] != id,
            decreases self.ids.len() - k,
        {
            if self.ids[k] == id {
                return Some(k);
            }
            k += 1;
        }
        None
    }

    /// Whether `id` belongs to a registered client.
    pub fn contains(&self, id: ClientId) -> (r: bool)
        requires
            self.wf(),
        ensures
            r == self@.clients.contains_key(id),
    {
        self.position(id).is_some()
    }

    /// The connection of client `id`, or `None` when no such client is
    /// registered.
    pub fn lookup(&self, id: ClientId) -> (r: Option<&Connection>)
        requires
            self.wf(),
        ensures
            r.is_some() == self@.clients.contains_key(id),
            r.is_some() ==> r.unwrap()@ == self@.clients[id],
    {
        match self.position(id) {
            Some(k) => {
                proof {
                    lemma_client_map_get(self.ids@, self.connections@.map_values(|c: Connection| c@), k as int);
                }
                Some(&self.connections[k])
            },
            None => None,
        }
    }

    /// Removes client `id`; returns whether it was registered. Removing an
    /// absent client changes nothing.
    pub fn remove(&mut self, id: ClientId) -> (r: bool)
        requires
            old(self).wf(),
        ensures
            final(self).wf(),
            r == old(self)@.clients.contains_key(id),
            final(self)@ == (RegistryModel { clients: old(self)@.clients.remove(id), ..old(self)@ }),
    {
        match self.position(id) {
            Some(k) => {
                let ghost conns = self.connections@.map_values(|c: Connection| c@);
                proof {
                    lemma_client_map_get(self.ids@, conns, k as int);
                    lemma_client_map_remove(self.ids@, conns, k as int);
                }
                self.ids.remove(k);
                self.connections.remove(k);
                proof {
                    assert(self.connections@.map_values(|c: Connection| c@) =~= conns.remove(k as int));
                    assert forall|i: int| 0 <= i < self.ids.len() implies #[trigger] self.ids@[i] < self.next_id by {
                        if i >= k {
                            assert(self.ids@[i] == old(self).ids@[i + 1]);
                        }
                    }
                    assert forall|i: int| 0 <= i < self.connections.len() implies (#[trigger] self.connections@[i]).wf()
                        && self.connections@[i]@.outbound.len() == self.num_channels by {
                        if i >= k {
                            assert(self.connections@[i] == old(self).connections@[i + 1]);
                        }
                    }
                    self.lemma_wf();
                }
                true
            },
            None => {
                proof {
                    assert(old(self)@.clients.remove(id) =~= old(self)@.clients);
                }
                false
            },
        }
    }

    /// Sends `payload` on data channel `channel` of client `id`, without
    /// blocking. Fails with `UnknownClient` when no such client is
    /// registered, and otherwise as the connection's own send does.
    pub fn send_message(&mut self, id: ClientId, channel: usize, payload: Vec<u8>) -> (r: Result<(), QuinnetError>)
        requires
            old(self).wf(),
            channel < old(self)@.num_channels,
        ensures
            final(self).wf(),
            !old(self)@.clients.contains_key(id) ==> r == Err::<(), QuinnetError>(QuinnetError::UnknownClient(id))
                && final(self)@ == old(self)@,
            old(self)@.clients.contains_key(id) ==> ({
                let c = old(self)@.clients[id];
                &&& r == match send_error(c.outbound[channel as int]) {
                    Some(e) => Err::<(), QuinnetError>(e),
                    None => Ok::<(), QuinnetError>(()),
                }
                &&& final(self)@ == (RegistryModel {
                    clients: old(self)@.clients.insert(
                        id,
                        ConnectionModel {
                            outbound: c.outbound.update(channel as int, after_send(c.outbound[channel as int], payload)),
                            ..c
                        },
                    ),
                    ..old(self)@
                })
            }),
    {
        match self.position(id) {
            None => Err(QuinnetError::UnknownClient(id)),
            Some(k) => {
                let ghost conns = self.connections@.map_values(|c: Connection| c@);
                proof {
                    lemma_client_map_get(self.ids@, conns, k as int);
                }
                let r = self.connections[k].send_message(channel, payload);
                proof {
                    lemma_client_map_update(self.ids@, conns, k as int, self.connections@[k as int]@);
                    assert(self.connections@.map_values(|c: Connection| c@) =~= conns.update(
                        k as int,
                        self.connections@[k as int]@,
                    ));
                    self.lemma_wf();
                }
                r
            },
        }
    }

    /// Queues a payload that arrived from client `id` on inbound channel
    /// `channel`. Fails with `UnknownClient` when no such client is
    /// registered, and otherwise as the connection's own delivery does.
    pub fn deliver_inbound(&mut self, id: ClientId, channel: usize, payload: Vec<u8>) -> (r: Result<(), QuinnetError>)
        requires
            old(self).wf(),
            channel < old(self)@.num_channels,
        ensures
            final(self).wf(),
            !old(self)@.clients.contains_key(id) ==> r == Err::<(), QuinnetError>(QuinnetError::UnknownClient(id))
                && final(self)@ == old(self)@,
            old(self)@.clients.contains_key(id) ==> ({
                let c = old(self)@.clients[id];
                &&& r == match send_error(c.inbound[channel as int]) {
                    Some(e) => Err::<(), QuinnetError>(e),
                    None => Ok::<(), QuinnetError>(()),
                }
                &&& final(self)@ == (RegistryModel {
                    clients: old(self)@.clients.insert(
                        id,
                        ConnectionModel {
                            inbound: c.inbound.update(channel as int, after_send(c.inbound[channel as int], payload)),
                            ..c
                        },
                    ),
                    ..old(self)@
                })
            }),
    {
        match self.position(id) {
            None => Err(QuinnetError::UnknownClient(id)),
            Some(k) => {
                let ghost conns = self.connections@.map_values(|c: Connection| c@);
                proof {
                    lemma_client_map_get(self.ids@, conns, k as int);
                }
                let r = self.connections[k].deliver_inbound(channel, payload);
                proof {
                    lemma_client_map_update(self.ids@, conns, k as int, self.connections@[k as int]@);
                    assert(self.connections@.map_values(|c: Connection| c@) =~= conns.update(
                        k as int,
                        self.connections@[k as int]@,
                    ));
                    self.lemma_wf();
                }
                r
            },
        }
    }

    /// Takes every payload queued on inbound channel `channel` of client
    /// `id`, oldest first. Fails with `UnknownClient` when no such client is
    /// registered.
    pub fn poll_inbound(&mut self, id: ClientId, channel: usize) -> (r: Result<Vec<Vec<u8>>, QuinnetError>)
        requires
            old(self).wf(),
            channel < old(self)@.num_channels,
        ensures
            final(self).wf(),
            !old(self)@.clients.contains_key(id) ==> r == Err::<Vec<Vec<u8>>, QuinnetError>(
                QuinnetError::UnknownClient(id),
            ) && final(self)@ == old(self)@,
            old(self)@.clients.contains_key(id) ==> ({
                let c = old(self)@.clients[id];
                &&& r.is_ok()
                &&& r.unwrap()@ == c.inbound[channel as int].messages
                &&& final(self)@ == (RegistryModel {
                    clients: old(self)@.clients.insert(
                        id,
                        ConnectionModel {
                            inbound: c.inbound.update(
                                channel as int,
                                ChannelModel { messages: Seq::empty(), ..c.inbound[channel as int] },
                            ),
                            ..c
                        },
                    ),
                    ..old(self)@
                })
            }),
    {
        match self.position(id) {
            None => Err(QuinnetError::UnknownClient(id)),
            Some(k) => {
                let ghost conns = self.connections@.map_values(|c: Connection| c@);
                proof {
                    lemma_client_map_get(self.ids@, conns, k as int);
                }
                let r = self.connections[k].poll_inbound(channel);
                proof {
                    lemma_client_map_update(self.ids@, conns, k as int, self.connections@[k as int]@);
                    assert(self.connections@.map_values(|c: Connection| c@) =~= conns.update(
                        k as int,
                        self.connections@[k as int]@,
                    ));
                    self.lemma_wf();
                }
                Ok(r)
            },
        }
    }

    /// Takes every payload queued on every inbound channel of client `id`,
    /// tagged with its channel index (see `Connection::poll_received`). Fails
    /// with `UnknownClient` when no such client is registered.
    pub fn poll_received(&mut self, id: ClientId) -> (r: Result<Vec<(usize, Vec<u8>)>, QuinnetError>)
        requires
            old(self).wf(),
        ensures
            final(self).wf(),
            !old(self)@.clients.contains_key(id) ==> r == Err::<Vec<(usize, Vec<u8>)>, QuinnetError>(
                QuinnetError::UnknownClient(id),
            ) && final(self)@ == old(self)@,
            old(self)@.clients.contains_key(id) ==> ({
                let c = old(self)@.clients[id];
                &&& r.is_ok()
                &&& r.unwrap()@ == tagged_messages(c.inbound, c.inbound.len())
                &&& final(self)@ == (RegistryModel {
                    clients: old(self)@.clients.insert(
                        id,
                        ConnectionModel {
                            inbound: c.inbound.map_values(
                                |m: ChannelModel| ChannelModel { messages: Seq::empty(), ..m },
                            ),
                            ..c
                        },
                    ),
                    ..old(self)@
                })
            }),
    {
        match self.position(id) {
            None => Err(QuinnetError::UnknownClient(id)),
            Some(k) => {
                let ghost conns = self.connections@.map_values(|c: Connection| c@);
                proof {
                    lemma_client_map_get(self.ids@, conns, k as int);
                }
                let r = self.connections[k].poll_received();
                proof {
                    lemma_client_map_update(self.ids@, conns, k as int, self.connections@[k as int]@);
                    assert(self.connections@.map_values(|c: Connection| c@) =~= conns.update(
                        k as int,
                        self.connections@[k as int]@,
                    ));
                    self.lemma_wf();
                }
                Ok(r)
            },
        }
    }

    /// Closes the connection of client `id` (see `Connection::close`); the
    /// client stays registered until its connection is removed. Fails with
    /// `UnknownClient` when no such client is registered.
    pub fn disconnect(&mut self, id: ClientId) -> (r: Result<(), QuinnetError>)
        requires
            old(self).wf(),
        ensures
            final(self).wf(),
            r.is_ok() == old(self)@.clients.contains_key(id),
            !old(self)@.clients.contains_key(id) ==> r == Err::<(), QuinnetError>(QuinnetError::UnknownClient(id))
                && final(self)@ == old(self)@,
            old(self)@.clients.contains_key(id) ==> exists|signal: Vec<u8>|
                signal@.len() == 0 && final(self)@ == (RegistryModel {
                    clients: old(self)@.clients.insert(id, after_close(old(self)@.clients[id], signal)),
                    ..old(self)@
                }),
    {
        match self.position(id) {
            None => Err(QuinnetError::UnknownClient(id)),
            Some(k) => {
                let ghost conns = self.connections@.map_values(|c: Connection| c@);
                proof {
                    lemma_client_map_get(self.ids@, conns, k as int);
                }
                self.connections[k].close();
                proof {
                    lemma_client_map_update(self.ids@, conns, k as int, self.connections@[k as int]@);
                    assert(self.connections@.map_values(|c: Connection| c@) =~= conns.update(
                        k as int,
                        self.connections@[k as int]@,
                    ));
                    self.lemma_wf();
                }
                Ok(())
            },
        }
    }

    /// Records that a keep-alive signal or data came from client `id` at
    /// time `now_s`. Fails with `UnknownClient` when no such client is
    /// registered.
    pub fn record_activity(&mut self, id: ClientId, now_s: u64) -> (r: Result<(), QuinnetError>)
        requires
            old(self).wf(),
        ensures
            final(self).wf(),
            r.is_ok() == old(self)@.clients.contains_key(id),
            !old(self)@.clients.contains_key(id) ==> r == Err::<(), QuinnetError>(QuinnetError::UnknownClient(id))
                && final(self)@ == old(self)@,
            old(self)@.clients.contains_key(id) ==> ({
                let c = old(self)@.clients[id];
                final(self)@ == (RegistryModel {
                    clients: old(self)@.clients.insert(
                        id,
                        ConnectionModel {
                            last_heard: if now_s > c.last_heard { now_s as nat } else { c.last_heard },
                            ..c
                        },
                    ),
                    ..old(self)@
                })
            }),
    {
        match self.position(id) {
            None => Err(QuinnetError::UnknownClient(id)),
            Some(k) => {
                let ghost conns = self.connections@.map_values(|c: Connection| c@);
                proof {
                    lemma_client_map_get(self.ids@, conns, k as int);
                }
                self.connections[k].record_activity(now_s);
                proof {
                    lemma_client_map_update(self.ids@, conns, k as int, self.connections@[k as int]@);
                    assert(self.connections@.map_values(|c: Connection| c@) =~= conns.update(
                        k as int,
                        self.connections@[k as int]@,
                    ));
                    self.lemma_wf();
                }
                Ok(())
            },
        }
    }
    /// The clients whose peer, at time `now_s`, has been silent for longer
    /// than the timeout multiple of the keep-alive interval, each once.
    pub fn idle_clients(&self, now_s: u64) -> (r: Vec<ClientId>)
        requires
            self.wf(),
        ensures
            r@.no_duplicates(),
            forall|id: ClientId| #[trigger] r@.contains(id) <==> self@.clients.contains_key(id)
                && keep_alive_expired(self@.clients[id], now_s as nat),
    {
        let ghost conns = self.connections@.map_values(|c: Connection| c@);
        let mut out: Vec<ClientId> = Vec::new();
        let mut k: usize = 0;
        while k < self.ids.len()
            invariant
                0 <= k <= self.ids.len(),
                self.inv(),
                conns == self.connections@.map_values(|c: Connection| c@),
                out@.no_duplicates(),
                forall|x: ClientId| #[trigger] out@.contains(x) <==> exists|j: int|
                    0 <= j < k && self.ids@[j] == x && keep_alive_expired(conns[j], now_s as nat),
            decreases self.ids.len() - k,
        {
            if self.connections[k].is_keep_alive_expired(now_s) {
                let x = self.ids[k];
                proof {
                    assert(!out@.contains(x)) by {
                        if out@.contains(x) {
                            let j = choose|j: int|
                                0 <= j < k && self.ids@[j] == x && keep_alive_expired(conns[j], now_s as nat);
                            assert(self.ids@[j] == self.ids@[k as int]);
                        }
                    }
                    assert(conns[k as int] == self.connections@[k as int]@);
                }
                let ghost prev = out@;
                out.push(x);
                proof {
                    assert(out@ == prev.push(x));
                    assert forall|y: ClientId| #[trigger] out@.contains(y) <==> exists|j: int|
                        0 <= j < k + 1 && self.ids@[j] == y && keep_alive_expired(conns[j], now_s as nat) by {
                        if out@.contains(y) {
                            if y == x {
                                assert(0 <= k < k + 1 && self.ids@[k as int] == y && keep_alive_expired(conns[k as int], now_s as nat));
                            } else {
                                let i = choose|i: int| 0 <= i < out@.len() && out@[i] == y;
                                assert(i < prev.len());
                                assert(prev[i] == y);
                                assert(prev.contains(y));
                            }
                        }
                        if exists|j: int| 0 <= j < k + 1 && self.ids@[j] == y && keep_alive_expired(conns[j], now_s as nat) {
                            let j = choose|j: int| 0 <= j < k + 1 && self.ids@[j] == y && keep_alive_expired(conns[j], now_s as nat);
                            if j == k {
                                assert(out@[prev.len() as int] == y);
                            } else {
                                assert(prev.contains(y));
                                let i = choose|i: int| 0 <= i < prev.len() && prev[i] == y;
                                assert(out@[i] == y);
                            }
                        }
                    }
                }
            } else {
                proof {
                    assert(conns[k as int] == self.connections@[k as int]@);
                }
            }
            k += 1;
        }
        proof {
            assert forall|id: ClientId| #[trigger] out@.contains(id) <==> self@.clients.contains_key(id)
                && keep_alive_expired(self@.clients[id], now_s as nat) by {
                if self@.clients.contains_key(id) {
                    let j = choose|j: int| 0 <= j < self.ids.len() && self.ids@[j] == id;
                    lemma_client_map_get(self.ids@, conns, j);
                }
                if out@.contains(id) {
                    let j = choose|j: int|
                        0 <= j < k && self.ids@[j] == id && keep_alive_expired(conns[j], now_s as nat);
                    lemma_client_map_get(self.ids@, conns, j);
                }
            }
        }
        out
    }

    /// Removes every client whose peer, at time `now_s`, has been silent for
    /// longer than the timeout multiple of the keep-alive interval, and
    /// returns their identifiers. The other clients stay as they were.
    pub fn expire_idle(&mut self, now_s: u64) -> (r: Vec<ClientId>)
        requires
            old(self).wf(),
        ensures
            final(self).wf(),
            r@.no_duplicates(),
            forall|id: ClientId| #[trigger] r@.contains(id) <==> old(self)@.clients.contains_key(id)
                && keep_alive_expired(old(self)@.clients[id], now_s as nat),
            final(self)@ == (RegistryModel {
                clients: Map::new(
                    |id: ClientId| old(self)@.clients.contains_key(id) && !keep_alive_expired(
                        old(self)@.clients[id],
                        now_s as nat,
                    ),
                    |id: ClientId| old(self)@.clients[id],
                ),
                ..old(self)@
            }),
    {
        let idle = self.idle_clients(now_s);
        let mut k: usize = 0;
        while k < idle.len()
            invariant
                0 <= k <= idle.len(),
                self.wf(),
                self@.next_id == old(self)@.next_id,
                self@.num_channels == old(self)@.num_channels,
                forall|id: ClientId| #[trigger] idle@.contains(id) <==> old(self)@.clients.contains_key(id)
                    && keep_alive_expired(old(self)@.clients[id], now_s as nat),
                forall|id: ClientId| #[trigger] self@.clients.contains_key(id) <==> old(self)@.clients.contains_key(id)
                    && !idle@.take(k as int).contains(id),
                forall|id: ClientId| #[trigger] self@.clients.contains_key(id) ==> self@.clients[id] == old(
                    self,
                )@.clients[id],
            decreases idle.len() - k,
        {
            let x = idle[k];
            self.remove(x);
            proof {
                assert(idle@.take(k + 1) =~= idle@.take(k as int).push(x));
                assert forall|id: ClientId| idle@.take(k + 1).contains(id) <==> (idle@.take(k as int).contains(id)
                    || id == x) by {
                    if idle@.take(k as int).contains(id) {
                        let i = choose|i: int| 0 <= i < idle@.take(k as int).len() && #[trigger] idle@.take(k as int)[i] == id;
                        assert(idle@.take(k + 1)[i] == id);
                    }
                    if id == x {
                        assert(idle@.take(k + 1)[k as int] == id);
                    }
                    if idle@.take(k + 1).contains(id) && id != x {
                        let i = choose|i: int| 0 <= i < idle@.take(k + 1).len() && #[trigger] idle@.take(k + 1)[i] == id;
                        assert(idle@.take(k as int)[i] == id);
                    }
                }
            }
            k += 1;
        }
        proof {
            assert(idle@.take(k as int) =~= idle@);
            assert(self@.clients =~= Map::new(
                |id: ClientId| old(self)@.clients.contains_key(id) && !keep_alive_expired(
                    old(self)@.clients[id],
                    now_s as nat,
                ),
                |id: ClientId| old(self)@.clients[id],
            ));
        }
        idle
    }
}

proof fn lemma_next_id_monotonic(states: Seq<RegistryModel>, a: int, b: int)
    requires
        0 <= a <= b < states.len(),
        forall|i: int| 0 <= i < states.len() - 1 ==> states[i].next_id < #[trigger] states[i + 1].next_id,
    ensures
        states[a].next_id <= states[b].next_id,
        a < b ==> states[a].next_id < states[b].next_id,
    decreases b - a,
{
    if a < b {
        lemma_next_id_monotonic(states, a, b - 1);
        assert(states[b - 1].next_id < states[(b - 1) + 1].next_id);
    }
}

/// Identifiers handed out by successive assignments are pairwise distinct.
///
/// `states[i]` is the registry when the `i`-th assignment hands out
/// `ids[i]`, its next identifier; `states[i + 1]` is the registry when the
/// following one starts, after any other operations in between (none of
/// which lowers the next identifier). Every identifier issued is below the
/// next identifier of the last state, so none is issued again later.
pub proof fn lemma_assigned_ids_distinct(states: Seq<RegistryModel>, ids: Seq<ClientId>)
    requires
        states.len() == ids.len() + 1,
        forall|i: int| 0 <= i < ids.len() ==> #[trigger] ids[i] == states[i].next_id,
        forall|i: int| 0 <= i < ids.len() ==> states[i].next_id < #[trigger] states[i + 1].next_id,
    ensures
        ids.no_duplicates(),
        forall|i: int| 0 <= i < ids.len() ==> #[trigger] ids[i] < states.last().next_id,
{
    assert forall|i: int| 0 <= i < states.len() - 1 implies states[i].next_id < #[trigger] states[i + 1].next_id by {
        assert(i < ids.len());
    }
    assert forall|a: int, b: int| 0 <= a < ids.len() && 0 <= b < ids.len() && a != b implies ids[a] != ids[b] by {
        if a < b {
            lemma_next_id_monotonic(states, a, b);
        } else {
            lemma_next_id_monotonic(states, b, a);
        }
    }
    assert forall|i: int| 0 <= i < ids.len() implies #[trigger] ids[i] < states.last().next_id by {
        lemma_next_id_monotonic(states, i, states.len() - 1);
    }
}

} // verus!
