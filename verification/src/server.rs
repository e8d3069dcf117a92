//! The broker: the single owner of the channel table and the
//! connections list.
//!
//! The broker is written as a state machine over plain values: accepting
//! a peer, dispatching one inbound event, and tearing a session down are
//! each a function from the old state to the new state plus the messages
//! to deliver, stated by the spec functions and proved of the executable
//! methods. The transport layer around the library performs the actual
//! sends.

use vstd::prelude::*;
use crate::channel::{Channel, ChannelV};
use crate::id_manager::IDManager;
use crate::protocol::{ChannelID, ChannelInfo, ChannelInfoV, Event, EventV, NodeID};

verus! {

/// Failure of a listen request: the session already listens there.
pub enum ListenError {
    AlreadyListening,
}

/// One live peer connection as the broker sees it: its node ID and the
/// set of channels it listens on. The outbound half of its socket stays
/// with the transport layer.
pub struct Client {
    node_id: NodeID,
    listening_channels: Vec<ChannelID>,
}

/// Mathematical view of a [`Client`].
#[verifier::ext_equal]
pub ghost struct ClientV {
    pub node_id: u64,
    pub listening: Seq<u64>,
}

impl View for Client {
    type V = ClientV;

    closed spec fn view(&self) -> ClientV {
        ClientV { node_id: self.node_id, listening: self.listening_channels@ }
    }
}

impl Client {
    pub fn new(node_id: NodeID) -> (r: Self)
        ensures
            r@ == (ClientV { node_id, listening: Seq::empty() }),
    {
        Client { node_id, listening_channels: Vec::new() }
    }

    pub fn node_id(&self) -> (r: NodeID)
        ensures
            r == self@.node_id,
    {
        self.node_id
    }

    pub fn is_listening(&self, channel: ChannelID) -> (r: bool)
        ensures
            r == self@.listening.contains(channel),
    {
        let mut i: usize = 0;
        while i < self.listening_channels.len()
            invariant
                i <= self.listening_channels.len(),
                forall|k: int| 0 <= k < i ==> self.listening_channels@[k] != channel,
            decreases self.listening_channels.len() - i,
        {
            if self.listening_channels[i] == channel {
                return true;
            }
            i += 1;
        }
        false
    }

    /// Add `channel` to the listening set; duplicates are rejected and
    /// leave the set unchanged.
    pub fn listen(&mut self, channel: ChannelID) -> (r: Result<(), ListenError>)
        ensures
            ({
                if old(self)@.listening.contains(channel) {
                    r matches Err(ListenError::AlreadyListening) && final(self)@ == old(self)@
                } else {
                    r matches Ok(()) && final(self)@ == (ClientV {
                        node_id: old(self)@.node_id,
                        listening: old(self)@.listening.push(channel),
                    })
                }
            }),
    {
        if !self.is_listening(channel) {
            self.listening_channels.push(channel);
            Ok(())
        } else {
            Err(ListenError::AlreadyListening)
        }
    }
}

/// Mathematical view of the whole broker.
#[verifier::ext_equal]
pub ghost struct ServerV {
    pub next_node_id: u64,
    pub next_channel_id: u64,
    pub channels: Seq<ChannelV>,
    pub connections: Seq<ClientV>,
}

/// Consistency of the broker state: identifiers start at 1 and stay
/// below their counters, no two sessions share a node ID, no two
/// channels share a channel ID, and no listening set holds duplicates.
pub open spec fn server_wf(s: ServerV) -> bool {
    &&& 1 <= s.next_node_id
    &&& 1 <= s.next_channel_id
    &&& forall|i: int|
        0 <= i < s.connections.len() ==> 1 <= (#[trigger] s.connections[i]).node_id
            < s.next_node_id
    &&& forall|i: int, j: int|
        0 <= i < j < s.connections.len() ==> s.connections[i].node_id
            != s.connections[j].node_id
    &&& forall|i: int|
        0 <= i < s.connections.len() ==> (#[trigger] s.connections[i]).listening.no_duplicates()
    &&& forall|i: int|
        0 <= i < s.channels.len() ==> 1 <= (#[trigger] s.channels[i]).id < s.next_channel_id
    &&& forall|i: int, j: int|
        0 <= i < j < s.channels.len() ==> s.channels[i].id != s.channels[j].id
}

/// Whether node `n` currently has a session.
pub open spec fn connected(s: ServerV, n: u64) -> bool {
    exists|i: int| 0 <= i < s.connections.len() && (#[trigger] s.connections[i]).node_id == n
}

/// Whether the session of node `n` listens on `ch`.
pub open spec fn client_listening(conns: Seq<ClientV>, n: u64, ch: u64) -> bool {
    exists|i: int|
        0 <= i < conns.len() && (#[trigger] conns[i]).node_id == n && conns[i].listening.contains(
            ch,
        )
}

/// The deliveries of one broadcast: one copy of `ev` to every connected
/// session that listens on `channel`, except the sender, in connection
/// order.
pub open spec fn spec_deliveries(
    conns: Seq<ClientV>,
    channel: u64,
    from: u64,
    ev: EventV,
) -> Seq<(u64, EventV)>
    decreases conns.len(),
{
    if conns.len() == 0 {
        Seq::empty()
    } else {
        let rest = spec_deliveries(conns.drop_last(), channel, from, ev);
        let c = conns.last();
        if c.node_id != from && c.listening.contains(channel) {
            rest.push((c.node_id, ev))
        } else {
            rest
        }
    }
}

/// The connections after node `from` starts listening on `ch`:
/// only that session changes, and only if it was not listening yet.
pub open spec fn spec_listen_conns(conns: Seq<ClientV>, from: u64, ch: u64) -> Seq<ClientV> {
    conns.map_values(
        |c: ClientV|
            if c.node_id == from && !c.listening.contains(ch) {
                ClientV { node_id: c.node_id, listening: c.listening.push(ch) }
            } else {
                c
            },
    )
}

/// The connections that survive the disconnect of node `n`.
pub open spec fn remove_conns(conns: Seq<ClientV>, n: u64) -> Seq<ClientV>
    decreases conns.len(),
{
    if conns.len() == 0 {
        Seq::empty()
    } else {
        let rest = remove_conns(conns.drop_last(), n);
        if conns.last().node_id != n {
            rest.push(conns.last())
        } else {
            rest
        }
    }
}

/// The channels that survive the disconnect of their supplier `n`.
pub open spec fn remove_chans(chans: Seq<ChannelV>, n: u64) -> Seq<ChannelV>
    decreases chans.len(),
{
    if chans.len() == 0 {
        Seq::empty()
    } else {
        let rest = remove_chans(chans.drop_last(), n);
        if chans.last().supplied_by != n {
            rest.push(chans.last())
        } else {
            rest
        }
    }
}

/// The identifiers of all current channels, in table order.
pub open spec fn spec_channel_ids(chans: Seq<ChannelV>) -> Seq<u64> {
    chans.map_values(|c: ChannelV| c.id)
}

/// Whether a channel with identifier `id` exists.
pub open spec fn has_channel(chans: Seq<ChannelV>, id: u64) -> bool {
    exists|i: int| 0 <= i < chans.len() && (#[trigger] chans[i]).id == id
}

/// The channel record with identifier `id`, if any.
pub open spec fn spec_find_channel(chans: Seq<ChannelV>, id: u64) -> Option<ChannelV> {
    if has_channel(chans, id) {
        let i = choose|i: int| 0 <= i < chans.len() && (#[trigger] chans[i]).id == id;
        Some(chans[i])
    } else {
        None
    }
}

/// View of a list of (destination, event) messages.
pub open spec fn msgs_view(msgs: Seq<(NodeID, Event)>) -> Seq<(u64, EventV)> {
    msgs.map_values(|m: (NodeID, Event)| (m.0, m.1@))
}

/// The broker after accepting a new peer, and the node ID it was given.
pub open spec fn accept_spec(s: ServerV) -> (ServerV, u64) {
    let n = s.next_node_id;
    (
        ServerV {
            next_node_id: (s.next_node_id + 1) as u64,
            connections: s.connections.push(ClientV { node_id: n, listening: Seq::empty() }),
            ..s
        },
        n,
    )
}

/// The broker after the session of node `n` goes away: the session is
/// removed, then every channel it supplied is revoked.
pub open spec fn disconnect_spec(s: ServerV, n: u64) -> ServerV {
    ServerV {
        connections: remove_conns(s.connections, n),
        channels: remove_chans(s.channels, n),
        ..s
    }
}

/// The broker request dispatcher: what one inbound event from the
/// session of node `from` does to the state, and which messages go out
/// in response. Data events fan out to the other listeners; requests
/// are answered to the sender alone; responses and notifications from a
/// client are ignored.
pub open spec fn dispatch_spec(s: ServerV, from: u64, e: EventV) -> (ServerV, Seq<(u64, EventV)>) {
    match e {
        EventV::Data { channel, data } => (s, spec_deliveries(s.connections, channel, from, e)),
        EventV::DataBin { channel, data } => (s, spec_deliveries(s.connections, channel, from, e)),
        EventV::ChannelOpenRequest { name } => {
            let cid = s.next_channel_id;
            let s2 = ServerV {
                next_channel_id: (s.next_channel_id + 1) as u64,
                channels: s.channels.push(ChannelV { id: cid, name, supplied_by: from }),
                ..s
            };
            (s2, seq![(from, EventV::ChannelOpenResponse { channel: cid, success: true })])
        },
        EventV::ChannelListenRequest { channel } => {
            let success = !client_listening(s.connections, from, channel);
            let s2 = ServerV { connections: spec_listen_conns(s.connections, from, channel), ..s };
            (s2, seq![(from, EventV::ChannelListenResponse { channel, success })])
        },
        EventV::ChannelCloseRequest { channel } => (s, Seq::empty()),
        EventV::ChannelListRequest => (
            s,
            seq![
                (from, EventV::ChannelListResponse { channels: spec_channel_ids(s.channels) }),
            ],
        ),
        EventV::ChannelInfoRequest(channel) => match spec_find_channel(s.channels, channel) {
            Some(c) => (
                s,
                seq![
                    (
                        from,
                        EventV::ChannelInfoResponse(
                            ChannelInfoV { channel, name: c.name, supplied_by: c.supplied_by },
                        ),
                    ),
                ],
            ),
            None => (s, Seq::empty()),
        },
        _ => (s, Seq::empty()),
    }
}

/// The broker state: identifier counters, the channel table, and the
/// connected sessions.
pub struct Server {
    node_id_manager: IDManager,
    channel_id_manager: IDManager,
    channels: Vec<Channel>,
    connections: Vec<Client>,
}

impl View for Server {
    type V = ServerV;

    closed spec fn view(&self) -> ServerV {
        ServerV {
            next_node_id: self.node_id_manager@,
            next_channel_id: self.channel_id_manager@,
            channels: self.channels@.map_values(|c: Channel| c@),
            connections: self.connections@.map_values(|c: Client| c@),
        }
    }
}

impl Server {
    pub open spec fn wf(&self) -> bool {
        server_wf(self@)
    }

    /// A fresh broker: no channels, no sessions, both counters at 1.
    pub fn new_default() -> (r: Self)
        ensures
            r@ == (ServerV {
                next_node_id: 1,
                next_channel_id: 1,
                channels: Seq::empty(),
                connections: Seq::empty(),
            }),
            r.wf(),
    {
        let r = Server {
            node_id_manager: IDManager::new(),
            channel_id_manager: IDManager::new(),
            channels: Vec::new(),
            connections: Vec::new(),
        };
        proof {
            assert(r@.channels =~= Seq::<ChannelV>::empty());
            assert(r@.connections =~= Seq::<ClientV>::empty());
        }
        r
    }

    /// Allocate a fresh node ID.
    pub fn get_new_node_id(&mut self) -> (id: NodeID)
        requires
            old(self)@.next_node_id < u64::MAX,
        ensures
            id == old(self)@.next_node_id,
            final(self)@ == (ServerV { next_node_id: (old(self)@.next_node_id + 1) as u64, ..old(self)@ }),
    {
        self.node_id_manager.get_new_id()
    }

    /// Register a freshly accepted session.
    pub fn add_connection(&mut self, client: Client)
        ensures
            final(self)@ == (ServerV {
                connections: old(self)@.connections.push(client@),
                ..old(self)@
            }),
    {
        let ghost pre = self@;
        self.connections.push(client);
        proof {
            assert(self@.connections =~= pre.connections.push(self.connections@.last()@));
        }
    }

    /// Accept one peer: allocate its node ID, register its session, and
    /// hand back the node-ID notification owed as the first message on
    /// the fresh connection.
    pub fn accept(&mut self) -> (r: (NodeID, Event))
        requires
            old(self).wf(),
            old(self)@.next_node_id < u64::MAX,
        ensures
            final(self).wf(),
            final(self)@ == accept_spec(old(self)@).0,
            r.0 == accept_spec(old(self)@).1,
            r.1@ == (EventV::NodeIDNotification { node_id: r.0 }),
    {
        let node_id = self.get_new_node_id();
        self.add_connection(Client::new(node_id));
        (node_id, Event::NodeIDNotification { node_id })
    }

    /// Create a channel supplied by `supplied_by` and return its fresh
    /// identifier.
    pub fn new_channel(&mut self, name: String, supplied_by: NodeID) -> (cid: ChannelID)
        requires
            old(self)@.next_channel_id < u64::MAX,
        ensures
            cid == old(self)@.next_channel_id,
            final(self)@ == (ServerV {
                next_channel_id: (old(self)@.next_channel_id + 1) as u64,
                channels: old(self)@.channels.push(
                    ChannelV { id: cid, name: name@, supplied_by },
                ),
                ..old(self)@
            }),
    {
        let cid = self.channel_id_manager.get_new_id();
        let ghost pre = self@;
        let ghost namev = name@;
        let channel = Channel::new(cid, name, supplied_by);
        self.channels.push(channel);
        proof {
            assert(self@.channels =~= pre.channels.push(
                ChannelV { id: cid, name: namev, supplied_by },
            ));
        }
        cid
    }

    /// The messages of one text broadcast: every other session listening
    /// on `channel` gets one copy.
    pub fn broadcast_data(&self, channel: ChannelID, data: String, from: NodeID) -> (out: Vec<
        (NodeID, Event),
    >)
        ensures
            msgs_view(out@) == spec_deliveries(
                self@.connections,
                channel,
                from,
                EventV::Data { channel, data: data@ },
            ),
    {
        let ghost ev = EventV::Data { channel, data: data@ };
        let mut out: Vec<(NodeID, Event)> = Vec::new();
        let mut i: usize = 0;
        while i < self.connections.len()
            invariant
                i <= self.connections.len(),
                msgs_view(out@) == spec_deliveries(
                    self@.connections.take(i as int),
                    channel,
                    from,
                    ev,
                ),
                ev == (EventV::Data { channel, data: data@ }),
            decreases self.connections.len() - i,
        {
            let ghost conns = self@.connections;
            proof {
                assert(conns.take(i + 1).drop_last() =~= conns.take(i as int));
                assert(conns.take(i + 1).last() == conns[i as int]);
            }
            let c = &self.connections[i];
            if c.node_id() != from && c.is_listening(channel) {
                let ghost before = msgs_view(out@);
                out.push((c.node_id(), Event::Data { channel, data: data.clone() }));
                proof {
                    assert(msgs_view(out@) =~= before.push((conns[i as int].node_id, ev)));
                }
            }
            i += 1;
        }
        proof {
            assert(self@.connections.take(self@.connections.len() as int) =~= self@.connections);
        }
        out
    }

    /// The messages of one binary broadcast.
    pub fn broadcast_bin_data(&self, channel: ChannelID, data: Vec<u8>, from: NodeID) -> (out: Vec<
        (NodeID, Event),
    >)
        ensures
            msgs_view(out@) == spec_deliveries(
                self@.connections,
                channel,
                from,
                EventV::DataBin { channel, data: data@ },
            ),
    {
        let ghost ev = EventV::DataBin { channel, data: data@ };
        let mut out: Vec<(NodeID, Event)> = Vec::new();
        let mut i: usize = 0;
        while i < self.connections.len()
            invariant
                i <= self.connections.len(),
                msgs_view(out@) == spec_deliveries(
                    self@.connections.take(i as int),
                    channel,
                    from,
                    ev,
                ),
                ev == (EventV::DataBin { channel, data: data@ }),
            decreases self.connections.len() - i,
        {
            let ghost conns = self@.connections;
            proof {
                assert(conns.take(i + 1).drop_last() =~= conns.take(i as int));
                assert(conns.take(i + 1).last() == conns[i as int]);
            }
            let c = &self.connections[i];
            if c.node_id() != from && c.is_listening(channel) {
                let ghost before = msgs_view(out@);
                let copy = clone_bytes(&data);
                out.push((c.node_id(), Event::DataBin { channel, data: copy }));
                proof {
                    assert(msgs_view(out@) =~= before.push((conns[i as int].node_id, ev)));
                }
            }
            i += 1;
        }
        proof {
            assert(self@.connections.take(self@.connections.len() as int) =~= self@.connections);
        }
        out
    }

    /// Remove the session of `node_id`, then every channel it supplied.
    /// The session goes first, so that an in-flight broadcast snapshot
    /// can no longer name it.
    pub fn remove_connection(&mut self, node_id: NodeID)
        ensures
            final(self)@ == disconnect_spec(old(self)@, node_id),
    {
        let ghost orig = self@;

        let mut kept: Vec<Client> = Vec::new();
        core::mem::swap(&mut kept, &mut self.connections);
        let ghost pending = orig.connections;
        let n = kept.len();
        for i in 0..n
            invariant
                kept.len() == n - i,
                pending.len() == n,
                pending == orig.connections,
                forall|j: int| 0 <= j < kept.len() ==> (#[trigger] kept@[j])@ == pending[i + j],
                self.connections@.map_values(|c: Client| c@) == remove_conns(
                    pending.take(i as int),
                    node_id,
                ),
                self.channels@.map_values(|c: Channel| c@) == orig.channels,
                self.node_id_manager@ == orig.next_node_id,
                self.channel_id_manager@ == orig.next_channel_id,
        {
            proof {
                assert(pending.take(i + 1).drop_last() =~= pending.take(i as int));
                assert(pending.take(i + 1).last() == pending[i as int]);
            }
            let ghost conns_before = self.connections@.map_values(|c: Client| c@);
            let c = kept.remove(0);
            proof {
                assert(c@ == pending[i as int]);
            }
            if c.node_id() != node_id {
                self.connections.push(c);
                proof {
                    assert(self.connections@.map_values(|k: Client| k@) =~= conns_before.push(
                        pending[i as int],
                    ));
                }
            }
            proof {
                assert(self.connections@.map_values(|c: Client| c@) =~= remove_conns(
                    pending.take(i + 1),
                    node_id,
                ));
            }
        }
        proof {
            assert(pending.take(n as int) =~= pending);
        }

        let mut kept_ch: Vec<Channel> = Vec::new();
        core::mem::swap(&mut kept_ch, &mut self.channels);
        let ghost pendch = orig.channels;
        let m = kept_ch.len();
        for i in 0..m
            invariant
                kept_ch.len() == m - i,
                pendch.len() == m,
                pendch == orig.channels,
                forall|j: int| 0 <= j < kept_ch.len() ==> (#[trigger] kept_ch@[j])@ == pendch[i + j],
                self.channels@.map_values(|c: Channel| c@) == remove_chans(
                    pendch.take(i as int),
                    node_id,
                ),
                self.connections@.map_values(|c: Client| c@) == remove_conns(
                    orig.connections,
                    node_id,
                ),
                self.node_id_manager@ == orig.next_node_id,
                self.channel_id_manager@ == orig.next_channel_id,
        {
            proof {
                assert(pendch.take(i + 1).drop_last() =~= pendch.take(i as int));
                assert(pendch.take(i + 1).last() == pendch[i as int]);
            }
            let ghost chans_before = self.channels@.map_values(|c: Channel| c@);
            let c = kept_ch.remove(0);
            proof {
                assert(c@ == pendch[i as int]);
            }
            if c.supplied_by() != node_id {
                self.channels.push(c);
                proof {
                    assert(self.channels@.map_values(|k: Channel| k@) =~= chans_before.push(
                        pendch[i as int],
                    ));
                }
            }
            proof {
                assert(self.channels@.map_values(|c: Channel| c@) =~= remove_chans(
                    pendch.take(i + 1),
                    node_id,
                ));
            }
        }
        proof {
            assert(pendch.take(m as int) =~= pendch);
            assert(self@ =~= disconnect_spec(orig, node_id));
        }
    }

    /// A snapshot of all current channel identifiers.
    pub fn get_channel_ids(&self) -> (out: Vec<ChannelID>)
        ensures
            out@ == spec_channel_ids(self@.channels),
    {
        let mut out: Vec<ChannelID> = Vec::new();
        let mut i: usize = 0;
        while i < self.channels.len()
            invariant
                i <= self.channels.len(),
                out@ =~= spec_channel_ids(self@.channels.take(i as int)),
            decreases self.channels.len() - i,
        {
            out.push(self.channels[i].id());
            proof {
                assert(out@ =~= spec_channel_ids(self@.channels.take(i + 1)));
            }
            i += 1;
        }
        proof {
            assert(self@.channels.take(self@.channels.len() as int) =~= self@.channels);
        }
        out
    }

    /// Look one channel up by its identifier.
    pub fn get_channel(&self, channel_id: ChannelID) -> (r: Option<&Channel>)
        requires
            self.wf(),
        ensures
            match r {
                Some(c) => spec_find_channel(self@.channels, channel_id) == Some(c@),
                None => spec_find_channel(self@.channels, channel_id) is None,
            },
    {
        let mut i: usize = 0;
        while i < self.channels.len()
            invariant
                self.wf(),
                i <= self.channels.len(),
                forall|k: int| 0 <= k < i ==> (#[trigger] self@.channels[k]).id != channel_id,
            decreases self.channels.len() - i,
        {
            if self.channels[i].id() == channel_id {
                proof {
                    assert(self@.channels[i as int].id == channel_id);
                    assert(has_channel(self@.channels, channel_id));
                    let j = choose|j: int|
                        0 <= j < self@.channels.len() && (#[trigger] self@.channels[j]).id
                            == channel_id;
                    if j < i as int {
                        assert(self@.channels[j].id != self@.channels[i as int].id);
                    }
                    if j > i as int {
                        assert(self@.channels[i as int].id != self@.channels[j].id);
                    }
                }
                return Some(&self.channels[i]);
            }
            i += 1;
        }
        None
    }

    /// The node identifier the next accept will hand out.
    pub fn next_node_id(&self) -> (r: NodeID)
        ensures
            r == self@.next_node_id,
    {
        self.node_id_manager.next_id()
    }

    /// The channel identifier the next open will hand out.
    pub fn next_channel_id(&self) -> (r: ChannelID)
        ensures
            r == self@.next_channel_id,
    {
        self.channel_id_manager.next_id()
    }

    /// Whether node `node_id` currently has a session.
    pub fn has_connection(&self, node_id: NodeID) -> (r: bool)
        ensures
            r == connected(self@, node_id),
    {
        match self.find_connection(node_id) {
            Some(_) => true,
            None => false,
        }
    }

    /// The index of the session of `node_id`, if connected.
    fn find_connection(&self, node_id: NodeID) -> (r: Option<usize>)
        ensures
            match r {
                Some(j) => j < self@.connections.len() && self@.connections[j as int].node_id
                    == node_id,
                None => !connected(self@, node_id),
            },
    {
        let mut j: usize = 0;
        while j < self.connections.len()
            invariant
                j <= self.connections.len(),
                forall|k: int| 0 <= k < j ==> (#[trigger] self@.connections[k]).node_id != node_id,
            decreases self.connections.len() - j,
        {
            if self.connections[j].node_id() == node_id {
                return Some(j);
            }
            j += 1;
        }
        None
    }

    /// Record that the session of `from` listens on `channel`. The
    /// reported success is false exactly on an idempotent duplicate,
    /// which leaves the listening set unchanged.
    fn listen_connection(&mut self, from: NodeID, channel: ChannelID) -> (success: bool)
        requires
            old(self).wf(),
            connected(old(self)@, from),
        ensures
            final(self).wf(),
            final(self)@ == (ServerV {
                connections: spec_listen_conns(old(self)@.connections, from, channel),
                ..old(self)@
            }),
            success == !client_listening(old(self)@.connections, from, channel),
    {
        let ghost orig = self@;
        let j = match self.find_connection(from) {
            Some(j) => j,
            None => {
                proof {
                    assert(false);
                }
                0
            },
        };
        let ghost oldc = orig.connections[j as int];
        proof {
            lemma_client_listening_at(orig, j as int, channel);
        }
        let mut c = self.connections.remove(j);
        let outcome = c.listen(channel);
        self.connections.insert(j, c);
        proof {
            let conns2 = self@.connections;
            let want = spec_listen_conns(orig.connections, from, channel);
            assert forall|k: int| 0 <= k < conns2.len() implies conns2[k] == want[k] by {
                if k < j as int || k > j as int {
                    assert(orig.connections[k].node_id != orig.connections[j as int].node_id);
                }
            }
            assert(conns2 =~= want);
            assert(self@ =~= (ServerV { connections: want, ..orig }));
            if !oldc.listening.contains(channel) {
                lemma_push_no_dup(oldc.listening, channel);
            }
            assert forall|i: int, jj: int|
                0 <= i < jj < conns2.len() implies conns2[i].node_id != conns2[jj].node_id by {
                assert(orig.connections[i].node_id != orig.connections[jj].node_id);
            }
            assert(final(self).wf());
        }
        match outcome {
            Ok(()) => true,
            Err(ListenError::AlreadyListening) => false,
        }
    }

    /// Apply one inbound event from the session of node `from`:
    /// the broker request dispatcher of the event table. Returns the
    /// messages to deliver, in order.
    pub fn dispatch_event(&mut self, from: NodeID, event: Event) -> (out: Vec<(NodeID, Event)>)
        requires
            old(self).wf(),
            connected(old(self)@, from),
            old(self)@.next_channel_id < u64::MAX,
        ensures
            final(self).wf(),
            final(self)@ == dispatch_spec(old(self)@, from, event@).0,
            msgs_view(out@) == dispatch_spec(old(self)@, from, event@).1,
    {
        let ghost orig = self@;
        match event {
            Event::Data { channel, data } => {
                let out = self.broadcast_data(channel, data, from);
                out
            },
            Event::DataBin { channel, data } => {
                let out = self.broadcast_bin_data(channel, data, from);
                out
            },
            Event::ChannelOpenRequest { name } => {
                let ghost namev = name@;
                let cid = self.new_channel(name, from);
                let mut out: Vec<(NodeID, Event)> = Vec::new();
                out.push((from, Event::ChannelOpenResponse { channel: cid, success: true }));
                proof {
                    lemma_open_wf(orig, from, namev);
                    assert(msgs_view(out@) =~= dispatch_spec(
                        orig,
                        from,
                        EventV::ChannelOpenRequest { name: namev },
                    ).1);
                }
                out
            },
            Event::ChannelListenRequest { channel } => {
                let success = self.listen_connection(from, channel);
                let mut out: Vec<(NodeID, Event)> = Vec::new();
                out.push((from, Event::ChannelListenResponse { channel, success }));
                proof {
                    assert(msgs_view(out@) =~= dispatch_spec(
                        orig,
                        from,
                        EventV::ChannelListenRequest { channel },
                    ).1);
                }
                out
            },
            Event::ChannelCloseRequest { channel } => {
                let out: Vec<(NodeID, Event)> = Vec::new();
                proof {
                    assert(msgs_view(out@) =~= Seq::<(u64, EventV)>::empty());
                }
                out
            },
            Event::ChannelListRequest => {
                let channels = self.get_channel_ids();
                let mut out: Vec<(NodeID, Event)> = Vec::new();
                out.push((from, Event::ChannelListResponse { channels }));
                proof {
                    assert(msgs_view(out@) =~= dispatch_spec(orig, from, EventV::ChannelListRequest).1);
                }
                out
            },
            Event::ChannelInfoRequest(channel) => {
                let mut out: Vec<(NodeID, Event)> = Vec::new();
                match self.get_channel(channel) {
                    Some(c) => {
                        let info = ChannelInfo {
                            channel,
                            name: c.name_owned(),
                            supplied_by: c.supplied_by(),
                        };
                        out.push((from, Event::ChannelInfoResponse(info)));
                        proof {
                            assert(msgs_view(out@) =~= dispatch_spec(
                                orig,
                                from,
                                EventV::ChannelInfoRequest(channel),
                            ).1);
                        }
                    },
                    None => {
                        proof {
                            assert(msgs_view(out@) =~= Seq::<(u64, EventV)>::empty());
                        }
                    },
                }
                out
            },
            _ => {
                let out: Vec<(NodeID, Event)> = Vec::new();
                proof {
                    assert(msgs_view(out@) =~= Seq::<(u64, EventV)>::empty());
                }
                out
            },
        }
    }
}


/// Appending a fresh element keeps a sequence duplicate-free.
proof fn lemma_push_no_dup(s: Seq<u64>, x: u64)
    requires
        s.no_duplicates(),
        !s.contains(x),
    ensures
        s.push(x).no_duplicates(),
{
    assert forall|i: int, j: int| 0 <= i < j < s.push(x).len() implies s.push(x)[i] != s.push(x)[j] by {
        if j == s.len() {
            assert(s[i] == s.push(x)[i]);
        }
    }
}

/// Under distinct node IDs, whether node `s.connections[j].node_id`
/// listens on `ch` is decided by that one session.
proof fn lemma_client_listening_at(s: ServerV, j: int, ch: u64)
    requires
        server_wf(s),
        0 <= j < s.connections.len(),
    ensures
        client_listening(s.connections, s.connections[j].node_id, ch)
            == s.connections[j].listening.contains(ch),
{
    let n = s.connections[j].node_id;
    if client_listening(s.connections, n, ch) {
        let i = choose|i: int|
            0 <= i < s.connections.len() && (#[trigger] s.connections[i]).node_id == n
                && s.connections[i].listening.contains(ch);
        if i < j {
            assert(s.connections[i].node_id != s.connections[j].node_id);
        }
        if i > j {
            assert(s.connections[j].node_id != s.connections[i].node_id);
        }
    }
    if s.connections[j].listening.contains(ch) {
        assert(0 <= j < s.connections.len() && (#[trigger] s.connections[j]).node_id == n
            && s.connections[j].listening.contains(ch));
    }
}

/// Opening a channel preserves broker consistency: the fresh channel
/// gets the one identifier no existing channel can carry.
proof fn lemma_open_wf(s: ServerV, from: u64, name: Seq<char>)
    requires
        server_wf(s),
        s.next_channel_id < u64::MAX,
    ensures
        server_wf(dispatch_spec(s, from, EventV::ChannelOpenRequest { name }).0),
{
    let s2 = dispatch_spec(s, from, EventV::ChannelOpenRequest { name }).0;
    assert forall|i: int, j: int| 0 <= i < j < s2.channels.len() implies s2.channels[i].id
        != s2.channels[j].id by {
        if j < s.channels.len() {
            assert(s.channels[i].id != s.channels[j].id);
        } else {
            assert(s2.channels[i] == s.channels[i]);
        }
    }
}

/// Byte-for-byte copy of a binary payload, one copy per delivery.
fn clone_bytes(data: &Vec<u8>) -> (r: Vec<u8>)
    ensures
        r@ == data@,
{
    let mut r: Vec<u8> = Vec::new();
    let mut i: usize = 0;
    while i < data.len()
        invariant
            i <= data.len(),
            r@ =~= data@.take(i as int),
        decreases data.len() - i,
    {
        r.push(data[i]);
        proof {
            assert(r@ =~= data@.take(i + 1));
        }
        i += 1;
    }
    proof {
        assert(data@.take(data@.len() as int) =~= data@);
    }
    r
}

} // verus!
