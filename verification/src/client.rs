//! The client library's request/response correlator.
//!
//! A client talks to the broker over one multiplexed connection, so an
//! inbound event must be matched to the caller waiting for it. The
//! [`Dispatchers`] table holds one armed slot per correlation key, the
//! per-channel data sinks, and the last observed node ID; feeding it an
//! inbound event yields the [`Action`] the transport layer must take:
//! complete a parked waiter, hand data to a sink, or drop the event.
//! The one-shot completion primitives themselves live with the
//! transport layer, keyed the same way.

use vstd::prelude::*;
use crate::protocol::{ChannelID, ChannelInfo, Event, EventV, NodeID};

verus! {

/// A correlation key: which waiter an inbound event completes.
#[derive(Debug, Clone, Copy, PartialEq, Eq, Hash, Structural)]
pub enum DispatchID {
    Listen(ChannelID),
    ChannelList,
    ChannelInfo(ChannelID),
}

impl DispatchID {
    /// The correlation key an event belongs to, if any: listen
    /// requests and responses share a per-channel key, list and info
    /// requests and responses share their dedicated keys. Data events
    /// are never correlated and must not be asked for a key; open
    /// events and notifications have none.
    pub fn of_event(event: &Event) -> (r: Option<DispatchID>)
        requires
            !(event@ is Data),
            !(event@ is DataBin),
        ensures
            ({
                match event@ {
                    EventV::ChannelListenRequest { channel } => r == Some(
                        DispatchID::Listen(channel),
                    ),
                    EventV::ChannelListenResponse { channel, success } => r == Some(
                        DispatchID::Listen(channel),
                    ),
                    EventV::ChannelListRequest => r == Some(DispatchID::ChannelList),
                    EventV::ChannelListResponse { channels } => r == Some(DispatchID::ChannelList),
                    EventV::ChannelInfoRequest(channel) => r == Some(
                        DispatchID::ChannelInfo(channel),
                    ),
                    EventV::ChannelInfoResponse(info) => r == Some(
                        DispatchID::ChannelInfo(info.channel),
                    ),
                    _ => r is None,
                }
            }),
    {
        match event {
            Event::ChannelListenRequest { channel } => Some(DispatchID::Listen(*channel)),
            Event::ChannelListenResponse { channel, success: _ } => Some(
                DispatchID::Listen(*channel),
            ),
            Event::ChannelListRequest => Some(DispatchID::ChannelList),
            Event::ChannelListResponse { channels: _ } => Some(DispatchID::ChannelList),
            Event::ChannelInfoRequest(channel) => Some(DispatchID::ChannelInfo(*channel)),
            Event::ChannelInfoResponse(info) => Some(DispatchID::ChannelInfo(info.channel)),
            _ => None,
        }
    }
}

/// What the transport layer must do with one inbound event.
pub enum Action {
    /// Complete the waiter armed under this key with the success flag.
    CompleteEvent(DispatchID, bool),
    /// Complete the parked open call with its fresh channel.
    CompleteOpen(ChannelID),
    /// Complete the parked channel-list call.
    CompleteList(Vec<ChannelID>),
    /// Complete the parked channel-info call.
    CompleteInfo(ChannelInfo),
    /// Hand text data to the sink registered for the channel.
    DeliverData(ChannelID, String),
    /// Hand binary data to the sink registered for the channel.
    DeliverBin(ChannelID, Vec<u8>),
    /// Nothing is waiting for this event: log it and drop it.
    Drop,
}

/// The correlator state: the armed one-shot keys, the armed dedicated
/// slots, the channels with registered sinks, and the node ID.
pub struct Dispatchers {
    events: Vec<DispatchID>,
    resolve_channel: bool,
    channel_list: bool,
    channel_info: bool,
    data_handlers: Vec<ChannelID>,
    bin_data_handlers: Vec<ChannelID>,
    node_id: Option<NodeID>,
}

/// Mathematical view of the correlator.
#[verifier::ext_equal]
pub ghost struct DispatchersV {
    pub events: Seq<DispatchID>,
    pub resolve_channel: bool,
    pub channel_list: bool,
    pub channel_info: bool,
    pub data_handlers: Seq<u64>,
    pub bin_data_handlers: Seq<u64>,
    pub node_id: Option<u64>,
}

impl View for Dispatchers {
    type V = DispatchersV;

    closed spec fn view(&self) -> DispatchersV {
        DispatchersV {
            events: self.events@,
            resolve_channel: self.resolve_channel,
            channel_list: self.channel_list,
            channel_info: self.channel_info,
            data_handlers: self.data_handlers@,
            bin_data_handlers: self.bin_data_handlers@,
            node_id: self.node_id,
        }
    }
}

/// At most one waiter is armed per correlation key.
pub open spec fn dispatchers_wf(d: DispatchersV) -> bool {
    d.events.no_duplicates()
}

impl Dispatchers {
    pub open spec fn wf(&self) -> bool {
        dispatchers_wf(self@)
    }

    /// A fresh table: nothing armed, nothing registered, no node ID.
    pub fn new() -> (r: Self)
        ensures
            r@ == (DispatchersV {
                events: Seq::empty(),
                resolve_channel: false,
                channel_list: false,
                channel_info: false,
                data_handlers: Seq::empty(),
                bin_data_handlers: Seq::empty(),
                node_id: None,
            }),
            r.wf(),
    {
        Dispatchers {
            events: Vec::new(),
            resolve_channel: false,
            channel_list: false,
            channel_info: false,
            data_handlers: Vec::new(),
            bin_data_handlers: Vec::new(),
            node_id: None,
        }
    }

    fn event_armed(&self, id: DispatchID) -> (r: bool)
        ensures
            r == self@.events.contains(id),
    {
        let mut i: usize = 0;
        while i < self.events.len()
            invariant
                i <= self.events.len(),
                forall|k: int| 0 <= k < i ==> self.events@[k] != id,
            decreases self.events.len() - i,
        {
            if self.events[i] == id {
                return true;
            }
            i += 1;
        }
        false
    }

    /// Arm the one-shot slot for `id` before parking on it. Arming a
    /// key twice leaves the single armed slot in place.
    pub fn wait_for_event(&mut self, id: DispatchID)
        requires
            old(self).wf(),
        ensures
            final(self).wf(),
            final(self)@ == (DispatchersV {
                events: if old(self)@.events.contains(id) {
                    old(self)@.events
                } else {
                    old(self)@.events.push(id)
                },
                ..old(self)@
            }),
    {
        if !self.event_armed(id) {
            let ghost pre = self@.events;
            self.events.push(id);
            proof {
                assert forall|a: int, b: int|
                    0 <= a < b < self@.events.len() implies self@.events[a] != self@.events[b] by {
                    if b == pre.len() {
                        assert(self@.events[a] == pre[a]);
                    }
                }
            }
        }
    }

    /// Disarm the slot for `id`; true when a waiter was armed.
    pub fn dispatch_event(&mut self, id: DispatchID) -> (r: bool)
        requires
            old(self).wf(),
        ensures
            final(self).wf(),
            r == old(self)@.events.contains(id),
            final(self)@ == (DispatchersV {
                events: old(self)@.events.remove_value(id),
                ..old(self)@
            }),
    {
        let ghost pre = self@.events;
        let mut i: usize = 0;
        while i < self.events.len()
            invariant
                self.wf(),
                i <= self.events.len(),
                pre == old(self)@.events,
                self@ == (DispatchersV { events: pre, ..old(self)@ }),
                forall|k: int| 0 <= k < i ==> pre[k] != id,
            decreases self.events.len() - i,
        {
            if self.events[i] == id {
                self.events.remove(i);
                proof {
                    assert(pre[i as int] == id);
                    pre.index_of_first_ensures(id);
                    match pre.index_of_first(id) {
                        Some(j) => {
                            if j < i as int {
                                assert(pre[j] != id);
                            }
                            if j > i as int {
                                assert(pre[i as int] != id);
                            }
                            assert(j == i as int);
                        },
                        None => {
                            assert(false);
                        },
                    }
                    assert(self@.events =~= pre.remove_value(id));
                    assert(self@ =~= (DispatchersV {
                        events: pre.remove_value(id),
                        ..old(self)@
                    }));
                    assert forall|a: int, b: int|
                        0 <= a < b < self@.events.len() implies self@.events[a]
                        != self@.events[b] by {
                        if a < i as int {
                            assert(self@.events[a] == pre[a]);
                        } else {
                            assert(self@.events[a] == pre[a + 1]);
                        }
                        if b < i as int {
                            assert(self@.events[b] == pre[b]);
                        } else {
                            assert(self@.events[b] == pre[b + 1]);
                        }
                    }
                }
                return true;
            }
            i += 1;
        }
        proof {
            pre.index_of_first_ensures(id);
            assert(!pre.contains(id));
            assert(self@.events =~= pre.remove_value(id));
        }
        false
    }

    /// Arm the single open slot before parking on it.
    pub fn wait_for_channel(&mut self)
        requires
            old(self).wf(),
        ensures
            final(self).wf(),
            final(self)@ == (DispatchersV { resolve_channel: true, ..old(self)@ }),
    {
        self.resolve_channel = true;
    }

    /// Arm the channel-list slot before parking on it.
    pub fn wait_for_channel_list(&mut self)
        requires
            old(self).wf(),
        ensures
            final(self).wf(),
            final(self)@ == (DispatchersV { channel_list: true, ..old(self)@ }),
    {
        self.channel_list = true;
    }

    /// Arm the channel-info slot before parking on it.
    pub fn wait_for_channel_info(&mut self)
        requires
            old(self).wf(),
        ensures
            final(self).wf(),
            final(self)@ == (DispatchersV { channel_info: true, ..old(self)@ }),
    {
        self.channel_info = true;
    }

    fn handler_registered(v: &Vec<ChannelID>, channel: ChannelID) -> (r: bool)
        ensures
            r == v@.contains(channel),
    {
        let mut i: usize = 0;
        while i < v.len()
            invariant
                i <= v.len(),
                forall|k: int| 0 <= k < i ==> v@[k] != channel,
            decreases v.len() - i,
        {
            if v[i] == channel {
                return true;
            }
            i += 1;
        }
        false
    }

    /// Register a text sink for `channel`. The transport layer keeps
    /// the queue itself under the same channel.
    pub fn register_data_handler(&mut self, channel: ChannelID)
        requires
            old(self).wf(),
        ensures
            final(self).wf(),
            final(self)@ == (DispatchersV {
                data_handlers: if old(self)@.data_handlers.contains(channel) {
                    old(self)@.data_handlers
                } else {
                    old(self)@.data_handlers.push(channel)
                },
                ..old(self)@
            }),
    {
        if !Self::handler_registered(&self.data_handlers, channel) {
            self.data_handlers.push(channel);
        }
    }

    /// Register a binary sink for `channel`.
    pub fn register_bin_data_handler(&mut self, channel: ChannelID)
        requires
            old(self).wf(),
        ensures
            final(self).wf(),
            final(self)@ == (DispatchersV {
                bin_data_handlers: if old(self)@.bin_data_handlers.contains(channel) {
                    old(self)@.bin_data_handlers
                } else {
                    old(self)@.bin_data_handlers.push(channel)
                },
                ..old(self)@
            }),
    {
        if !Self::handler_registered(&self.bin_data_handlers, channel) {
            self.bin_data_handlers.push(channel);
        }
    }

    /// Record the node ID pushed by the broker.
    pub fn set_node_id(&mut self, node_id: NodeID)
        requires
            old(self).wf(),
        ensures
            final(self).wf(),
            final(self)@ == (DispatchersV { node_id: Some(node_id), ..old(self)@ }),
    {
        self.node_id = Some(node_id);
    }

    /// The last observed node ID, if any notification arrived yet.
    pub fn get_node_id(&self) -> (r: Option<NodeID>)
        ensures
            r == self@.node_id,
    {
        self.node_id
    }
}


/// Arming a one-shot key: a key already armed stays as it is.
pub open spec fn spec_arm(events: Seq<DispatchID>, id: DispatchID) -> Seq<DispatchID> {
    if events.contains(id) {
        events
    } else {
        events.push(id)
    }
}

/// Registering a sink: a channel already registered stays as it is.
pub open spec fn spec_register(handlers: Seq<u64>, channel: u64) -> Seq<u64> {
    if handlers.contains(channel) {
        handlers
    } else {
        handlers.push(channel)
    }
}

/// What routing one inbound event does to the correlator state.
pub open spec fn spec_route(d: DispatchersV, e: EventV) -> DispatchersV {
    match e {
        EventV::NodeIDNotification { node_id } => DispatchersV { node_id: Some(node_id), ..d },
        EventV::ChannelOpenResponse { channel, success } => DispatchersV {
            resolve_channel: false,
            ..d
        },
        EventV::ChannelListenResponse { channel, success } => DispatchersV {
            events: d.events.remove_value(DispatchID::Listen(channel)),
            ..d
        },
        EventV::ChannelListResponse { channels } => DispatchersV { channel_list: false, ..d },
        EventV::ChannelInfoResponse(info) => DispatchersV { channel_info: false, ..d },
        _ => d,
    }
}

/// Which action routing one inbound event yields: the armed waiter's
/// completion, a sink delivery, or a drop when nothing waits.
pub open spec fn spec_route_action(d: DispatchersV, e: EventV, r: Action) -> bool {
    match e {
        EventV::NodeIDNotification { node_id } => r matches Action::Drop,
        EventV::Data { channel, data } => if d.data_handlers.contains(channel) {
            r matches Action::DeliverData(c, t) && c == channel && t@ == data
        } else {
            r matches Action::Drop
        },
        EventV::DataBin { channel, data } => if d.bin_data_handlers.contains(channel) {
            r matches Action::DeliverBin(c, t) && c == channel && t@ == data
        } else {
            r matches Action::Drop
        },
        EventV::ChannelOpenResponse { channel, success } => if d.resolve_channel {
            r matches Action::CompleteOpen(c) && c == channel
        } else {
            r matches Action::Drop
        },
        EventV::ChannelListenResponse { channel, success } => if d.events.contains(
            DispatchID::Listen(channel),
        ) {
            r matches Action::CompleteEvent(k, ok) && k == DispatchID::Listen(channel) && ok
                == success
        } else {
            r matches Action::Drop
        },
        EventV::ChannelListResponse { channels } => if d.channel_list {
            r matches Action::CompleteList(c) && c@ == channels
        } else {
            r matches Action::Drop
        },
        EventV::ChannelInfoResponse(info) => if d.channel_info {
            r matches Action::CompleteInfo(i) && i@ == info
        } else {
            r matches Action::Drop
        },
        _ => r matches Action::Drop,
    }
}

/// The armed waiters taken out of a correlator at teardown: each must
/// be completed with a connection-broken failure so its caller
/// unblocks.
pub struct ArmedWaiters {
    pub events: Vec<DispatchID>,
    pub resolve_channel: bool,
    pub channel_list: bool,
    pub channel_info: bool,
}

impl Dispatchers {
    /// Route one inbound event: complete the matching armed waiter,
    /// hand data to its sink, record the node ID, or drop the event.
    /// An event that nothing waits for is dropped; that is not an
    /// error.
    pub fn handle_event(&mut self, event: Event) -> (r: Action)
        requires
            old(self).wf(),
        ensures
            final(self).wf(),
            final(self)@ == spec_route(old(self)@, event@),
            spec_route_action(old(self)@, event@, r),
    {
        match event {
            Event::NodeIDNotification { node_id } => {
                self.set_node_id(node_id);
                Action::Drop
            },
            Event::Data { channel, data } => {
                if contains_id(&self.data_handlers, channel) {
                    Action::DeliverData(channel, data)
                } else {
                    Action::Drop
                }
            },
            Event::DataBin { channel, data } => {
                if contains_id(&self.bin_data_handlers, channel) {
                    Action::DeliverBin(channel, data)
                } else {
                    Action::Drop
                }
            },
            Event::ChannelOpenResponse { channel, success: _ } => {
                if self.resolve_channel {
                    self.resolve_channel = false;
                    Action::CompleteOpen(channel)
                } else {
                    Action::Drop
                }
            },
            Event::ChannelListenResponse { channel, success } => {
                if self.dispatch_event(DispatchID::Listen(channel)) {
                    Action::CompleteEvent(DispatchID::Listen(channel), success)
                } else {
                    Action::Drop
                }
            },
            Event::ChannelListResponse { channels } => {
                if self.channel_list {
                    self.channel_list = false;
                    Action::CompleteList(channels)
                } else {
                    Action::Drop
                }
            },
            Event::ChannelInfoResponse(info) => {
                if self.channel_info {
                    self.channel_info = false;
                    Action::CompleteInfo(info)
                } else {
                    Action::Drop
                }
            },
            _ => Action::Drop,
        }
    }

    /// Take every armed waiter out of the table, leaving nothing armed:
    /// the transport layer completes each with a connection-broken
    /// failure when the connection dies.
    pub fn teardown(&mut self) -> (r: ArmedWaiters)
        requires
            old(self).wf(),
        ensures
            final(self).wf(),
            r.events@ == old(self)@.events,
            r.resolve_channel == old(self)@.resolve_channel,
            r.channel_list == old(self)@.channel_list,
            r.channel_info == old(self)@.channel_info,
            final(self)@ == (DispatchersV {
                events: Seq::empty(),
                resolve_channel: false,
                channel_list: false,
                channel_info: false,
                ..old(self)@
            }),
    {
        let mut events: Vec<DispatchID> = Vec::new();
        core::mem::swap(&mut events, &mut self.events);
        let r = ArmedWaiters {
            events,
            resolve_channel: self.resolve_channel,
            channel_list: self.channel_list,
            channel_info: self.channel_info,
        };
        self.resolve_channel = false;
        self.channel_list = false;
        self.channel_info = false;
        proof {
            assert(self@.events =~= Seq::<DispatchID>::empty());
        }
        r
    }
}

/// Whether `x` occurs in `v`.
fn contains_id(v: &Vec<u64>, x: u64) -> (r: bool)
    ensures
        r == v@.contains(x),
{
    let mut i: usize = 0;
    while i < v.len()
        invariant
            i <= v.len(),
            forall|k: int| 0 <= k < i ==> v@[k] != x,
        decreases v.len() - i,
    {
        if v[i] == x {
            return true;
        }
        i += 1;
    }
    false
}

/// Mathematical view of the client session state.
#[verifier::ext_equal]
pub ghost struct DCClientV {
    pub dispatches: DispatchersV,
    pub listening_channels: Seq<u64>,
}

/// The client session state: the correlator and the channels this
/// client already listens on. The outbound half of the connection
/// stays with the transport layer, which transmits the request events
/// these methods hand back and parks callers on the armed slots.
pub struct DCClient {
    dispatches: Dispatchers,
    listening_channels: Vec<ChannelID>,
}

impl View for DCClient {
    type V = DCClientV;

    closed spec fn view(&self) -> DCClientV {
        DCClientV {
            dispatches: self.dispatches@,
            listening_channels: self.listening_channels@,
        }
    }
}

impl DCClient {
    pub open spec fn wf(&self) -> bool {
        dispatchers_wf(self@.dispatches)
    }

    /// A fresh session: listening nowhere, nothing armed.
    pub fn new() -> (r: Self)
        ensures
            r.wf(),
            r@ == (DCClientV {
                dispatches: DispatchersV {
                    events: Seq::empty(),
                    resolve_channel: false,
                    channel_list: false,
                    channel_info: false,
                    data_handlers: Seq::empty(),
                    bin_data_handlers: Seq::empty(),
                    node_id: None,
                },
                listening_channels: Seq::empty(),
            }),
    {
        DCClient { dispatches: Dispatchers::new(), listening_channels: Vec::new() }
    }

    /// Begin a listen call: record the channel, register the requested
    /// sinks, arm the listen slot, and hand back the request to send.
    /// A duplicate listen is idempotent: nothing changes and nothing
    /// is sent.
    pub fn listen(&mut self, channel: ChannelID, want_text: bool, want_bin: bool) -> (r: Option<
        Event,
    >)
        requires
            old(self).wf(),
        ensures
            final(self).wf(),
            old(self)@.listening_channels.contains(channel) ==> r is None && final(self)@ == old(
                self,
            )@,
            !old(self)@.listening_channels.contains(channel) ==> (r matches Some(e) && e@ == (
            EventV::ChannelListenRequest { channel }) && final(self)@ == (DCClientV {
                dispatches: DispatchersV {
                    events: spec_arm(
                        old(self)@.dispatches.events,
                        DispatchID::Listen(channel),
                    ),
                    data_handlers: if want_text {
                        spec_register(old(self)@.dispatches.data_handlers, channel)
                    } else {
                        old(self)@.dispatches.data_handlers
                    },
                    bin_data_handlers: if want_bin {
                        spec_register(old(self)@.dispatches.bin_data_handlers, channel)
                    } else {
                        old(self)@.dispatches.bin_data_handlers
                    },
                    ..old(self)@.dispatches
                },
                listening_channels: old(self)@.listening_channels.push(channel),
            })),
    {
        if contains_id(&self.listening_channels, channel) {
            return None;
        }
        self.listening_channels.push(channel);
        if want_text {
            self.dispatches.register_data_handler(channel);
        }
        if want_bin {
            self.dispatches.register_bin_data_handler(channel);
        }
        self.dispatches.wait_for_event(DispatchID::Listen(channel));
        Some(Event::ChannelListenRequest { channel })
    }

    /// Begin an open call: arm the single open slot and hand back the
    /// request to send. Open responses arrive in request order, so the
    /// slot needs no key.
    pub fn open(&mut self, name: String) -> (r: Event)
        requires
            old(self).wf(),
        ensures
            final(self).wf(),
            r@ == (EventV::ChannelOpenRequest { name: name@ }),
            final(self)@ == (DCClientV {
                dispatches: DispatchersV { resolve_channel: true, ..old(self)@.dispatches },
                ..old(self)@
            }),
    {
        self.dispatches.wait_for_channel();
        Event::ChannelOpenRequest { name }
    }

    /// A fire-and-forget text publication.
    pub fn send(&self, channel: ChannelID, data: String) -> (r: Event)
        ensures
            r@ == (EventV::Data { channel, data: data@ }),
    {
        Event::Data { channel, data }
    }

    /// A fire-and-forget binary publication.
    pub fn send_bin(&self, channel: ChannelID, data: Vec<u8>) -> (r: Event)
        ensures
            r@ == (EventV::DataBin { channel, data: data@ }),
    {
        Event::DataBin { channel, data }
    }

    /// Begin a channel-list call: arm its slot, hand back the request.
    pub fn channel_list(&mut self) -> (r: Event)
        requires
            old(self).wf(),
        ensures
            final(self).wf(),
            r@ == EventV::ChannelListRequest,
            final(self)@ == (DCClientV {
                dispatches: DispatchersV { channel_list: true, ..old(self)@.dispatches },
                ..old(self)@
            }),
    {
        self.dispatches.wait_for_channel_list();
        Event::ChannelListRequest
    }

    /// Begin a channel-info call: arm its slot, hand back the request.
    pub fn channel_info(&mut self, channel: ChannelID) -> (r: Event)
        requires
            old(self).wf(),
        ensures
            final(self).wf(),
            r@ == EventV::ChannelInfoRequest(channel),
            final(self)@ == (DCClientV {
                dispatches: DispatchersV { channel_info: true, ..old(self)@.dispatches },
                ..old(self)@
            }),
    {
        self.dispatches.wait_for_channel_info();
        Event::ChannelInfoRequest(channel)
    }

    /// The last node ID the broker announced, if any arrived yet.
    pub fn get_node_id(&self) -> (r: Option<NodeID>)
        ensures
            r == self@.dispatches.node_id,
    {
        self.dispatches.get_node_id()
    }

    /// Route one inbound event through the correlator.
    pub fn on_event(&mut self, event: Event) -> (r: Action)
        requires
            old(self).wf(),
        ensures
            final(self).wf(),
            final(self)@.listening_channels == old(self)@.listening_channels,
            final(self)@.dispatches == spec_route(old(self)@.dispatches, event@),
            spec_route_action(old(self)@.dispatches, event@, r),
    {
        self.dispatches.handle_event(event)
    }

    /// Take every armed waiter out at connection teardown.
    pub fn teardown(&mut self) -> (r: ArmedWaiters)
        requires
            old(self).wf(),
        ensures
            final(self).wf(),
            r.events@ == old(self)@.dispatches.events,
            r.resolve_channel == old(self)@.dispatches.resolve_channel,
            r.channel_list == old(self)@.dispatches.channel_list,
            r.channel_info == old(self)@.dispatches.channel_info,
            final(self)@.dispatches == (DispatchersV {
                events: Seq::empty(),
                resolve_channel: false,
                channel_list: false,
                channel_info: false,
                ..old(self)@.dispatches
            }),
            final(self)@.listening_channels == old(self)@.listening_channels,
    {
        self.dispatches.teardown()
    }
}

} // verus!
