//! Wire protocol of the message bus.
//!
//! Every message on a broker connection is one [`Event`]. Requests flow
//! from a client session to the broker; responses and data broadcasts
//! flow back. The ghost mirror types ([`EventV`], [`ChannelInfoV`]) are
//! the mathematical views that contracts are stated over.

use vstd::prelude::*;

verus! {

/// Dense monotonic identifier of a named stream, issued by the broker.
pub type ChannelID = u64;

/// Dense monotonic identifier of a connected peer, issued by the broker.
pub type NodeID = u64;

/// Errors reserved by the protocol.
pub enum TransactionError {
    ChannelConflicted,
}

/// Description of one channel, as returned by an info lookup.
#[derive(Debug, Clone, PartialEq, Eq)]
pub struct ChannelInfo {
    pub channel: ChannelID,
    pub name: String,
    pub supplied_by: NodeID,
}

/// Mathematical view of a [`ChannelInfo`].
pub ghost struct ChannelInfoV {
    pub channel: u64,
    pub name: Seq<char>,
    pub supplied_by: u64,
}

impl View for ChannelInfo {
    type V = ChannelInfoV;

    open spec fn view(&self) -> ChannelInfoV {
        ChannelInfoV { channel: self.channel, name: self.name@, supplied_by: self.supplied_by }
    }
}

/// The tagged union carried on the wire, one per message.
#[derive(Debug, Clone, PartialEq, Eq)]
pub enum Event {
    NodeIDNotification { node_id: NodeID },

    Data { channel: ChannelID, data: String },
    DataBin { channel: ChannelID, data: Vec<u8> },

    ChannelOpenRequest { name: String },
    ChannelOpenResponse { channel: ChannelID, success: bool },

    ChannelCloseRequest { channel: ChannelID },

    ChannelListenRequest { channel: ChannelID },
    ChannelListenResponse { channel: ChannelID, success: bool },

    ChannelListRequest,
    ChannelListResponse { channels: Vec<ChannelID> },

    ChannelInfoRequest(ChannelID),
    ChannelInfoResponse(ChannelInfo),
}

/// Mathematical view of an [`Event`].
pub ghost enum EventV {
    NodeIDNotification { node_id: u64 },
    Data { channel: u64, data: Seq<char> },
    DataBin { channel: u64, data: Seq<u8> },
    ChannelOpenRequest { name: Seq<char> },
    ChannelOpenResponse { channel: u64, success: bool },
    ChannelCloseRequest { channel: u64 },
    ChannelListenRequest { channel: u64 },
    ChannelListenResponse { channel: u64, success: bool },
    ChannelListRequest,
    ChannelListResponse { channels: Seq<u64> },
    ChannelInfoRequest(u64),
    ChannelInfoResponse(ChannelInfoV),
}

impl View for Event {
    type V = EventV;

    open spec fn view(&self) -> EventV {
        match self {
            Event::NodeIDNotification { node_id } => EventV::NodeIDNotification {
                node_id: *node_id,
            },
            Event::Data { channel, data } => EventV::Data { channel: *channel, data: data@ },
            Event::DataBin { channel, data } => EventV::DataBin { channel: *channel, data: data@ },
            Event::ChannelOpenRequest { name } => EventV::ChannelOpenRequest { name: name@ },
            Event::ChannelOpenResponse { channel, success } => EventV::ChannelOpenResponse {
                channel: *channel,
                success: *success,
            },
            Event::ChannelCloseRequest { channel } => EventV::ChannelCloseRequest {
                channel: *channel,
            },
            Event::ChannelListenRequest { channel } => EventV::ChannelListenRequest {
                channel: *channel,
            },
            Event::ChannelListenResponse { channel, success } => EventV::ChannelListenResponse {
                channel: *channel,
                success: *success,
            },
            Event::ChannelListRequest => EventV::ChannelListRequest,
            Event::ChannelListResponse { channels } => EventV::ChannelListResponse {
                channels: channels@,
            },
            Event::ChannelInfoRequest(channel) => EventV::ChannelInfoRequest(*channel),
            Event::ChannelInfoResponse(info) => EventV::ChannelInfoResponse(info@),
        }
    }
}

} // verus!
