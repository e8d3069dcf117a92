//! A named publish/subscribe stream owned by the broker.

use vstd::prelude::*;
use crate::protocol::{ChannelID, NodeID};

verus! {

/// One channel record: its identifier, its (not necessarily unique)
/// name, and the node that supplies it. The record lives from the open
/// request until its supplier disconnects.
#[derive(Clone, Debug)]
pub struct Channel {
    id: ChannelID,
    name: String,
    supplied_by: NodeID,
}

/// Mathematical view of a [`Channel`].
pub ghost struct ChannelV {
    pub id: u64,
    pub name: Seq<char>,
    pub supplied_by: u64,
}

impl View for Channel {
    type V = ChannelV;

    closed spec fn view(&self) -> ChannelV {
        ChannelV { id: self.id, name: self.name@, supplied_by: self.supplied_by }
    }
}

impl Channel {
    pub fn new(id: ChannelID, name: String, supplied_by: NodeID) -> (r: Self)
        ensures
            r@ == (ChannelV { id, name: name@, supplied_by }),
    {
        Channel { id, name, supplied_by }
    }

    pub fn id(&self) -> (r: ChannelID)
        ensures
            r == self@.id,
    {
        self.id
    }

    pub fn name(&self) -> (r: &str)
        ensures
            r@ == self@.name,
    {
        self.name.as_str()
    }

    /// The channel's name as an owned string.
    pub fn name_owned(&self) -> (r: String)
        ensures
            r@ == self@.name,
    {
        self.name.clone()
    }

    pub fn supplied_by(&self) -> (r: NodeID)
        ensures
            r == self@.supplied_by,
    {
        self.supplied_by
    }
}

} // verus!
