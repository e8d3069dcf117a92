//! Laws of the broker over whole runs.
//!
//! A broker lifetime is a sequence of operations: peers are accepted,
//! sessions send events, sessions disconnect. [`broker_run`] folds the
//! per-operation transition over such a sequence and collects every
//! message the broker sends. The proof functions here state the global
//! guarantees of the protocol: consistency is preserved, node IDs
//! strictly increase, a disconnected supplier's channels never
//! reappear, data is never echoed to its sender, duplicate listens do
//! not duplicate deliveries, and open responses answer open requests
//! one for one, in order.

use vstd::prelude::*;
use crate::channel::ChannelV;
use crate::protocol::EventV;
use crate::server::{
    accept_spec, client_listening, connected, disconnect_spec, dispatch_spec, remove_chans,
    remove_conns, server_wf, spec_channel_ids, spec_deliveries, spec_listen_conns, ClientV,
    ServerV,
};

verus! {

/// One operation of a broker lifetime.
pub ghost enum BrokerOp {
    /// A new peer is accepted.
    Accept,
    /// The session of `from` sent `event`.
    Input { from: u64, event: EventV },
    /// The session of `node` went away.
    Disconnect { node: u64 },
}

/// One step of the broker: the new state and the messages sent. An
/// event from a node without a session is dropped: a disconnected peer
/// cannot send.
pub open spec fn broker_step(s: ServerV, op: BrokerOp) -> (ServerV, Seq<(u64, EventV)>) {
    match op {
        BrokerOp::Accept => {
            let r = accept_spec(s);
            (r.0, seq![(r.1, EventV::NodeIDNotification { node_id: r.1 })])
        },
        BrokerOp::Input { from, event } => {
            if connected(s, from) {
                dispatch_spec(s, from, event)
            } else {
                (s, Seq::empty())
            }
        },
        BrokerOp::Disconnect { node } => (disconnect_spec(s, node), Seq::empty()),
    }
}

/// A whole run: the final state and every message sent, in order.
pub open spec fn broker_run(s: ServerV, ops: Seq<BrokerOp>) -> (ServerV, Seq<(u64, EventV)>)
    decreases ops.len(),
{
    if ops.len() == 0 {
        (s, Seq::empty())
    } else {
        let r1 = broker_run(s, ops.drop_last());
        let r2 = broker_step(r1.0, ops.last());
        (r2.0, r1.1 + r2.1)
    }
}

/// The machine limit on one operation: the identifier counters must
/// not be exhausted.
pub open spec fn op_ok(s: ServerV, op: BrokerOp) -> bool {
    match op {
        BrokerOp::Accept => s.next_node_id < u64::MAX,
        BrokerOp::Input { from, event } => s.next_channel_id < u64::MAX,
        BrokerOp::Disconnect { node } => true,
    }
}

/// The machine limit over a whole run.
pub open spec fn ops_ok(s: ServerV, ops: Seq<BrokerOp>) -> bool
    decreases ops.len(),
{
    if ops.len() == 0 {
        true
    } else {
        ops_ok(s, ops.drop_last()) && op_ok(broker_run(s, ops.drop_last()).0, ops.last())
    }
}

/// Removing a node's sessions keeps every consistency property of the
/// connections list.
proof fn lemma_remove_conns_wf(conns: Seq<ClientV>, n: u64, bound: u64)
    requires
        forall|i: int| 0 <= i < conns.len() ==> 1 <= (#[trigger] conns[i]).node_id < bound,
        forall|i: int, j: int|
            0 <= i < j < conns.len() ==> conns[i].node_id != conns[j].node_id,
        forall|i: int| 0 <= i < conns.len() ==> (#[trigger] conns[i]).listening.no_duplicates(),
    ensures
        forall|i: int|
            0 <= i < remove_conns(conns, n).len() ==> 1 <= (#[trigger] remove_conns(conns, n)[i]).node_id
                < bound,
        forall|i: int, j: int|
            0 <= i < j < remove_conns(conns, n).len() ==> remove_conns(conns, n)[i].node_id
                != remove_conns(conns, n)[j].node_id,
        forall|i: int|
            0 <= i < remove_conns(conns, n).len() ==> (#[trigger] remove_conns(
                conns,
                n,
            )[i]).listening.no_duplicates(),
        forall|i: int|
            0 <= i < remove_conns(conns, n).len() ==> (#[trigger] remove_conns(conns, n)[i]).node_id
                != n,
        forall|i: int|
            0 <= i < remove_conns(conns, n).len() ==> conns.contains(
                #[trigger] remove_conns(conns, n)[i],
            ),
    decreases conns.len(),
{
    if conns.len() > 0 {
        let d = conns.drop_last();
        lemma_remove_conns_wf(d, n, bound);
        let rest = remove_conns(d, n);
        let out = remove_conns(conns, n);
        if conns.last().node_id != n {
            assert(out == rest.push(conns.last()));
            assert forall|i: int, j: int| 0 <= i < j < out.len() implies out[i].node_id
                != out[j].node_id by {
                if j == out.len() - 1 {
                    assert(d.contains(rest[i]));
                    let k = choose|k: int| 0 <= k < d.len() && d[k] == rest[i];
                    assert(conns[k].node_id != conns[conns.len() - 1].node_id);
                }
            }
            assert forall|i: int| 0 <= i < out.len() implies conns.contains(#[trigger] out[i]) by {
                if i < out.len() - 1 {
                    assert(d.contains(rest[i]));
                    let k = choose|k: int| 0 <= k < d.len() && d[k] == rest[i];
                    assert(conns[k] == out[i]);
                } else {
                    assert(conns[conns.len() - 1] == out[i]);
                }
            }
        } else {
            assert forall|i: int| 0 <= i < out.len() implies conns.contains(#[trigger] out[i]) by {
                assert(d.contains(rest[i]));
                let k = choose|k: int| 0 <= k < d.len() && d[k] == rest[i];
                assert(conns[k] == out[i]);
            }
        }
    }
}

/// Revoking a supplier's channels keeps every consistency property of
/// the channel table.
proof fn lemma_remove_chans_wf(chans: Seq<ChannelV>, n: u64, bound: u64)
    requires
        forall|i: int| 0 <= i < chans.len() ==> 1 <= (#[trigger] chans[i]).id < bound,
        forall|i: int, j: int| 0 <= i < j < chans.len() ==> chans[i].id != chans[j].id,
    ensures
        forall|i: int|
            0 <= i < remove_chans(chans, n).len() ==> 1 <= (#[trigger] remove_chans(chans, n)[i]).id
                < bound,
        forall|i: int, j: int|
            0 <= i < j < remove_chans(chans, n).len() ==> remove_chans(chans, n)[i].id
                != remove_chans(chans, n)[j].id,
        forall|i: int|
            0 <= i < remove_chans(chans, n).len() ==> (#[trigger] remove_chans(chans, n)[i]).supplied_by
                != n,
        forall|i: int|
            0 <= i < remove_chans(chans, n).len() ==> chans.contains(
                #[trigger] remove_chans(chans, n)[i],
            ),
    decreases chans.len(),
{
    if chans.len() > 0 {
        let d = chans.drop_last();
        lemma_remove_chans_wf(d, n, bound);
        let rest = remove_chans(d, n);
        let out = remove_chans(chans, n);
        if chans.last().supplied_by != n {
            assert(out == rest.push(chans.last()));
            assert forall|i: int, j: int| 0 <= i < j < out.len() implies out[i].id != out[j].id by {
                if j == out.len() - 1 {
                    assert(d.contains(rest[i]));
                    let k = choose|k: int| 0 <= k < d.len() && d[k] == rest[i];
                    assert(chans[k].id != chans[chans.len() - 1].id);
                }
            }
            assert forall|i: int| 0 <= i < out.len() implies chans.contains(#[trigger] out[i]) by {
                if i < out.len() - 1 {
                    assert(d.contains(rest[i]));
                    let k = choose|k: int| 0 <= k < d.len() && d[k] == rest[i];
                    assert(chans[k] == out[i]);
                } else {
                    assert(chans[chans.len() - 1] == out[i]);
                }
            }
        } else {
            assert forall|i: int| 0 <= i < out.len() implies chans.contains(#[trigger] out[i]) by {
                assert(d.contains(rest[i]));
                let k = choose|k: int| 0 <= k < d.len() && d[k] == rest[i];
                assert(chans[k] == out[i]);
            }
        }
    }
}

/// Disconnecting a session preserves broker consistency.
pub proof fn lemma_disconnect_wf(s: ServerV, n: u64)
    requires
        server_wf(s),
    ensures
        server_wf(disconnect_spec(s, n)),
{
    lemma_remove_conns_wf(s.connections, n, s.next_node_id);
    lemma_remove_chans_wf(s.channels, n, s.next_channel_id);
}

/// Accepting a peer preserves broker consistency: the new session gets
/// the one node ID no existing session can carry.
pub proof fn lemma_accept_wf(s: ServerV)
    requires
        server_wf(s),
        s.next_node_id < u64::MAX,
    ensures
        server_wf(accept_spec(s).0),
{
    let s2 = accept_spec(s).0;
    assert forall|i: int, j: int| 0 <= i < j < s2.connections.len() implies s2.connections[i].node_id
        != s2.connections[j].node_id by {
        if j < s.connections.len() {
            assert(s.connections[i].node_id != s.connections[j].node_id);
        } else {
            assert(s2.connections[i] == s.connections[i]);
        }
    }
}

/// Dispatching any event preserves broker consistency.
pub proof fn lemma_dispatch_wf(s: ServerV, from: u64, e: EventV)
    requires
        server_wf(s),
        s.next_channel_id < u64::MAX,
    ensures
        server_wf(dispatch_spec(s, from, e).0),
{
    let s2 = dispatch_spec(s, from, e).0;
    match e {
        EventV::ChannelOpenRequest { name } => {
            assert forall|i: int, j: int| 0 <= i < j < s2.channels.len() implies s2.channels[i].id
                != s2.channels[j].id by {
                if j < s.channels.len() {
                    assert(s.channels[i].id != s.channels[j].id);
                } else {
                    assert(s2.channels[i] == s.channels[i]);
                }
            }
        },
        EventV::ChannelListenRequest { channel } => {
            let conns2 = spec_listen_conns(s.connections, from, channel);
            assert forall|i: int| 0 <= i < conns2.len() implies (#[trigger] conns2[i]).node_id
                == s.connections[i].node_id by {}
            assert forall|i: int| 0 <= i < conns2.len() implies (#[trigger] conns2[i]).listening.no_duplicates() by {
                let c = s.connections[i];
                if c.node_id == from && !c.listening.contains(channel) {
                    assert forall|a: int, b: int|
                        0 <= a < b < conns2[i].listening.len() implies conns2[i].listening[a]
                        != conns2[i].listening[b] by {
                        if b == c.listening.len() {
                            assert(c.listening[a] == conns2[i].listening[a]);
                        }
                    }
                }
            }
        },
        _ => {},
    }
}

/// One step preserves broker consistency.
pub proof fn lemma_step_wf(s: ServerV, op: BrokerOp)
    requires
        server_wf(s),
        op_ok(s, op),
    ensures
        server_wf(broker_step(s, op).0),
{
    match op {
        BrokerOp::Accept => lemma_accept_wf(s),
        BrokerOp::Input { from, event } => {
            if connected(s, from) {
                lemma_dispatch_wf(s, from, event);
            }
        },
        BrokerOp::Disconnect { node } => lemma_disconnect_wf(s, node),
    }
}

/// A whole run preserves broker consistency.
pub proof fn lemma_run_wf(s: ServerV, ops: Seq<BrokerOp>)
    requires
        server_wf(s),
        ops_ok(s, ops),
    ensures
        server_wf(broker_run(s, ops).0),
    decreases ops.len(),
{
    if ops.len() > 0 {
        lemma_run_wf(s, ops.drop_last());
        lemma_step_wf(broker_run(s, ops.drop_last()).0, ops.last());
    }
}


/// The node-ID counter never moves backwards.
pub proof fn lemma_next_node_id_monotone(s: ServerV, ops: Seq<BrokerOp>)
    requires
        ops_ok(s, ops),
    ensures
        broker_run(s, ops).0.next_node_id >= s.next_node_id,
    decreases ops.len(),
{
    if ops.len() > 0 {
        lemma_next_node_id_monotone(s, ops.drop_last());
    }
}

/// Node IDs issued over the lifetime of one broker strictly increase:
/// whatever happens between two accepts, the later one hands out the
/// larger identifier. A fresh broker's counter starts at 1, so the
/// first accept hands out 1: see `Server::new_default` and `accept`.
pub proof fn lemma_node_ids_strictly_increase(s: ServerV, ops: Seq<BrokerOp>)
    requires
        s.next_node_id < u64::MAX,
        ops_ok(accept_spec(s).0, ops),
    ensures
        accept_spec(broker_run(accept_spec(s).0, ops).0).1 > accept_spec(s).1,
{
    lemma_next_node_id_monotone(accept_spec(s).0, ops);
}

/// A channel identifier that is gone and below the counter: it can
/// never be issued again.
pub open spec fn channel_absent(s: ServerV, cid: u64) -> bool {
    &&& cid < s.next_channel_id
    &&& forall|i: int| 0 <= i < s.channels.len() ==> (#[trigger] s.channels[i]).id != cid
}

/// One step keeps an absent channel identifier absent.
proof fn lemma_channel_absent_step(s: ServerV, op: BrokerOp, cid: u64)
    requires
        op_ok(s, op),
        channel_absent(s, cid),
    ensures
        channel_absent(broker_step(s, op).0, cid),
{
    let s2 = broker_step(s, op).0;
    match op {
        BrokerOp::Accept => {},
        BrokerOp::Input { from, event } => {
            if connected(s, from) {
                match event {
                    EventV::ChannelOpenRequest { name } => {
                        assert forall|i: int| 0 <= i < s2.channels.len() implies (
                        #[trigger] s2.channels[i]).id != cid by {
                            if i < s.channels.len() {
                                assert(s2.channels[i] == s.channels[i]);
                            }
                        }
                    },
                    _ => {},
                }
            }
        },
        BrokerOp::Disconnect { node } => {
            lemma_remove_chans_absent(s.channels, node, cid);
        },
    }
}

/// Filtering the channel table cannot bring an identifier back.
proof fn lemma_remove_chans_absent(chans: Seq<ChannelV>, n: u64, cid: u64)
    requires
        forall|i: int| 0 <= i < chans.len() ==> (#[trigger] chans[i]).id != cid,
    ensures
        forall|i: int|
            0 <= i < remove_chans(chans, n).len() ==> (#[trigger] remove_chans(chans, n)[i]).id
                != cid,
    decreases chans.len(),
{
    if chans.len() > 0 {
        lemma_remove_chans_absent(chans.drop_last(), n, cid);
        let rest = remove_chans(chans.drop_last(), n);
        let out = remove_chans(chans, n);
        assert forall|i: int| 0 <= i < out.len() implies (#[trigger] out[i]).id != cid by {
            if chans.last().supplied_by != n && i == out.len() - 1 {
                assert(out[i] == chans[chans.len() - 1]);
            } else {
                assert(out[i] == rest[i]);
            }
        }
    }
}

/// An absent channel identifier stays absent over a whole run.
proof fn lemma_channel_absent_run(s: ServerV, ops: Seq<BrokerOp>, cid: u64)
    requires
        ops_ok(s, ops),
        channel_absent(s, cid),
    ensures
        channel_absent(broker_run(s, ops).0, cid),
    decreases ops.len(),
{
    if ops.len() > 0 {
        lemma_channel_absent_run(s, ops.drop_last(), cid);
        lemma_channel_absent_step(broker_run(s, ops.drop_last()).0, ops.last(), cid);
    }
}

/// Disconnecting a supplier takes each of its channels out of the table
/// for good: however the broker goes on, no later channel-list snapshot
/// contains that channel's identifier.
pub proof fn lemma_supplier_channels_revoked(s: ServerV, n: u64, cid: u64, ops: Seq<BrokerOp>)
    requires
        server_wf(s),
        exists|i: int|
            0 <= i < s.channels.len() && (#[trigger] s.channels[i]).id == cid
                && s.channels[i].supplied_by == n,
        ops_ok(disconnect_spec(s, n), ops),
    ensures
        !spec_channel_ids(broker_run(disconnect_spec(s, n), ops).0.channels).contains(cid),
{
    let s1 = disconnect_spec(s, n);
    lemma_remove_chans_wf(s.channels, n, s.next_channel_id);
    assert forall|i: int| 0 <= i < s1.channels.len() implies (#[trigger] s1.channels[i]).id
        != cid by {
        let w = choose|w: int|
            0 <= w < s.channels.len() && (#[trigger] s.channels[w]).id == cid
                && s.channels[w].supplied_by == n;
        if s1.channels[i].id == cid {
            assert(s.channels.contains(s1.channels[i]));
            let k = choose|k: int| 0 <= k < s.channels.len() && s.channels[k] == s1.channels[i];
            if k < w {
                assert(s.channels[k].id != s.channels[w].id);
            }
            if k > w {
                assert(s.channels[w].id != s.channels[k].id);
            }
        }
    }
    assert(channel_absent(s1, cid));
    lemma_channel_absent_run(s1, ops, cid);
    let s2 = broker_run(s1, ops).0;
    if spec_channel_ids(s2.channels).contains(cid) {
        let i = choose|i: int|
            0 <= i < spec_channel_ids(s2.channels).len() && spec_channel_ids(s2.channels)[i] == cid;
        assert(s2.channels[i].id == cid);
    }
}

/// Every message of a broadcast goes to someone else: the entry's
/// destination differs from the sender, and its payload is the
/// broadcast event itself.
proof fn lemma_deliveries_exclude_sender(conns: Seq<ClientV>, channel: u64, from: u64, ev: EventV)
    ensures
        forall|k: int|
            0 <= k < spec_deliveries(conns, channel, from, ev).len() ==> (#[trigger] spec_deliveries(
                conns,
                channel,
                from,
                ev,
            )[k]).0 != from && spec_deliveries(conns, channel, from, ev)[k].1 == ev,
    decreases conns.len(),
{
    if conns.len() > 0 {
        lemma_deliveries_exclude_sender(conns.drop_last(), channel, from, ev);
    }
}

/// No data event is ever echoed to its originating session: every
/// Data or DataBin message the dispatcher sends goes to another node.
pub proof fn lemma_no_echo(s: ServerV, from: u64, e: EventV)
    ensures
        forall|k: int|
            0 <= k < dispatch_spec(s, from, e).1.len() ==> (((#[trigger] dispatch_spec(
                s,
                from,
                e,
            ).1[k]).1 is Data || dispatch_spec(s, from, e).1[k].1 is DataBin) ==> dispatch_spec(
                s,
                from,
                e,
            ).1[k].0 != from),
{
    match e {
        EventV::Data { channel, data } => {
            lemma_deliveries_exclude_sender(s.connections, channel, from, e);
        },
        EventV::DataBin { channel, data } => {
            lemma_deliveries_exclude_sender(s.connections, channel, from, e);
        },
        _ => {},
    }
}

/// How many of these messages go to node `d`.
pub open spec fn deliveries_to(msgs: Seq<(u64, EventV)>, d: u64) -> nat
    decreases msgs.len(),
{
    if msgs.len() == 0 {
        0
    } else {
        deliveries_to(msgs.drop_last(), d) + if msgs.last().0 == d {
            1nat
        } else {
            0nat
        }
    }
}

/// Under distinct node IDs, a broadcast reaches a node exactly once if
/// it listens and is not the sender, and never otherwise.
proof fn lemma_deliveries_count(
    conns: Seq<ClientV>,
    channel: u64,
    from: u64,
    ev: EventV,
    d: u64,
)
    requires
        forall|i: int, j: int|
            0 <= i < j < conns.len() ==> conns[i].node_id != conns[j].node_id,
    ensures
        deliveries_to(spec_deliveries(conns, channel, from, ev), d) == (
        if d != from && client_listening(conns, d, channel) {
            1nat
        } else {
            0nat
        }),
    decreases conns.len(),
{
    let out = spec_deliveries(conns, channel, from, ev);
    if conns.len() == 0 {
        assert(!client_listening(conns, d, channel));
    } else {
        let dd = conns.drop_last();
        lemma_deliveries_count(dd, channel, from, ev, d);
        let last = conns.last();
        if last.node_id == d {
            assert(!client_listening(dd, d, channel)) by {
                if client_listening(dd, d, channel) {
                    let i = choose|i: int|
                        0 <= i < dd.len() && (#[trigger] dd[i]).node_id == d
                            && dd[i].listening.contains(channel);
                    assert(conns[i].node_id != conns[conns.len() - 1].node_id);
                }
            }
            if last.listening.contains(channel) {
                assert(client_listening(conns, d, channel)) by {
                    assert((#[trigger] conns[conns.len() - 1]).node_id == d
                        && conns[conns.len() - 1].listening.contains(channel));
                }
            } else {
                assert(!client_listening(conns, d, channel)) by {
                    if client_listening(conns, d, channel) {
                        let i = choose|i: int|
                            0 <= i < conns.len() && (#[trigger] conns[i]).node_id == d
                                && conns[i].listening.contains(channel);
                        if i < conns.len() - 1 {
                            assert(conns[i].node_id != conns[conns.len() - 1].node_id);
                        }
                    }
                }
            }
        } else {
            assert(client_listening(conns, d, channel) == client_listening(dd, d, channel)) by {
                if client_listening(conns, d, channel) {
                    let i = choose|i: int|
                        0 <= i < conns.len() && (#[trigger] conns[i]).node_id == d
                            && conns[i].listening.contains(channel);
                    assert(i < conns.len() - 1);
                    assert((#[trigger] dd[i]).node_id == d && dd[i].listening.contains(channel));
                }
                if client_listening(dd, d, channel) {
                    let i = choose|i: int|
                        0 <= i < dd.len() && (#[trigger] dd[i]).node_id == d
                            && dd[i].listening.contains(channel);
                    assert((#[trigger] conns[i]).node_id == d && conns[i].listening.contains(
                        channel,
                    ));
                }
            }
        }
        let rest = spec_deliveries(dd, channel, from, ev);
        if last.node_id != from && last.listening.contains(channel) {
            assert(out == rest.push((last.node_id, ev)));
            assert(out.drop_last() =~= rest);
            assert(deliveries_to(out, d) == deliveries_to(rest, d) + (
            if last.node_id == d {
                1nat
            } else {
                0nat
            }));
        } else {
            assert(out == rest);
        }
    }
}

/// After a listen request from node `d`, its session listens on the
/// channel; nothing else about the connections changes.
proof fn lemma_listen_sets_listening(s: ServerV, d: u64, channel: u64)
    requires
        server_wf(s),
        connected(s, d),
    ensures
        client_listening(spec_listen_conns(s.connections, d, channel), d, channel),
{
    let conns2 = spec_listen_conns(s.connections, d, channel);
    let i = choose|i: int|
        0 <= i < s.connections.len() && (#[trigger] s.connections[i]).node_id == d;
    assert(conns2[i].node_id == d && conns2[i].listening.contains(channel)) by {
        let c = s.connections[i];
        if !c.listening.contains(channel) {
            assert(conns2[i].listening == c.listening.push(channel));
            assert(conns2[i].listening[c.listening.len() as int] == channel);
        }
    }
    assert((#[trigger] conns2[i]).node_id == d && conns2[i].listening.contains(channel));
}

/// Asking to listen twice delivers once: after the session of `d`
/// sends two listen requests for one channel, a message published on
/// that channel by another session reaches `d` exactly once.
pub proof fn lemma_duplicate_listen_single_delivery(
    s: ServerV,
    d: u64,
    m: u64,
    channel: u64,
    data: Seq<char>,
)
    requires
        server_wf(s),
        connected(s, d),
        m != d,
        s.next_channel_id < u64::MAX,
    ensures
        ({
            let s1 = dispatch_spec(s, d, EventV::ChannelListenRequest { channel }).0;
            let s2 = dispatch_spec(s1, d, EventV::ChannelListenRequest { channel }).0;
            deliveries_to(dispatch_spec(s2, m, EventV::Data { channel, data }).1, d) == 1
        }),
{
    let s1 = dispatch_spec(s, d, EventV::ChannelListenRequest { channel }).0;
    let s2 = dispatch_spec(s1, d, EventV::ChannelListenRequest { channel }).0;
    lemma_dispatch_wf(s, d, EventV::ChannelListenRequest { channel });
    lemma_dispatch_wf(s1, d, EventV::ChannelListenRequest { channel });
    lemma_listen_sets_listening(s, d, channel);
    assert(connected(s1, d)) by {
        let i = choose|i: int|
            0 <= i < s1.connections.len() && (#[trigger] s1.connections[i]).node_id == d
                && s1.connections[i].listening.contains(channel);
        assert((#[trigger] s1.connections[i]).node_id == d);
    }
    lemma_listen_sets_listening(s1, d, channel);
    lemma_deliveries_count(s2.connections, channel, m, EventV::Data { channel, data }, d);
}


/// Whether `op` is an open request from node `n`.
pub open spec fn is_open_req_from(op: BrokerOp, n: u64) -> bool {
    match op {
        BrokerOp::Input { from, event } => from == n && (event matches EventV::ChannelOpenRequest {
            ..
        }),
        _ => false,
    }
}

/// How many open requests node `n` sent.
pub open spec fn open_reqs_from(ops: Seq<BrokerOp>, n: u64) -> nat
    decreases ops.len(),
{
    if ops.len() == 0 {
        0
    } else {
        open_reqs_from(ops.drop_last(), n) + if is_open_req_from(ops.last(), n) {
            1nat
        } else {
            0nat
        }
    }
}

/// Whether message `m` is an open response to node `n`.
pub open spec fn is_open_resp_to(m: (u64, EventV), n: u64) -> bool {
    m.0 == n && (m.1 matches EventV::ChannelOpenResponse { .. })
}

/// The open responses sent to node `n`, in order.
pub open spec fn open_resps_to(msgs: Seq<(u64, EventV)>, n: u64) -> Seq<(u64, EventV)>
    decreases msgs.len(),
{
    if msgs.len() == 0 {
        Seq::empty()
    } else {
        let rest = open_resps_to(msgs.drop_last(), n);
        if is_open_resp_to(msgs.last(), n) {
            rest.push(msgs.last())
        } else {
            rest
        }
    }
}

/// The channel identifier an open response carries.
pub open spec fn resp_channel(m: (u64, EventV)) -> u64 {
    match m.1 {
        EventV::ChannelOpenResponse { channel, success } => channel,
        _ => 0,
    }
}

/// Selecting open responses distributes over concatenation.
proof fn lemma_open_resps_concat(a: Seq<(u64, EventV)>, b: Seq<(u64, EventV)>, n: u64)
    ensures
        open_resps_to(a + b, n) == open_resps_to(a, n) + open_resps_to(b, n),
    decreases b.len(),
{
    if b.len() == 0 {
        assert(a + b =~= a);
        assert(open_resps_to(a, n) + open_resps_to(b, n) =~= open_resps_to(a, n));
    } else {
        lemma_open_resps_concat(a, b.drop_last(), n);
        assert((a + b).drop_last() =~= a + b.drop_last());
        if is_open_resp_to(b.last(), n) {
            assert((open_resps_to(a, n) + open_resps_to(b.drop_last(), n)).push(b.last())
                =~= open_resps_to(a, n) + open_resps_to(b.drop_last(), n).push(b.last()));
        }
    }
}

/// A message list without open responses to `n` selects to nothing.
proof fn lemma_open_resps_none(msgs: Seq<(u64, EventV)>, n: u64)
    requires
        forall|k: int| 0 <= k < msgs.len() ==> !is_open_resp_to(#[trigger] msgs[k], n),
    ensures
        open_resps_to(msgs, n) == Seq::<(u64, EventV)>::empty(),
    decreases msgs.len(),
{
    if msgs.len() > 0 {
        lemma_open_resps_none(msgs.drop_last(), n);
    }
}

/// Selecting open responses from a single message keeps it exactly
/// when it is one.
proof fn lemma_open_resps_single(m: (u64, EventV), n: u64)
    ensures
        open_resps_to(seq![m], n) == (if is_open_resp_to(m, n) {
            seq![m]
        } else {
            Seq::<(u64, EventV)>::empty()
        }),
{
    assert(seq![m].drop_last() =~= Seq::<(u64, EventV)>::empty());
    assert(open_resps_to(Seq::<(u64, EventV)>::empty(), n) == Seq::<(u64, EventV)>::empty());
    if is_open_resp_to(m, n) {
        assert(open_resps_to(seq![m], n) =~= seq![m]);
    }
}

/// One dispatch sends an open response to `n` exactly when it handles
/// an open request from `n`, and that response carries the channel
/// counter of the moment.
proof fn lemma_dispatch_open_resps(s: ServerV, from: u64, e: EventV, n: u64)
    ensures
        ({
            let msgs = dispatch_spec(s, from, e).1;
            if from == n && (e matches EventV::ChannelOpenRequest { .. }) {
                open_resps_to(msgs, n) == seq![
                    (n, EventV::ChannelOpenResponse { channel: s.next_channel_id, success: true }),
                ]
            } else {
                open_resps_to(msgs, n) == Seq::<(u64, EventV)>::empty()
            }
        }),
{
    let msgs = dispatch_spec(s, from, e).1;
    match e {
        EventV::Data { channel, data } => {
            lemma_deliveries_exclude_sender(s.connections, channel, from, e);
            lemma_open_resps_none(msgs, n);
        },
        EventV::DataBin { channel, data } => {
            lemma_deliveries_exclude_sender(s.connections, channel, from, e);
            lemma_open_resps_none(msgs, n);
        },
        EventV::ChannelOpenRequest { name } => {
            lemma_open_resps_single(
                (from, EventV::ChannelOpenResponse { channel: s.next_channel_id, success: true }),
                n,
            );
        },
        EventV::ChannelListenRequest { channel } => {
            let success = !client_listening(s.connections, from, channel);
            lemma_open_resps_single(
                (from, EventV::ChannelListenResponse { channel, success }),
                n,
            );
        },
        EventV::ChannelListRequest => {
            lemma_open_resps_single(
                (
                    from,
                    EventV::ChannelListResponse {
                        channels: crate::server::spec_channel_ids(s.channels),
                    },
                ),
                n,
            );
        },
        EventV::ChannelInfoRequest(channel) => {
            if msgs.len() > 0 {
                lemma_open_resps_single(msgs[0], n);
                assert(msgs =~= seq![msgs[0]]);
            }
        },
        _ => {},
    }
}

/// Every event of node `n` in `ops` arrives while `n` has a session.
pub open spec fn sender_connected(s: ServerV, ops: Seq<BrokerOp>, n: u64) -> bool
    decreases ops.len(),
{
    if ops.len() == 0 {
        true
    } else {
        sender_connected(s, ops.drop_last(), n) && (match ops.last() {
            BrokerOp::Input { from, event } => from == n ==> connected(
                broker_run(s, ops.drop_last()).0,
                n,
            ),
            _ => true,
        })
    }
}

/// One step never lowers the channel counter.
proof fn lemma_step_channel_id_monotone(s: ServerV, op: BrokerOp)
    requires
        op_ok(s, op),
    ensures
        broker_step(s, op).0.next_channel_id >= s.next_channel_id,
{
}

/// Open requests on one connection are answered one for one and in
/// order: over any run, the session of node `n` receives exactly as
/// many open responses as it sent open requests, and the channel
/// identifiers in those responses strictly increase, so the i-th
/// response is the answer to the i-th request.
pub proof fn lemma_open_responses_match_requests(s: ServerV, ops: Seq<BrokerOp>, n: u64)
    requires
        server_wf(s),
        ops_ok(s, ops),
        sender_connected(s, ops, n),
    ensures
        ({
            let resps = open_resps_to(broker_run(s, ops).1, n);
            &&& resps.len() == open_reqs_from(ops, n)
            &&& forall|i: int|
                0 <= i < resps.len() ==> resp_channel(#[trigger] resps[i]) < broker_run(
                    s,
                    ops,
                ).0.next_channel_id
            &&& forall|i: int, j: int|
                0 <= i < j < resps.len() ==> resp_channel(resps[i]) < resp_channel(resps[j])
        }),
    decreases ops.len(),
{
    if ops.len() > 0 {
        let d = ops.drop_last();
        let op = ops.last();
        lemma_open_responses_match_requests(s, d, n);
        lemma_run_wf(s, d);
        let r1 = broker_run(s, d);
        let st = broker_step(r1.0, op);
        lemma_open_resps_concat(r1.1, st.1, n);
        lemma_step_channel_id_monotone(r1.0, op);
        let old_resps = open_resps_to(r1.1, n);
        let new_resps = open_resps_to(st.1, n);
        let resps = open_resps_to(broker_run(s, ops).1, n);
        assert(resps == old_resps + new_resps);
        match op {
            BrokerOp::Accept => {
                lemma_open_resps_single(
                    (
                        accept_spec(r1.0).1,
                        EventV::NodeIDNotification { node_id: accept_spec(r1.0).1 },
                    ),
                    n,
                );
                assert(resps =~= old_resps);
            },
            BrokerOp::Input { from, event } => {
                if connected(r1.0, from) {
                    lemma_dispatch_open_resps(r1.0, from, event, n);
                    if from == n && (event matches EventV::ChannelOpenRequest { .. }) {
                        assert(resps.len() == old_resps.len() + 1);
                        assert(resps[resps.len() - 1] == (
                            n,
                            EventV::ChannelOpenResponse {
                                channel: r1.0.next_channel_id,
                                success: true,
                            },
                        ));
                        assert(resp_channel(resps[resps.len() - 1]) == r1.0.next_channel_id);
                        assert forall|i: int, j: int|
                            0 <= i < j < resps.len() implies resp_channel(resps[i]) < resp_channel(
                            resps[j],
                        ) by {
                            if j < resps.len() - 1 {
                                assert(resps[i] == old_resps[i] && resps[j] == old_resps[j]);
                            } else {
                                assert(resps[i] == old_resps[i]);
                            }
                        }
                    } else {
                        assert(resps =~= old_resps);
                    }
                } else {
                    assert(!is_open_req_from(op, n));
                    assert(st.1 =~= Seq::<(u64, EventV)>::empty());
                    assert(resps =~= old_resps);
                }
            },
            BrokerOp::Disconnect { node } => {
                assert(st.1 =~= Seq::<(u64, EventV)>::empty());
                assert(resps =~= old_resps);
            },
        }
    }
}

} // verus!
