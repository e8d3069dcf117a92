//! The broker: identifier allocation, dispatch, broadcast and teardown.

use devconsole::channel::Channel;
use devconsole::id_manager::IDManager;
use devconsole::protocol::{ChannelInfo, Event};
use devconsole::server::{Client, ListenError, Server};

#[test]
fn node_ids_start_at_one_and_increase() {
    let mut server = Server::new_default();
    let (a, first) = server.accept();
    let (b, _) = server.accept();
    let (c, _) = server.accept();
    assert_eq!(a, 1);
    assert_eq!(b, 2);
    assert_eq!(c, 3);
    assert_eq!(first, Event::NodeIDNotification { node_id: 1 });
}

#[test]
fn open_listen_send_delivers_to_the_other_listener() {
    // two clients open "foo" and get distinct channels; the sender is
    // excluded, a third listening client gets exactly one delivery
    let mut server = Server::new_default();
    let (a, _) = server.accept();
    let (b, _) = server.accept();
    let (c, _) = server.accept();

    let out = server.dispatch_event(a, Event::ChannelOpenRequest { name: "foo".to_string() });
    assert_eq!(out, vec![(a, Event::ChannelOpenResponse { channel: 1, success: true })]);
    let out = server.dispatch_event(a, Event::ChannelListenRequest { channel: 1 });
    assert_eq!(out, vec![(a, Event::ChannelListenResponse { channel: 1, success: true })]);

    let out = server.dispatch_event(b, Event::ChannelOpenRequest { name: "foo".to_string() });
    assert_eq!(out, vec![(b, Event::ChannelOpenResponse { channel: 2, success: true })]);

    let out = server.dispatch_event(c, Event::ChannelListenRequest { channel: 1 });
    assert_eq!(out, vec![(c, Event::ChannelListenResponse { channel: 1, success: true })]);

    // A publishes on its own channel: A is the sender, B listens on
    // nothing, so only C hears it
    let out = server.dispatch_event(
        a,
        Event::Data { channel: 1, data: "hi".to_string() },
    );
    assert_eq!(out, vec![(c, Event::Data { channel: 1, data: "hi".to_string() })]);
}

#[test]
fn binary_payload_round_trips_unchanged() {
    let mut server = Server::new_default();
    let (a, _) = server.accept();
    let (b, _) = server.accept();
    server.dispatch_event(a, Event::ChannelOpenRequest { name: "bin".to_string() });
    server.dispatch_event(a, Event::ChannelListenRequest { channel: 1 });
    let out = server.dispatch_event(
        b,
        Event::DataBin { channel: 1, data: vec![0x00, 0x55, 0xaa, 0xff] },
    );
    assert_eq!(out, vec![(a, Event::DataBin { channel: 1, data: vec![0x00, 0x55, 0xaa, 0xff] })]);
}

#[test]
fn supplier_disconnect_revokes_its_channels() {
    let mut server = Server::new_default();
    let (a, _) = server.accept();
    let (b, _) = server.accept();
    let out = server.dispatch_event(a, Event::ChannelOpenRequest { name: "x".to_string() });
    assert_eq!(out, vec![(a, Event::ChannelOpenResponse { channel: 1, success: true })]);
    server.remove_connection(a);
    let out = server.dispatch_event(b, Event::ChannelListRequest);
    assert_eq!(out, vec![(b, Event::ChannelListResponse { channels: vec![] })]);
}

#[test]
fn channel_info_reports_name_and_supplier() {
    let mut server = Server::new_default();
    let (a, _) = server.accept();
    let out = server.dispatch_event(a, Event::ChannelOpenRequest { name: "alpha".to_string() });
    assert_eq!(out, vec![(a, Event::ChannelOpenResponse { channel: 1, success: true })]);
    let out = server.dispatch_event(a, Event::ChannelInfoRequest(1));
    assert_eq!(
        out,
        vec![(
            a,
            Event::ChannelInfoResponse(ChannelInfo {
                channel: 1,
                name: "alpha".to_string(),
                supplied_by: a,
            })
        )]
    );
}

#[test]
fn channel_info_for_unknown_channel_sends_nothing() {
    let mut server = Server::new_default();
    let (a, _) = server.accept();
    let out = server.dispatch_event(a, Event::ChannelInfoRequest(7));
    assert_eq!(out, vec![]);
}

#[test]
fn duplicate_listen_delivers_once() {
    let mut server = Server::new_default();
    let (a, _) = server.accept();
    let (b, _) = server.accept();
    server.dispatch_event(b, Event::ChannelOpenRequest { name: "c".to_string() });
    let out = server.dispatch_event(a, Event::ChannelListenRequest { channel: 1 });
    assert_eq!(out, vec![(a, Event::ChannelListenResponse { channel: 1, success: true })]);
    // the duplicate reports failure and changes nothing
    let out = server.dispatch_event(a, Event::ChannelListenRequest { channel: 1 });
    assert_eq!(out, vec![(a, Event::ChannelListenResponse { channel: 1, success: false })]);
    let out = server.dispatch_event(
        b,
        Event::Data { channel: 1, data: "once".to_string() },
    );
    assert_eq!(out, vec![(a, Event::Data { channel: 1, data: "once".to_string() })]);
}

#[test]
fn data_is_not_echoed_to_the_sender() {
    let mut server = Server::new_default();
    let (a, _) = server.accept();
    server.dispatch_event(a, Event::ChannelOpenRequest { name: "self".to_string() });
    server.dispatch_event(a, Event::ChannelListenRequest { channel: 1 });
    let out = server.dispatch_event(
        a,
        Event::Data { channel: 1, data: "echo?".to_string() },
    );
    assert_eq!(out, vec![]);
}

#[test]
fn close_requests_and_stray_responses_are_ignored() {
    let mut server = Server::new_default();
    let (a, _) = server.accept();
    assert_eq!(server.dispatch_event(a, Event::ChannelCloseRequest { channel: 1 }), vec![]);
    assert_eq!(
        server.dispatch_event(a, Event::ChannelOpenResponse { channel: 1, success: true }),
        vec![]
    );
    assert_eq!(server.dispatch_event(a, Event::NodeIDNotification { node_id: 9 }), vec![]);
}

#[test]
fn client_listen_is_idempotent_and_reports_the_duplicate() {
    let mut client = Client::new(4);
    assert_eq!(client.node_id(), 4);
    assert!(!client.is_listening(2));
    assert!(matches!(client.listen(2), Ok(())));
    assert!(client.is_listening(2));
    assert!(matches!(client.listen(2), Err(ListenError::AlreadyListening)));
    assert!(client.is_listening(2));
}

#[test]
fn id_manager_counts_up_from_one() {
    let mut ids = IDManager::new();
    assert_eq!(ids.get_new_id(), 1);
    assert_eq!(ids.get_new_id(), 2);
    assert_eq!(ids.get_new_id(), 3);
}

#[test]
fn channel_getters_return_the_record() {
    let ch = Channel::new(5, "tty".to_string(), 2);
    assert_eq!(ch.id(), 5);
    assert_eq!(ch.name(), "tty");
    assert_eq!(ch.name_owned(), "tty".to_string());
    assert_eq!(ch.supplied_by(), 2);
}

#[test]
fn broadcasts_preserve_per_channel_order() {
    let mut server = Server::new_default();
    let (a, _) = server.accept();
    let (b, _) = server.accept();
    server.dispatch_event(a, Event::ChannelOpenRequest { name: "seq".to_string() });
    server.dispatch_event(a, Event::ChannelListenRequest { channel: 1 });
    let first = server.dispatch_event(b, Event::Data { channel: 1, data: "1".to_string() });
    let second = server.dispatch_event(b, Event::Data { channel: 1, data: "2".to_string() });
    assert_eq!(first, vec![(a, Event::Data { channel: 1, data: "1".to_string() })]);
    assert_eq!(second, vec![(a, Event::Data { channel: 1, data: "2".to_string() })]);
}
