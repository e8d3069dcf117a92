//! The client-side correlator: arming, completion, sinks, teardown.

use devconsole::client::{Action, DCClient, DispatchID, Dispatchers};
use devconsole::protocol::{ChannelInfo, Event};

#[test]
fn open_response_completes_the_armed_open_call() {
    let mut client = DCClient::new();
    let request = client.open("foo".to_string());
    assert_eq!(request, Event::ChannelOpenRequest { name: "foo".to_string() });
    let action = client.on_event(Event::ChannelOpenResponse { channel: 5, success: true });
    assert!(matches!(action, Action::CompleteOpen(5)));
    // the slot is one-shot: a second response finds nothing armed
    let action = client.on_event(Event::ChannelOpenResponse { channel: 6, success: true });
    assert!(matches!(action, Action::Drop));
}

#[test]
fn open_responses_complete_in_request_order() {
    // the n-th open response answers the n-th open request
    let mut client = DCClient::new();
    client.open("first".to_string());
    let action = client.on_event(Event::ChannelOpenResponse { channel: 1, success: true });
    assert!(matches!(action, Action::CompleteOpen(1)));
    client.open("second".to_string());
    let action = client.on_event(Event::ChannelOpenResponse { channel: 2, success: true });
    assert!(matches!(action, Action::CompleteOpen(2)));
}

#[test]
fn listen_arms_once_and_is_idempotent() {
    let mut client = DCClient::new();
    let request = client.listen(3, true, false);
    assert_eq!(request, Some(Event::ChannelListenRequest { channel: 3 }));
    // the duplicate is dropped locally and nothing is sent again
    assert_eq!(client.listen(3, true, false), None);
    let action = client.on_event(Event::ChannelListenResponse { channel: 3, success: true });
    assert!(matches!(action, Action::CompleteEvent(DispatchID::Listen(3), true)));
    // the waiter is gone now
    let action = client.on_event(Event::ChannelListenResponse { channel: 3, success: true });
    assert!(matches!(action, Action::Drop));
}

#[test]
fn data_goes_to_the_registered_sink_only() {
    let mut client = DCClient::new();
    client.listen(7, true, false);
    let action = client.on_event(Event::Data { channel: 7, data: "payload".to_string() });
    match action {
        Action::DeliverData(channel, data) => {
            assert_eq!(channel, 7);
            assert_eq!(data, "payload".to_string());
        },
        _ => panic!("expected a text delivery"),
    }
    // no sink on channel 8: dropped, not an error
    let action = client.on_event(Event::Data { channel: 8, data: "stray".to_string() });
    assert!(matches!(action, Action::Drop));
}

#[test]
fn binary_data_round_trips_through_the_sink() {
    let mut client = DCClient::new();
    client.listen(2, false, true);
    let action = client.on_event(Event::DataBin { channel: 2, data: vec![0x00, 0x55, 0xaa, 0xff] });
    match action {
        Action::DeliverBin(channel, data) => {
            assert_eq!(channel, 2);
            assert_eq!(data, vec![0x00, 0x55, 0xaa, 0xff]);
        },
        _ => panic!("expected a binary delivery"),
    }
    // only the binary sink was registered
    let action = client.on_event(Event::Data { channel: 2, data: "text".to_string() });
    assert!(matches!(action, Action::Drop));
}

#[test]
fn node_id_is_observed_from_the_notification() {
    let mut client = DCClient::new();
    assert_eq!(client.get_node_id(), None);
    let action = client.on_event(Event::NodeIDNotification { node_id: 42 });
    assert!(matches!(action, Action::Drop));
    assert_eq!(client.get_node_id(), Some(42));
}

#[test]
fn channel_list_and_info_complete_their_calls() {
    let mut client = DCClient::new();
    assert_eq!(client.channel_list(), Event::ChannelListRequest);
    let action = client.on_event(Event::ChannelListResponse { channels: vec![1, 2, 3] });
    match action {
        Action::CompleteList(channels) => assert_eq!(channels, vec![1, 2, 3]),
        _ => panic!("expected the list completion"),
    }
    assert_eq!(client.channel_info(2), Event::ChannelInfoRequest(2));
    let info = ChannelInfo { channel: 2, name: "beta".to_string(), supplied_by: 1 };
    let action = client.on_event(Event::ChannelInfoResponse(info.clone()));
    match action {
        Action::CompleteInfo(got) => assert_eq!(got, info),
        _ => panic!("expected the info completion"),
    }
    // unarmed responses are dropped
    let action = client.on_event(Event::ChannelListResponse { channels: vec![] });
    assert!(matches!(action, Action::Drop));
}

#[test]
fn teardown_hands_back_every_armed_waiter() {
    let mut client = DCClient::new();
    client.open("x".to_string());
    client.listen(1, false, false);
    client.listen(9, false, false);
    client.channel_list();
    let armed = client.teardown();
    assert_eq!(armed.events, vec![DispatchID::Listen(1), DispatchID::Listen(9)]);
    assert!(armed.resolve_channel);
    assert!(armed.channel_list);
    assert!(!armed.channel_info);
    // nothing stays armed
    let armed = client.teardown();
    assert_eq!(armed.events, vec![]);
    assert!(!armed.resolve_channel);
    assert!(!armed.channel_list);
}

#[test]
fn dispatchers_keep_one_waiter_per_key() {
    let mut table = Dispatchers::new();
    table.wait_for_event(DispatchID::Listen(4));
    table.wait_for_event(DispatchID::Listen(4));
    assert!(table.dispatch_event(DispatchID::Listen(4)));
    // the single armed waiter is gone after one completion
    assert!(!table.dispatch_event(DispatchID::Listen(4)));
}

#[test]
fn requests_are_ignored_by_the_correlator() {
    let mut client = DCClient::new();
    let action = client.on_event(Event::ChannelOpenRequest { name: "n".to_string() });
    assert!(matches!(action, Action::Drop));
    let action = client.on_event(Event::ChannelCloseRequest { channel: 1 });
    assert!(matches!(action, Action::Drop));
}

#[test]
fn correlation_keys_match_request_and_response() {
    assert_eq!(
        DispatchID::of_event(&Event::ChannelListenRequest { channel: 5 }),
        Some(DispatchID::Listen(5))
    );
    assert_eq!(
        DispatchID::of_event(&Event::ChannelListenResponse { channel: 5, success: true }),
        Some(DispatchID::Listen(5))
    );
    assert_eq!(DispatchID::of_event(&Event::ChannelListRequest), Some(DispatchID::ChannelList));
    assert_eq!(DispatchID::of_event(&Event::ChannelInfoRequest(9)), Some(DispatchID::ChannelInfo(9)));
    assert_eq!(DispatchID::of_event(&Event::NodeIDNotification { node_id: 1 }), None);
    assert_eq!(
        DispatchID::of_event(&Event::ChannelOpenRequest { name: "n".to_string() }),
        None
    );
}
