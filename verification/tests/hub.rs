use holonet::holo_api::{ErrorOutput, Input, JoinEvent, MessageEvent, Output, RequestPacket};
use holonet::holocaster::{Holocaster, HolocasterConfig, DEFAULT_CHANNEL_ID};

const A: u128 = 0xa1;
const B: u128 = 0xb2;
const C: u128 = 0xc3;

fn fresh_hub() -> Holocaster {
    Holocaster::new(HolocasterConfig { alive_interval: Some(20_000) })
}

#[test]
fn new_hub_seeds_default_channel() {
    let hub = fresh_hub();
    assert_eq!(hub.channels.len(), 1);
    assert_eq!(hub.channels[0].id, DEFAULT_CHANNEL_ID);
    assert_eq!(hub.channels[0].name, "holonet");
    assert_eq!(hub.channels[0].game_id, 0);
    assert!(hub.channels[0].messages.is_empty());
    assert_eq!(hub.sessions.len(), 0);
}

#[test]
fn default_hub_has_no_heartbeat() {
    let hub = Holocaster::default();
    assert!(hub.alive_interval.is_none());
    assert_eq!(hub.heartbeat_interval(), None);
}

#[test]
fn heartbeat_interval_rejects_zero() {
    let hub = Holocaster::new(HolocasterConfig { alive_interval: Some(0) });
    assert_eq!(hub.heartbeat_interval(), None);
    let hub = Holocaster::new(HolocasterConfig { alive_interval: Some(7) });
    assert_eq!(hub.heartbeat_interval(), Some(7));
}

#[test]
fn first_join_registers_and_confirms_alone() {
    let mut hub = fresh_hub();
    let out = hub.process_join(A, JoinEvent { user_name: String::from("alice") });
    assert!(hub.sessions.contains(A));
    assert_eq!(out.len(), 1);
    assert_eq!(out[0].session_id, A);
    assert_eq!(out[0].channel_id, A);
    match &out[0].output {
        Output::UserJoined(j) => {
            assert_eq!(j.user.id, A);
            assert_eq!(j.user.name, "alice");
            assert_eq!(j.channels.len(), 1);
            assert_eq!(j.channels[0].id, DEFAULT_CHANNEL_ID);
            assert_eq!(j.channels[0].name, "holonet");
        }
        other => panic!("expected a UserJoined confirmation, got {:?}", other),
    }
}

#[test]
fn second_join_announces_to_the_first() {
    let mut hub = fresh_hub();
    hub.process_join(A, JoinEvent { user_name: String::from("alice") });
    let out = hub.process_join(B, JoinEvent { user_name: String::from("bob") });
    assert_eq!(out.len(), 2);
    assert_eq!(out[0].session_id, B);
    assert_eq!(out[1].session_id, A);
    assert_eq!(out[1].channel_id, B);
    match (&out[0].output, &out[1].output) {
        (Output::UserJoined(conf), Output::UserJoined(ann)) => {
            assert_eq!(conf, ann);
            assert_eq!(conf.user.name, "bob");
        }
        _ => panic!("both envelopes must carry the UserJoined payload"),
    }
}

#[test]
fn rejoin_overwrites_the_record() {
    let mut hub = fresh_hub();
    hub.process_join(A, JoinEvent { user_name: String::from("alice") });
    hub.process_join(A, JoinEvent { user_name: String::from("al") });
    assert_eq!(hub.sessions.len(), 1);
    let record = hub.sessions.get(A).expect("still registered");
    assert_eq!(record.name, "al");
}

#[test]
fn message_from_unregistered_session_is_rejected() {
    let mut hub = fresh_hub();
    hub.process_join(A, JoinEvent { user_name: String::from("alice") });
    let out = hub.process_message(C, MessageEvent { body: String::from("hi") }, 42, 1_000);
    assert_eq!(hub.channels[0].messages.len(), 0);
    assert_eq!(out.len(), 1);
    assert_eq!(out[0].session_id, C);
    assert_eq!(out[0].output, Output::Error(ErrorOutput::InvalidSession));
}

#[test]
fn empty_body_is_rejected() {
    let mut hub = fresh_hub();
    hub.process_join(A, JoinEvent { user_name: String::from("alice") });
    let out = hub.process_message(A, MessageEvent { body: String::new() }, 42, 1_000);
    assert_eq!(hub.channels[0].messages.len(), 0);
    assert_eq!(out.len(), 1);
    assert_eq!(out[0].session_id, A);
    assert_eq!(out[0].output, Output::Error(ErrorOutput::InvalidMessageRequest));
}

#[test]
fn overlong_body_is_rejected() {
    let mut hub = fresh_hub();
    hub.process_join(A, JoinEvent { user_name: String::from("alice") });
    let body: String = std::iter::repeat('x').take(257).collect();
    let out = hub.process_message(A, MessageEvent { body }, 42, 1_000);
    assert_eq!(hub.channels[0].messages.len(), 0);
    assert_eq!(out[0].output, Output::Error(ErrorOutput::InvalidMessageRequest));
}

#[test]
fn body_of_exactly_256_bytes_is_accepted() {
    let mut hub = fresh_hub();
    hub.process_join(A, JoinEvent { user_name: String::from("alice") });
    let body: String = std::iter::repeat('x').take(256).collect();
    let out = hub.process_message(A, MessageEvent { body }, 42, 1_000);
    assert_eq!(hub.channels[0].messages.len(), 1);
    assert_eq!(out.len(), 1);
}

#[test]
fn body_length_counts_utf8_bytes() {
    let mut hub = fresh_hub();
    hub.process_join(A, JoinEvent { user_name: String::from("alice") });
    // 100 three-byte characters: 300 bytes, over the 256-byte limit.
    let body: String = std::iter::repeat('\u{20ac}').take(100).collect();
    let out = hub.process_message(A, MessageEvent { body }, 42, 1_000);
    assert_eq!(hub.channels[0].messages.len(), 0);
    assert_eq!(out[0].output, Output::Error(ErrorOutput::InvalidMessageRequest));
}

#[test]
fn valid_message_is_appended_and_fanned_out() {
    let mut hub = fresh_hub();
    hub.process_join(A, JoinEvent { user_name: String::from("alice") });
    hub.process_join(B, JoinEvent { user_name: String::from("bob") });
    let out = hub.process_message(A, MessageEvent { body: String::from("hi") }, 42, 1_000);

    assert_eq!(hub.channels[0].messages.len(), 1);
    let stored = &hub.channels[0].messages[0];
    assert_eq!(stored.id, 42);
    assert_eq!(stored.channel_id, DEFAULT_CHANNEL_ID);
    assert_eq!(stored.body, "hi");
    assert_eq!(stored.created_by, A);
    assert_eq!(stored.created_at, 1_000);
    assert_eq!(stored.user.id, A);
    assert_eq!(stored.user.name, "alice");

    assert_eq!(out.len(), 2);
    assert_eq!(out[0].session_id, A);
    assert_eq!(out[1].session_id, B);
    assert_eq!(out[1].channel_id, A);
    match (&out[0].output, &out[1].output) {
        (Output::UserMessage(echo), Output::Message(bcast)) => {
            assert_eq!(echo, bcast);
            assert_eq!(echo.message.id, 42);
            assert_eq!(echo.message.body, "hi");
            assert_eq!(echo.message.created_by, A);
            assert_eq!(echo.message.created_at, 1_000);
            assert_eq!(echo.channel.id, DEFAULT_CHANNEL_ID);
        }
        _ => panic!("expected the echo and the broadcast"),
    }
}

#[test]
fn appends_stay_sorted_by_creation_time() {
    let mut hub = fresh_hub();
    hub.process_join(A, JoinEvent { user_name: String::from("alice") });
    hub.process_message(A, MessageEvent { body: String::from("late") }, 1, 5_000);
    hub.process_message(A, MessageEvent { body: String::from("early") }, 2, 1_000);
    hub.process_message(A, MessageEvent { body: String::from("middle") }, 3, 3_000);
    let times: Vec<i64> = hub.channels[0].messages.iter().map(|m| m.created_at).collect();
    assert_eq!(times, vec![1_000, 3_000, 5_000]);
    assert_eq!(hub.channels[0].messages[0].body, "early");
}

#[test]
fn disconnect_removes_and_announces_once() {
    let mut hub = fresh_hub();
    hub.process_join(A, JoinEvent { user_name: String::from("alice") });
    hub.process_join(B, JoinEvent { user_name: String::from("bob") });
    let out = hub.handle_disconnect(A);
    assert!(!hub.sessions.contains(A));
    assert!(hub.sessions.contains(B));
    assert_eq!(out.len(), 1);
    assert_eq!(out[0].session_id, B);
    assert_eq!(out[0].channel_id, A);
    match &out[0].output {
        Output::UserDisconnect(d) => assert_eq!(d.user_id, A),
        other => panic!("expected UserDisconnect, got {:?}", other),
    }
}

#[test]
fn disconnect_of_unknown_session_is_a_silent_noop() {
    let mut hub = fresh_hub();
    hub.process_join(A, JoinEvent { user_name: String::from("alice") });
    let out = hub.handle_disconnect(C);
    assert!(out.is_empty());
    assert_eq!(hub.sessions.len(), 1);
}

#[test]
fn keep_alive_reaches_every_session_directly() {
    let mut hub = fresh_hub();
    hub.process_join(A, JoinEvent { user_name: String::from("alice") });
    hub.process_join(B, JoinEvent { user_name: String::from("bob") });
    let out = hub.send(Output::KeepAliveTick);
    assert_eq!(out.len(), 2);
    assert_eq!(out[0].session_id, A);
    assert_eq!(out[1].session_id, B);
    assert!(out.iter().all(|p| p.output == Output::KeepAliveTick));
    assert!(out.iter().all(|p| p.channel_id == p.session_id));
}

#[test]
fn deliver_to_one_addresses_exactly_the_target() {
    let mut hub = fresh_hub();
    hub.process_join(A, JoinEvent { user_name: String::from("alice") });
    hub.process_join(B, JoinEvent { user_name: String::from("bob") });
    let out = hub.send_session_id(B, Output::KeepAliveTick);
    assert_eq!(out.len(), 1);
    assert_eq!(out[0].session_id, B);
}

#[test]
fn deliver_to_all_except_skips_exactly_the_excluded() {
    let mut hub = fresh_hub();
    hub.process_join(A, JoinEvent { user_name: String::from("alice") });
    hub.process_join(B, JoinEvent { user_name: String::from("bob") });
    hub.process_join(C, JoinEvent { user_name: String::from("carol") });
    let out = hub.send_except_session_id(B, Output::KeepAliveTick);
    let recipients: Vec<u128> = out.iter().map(|p| p.session_id).collect();
    assert_eq!(recipients, vec![A, C]);
    assert!(out.iter().all(|p| p.channel_id == B));
}

#[test]
fn send_error_goes_to_the_offender_alone() {
    let mut hub = fresh_hub();
    hub.process_join(A, JoinEvent { user_name: String::from("alice") });
    hub.process_join(B, JoinEvent { user_name: String::from("bob") });
    let out = hub.send_error(A, ErrorOutput::InvalidMessageRequest);
    assert_eq!(out.len(), 1);
    assert_eq!(out[0].session_id, A);
    assert_eq!(out[0].output, Output::Error(ErrorOutput::InvalidMessageRequest));
}

#[test]
fn handle_message_routes_join_and_message() {
    let mut hub = fresh_hub();
    let join = RequestPacket::new(A, A, Input::Join(JoinEvent { user_name: String::from("alice") }));
    let out = hub.handle_message(join);
    assert_eq!(out.len(), 1);
    assert!(hub.sessions.contains(A));

    let msg = RequestPacket::new(A, A, Input::Message(MessageEvent { body: String::from("hi") }));
    let out = hub.handle_message(msg);
    assert_eq!(hub.channels[0].messages.len(), 1);
    assert_eq!(out.len(), 1);
    let stored = &hub.channels[0].messages[0];
    assert_ne!(stored.id, 0);
    assert_eq!(stored.body, "hi");
}
