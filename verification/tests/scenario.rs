//! The end-to-end session: alice joins, bob joins, alice chats, fumbles
//! an empty message, and leaves.

use holonet::holo_api::{ErrorOutput, JoinEvent, MessageEvent, Output};
use holonet::holocaster::{Holocaster, HolocasterConfig, DEFAULT_CHANNEL_ID};

const A: u128 = 0xaaaa;
const B: u128 = 0xbbbb;

#[test]
fn two_users_chat_and_one_leaves() {
    let mut hub = Holocaster::new(HolocasterConfig { alive_interval: Some(20_000) });

    // Session A joins as "alice" and receives the confirmation.
    let out = hub.process_join(A, JoinEvent { user_name: String::from("alice") });
    assert_eq!(out.len(), 1);
    assert_eq!(out[0].session_id, A);
    match &out[0].output {
        Output::UserJoined(j) => {
            assert_eq!(j.channels.len(), 1);
            assert_eq!(j.channels[0].id, DEFAULT_CHANNEL_ID);
            assert_eq!(j.channels[0].name, "holonet");
            assert_eq!(j.user.id, A);
            assert_eq!(j.user.name, "alice");
        }
        other => panic!("expected UserJoined, got {:?}", other),
    }

    // Session B joins as "bob": B gets the same shape with itself as user,
    // A gets the announcement for B.
    let out = hub.process_join(B, JoinEvent { user_name: String::from("bob") });
    assert_eq!(out.len(), 2);
    assert_eq!(out[0].session_id, B);
    assert_eq!(out[1].session_id, A);
    match &out[0].output {
        Output::UserJoined(j) => {
            assert_eq!(j.user.id, B);
            assert_eq!(j.user.name, "bob");
        }
        other => panic!("expected UserJoined, got {:?}", other),
    }
    match &out[1].output {
        Output::UserJoined(j) => assert_eq!(j.user.name, "bob"),
        other => panic!("expected the UserJoined announcement, got {:?}", other),
    }

    // A sends "hi": A receives the echo, B the broadcast, both with the
    // same message id and body.
    let out = hub.process_message(A, MessageEvent { body: String::from("hi") }, 42, 1_000);
    assert_eq!(out.len(), 2);
    assert_eq!(out[0].session_id, A);
    assert_eq!(out[1].session_id, B);
    let (echo, bcast) = match (&out[0].output, &out[1].output) {
        (Output::UserMessage(e), Output::Message(b)) => (e, b),
        _ => panic!("expected UserMessage to A and Message to B"),
    };
    assert_eq!(echo.message.id, bcast.message.id);
    assert_eq!(echo.message.body, "hi");
    assert_eq!(bcast.message.body, "hi");
    let count_after_hi = hub.channels[0].messages.len();
    assert_eq!(count_after_hi, 1);
    assert_eq!(hub.channels[0].messages[0].channel_id, DEFAULT_CHANNEL_ID);

    // A sends an empty body: A alone is told, the log does not change.
    let out = hub.process_message(A, MessageEvent { body: String::new() }, 43, 2_000);
    assert_eq!(out.len(), 1);
    assert_eq!(out[0].session_id, A);
    assert_eq!(out[0].output, Output::Error(ErrorOutput::InvalidMessageRequest));
    assert_eq!(hub.channels[0].messages.len(), count_after_hi);

    // A disconnects: B is told, and the registry no longer holds A.
    let out = hub.handle_disconnect(A);
    assert_eq!(out.len(), 1);
    assert_eq!(out[0].session_id, B);
    match &out[0].output {
        Output::UserDisconnect(d) => assert_eq!(d.user_id, A),
        other => panic!("expected UserDisconnect, got {:?}", other),
    }
    assert!(!hub.sessions.contains(A));
    assert!(hub.sessions.contains(B));
}
