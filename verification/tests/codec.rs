use holonet::holo_api::{
    ChannelModelResponse, ErrorOutput, Input, JoinEvent, MessageEvent, MessageModelResponse,
    Output, UserDiscconnectOutput, UserJoinedOutput, UserMessageOutput, UserModelResponse,
};
use holonet::wire::{decode_input, decode_output, encode_input, encode_output};

fn sample_message_output() -> UserMessageOutput {
    UserMessageOutput::new(
        MessageModelResponse {
            id: 42,
            body: String::from("hi"),
            created_by: 7,
            created_at: 1000,
        },
        ChannelModelResponse { id: 5, name: String::from("holonet") },
    )
}

#[test]
fn encode_join_input_frame() {
    let input = Input::Join(JoinEvent { user_name: String::from("alice") });
    assert_eq!(
        encode_input(&input),
        "{\"type\":\"join\",\"payload\":{\"userName\":\"alice\"}}"
    );
}

#[test]
fn encode_message_input_frame() {
    let input = Input::Message(MessageEvent { body: String::from("hi") });
    assert_eq!(
        encode_input(&input),
        "{\"type\":\"message\",\"payload\":{\"body\":\"hi\"}}"
    );
}

#[test]
fn decode_join_input_frame() {
    let decoded = decode_input("{\"type\":\"join\",\"payload\":{\"userName\":\"alice\"}}");
    assert_eq!(
        decoded,
        Some(Input::Join(JoinEvent { user_name: String::from("alice") }))
    );
}

#[test]
fn decode_message_input_frame() {
    let decoded = decode_input("{\"type\":\"message\",\"payload\":{\"body\":\"hi\"}}");
    assert_eq!(
        decoded,
        Some(Input::Message(MessageEvent { body: String::from("hi") }))
    );
}

#[test]
fn malformed_input_frames_are_rejected() {
    assert!(decode_input("").is_none());
    assert!(decode_input("{\"type\":\"join\"}").is_none());
    assert!(decode_input("{\"type\":\"leave\",\"payload\":{}}").is_none());
    assert!(decode_input("{\"type\":\"message\",\"payload\":{\"body\":\"hi\"}}trailing").is_none());
    assert!(decode_input("{\"type\":\"message\",\"payload\":{\"body\":\"hi}}").is_none());
}

#[test]
fn input_round_trips_with_escapes() {
    let body = String::from("say \"hi\" \\ twice\nplease\ttabbed");
    let input = Input::Message(MessageEvent { body });
    let frame = encode_input(&input);
    assert_eq!(decode_input(&frame), Some(input));
}

#[test]
fn decoding_then_encoding_returns_the_same_frame() {
    let frame = "{\"type\":\"message\",\"payload\":{\"body\":\"a\\\"b\\\\c\\u0009d\"}}";
    let decoded = decode_input(frame).expect("canonical frame");
    assert_eq!(encode_input(&decoded), frame);
}

#[test]
fn non_canonical_escapes_are_rejected() {
    // The encoder writes tabs as \u0009, so \t is not a canonical frame.
    assert!(decode_input("{\"type\":\"message\",\"payload\":{\"body\":\"a\\tb\"}}").is_none());
    // \u0041 is 'A', which the encoder never escapes.
    assert!(decode_input("{\"type\":\"message\",\"payload\":{\"body\":\"\\u0041\"}}").is_none());
}

#[test]
fn encode_user_joined_frame() {
    let output = Output::UserJoined(UserJoinedOutput::new(
        vec![ChannelModelResponse { id: 5, name: String::from("holonet") }],
        UserModelResponse { id: 7, name: String::from("alice") },
    ));
    assert_eq!(
        encode_output(&output),
        "{\"type\":\"user-joined\",\"payload\":{\"channels\":[{\"id\":5,\"name\":\"holonet\"}],\"user\":{\"id\":7,\"name\":\"alice\"}}}"
    );
}

#[test]
fn encode_keep_alive_frame() {
    assert_eq!(encode_output(&Output::KeepAliveTick), "{\"type\":\"keep-alive-tick\"}");
}

#[test]
fn encode_error_frame() {
    assert_eq!(
        encode_output(&Output::Error(ErrorOutput::InvalidSession)),
        "{\"type\":\"error\",\"payload\":{\"code\":\"invalid-session\"}}"
    );
}

#[test]
fn output_round_trips_every_variant() {
    let outputs = vec![
        Output::UserJoined(UserJoinedOutput::new(
            vec![
                ChannelModelResponse { id: 5, name: String::from("holonet") },
                ChannelModelResponse { id: 6, name: String::from("two \"quotes\"") },
            ],
            UserModelResponse { id: 7, name: String::from("alice") },
        )),
        Output::UserJoined(UserJoinedOutput::new(
            vec![],
            UserModelResponse { id: 0, name: String::new() },
        )),
        Output::UserDisconnect(UserDiscconnectOutput::new(u128::MAX)),
        Output::UserMessage(sample_message_output()),
        Output::Message(sample_message_output()),
        Output::Error(ErrorOutput::InvalidSession),
        Output::Error(ErrorOutput::InvalidMessageRequest),
        Output::Error(ErrorOutput::ChannelFull),
        Output::Error(ErrorOutput::NameTaken),
        Output::KeepAliveTick,
    ];
    for output in outputs {
        let frame = encode_output(&output);
        let decoded = decode_output(&frame);
        assert_eq!(decoded, Some(output), "frame was {}", frame);
    }
}

#[test]
fn output_round_trips_a_negative_timestamp() {
    let output = Output::UserMessage(UserMessageOutput::new(
        MessageModelResponse {
            id: 1,
            body: String::from("old"),
            created_by: 2,
            created_at: -62_135_596_800_000,
        },
        ChannelModelResponse { id: 3, name: String::from("holonet") },
    ));
    let frame = encode_output(&output);
    assert!(frame.contains("-62135596800000"));
    assert_eq!(decode_output(&frame), Some(output));
}

#[test]
fn malformed_output_frames_are_rejected() {
    assert!(decode_output("").is_none());
    assert!(decode_output("{\"type\":\"keep-alive-tick\"}x").is_none());
    assert!(decode_output("{\"type\":\"error\",\"payload\":{\"code\":\"unknown\"}}").is_none());
    assert!(
        decode_output("{\"type\":\"user-disconnect\",\"payload\":{\"userId\":12a}}").is_none()
    );
}
