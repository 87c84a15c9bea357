//! The broadcast session hub. It owns the session registry and the channel
//! store, processes inbound events (join, message, disconnect) one at a
//! time, and produces the addressed response packets that the transport
//! layer publishes on its broadcast topic.
//!
//! Each event either fully applies or fully aborts before any state
//! mutation; the packets a call returns are exactly the envelopes the hub
//! asks the transport layer to deliver, in order.

use vstd::prelude::*;

use crate::channel::{insert_pos, msgs_sorted, Channel, ChannelV};
use crate::external;
use crate::holo_api::{
    ChannelModelResponse, ChannelModelResponseV, ErrorOutput, Input, JoinEvent, MessageEvent,
    MessageModelResponse, MessageModelResponseV, Output, OutputV, RequestPacket, ResponsePacket,
    ResponsePacketV, UserDiscconnectOutput, UserJoinedOutput, UserJoinedOutputV, UserMessageOutput,
    UserMessageOutputV, UserModelResponse, UserModelResponseV,
};
use crate::message::{Message, MessageV};
use crate::registry::{contains_id, ids_unique, index_of_id, SessionRegistry};
use crate::session::SessionV;

verus! {

/// Identifier of the one channel seeded at startup.
pub const DEFAULT_CHANNEL_ID: u128 = 0x65fe9132_a31f_11eb_bcbc_0242ac130002;

/// Name of the one channel seeded at startup.
pub const DEFAULT_CHANNEL_NAME: &'static str = "holonet";

/// A message body must be 1 to this many UTF-8 bytes.
pub const MAX_MESSAGE_BODY_LENGTH: usize = 256;

/// Hub configuration: the heartbeat interval in milliseconds. A missing or
/// zero interval is a fatal configuration error for the run loop, not a
/// silently skipped heartbeat.
pub struct HolocasterConfig {
    pub alive_interval: Option<u64>,
}

impl Clone for HolocasterConfig {
    fn clone(&self) -> (r: Self)
        ensures
            r == *self,
    {
        HolocasterConfig { alive_interval: self.alive_interval }
    }
}

impl Default for HolocasterConfig {
    /// No heartbeat interval configured.
    fn default() -> (r: Self)
        ensures
            r.alive_interval is None,
    {
        HolocasterConfig { alive_interval: None }
    }
}

/// Ghost mirror of [`Holocaster`].
pub ghost struct HolocasterV {
    pub alive_interval: Option<u64>,
    pub sessions: Seq<SessionV>,
    pub channels: Seq<ChannelV>,
}

/// The broadcast session hub: the single owner of the session registry and
/// the channel store.
pub struct Holocaster {
    /// Heartbeat interval in milliseconds, if heartbeats are configured.
    pub alive_interval: Option<u64>,
    /// Who is connected.
    pub sessions: SessionRegistry,
    /// The channel store; the first channel is the default channel.
    pub channels: Vec<Channel>,
}

impl View for Holocaster {
    type V = HolocasterV;

    open spec fn view(&self) -> HolocasterV {
        HolocasterV {
            alive_interval: self.alive_interval,
            sessions: self.sessions@,
            channels: self.channels.deep_view(),
        }
    }
}

/// One addressed envelope: `recipient` gets `output`, caused by `origin`.
pub open spec fn packet(recipient: u128, origin: u128, output: OutputV) -> ResponsePacketV {
    ResponsePacketV { session_id: recipient, channel_id: origin, output }
}

/// One envelope per registered session, each addressed to that session.
pub open spec fn fanout_all(sessions: Seq<SessionV>, output: OutputV) -> Seq<ResponsePacketV>
    decreases sessions.len(),
{
    if sessions.len() == 0 {
        Seq::empty()
    } else {
        fanout_all(sessions.drop_last(), output).push(
            packet(sessions.last().id, sessions.last().id, output),
        )
    }
}

/// One envelope per registered session other than the excluded one, each
/// addressed to that session with the excluded session as origin.
pub open spec fn fanout_except(sessions: Seq<SessionV>, excluded: u128, output: OutputV) -> Seq<
    ResponsePacketV,
>
    decreases sessions.len(),
{
    if sessions.len() == 0 {
        Seq::empty()
    } else {
        let rest = fanout_except(sessions.drop_last(), excluded, output);
        if sessions.last().id == excluded {
            rest
        } else {
            rest.push(packet(sessions.last().id, excluded, output))
        }
    }
}

pub proof fn lemma_fanout_all_take_succ(sessions: Seq<SessionV>, output: OutputV, i: int)
    requires
        0 <= i < sessions.len(),
    ensures
        fanout_all(sessions.take(i + 1), output) == fanout_all(sessions.take(i), output).push(
            packet(sessions[i].id, sessions[i].id, output),
        ),
{
    assert(sessions.take(i + 1).drop_last() =~= sessions.take(i));
    assert(sessions.take(i + 1).last() == sessions[i]);
}

pub proof fn lemma_fanout_except_take_succ(
    sessions: Seq<SessionV>,
    excluded: u128,
    output: OutputV,
    i: int,
)
    requires
        0 <= i < sessions.len(),
    ensures
        fanout_except(sessions.take(i + 1), excluded, output) == if sessions[i].id == excluded {
            fanout_except(sessions.take(i), excluded, output)
        } else {
            fanout_except(sessions.take(i), excluded, output).push(
                packet(sessions[i].id, excluded, output),
            )
        },
{
    assert(sessions.take(i + 1).drop_last() =~= sessions.take(i));
    assert(sessions.take(i + 1).last() == sessions[i]);
}

/// The body is 1 to 256 UTF-8 bytes.
pub open spec fn valid_body(body: Seq<char>) -> bool {
    1 <= vstd::utf8::encode_utf8(body).len() <= MAX_MESSAGE_BODY_LENGTH as int
}

/// The registry after a join: the record for the identifier overwritten in
/// place, or appended when none existed.
pub open spec fn spec_upsert(sessions: Seq<SessionV>, sid: u128, name: Seq<char>) -> Seq<
    SessionV,
> {
    let s = SessionV { id: sid, name };
    if contains_id(sessions, sid) {
        sessions.update(index_of_id(sessions, sid), s)
    } else {
        sessions.push(s)
    }
}

/// The payload announced for a join: the default channel's summary and the
/// joining user.
pub open spec fn join_output(channels: Seq<ChannelV>, sid: u128, name: Seq<char>) -> OutputV {
    OutputV::UserJoined(
        UserJoinedOutputV {
            channels: seq![
                ChannelModelResponseV { id: channels[0].id, name: channels[0].name },
            ],
            user: UserModelResponseV { id: sid, name },
        },
    )
}

/// What a join event does: upsert the session, then one confirmation to
/// the joiner followed by the same announcement to every other registered
/// session.
pub open spec fn spec_join(h: HolocasterV, sid: u128, name: Seq<char>) -> (
    HolocasterV,
    Seq<ResponsePacketV>,
) {
    let out = join_output(h.channels, sid, name);
    let sessions2 = spec_upsert(h.sessions, sid, name);
    let h2 = HolocasterV { sessions: sessions2, ..h };
    (h2, seq![packet(sid, sid, out)] + fanout_except(sessions2, sid, out))
}

/// The payload delivered for an accepted message.
pub open spec fn message_output(
    channels: Seq<ChannelV>,
    sid: u128,
    body: Seq<char>,
    mid: u128,
    t: i64,
) -> UserMessageOutputV {
    UserMessageOutputV {
        message: MessageModelResponseV { id: mid, body, created_by: sid, created_at: t },
        channel: ChannelModelResponseV { id: channels[0].id, name: channels[0].name },
    }
}

/// What a message event does. An unregistered sender gets exactly one
/// `InvalidSession` error and nothing is mutated; an empty or over-length
/// body gets exactly one `InvalidMessageRequest` error and nothing is
/// mutated; otherwise the message is appended to the default channel in
/// creation-time order, the sender gets its echo and every other session
/// gets the broadcast.
pub open spec fn spec_message(
    h: HolocasterV,
    sid: u128,
    body: Seq<char>,
    mid: u128,
    t: i64,
) -> (HolocasterV, Seq<ResponsePacketV>) {
    if !contains_id(h.sessions, sid) {
        (h, seq![packet(sid, sid, OutputV::Error(ErrorOutput::InvalidSession))])
    } else if !valid_body(body) {
        (h, seq![packet(sid, sid, OutputV::Error(ErrorOutput::InvalidMessageRequest))])
    } else {
        let user = h.sessions[index_of_id(h.sessions, sid)];
        let ch0 = h.channels[0];
        let m = MessageV {
            id: mid,
            channel_id: ch0.id,
            body,
            user,
            created_by: sid,
            created_at: t,
        };
        let ch0_after = ChannelV {
            messages: ch0.messages.insert(insert_pos(ch0.messages, t), m),
            ..ch0
        };
        let h2 = HolocasterV { channels: h.channels.update(0, ch0_after), ..h };
        let out = message_output(h.channels, sid, body, mid, t);
        (
            h2,
            seq![packet(sid, sid, OutputV::UserMessage(out))] + fanout_except(
                h.sessions,
                sid,
                OutputV::Message(out),
            ),
        )
    }
}

/// The hub moved from `h0` to `h1` producing `out` by processing a message
/// event, for some minted message identifier and clock reading.
pub open spec fn message_step(
    h0: HolocasterV,
    h1: HolocasterV,
    out: Seq<ResponsePacketV>,
    sid: u128,
    body: Seq<char>,
) -> bool {
    exists|mid: u128, t: i64| (h1, out) == spec_message(h0, sid, body, mid, t)
}

/// What a disconnect does: a registered session is removed and every
/// remaining session is told exactly once; an unknown identifier is a
/// silent no-op.
pub open spec fn spec_disconnect(h: HolocasterV, sid: u128) -> (HolocasterV, Seq<ResponsePacketV>) {
    if contains_id(h.sessions, sid) {
        let sessions2 = h.sessions.remove(index_of_id(h.sessions, sid));
        let h2 = HolocasterV { sessions: sessions2, ..h };
        (
            h2,
            fanout_except(
                sessions2,
                sid,
                OutputV::UserDisconnect(UserDiscconnectOutput { user_id: sid }),
            ),
        )
    } else {
        (h, Seq::empty())
    }
}

impl Holocaster {
    /// Well-formed: unique session identifiers, at least the default
    /// channel, and every channel log sorted by creation time.
    pub open spec fn wf(&self) -> bool {
        &&& ids_unique(self@.sessions)
        &&& self@.channels.len() >= 1
        &&& forall|k: int|
            0 <= k < self@.channels.len() ==> msgs_sorted(#[trigger] self@.channels[k].messages)
    }

    /// A hub with an empty registry and the one seeded default channel.
    pub fn new(config: HolocasterConfig) -> (r: Self)
        ensures
            r@.alive_interval == config.alive_interval,
            r@.sessions == Seq::<SessionV>::empty(),
            r@.channels.len() == 1,
            r@.channels[0].id == DEFAULT_CHANNEL_ID,
            r@.channels[0].name == DEFAULT_CHANNEL_NAME@,
            r@.channels[0].game_id == 0,
            r@.channels[0].messages == Seq::<MessageV>::empty(),
            r.wf(),
    {
        let mut channel_default: Vec<Channel> = Vec::new();
        channel_default.push(Channel::new(DEFAULT_CHANNEL_ID, DEFAULT_CHANNEL_NAME, 0));
        let r = Holocaster {
            alive_interval: config.alive_interval,
            sessions: SessionRegistry::new(),
            channels: channel_default,
        };
        proof {
            assert(r@.channels[0] == r.channels@[0]@);
        }
        r
    }

    /// The configured heartbeat interval, if it is usable: heartbeats need
    /// a present, positive interval.
    pub fn heartbeat_interval(&self) -> (r: Option<u64>)
        ensures
            r == (match self@.alive_interval {
                Some(i) => if i > 0 {
                    Some(i)
                } else {
                    None::<u64>
                },
                None => None::<u64>,
            }),
    {
        match self.alive_interval {
            Some(i) => {
                if i > 0 {
                    Some(i)
                } else {
                    None
                }
            },
            None => None,
        }
    }

    /// The channels the joining user hears: today, the one default channel;
    /// none when the store is empty.
    pub fn get_user_channels(&self) -> (r: Option<Vec<Channel>>)
        ensures
            self@.channels.len() > 0 ==> {
                &&& r is Some
                &&& r->0.deep_view() == seq![self@.channels[0]]
            },
            self@.channels.len() == 0 ==> r is None,
    {
        if self.channels.len() > 0 {
            let mut one: Vec<Channel> = Vec::new();
            one.push(self.channels[0].clone());
            proof {
                assert(one.deep_view() =~= seq![self@.channels[0]]);
            }
            return Some(one);
        }
        None
    }

    /// Deliver-to-all: one `output` envelope per registered session. The
    /// heartbeat loop broadcasts its tick through this.
    pub fn send(&self, output: Output) -> (r: Vec<ResponsePacket>)
        ensures
            r.deep_view() == fanout_all(self@.sessions, output@),
    {
        let mut r: Vec<ResponsePacket> = Vec::new();
        let n = self.sessions.items.len();
        let mut i: usize = 0;
        proof {
            assert(self@.sessions.take(0) =~= Seq::<SessionV>::empty());
        }
        while i < n
            invariant
                i <= n == self.sessions.items.len(),
                r.deep_view() == fanout_all(self@.sessions.take(i as int), output@),
            decreases n - i,
        {
            let ghost pre = r@;
            let ghost pre_deep = r.deep_view();
            let sid = self.sessions.items[i].id;
            proof {
                assert(sid == self@.sessions[i as int].id);
            }
            let p = ResponsePacket::new(sid, sid, output.clone());
            r.push(p);
            proof {
                lemma_fanout_all_take_succ(self@.sessions, output@, i as int);
                assert(r@ == pre.push(p));
                assert forall|j: int| 0 <= j < r@.len() implies r.deep_view()[j] == pre_deep.push(
                    p@,
                )[j] by {
                    if j < pre.len() {
                        assert(r@[j] == pre[j]);
                    } else {
                        assert(r@[j] == p);
                    }
                }
                assert(r.deep_view() =~= pre_deep.push(p@));
            }
            i += 1;
        }
        proof {
            assert(self@.sessions.take(n as int) =~= self@.sessions);
        }
        r
    }

    /// Deliver-to-one: exactly one envelope, addressed to the target
    /// session, with the target as origin.
    pub fn send_session_id(&self, session_id: u128, output: Output) -> (r: Vec<ResponsePacket>)
        ensures
            r.deep_view() == seq![packet(session_id, session_id, output@)],
    {
        let mut r: Vec<ResponsePacket> = Vec::new();
        r.push(ResponsePacket::new(session_id, session_id, output));
        proof {
            assert(r.deep_view() =~= seq![packet(session_id, session_id, r@[0].output@)]);
        }
        r
    }

    /// Deliver-to-all-except: one envelope per registered session other
    /// than the excluded one, with the excluded session as origin.
    pub fn send_except_session_id(&self, session_id: u128, output: Output) -> (r: Vec<
        ResponsePacket,
    >)
        ensures
            r.deep_view() == fanout_except(self@.sessions, session_id, output@),
    {
        let mut r: Vec<ResponsePacket> = Vec::new();
        let n = self.sessions.items.len();
        let mut i: usize = 0;
        proof {
            assert(self@.sessions.take(0) =~= Seq::<SessionV>::empty());
        }
        while i < n
            invariant
                i <= n == self.sessions.items.len(),
                r.deep_view() == fanout_except(self@.sessions.take(i as int), session_id, output@),
            decreases n - i,
        {
            let ghost pre = r@;
            let ghost pre_deep = r.deep_view();
            let sid = self.sessions.items[i].id;
            proof {
                assert(sid == self@.sessions[i as int].id);
                lemma_fanout_except_take_succ(self@.sessions, session_id, output@, i as int);
            }
            if sid != session_id {
                let p = ResponsePacket::new(sid, session_id, output.clone());
                r.push(p);
                proof {
                    assert(r@ == pre.push(p));
                    assert forall|j: int| 0 <= j < r@.len() implies r.deep_view()[j]
                        == pre_deep.push(p@)[j] by {
                        if j < pre.len() {
                            assert(r@[j] == pre[j]);
                        } else {
                            assert(r@[j] == p);
                        }
                    }
                    assert(r.deep_view() =~= pre_deep.push(p@));
                }
            }
            i += 1;
        }
        proof {
            assert(self@.sessions.take(n as int) =~= self@.sessions);
        }
        r
    }

    /// One error envelope, addressed to the offending session alone.
    pub fn send_error(&self, session_id: u128, error: ErrorOutput) -> (r: Vec<ResponsePacket>)
        ensures
            r.deep_view() == seq![packet(session_id, session_id, OutputV::Error(error))],
    {
        self.send_session_id(session_id, Output::Error(error))
    }

    /// Route one inbound event, minting the fresh identifier and timestamp
    /// a message needs. The envelopes returned are exactly what the event
    /// produced, for some minted identifier and clock reading.
    pub fn handle_message(&mut self, request_packet: RequestPacket) -> (r: Vec<ResponsePacket>)
        requires
            old(self).wf(),
        ensures
            final(self).wf(),
            (match request_packet@.body {
                crate::holo_api::InputV::Join(j) => (final(self)@, r.deep_view()) == spec_join(
                    old(self)@,
                    request_packet@.session_id,
                    j.user_name,
                ),
                crate::holo_api::InputV::Message(m) => message_step(
                    old(self)@,
                    final(self)@,
                    r.deep_view(),
                    request_packet@.session_id,
                    m.body,
                ),
            }),
    {
        let session_id = request_packet.session_id;
        match request_packet.body {
            Input::Join(body) => {
                let ghost b = body@;
                let r = self.process_join(session_id, body);
                proof {
                    assert(request_packet@.body == crate::holo_api::InputV::Join(b));
                    assert((self@, r.deep_view()) == spec_join(old(self)@, session_id, b.user_name));
                    assert(match request_packet@.body {
                        crate::holo_api::InputV::Join(j) => (self@, r.deep_view()) == spec_join(
                            old(self)@,
                            request_packet@.session_id,
                            j.user_name,
                        ),
                        crate::holo_api::InputV::Message(m) => exists|mid: u128, t: i64|
                            (self@, r.deep_view()) == spec_message(
                                old(self)@,
                                request_packet@.session_id,
                                m.body,
                                mid,
                                t,
                            ),
                    });
                }
                r
            },
            Input::Message(body) => {
                let ghost b = body@;
                let message_id = external::fresh_uuid();
                let created_at = external::now_millis();
                let r = self.process_message(session_id, body, message_id, created_at);
                proof {
                    assert(request_packet@.body == crate::holo_api::InputV::Message(b));
                    assert((self@, r.deep_view()) == spec_message(
                        old(self)@,
                        session_id,
                        b.body,
                        message_id,
                        created_at,
                    ));
                    assert(message_step(old(self)@, self@, r.deep_view(), session_id, b.body));
                }
                r
            },
        }
    }

    /// Process a join: upsert the session, confirm to the joiner, announce
    /// to everyone else.
    pub fn process_join(&mut self, session_id: u128, body: JoinEvent) -> (r: Vec<ResponsePacket>)
        requires
            old(self).wf(),
        ensures
            final(self).wf(),
            (final(self)@, r.deep_view()) == spec_join(old(self)@, session_id, body@.user_name),
    {
        let ghost h0 = self@;
        let _session = self.sessions.upsert(session_id, body.user_name.as_str());
        proof {
            assert(self@.sessions == spec_upsert(h0.sessions, session_id, body@.user_name));
            assert(self@.channels == h0.channels);
        }
        let channels = match self.get_user_channels() {
            Some(c) => c,
            None => {
                proof {
                    assert(false);
                }
                unreached()
            },
        };
        proof {
            assert(channels.deep_view().len() == 1);
            assert(channels@.len() == 1);
            assert(channels.deep_view()[0] == h0.channels[0]);
            assert(channels@[0]@ == channels.deep_view()[0]);
        }
        let mut channel_models: Vec<ChannelModelResponse> = Vec::new();
        channel_models.push(
            ChannelModelResponse { id: channels[0].id, name: channels[0].name.clone() },
        );
        let output_packet = UserJoinedOutput {
            channels: channel_models,
            user: UserModelResponse { id: session_id, name: body.user_name },
        };
        proof {
            assert(output_packet@.channels =~= seq![
                ChannelModelResponseV { id: h0.channels[0].id, name: h0.channels[0].name },
            ]);
            assert(OutputV::UserJoined(output_packet@) == join_output(
                h0.channels,
                session_id,
                body@.user_name,
            ));
        }
        let confirmation = self.send_session_id(
            session_id,
            Output::UserJoined(output_packet.clone()),
        );
        let announcements = self.send_except_session_id(
            session_id,
            Output::UserJoined(output_packet),
        );
        let r = concat_packets(confirmation, announcements);
        proof {
            let out = join_output(h0.channels, session_id, body@.user_name);
            assert(r.deep_view() == seq![packet(session_id, session_id, out)] + fanout_except(
                self@.sessions,
                session_id,
                out,
            ));
        }
        r
    }

    /// Process a message: reject an unregistered sender or an invalid body
    /// with a sender-only error; otherwise append to the default channel
    /// and deliver the echo and the broadcast. The fresh message identifier
    /// and the clock reading are taken as arguments, so this holds for
    /// every value they could have.
    pub fn process_message(
        &mut self,
        session_id: u128,
        message: MessageEvent,
        message_id: u128,
        created_at: i64,
    ) -> (r: Vec<ResponsePacket>)
        requires
            old(self).wf(),
        ensures
            final(self).wf(),
            (final(self)@, r.deep_view()) == spec_message(
                old(self)@,
                session_id,
                message@.body,
                message_id,
                created_at,
            ),
    {
        let ghost h0 = self@;
        let user = match self.sessions.get(session_id) {
            Some(user) => user,
            None => {
                let r = self.send_error(session_id, ErrorOutput::InvalidSession);
                proof {
                    assert(r.deep_view() =~= spec_message(
                        h0,
                        session_id,
                        message@.body,
                        message_id,
                        created_at,
                    ).1);
                }
                return r;
            },
        };
        proof {
            crate::registry::lemma_unique_index(
                h0.sessions,
                session_id,
                choose|i: int|
                    0 <= i < h0.sessions.len() && h0.sessions[i].id == session_id && user@
                        == h0.sessions[i],
            );
            assert(user@ == h0.sessions[index_of_id(h0.sessions, session_id)]);
        }
        let body_len = self.body_len(&message);
        if body_len == 0 || body_len > MAX_MESSAGE_BODY_LENGTH {
            let r = self.send_error(session_id, ErrorOutput::InvalidMessageRequest);
            proof {
                assert(!valid_body(message@.body));
                assert(r.deep_view() =~= spec_message(
                    h0,
                    session_id,
                    message@.body,
                    message_id,
                    created_at,
                ).1);
            }
            return r;
        }
        proof {
            assert(valid_body(message@.body));
        }
        let ghost ch0 = h0.channels[0];
        proof {
            assert(self.channels@.len() == self@.channels.len());
            assert(self.channels@[0]@ == ch0);
        }
        let default_channel_id = self.channels[0].id;
        let new_message = Message::new(
            message_id,
            default_channel_id,
            user.clone(),
            message.body.as_str(),
            created_at,
        );
        proof {
            assert(user@.id == session_id);
        }
        let mut channel0 = self.channels.remove(0);
        channel0.message_add(new_message);
        self.channels.insert(0, channel0);
        proof {
            let m = MessageV {
                id: message_id,
                channel_id: ch0.id,
                body: message@.body,
                user: user@,
                created_by: session_id,
                created_at,
            };
            let ch0_after = ChannelV {
                messages: ch0.messages.insert(insert_pos(ch0.messages, created_at), m),
                ..ch0
            };
            assert(self.channels@.len() == h0.channels.len());
            assert(self@.channels =~= h0.channels.update(0, ch0_after));
            assert(self@.sessions == h0.sessions);
        }
        let response_packet = UserMessageOutput::new(
            MessageModelResponse {
                id: message_id,
                body: message.body,
                created_by: user.id,
                created_at,
            },
            ChannelModelResponse { id: self.channels[0].id, name: self.channels[0].name.clone() },
        );
        proof {
            assert(response_packet@ == message_output(
                h0.channels,
                session_id,
                message@.body,
                message_id,
                created_at,
            ));
        }
        let echo = self.send_session_id(
            session_id,
            Output::UserMessage(response_packet.clone()),
        );
        let broadcast_packets = self.send_except_session_id(
            session_id,
            Output::Message(response_packet),
        );
        let r = concat_packets(echo, broadcast_packets);
        proof {
            let out = message_output(h0.channels, session_id, message@.body, message_id, created_at);
            assert(r.deep_view() == seq![packet(session_id, session_id, OutputV::UserMessage(out))]
                + fanout_except(h0.sessions, session_id, OutputV::Message(out)));
            assert(forall|k: int|
                0 <= k < self@.channels.len() ==> msgs_sorted(#[trigger] self@.channels[k].messages));
        }
        r
    }

    /// The message body's length in UTF-8 bytes.
    fn body_len(&self, message: &MessageEvent) -> (r: usize)
        ensures
            r == vstd::utf8::encode_utf8(message@.body).len(),
    {
        broadcast use vstd::slice::axiom_spec_len;

        message.body.as_str().as_bytes().len()
    }

    /// Process a disconnect, invoked by the transport layer on connection
    /// teardown: drop the session if it was registered and tell everyone
    /// who remains; an unknown identifier is a silent no-op.
    pub fn handle_disconnect(&mut self, session_id: u128) -> (r: Vec<ResponsePacket>)
        requires
            old(self).wf(),
        ensures
            final(self).wf(),
            (final(self)@, r.deep_view()) == spec_disconnect(old(self)@, session_id),
    {
        let ghost h0 = self@;
        let removed = self.sessions.remove(session_id);
        match removed {
            Some(_) => {
                let r = self.send_except_session_id(
                    session_id,
                    Output::UserDisconnect(UserDiscconnectOutput::new(session_id)),
                );
                proof {
                    assert(self@.channels == h0.channels);
                }
                r
            },
            None => {
                let r: Vec<ResponsePacket> = Vec::new();
                proof {
                    assert(r.deep_view() =~= Seq::<ResponsePacketV>::empty());
                }
                r
            },
        }
    }
}

impl Default for Holocaster {
    /// A hub with no heartbeat configured, an empty registry and the
    /// seeded default channel.
    fn default() -> (r: Self)
        ensures
            r@.alive_interval is None,
            r@.sessions == Seq::<SessionV>::empty(),
            r@.channels.len() == 1,
            r.wf(),
    {
        Holocaster::new(HolocasterConfig::default())
    }
}

/// Concatenate two envelope lists, first list first.
fn concat_packets(mut a: Vec<ResponsePacket>, mut b: Vec<ResponsePacket>) -> (r: Vec<
    ResponsePacket,
>)
    ensures
        r.deep_view() == a.deep_view() + b.deep_view(),
{
    let ghost a0 = a.deep_view();
    let ghost b0 = b.deep_view();
    let ghost av = a@;
    let ghost bv = b@;
    a.append(&mut b);
    proof {
        assert(a@ == av + bv);
        assert forall|j: int| 0 <= j < a@.len() implies a.deep_view()[j] == (a0 + b0)[j] by {
            if j < av.len() {
                assert(a@[j] == av[j]);
            } else {
                assert(a@[j] == bv[j - av.len()]);
            }
        }
        assert(a.deep_view() =~= a0 + b0);
    }
    a
}

} // verus!
