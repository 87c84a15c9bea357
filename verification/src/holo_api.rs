//! The hub's event vocabulary: inbound events read off the wire, outbound
//! payloads fanned out to clients, and the packets that carry both. An
//! outbound packet is addressed: it names the recipient session and the
//! origin session that caused it.

use vstd::prelude::*;

verus! {

/// Error codes a client can branch on. `ChannelFull` and `NameTaken` are
/// reserved for forward compatibility; no code path raises them yet.
#[derive(Clone, Copy, Debug, PartialEq, Eq, Structural)]
pub enum ErrorOutput {
    /// A message event arrived from a session that is not registered.
    InvalidSession,
    /// A message body was empty or over the length limit.
    InvalidMessageRequest,
    /// Reserved: a channel rejected an append.
    ChannelFull,
    /// Reserved: a display name is already in use.
    NameTaken,
}

/// Payload of a join event: the display name the session announces.
#[derive(Debug, PartialEq)]
pub struct JoinEvent {
    pub user_name: String,
}

/// Ghost mirror of [`JoinEvent`].
pub ghost struct JoinEventV {
    pub user_name: Seq<char>,
}

/// Payload of a message event: the text to append and broadcast.
#[derive(Debug, PartialEq)]
pub struct MessageEvent {
    pub body: String,
}

/// Ghost mirror of [`MessageEvent`].
pub ghost struct MessageEventV {
    pub body: Seq<char>,
}

/// An inbound event, decoded from one wire frame.
#[derive(Debug, PartialEq)]
pub enum Input {
    Join(JoinEvent),
    Message(MessageEvent),
}

/// Ghost mirror of [`Input`].
pub ghost enum InputV {
    Join(JoinEventV),
    Message(MessageEventV),
}

/// A session as rendered to clients.
#[derive(Debug, PartialEq)]
pub struct UserModelResponse {
    pub id: u128,
    pub name: String,
}

/// Ghost mirror of [`UserModelResponse`].
pub ghost struct UserModelResponseV {
    pub id: u128,
    pub name: Seq<char>,
}

/// A channel as rendered to clients.
#[derive(Debug, PartialEq)]
pub struct ChannelModelResponse {
    pub id: u128,
    pub name: String,
}

/// Ghost mirror of [`ChannelModelResponse`].
pub ghost struct ChannelModelResponseV {
    pub id: u128,
    pub name: Seq<char>,
}

/// A message as rendered to clients.
#[derive(Debug, PartialEq)]
pub struct MessageModelResponse {
    pub id: u128,
    pub body: String,
    pub created_by: u128,
    pub created_at: i64,
}

/// Ghost mirror of [`MessageModelResponse`].
pub ghost struct MessageModelResponseV {
    pub id: u128,
    pub body: Seq<char>,
    pub created_by: u128,
    pub created_at: i64,
}

/// Announcement that a session joined: the channels it now hears and the
/// joining user.
#[derive(Debug, PartialEq)]
pub struct UserJoinedOutput {
    pub channels: Vec<ChannelModelResponse>,
    pub user: UserModelResponse,
}

/// Ghost mirror of [`UserJoinedOutput`].
pub ghost struct UserJoinedOutputV {
    pub channels: Seq<ChannelModelResponseV>,
    pub user: UserModelResponseV,
}

/// Announcement that a session left.
#[derive(Clone, Copy, Debug, PartialEq, Eq, Structural)]
pub struct UserDiscconnectOutput {
    pub user_id: u128,
}

/// A message delivery: the message together with the channel it was
/// appended to.
#[derive(Debug, PartialEq)]
pub struct UserMessageOutput {
    pub message: MessageModelResponse,
    pub channel: ChannelModelResponse,
}

/// Ghost mirror of [`UserMessageOutput`].
pub ghost struct UserMessageOutputV {
    pub message: MessageModelResponseV,
    pub channel: ChannelModelResponseV,
}

/// An outbound payload. `UserMessage` confirms the sender's own message;
/// `Message` is the same shape broadcast to everyone else, so a client can
/// tell its own echo apart.
#[derive(Debug, PartialEq)]
pub enum Output {
    UserJoined(UserJoinedOutput),
    UserDisconnect(UserDiscconnectOutput),
    UserMessage(UserMessageOutput),
    Message(UserMessageOutput),
    Error(ErrorOutput),
    KeepAliveTick,
}

/// Ghost mirror of [`Output`].
pub ghost enum OutputV {
    UserJoined(UserJoinedOutputV),
    UserDisconnect(UserDiscconnectOutput),
    UserMessage(UserMessageOutputV),
    Message(UserMessageOutputV),
    Error(ErrorOutput),
    KeepAliveTick,
}

/// An inbound event with the session it came from. The channel identifier
/// is a placeholder: the transport layer fills it with the session
/// identifier until real channel selection exists.
#[derive(Debug, PartialEq)]
pub struct RequestPacket {
    pub session_id: u128,
    pub channel_id: u128,
    pub body: Input,
}

/// Ghost mirror of [`RequestPacket`].
pub ghost struct RequestPacketV {
    pub session_id: u128,
    pub channel_id: u128,
    pub body: InputV,
}

/// An outbound payload addressed to one recipient. `session_id` names the
/// recipient; `channel_id` carries the origin session that caused the
/// payload.
#[derive(Debug, PartialEq)]
pub struct ResponsePacket {
    pub session_id: u128,
    pub channel_id: u128,
    pub output: Output,
}

/// Ghost mirror of [`ResponsePacket`].
pub ghost struct ResponsePacketV {
    pub session_id: u128,
    pub channel_id: u128,
    pub output: OutputV,
}

/// Placeholder payload of an error event on the wire.
#[derive(Clone, Copy, Debug, PartialEq, Eq, Structural)]
pub struct ErrorEvent {}

impl View for JoinEvent {
    type V = JoinEventV;

    open spec fn view(&self) -> JoinEventV {
        JoinEventV { user_name: self.user_name@ }
    }
}

impl DeepView for JoinEvent {
    type V = JoinEventV;

    open spec fn deep_view(&self) -> JoinEventV {
        self.view()
    }
}

impl View for MessageEvent {
    type V = MessageEventV;

    open spec fn view(&self) -> MessageEventV {
        MessageEventV { body: self.body@ }
    }
}

impl DeepView for MessageEvent {
    type V = MessageEventV;

    open spec fn deep_view(&self) -> MessageEventV {
        self.view()
    }
}

impl View for Input {
    type V = InputV;

    open spec fn view(&self) -> InputV {
        match self {
            Input::Join(e) => InputV::Join(e@),
            Input::Message(e) => InputV::Message(e@),
        }
    }
}

impl DeepView for Input {
    type V = InputV;

    open spec fn deep_view(&self) -> InputV {
        self.view()
    }
}

impl View for UserModelResponse {
    type V = UserModelResponseV;

    open spec fn view(&self) -> UserModelResponseV {
        UserModelResponseV { id: self.id, name: self.name@ }
    }
}

impl DeepView for UserModelResponse {
    type V = UserModelResponseV;

    open spec fn deep_view(&self) -> UserModelResponseV {
        self.view()
    }
}

impl View for ChannelModelResponse {
    type V = ChannelModelResponseV;

    open spec fn view(&self) -> ChannelModelResponseV {
        ChannelModelResponseV { id: self.id, name: self.name@ }
    }
}

impl DeepView for ChannelModelResponse {
    type V = ChannelModelResponseV;

    open spec fn deep_view(&self) -> ChannelModelResponseV {
        self.view()
    }
}

impl View for MessageModelResponse {
    type V = MessageModelResponseV;

    open spec fn view(&self) -> MessageModelResponseV {
        MessageModelResponseV {
            id: self.id,
            body: self.body@,
            created_by: self.created_by,
            created_at: self.created_at,
        }
    }
}

impl DeepView for MessageModelResponse {
    type V = MessageModelResponseV;

    open spec fn deep_view(&self) -> MessageModelResponseV {
        self.view()
    }
}

impl View for UserJoinedOutput {
    type V = UserJoinedOutputV;

    open spec fn view(&self) -> UserJoinedOutputV {
        UserJoinedOutputV { channels: self.channels.deep_view(), user: self.user@ }
    }
}

impl DeepView for UserJoinedOutput {
    type V = UserJoinedOutputV;

    open spec fn deep_view(&self) -> UserJoinedOutputV {
        self.view()
    }
}

impl View for UserMessageOutput {
    type V = UserMessageOutputV;

    open spec fn view(&self) -> UserMessageOutputV {
        UserMessageOutputV { message: self.message@, channel: self.channel@ }
    }
}

impl DeepView for UserMessageOutput {
    type V = UserMessageOutputV;

    open spec fn deep_view(&self) -> UserMessageOutputV {
        self.view()
    }
}

impl View for Output {
    type V = OutputV;

    open spec fn view(&self) -> OutputV {
        match self {
            Output::UserJoined(o) => OutputV::UserJoined(o@),
            Output::UserDisconnect(o) => OutputV::UserDisconnect(*o),
            Output::UserMessage(o) => OutputV::UserMessage(o@),
            Output::Message(o) => OutputV::Message(o@),
            Output::Error(e) => OutputV::Error(*e),
            Output::KeepAliveTick => OutputV::KeepAliveTick,
        }
    }
}

impl DeepView for Output {
    type V = OutputV;

    open spec fn deep_view(&self) -> OutputV {
        self.view()
    }
}

impl View for RequestPacket {
    type V = RequestPacketV;

    open spec fn view(&self) -> RequestPacketV {
        RequestPacketV {
            session_id: self.session_id,
            channel_id: self.channel_id,
            body: self.body@,
        }
    }
}

impl DeepView for RequestPacket {
    type V = RequestPacketV;

    open spec fn deep_view(&self) -> RequestPacketV {
        self.view()
    }
}

impl View for ResponsePacket {
    type V = ResponsePacketV;

    open spec fn view(&self) -> ResponsePacketV {
        ResponsePacketV {
            session_id: self.session_id,
            channel_id: self.channel_id,
            output: self.output@,
        }
    }
}

impl DeepView for ResponsePacket {
    type V = ResponsePacketV;

    open spec fn deep_view(&self) -> ResponsePacketV {
        self.view()
    }
}

impl Clone for JoinEvent {
    fn clone(&self) -> (r: Self)
        ensures
            r@ == self@,
    {
        JoinEvent { user_name: self.user_name.clone() }
    }
}

impl Clone for MessageEvent {
    fn clone(&self) -> (r: Self)
        ensures
            r@ == self@,
    {
        MessageEvent { body: self.body.clone() }
    }
}

impl Clone for Input {
    fn clone(&self) -> (r: Self)
        ensures
            r@ == self@,
    {
        match self {
            Input::Join(e) => Input::Join(e.clone()),
            Input::Message(e) => Input::Message(e.clone()),
        }
    }
}

impl Clone for UserModelResponse {
    fn clone(&self) -> (r: Self)
        ensures
            r@ == self@,
    {
        UserModelResponse { id: self.id, name: self.name.clone() }
    }
}

impl Clone for ChannelModelResponse {
    fn clone(&self) -> (r: Self)
        ensures
            r@ == self@,
    {
        ChannelModelResponse { id: self.id, name: self.name.clone() }
    }
}

impl Clone for MessageModelResponse {
    fn clone(&self) -> (r: Self)
        ensures
            r@ == self@,
    {
        MessageModelResponse {
            id: self.id,
            body: self.body.clone(),
            created_by: self.created_by,
            created_at: self.created_at,
        }
    }
}

/// Copy a channel list element by element.
fn clone_channel_list(v: &Vec<ChannelModelResponse>) -> (r: Vec<ChannelModelResponse>)
    ensures
        r.deep_view() == v.deep_view(),
{
    let mut r: Vec<ChannelModelResponse> = Vec::new();
    let mut i: usize = 0;
    while i < v.len()
        invariant
            i <= v.len(),
            r@.len() == i,
            forall|j: int| 0 <= j < i ==> r@[j]@ == v@[j]@,
        decreases v.len() - i,
    {
        let ghost pre = r@;
        let c = v[i].clone();
        proof {
            assert(c@ == v@[i as int]@);
        }
        r.push(c);
        proof {
            assert forall|j: int| 0 <= j < i + 1 implies r@[j]@ == v@[j]@ by {
                if j < i {
                    assert(r@[j] == pre[j]);
                }
            }
        }
        i += 1;
    }
    proof {
        assert(r.deep_view() =~= v.deep_view());
    }
    r
}

impl Clone for UserJoinedOutput {
    fn clone(&self) -> (r: Self)
        ensures
            r@ == self@,
    {
        UserJoinedOutput { channels: clone_channel_list(&self.channels), user: self.user.clone() }
    }
}

impl Clone for UserMessageOutput {
    fn clone(&self) -> (r: Self)
        ensures
            r@ == self@,
    {
        UserMessageOutput { message: self.message.clone(), channel: self.channel.clone() }
    }
}

impl Clone for Output {
    fn clone(&self) -> (r: Self)
        ensures
            r@ == self@,
    {
        match self {
            Output::UserJoined(o) => Output::UserJoined(o.clone()),
            Output::UserDisconnect(o) => Output::UserDisconnect(*o),
            Output::UserMessage(o) => Output::UserMessage(o.clone()),
            Output::Message(o) => Output::Message(o.clone()),
            Output::Error(e) => Output::Error(*e),
            Output::KeepAliveTick => Output::KeepAliveTick,
        }
    }
}

impl Clone for RequestPacket {
    fn clone(&self) -> (r: Self)
        ensures
            r@ == self@,
    {
        RequestPacket {
            session_id: self.session_id,
            channel_id: self.channel_id,
            body: self.body.clone(),
        }
    }
}

impl Clone for ResponsePacket {
    fn clone(&self) -> (r: Self)
        ensures
            r@ == self@,
    {
        ResponsePacket {
            session_id: self.session_id,
            channel_id: self.channel_id,
            output: self.output.clone(),
        }
    }
}

impl RequestPacket {
    pub fn new(session_id: u128, channel_id: u128, body: Input) -> (r: Self)
        ensures
            r@ == (RequestPacketV { session_id, channel_id, body: body@ }),
    {
        RequestPacket { session_id, channel_id, body }
    }
}

impl ResponsePacket {
    pub fn new(session_id: u128, channel_id: u128, output: Output) -> (r: Self)
        ensures
            r@ == (ResponsePacketV { session_id, channel_id, output: output@ }),
    {
        ResponsePacket { session_id, channel_id, output }
    }
}

impl UserJoinedOutput {
    pub fn new(channels: Vec<ChannelModelResponse>, user: UserModelResponse) -> (r: Self)
        ensures
            r@ == (UserJoinedOutputV { channels: channels.deep_view(), user: user@ }),
    {
        UserJoinedOutput { channels, user }
    }
}

impl UserDiscconnectOutput {
    pub fn new(user_id: u128) -> (r: Self)
        ensures
            r == (UserDiscconnectOutput { user_id }),
    {
        UserDiscconnectOutput { user_id }
    }
}

impl UserMessageOutput {
    pub fn new(message: MessageModelResponse, channel: ChannelModelResponse) -> (r: Self)
        ensures
            r@ == (UserMessageOutputV { message: message@, channel: channel@ }),
    {
        UserMessageOutput { message, channel }
    }
}

} // verus!
