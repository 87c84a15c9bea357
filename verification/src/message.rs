//! One entry of a channel's log: immutable once created, append-only.
//! The embedded author session is a denormalized snapshot for quick
//! rendering; the registry stays the authoritative identity.

use vstd::prelude::*;

use crate::session::{Session, SessionV};

verus! {

/// Ghost mirror of [`Message`].
pub ghost struct MessageV {
    pub id: u128,
    pub channel_id: u128,
    pub body: Seq<char>,
    pub user: SessionV,
    pub created_by: u128,
    pub created_at: i64,
}

/// One chat message, appended to a channel's log.
pub struct Message {
    /// Fresh identifier, minted per message.
    pub id: u128,
    /// The channel the message was appended to.
    pub channel_id: u128,
    /// The text, 1 to 256 bytes of UTF-8 when it went through validation.
    pub body: String,
    /// Snapshot of the author's session at send time (not authoritative).
    pub user: Session,
    /// The author's session identifier.
    pub created_by: u128,
    /// Creation time, milliseconds since the Unix epoch.
    pub created_at: i64,
}

impl View for Message {
    type V = MessageV;

    open spec fn view(&self) -> MessageV {
        MessageV {
            id: self.id,
            channel_id: self.channel_id,
            body: self.body@,
            user: self.user@,
            created_by: self.created_by,
            created_at: self.created_at,
        }
    }
}

impl DeepView for Message {
    type V = MessageV;

    open spec fn deep_view(&self) -> MessageV {
        self.view()
    }
}

impl Clone for Message {
    fn clone(&self) -> (r: Self)
        ensures
            r@ == self@,
    {
        Message {
            id: self.id,
            channel_id: self.channel_id,
            body: self.body.clone(),
            user: self.user.clone(),
            created_by: self.created_by,
            created_at: self.created_at,
        }
    }
}

impl Message {
    pub fn new(id: u128, channel_id: u128, user: Session, body: &str, created_at: i64) -> (r: Self)
        ensures
            r@ == (MessageV {
                id,
                channel_id,
                body: body@,
                user: user@,
                created_by: user@.id,
                created_at,
            }),
    {
        Message { id, channel_id, created_by: user.id, user, body: body.to_owned(), created_at }
    }
}

} // verus!
