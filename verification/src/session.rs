//! A connected participant: an opaque identifier (minted by the transport
//! layer, one per connection) together with the display name announced at
//! join time. Immutable once created.

use vstd::prelude::*;

verus! {

/// Ghost mirror of [`Session`]: the identifier and the display name as a
/// sequence of characters.
pub ghost struct SessionV {
    pub id: u128,
    pub name: Seq<char>,
}

/// One connected participant of the hub.
pub struct Session {
    /// Connection-scoped identifier, minted by the transport layer.
    pub id: u128,
    /// Display name announced in the join event.
    pub name: String,
}

impl View for Session {
    type V = SessionV;

    open spec fn view(&self) -> SessionV {
        SessionV { id: self.id, name: self.name@ }
    }
}

impl DeepView for Session {
    type V = SessionV;

    open spec fn deep_view(&self) -> SessionV {
        self.view()
    }
}

impl Clone for Session {
    fn clone(&self) -> (r: Self)
        ensures
            r@ == self@,
    {
        Session { id: self.id, name: self.name.clone() }
    }
}

impl Session {
    pub fn new(id: u128, name: &str) -> (r: Self)
        ensures
            r@ == (SessionV { id, name: name@ }),
    {
        Session { id, name: name.to_owned() }
    }
}

} // verus!
