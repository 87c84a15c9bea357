//! A named message stream. Exactly one channel exists at process start (the
//! default channel); its log is append-only and kept sorted ascending by
//! creation time after every append, ties broken by insertion order.

use vstd::prelude::*;
use vstd::multiset::Multiset;
use vstd::seq_lib::group_to_multiset_ensures;
use vstd::seq_lib::lemma_multiset_commutative;

use crate::message::{Message, MessageV};

verus! {

/// Hard cap on how many messages one page or the recent-messages query
/// may return.
pub const MAX_RECENT_MESSAGE_LENGTH: usize = 100;

/// Ghost mirror of [`Channel`].
pub ghost struct ChannelV {
    pub messages: Seq<MessageV>,
    pub id: u128,
    pub game_id: u128,
    pub name: Seq<char>,
}

/// A named message stream with an append-only, time-ordered log.
pub struct Channel {
    /// The log, sorted ascending by `created_at` after every append.
    pub messages: Vec<Message>,
    /// Channel identifier.
    pub id: u128,
    /// Identifier of the owning game, zero when the channel has no owner.
    pub game_id: u128,
    /// Display name.
    pub name: String,
}

impl View for Channel {
    type V = ChannelV;

    open spec fn view(&self) -> ChannelV {
        ChannelV {
            messages: self.messages.deep_view(),
            id: self.id,
            game_id: self.game_id,
            name: self.name@,
        }
    }
}

impl DeepView for Channel {
    type V = ChannelV;

    open spec fn deep_view(&self) -> ChannelV {
        self.view()
    }
}

impl Clone for Channel {
    fn clone(&self) -> (r: Self)
        ensures
            r@ == self@,
    {
        let messages = clone_message_range(&self.messages, 0, self.messages.len());
        proof {
            assert(messages.deep_view() =~= self.messages.deep_view());
        }
        Channel { messages, id: self.id, game_id: self.game_id, name: self.name.clone() }
    }
}

/// The log is sorted ascending by creation time.
pub open spec fn msgs_sorted(s: Seq<MessageV>) -> bool {
    forall|i: int, j: int| 0 <= i < j < s.len() ==> s[i].created_at <= s[j].created_at
}

/// Where a message created at `t` is inserted: after every message whose
/// creation time is at most `t`, so ties keep their insertion order.
pub open spec fn insert_pos(s: Seq<MessageV>, t: i64) -> int
    decreases s.len(),
{
    if s.len() == 0 {
        0
    } else if s[0].created_at > t {
        0
    } else {
        1 + insert_pos(s.drop_first(), t)
    }
}

pub proof fn lemma_insert_pos_properties(s: Seq<MessageV>, t: i64)
    ensures
        0 <= insert_pos(s, t) <= s.len(),
        forall|j: int| 0 <= j < insert_pos(s, t) ==> s[j].created_at <= t,
        insert_pos(s, t) < s.len() ==> s[insert_pos(s, t)].created_at > t,
    decreases s.len(),
{
    if s.len() == 0 {
    } else if s[0].created_at > t {
    } else {
        lemma_insert_pos_properties(s.drop_first(), t);
        assert forall|j: int| 0 <= j < insert_pos(s, t) implies s[j].created_at <= t by {
            if j > 0 {
                assert(s.drop_first()[j - 1] == s[j]);
            }
        }
        if insert_pos(s, t) < s.len() {
            assert(s.drop_first()[insert_pos(s, t) - 1] == s[insert_pos(s, t)]);
        }
    }
}

pub proof fn lemma_insert_keeps_sorted(s: Seq<MessageV>, m: MessageV)
    requires
        msgs_sorted(s),
    ensures
        msgs_sorted(s.insert(insert_pos(s, m.created_at), m)),
{
    let p = insert_pos(s, m.created_at);
    lemma_insert_pos_properties(s, m.created_at);
    s.insert_ensures(p, m);
    let s2 = s.insert(p, m);
    assert forall|i: int, j: int| 0 <= i < j < s2.len() implies s2[i].created_at
        <= s2[j].created_at by {
        if i < p && j < p {
        } else if i == p || j == p {
        } else if i > p && j > p {
            assert(s2[i] == s[i - 1]);
            assert(s2[j] == s[j - 1]);
        }
    }
}

proof fn lemma_to_multiset_insert(s: Seq<MessageV>, i: int, m: MessageV)
    requires
        0 <= i <= s.len(),
    ensures
        s.insert(i, m).to_multiset() =~= s.to_multiset().insert(m),
{
    broadcast use group_to_multiset_ensures;

    let left = s.subrange(0, i);
    let right = s.subrange(i, s.len() as int);
    assert(s.insert(i, m) == left + seq![m] + right);
    assert(s == left + right);
    lemma_multiset_commutative(left + seq![m], right);
    lemma_multiset_commutative(left, seq![m]);
    lemma_multiset_commutative(left, right);
    assert(seq![m].to_multiset() =~= Multiset::empty().insert(m)) by {
        assert(seq![m].drop_first() =~= Seq::<MessageV>::empty());
    }
}

/// Copy the messages of `v` from index `from` up to (excluding) `to`.
fn clone_message_range(v: &Vec<Message>, from: usize, to: usize) -> (r: Vec<Message>)
    requires
        from <= to <= v.len(),
    ensures
        r.deep_view() == v.deep_view().subrange(from as int, to as int),
{
    let mut r: Vec<Message> = Vec::new();
    let mut i = from;
    while i < to
        invariant
            from <= i <= to <= v.len(),
            r@.len() == i - from,
            forall|j: int| 0 <= j < i - from ==> r.deep_view()[j] == v.deep_view()[from + j],
        decreases to - i,
    {
        let ghost pre = r@;
        let ghost pre_deep = r.deep_view();
        let m = v[i].clone();
        proof {
            assert(m@ == v@[i as int]@);
        }
        r.push(m);
        proof {
            assert forall|j: int| 0 <= j < i + 1 - from implies r.deep_view()[j]
                == v.deep_view()[from + j] by {
                assert(r@ == pre.push(m));
                assert(r.deep_view()[j] == r@[j]@);
                assert(v.deep_view()[from + j] == v@[from + j]@);
                if j < i - from {
                    assert(r@[j] == pre[j]);
                    assert(pre_deep[j] == v.deep_view()[from + j]);
                    assert(pre_deep[j] == pre[j]@);
                } else {
                    assert(r@[j] == m);
                }
            }
        }
        i += 1;
    }
    proof {
        assert(r.deep_view() =~= v.deep_view().subrange(from as int, to as int));
    }
    r
}

/// Find the index where a message created at `t` is inserted into the
/// sorted log `v`.
fn find_insert_pos(v: &Vec<Message>, t: i64) -> (r: usize)
    requires
        msgs_sorted(v.deep_view()),
    ensures
        r == insert_pos(v.deep_view(), t),
{
    proof {
        lemma_insert_pos_properties(v.deep_view(), t);
    }
    let ghost s = v.deep_view();
    let mut i: usize = 0;
    while i < v.len()
        invariant
            i <= v.len(),
            s == v.deep_view(),
            forall|j: int| 0 <= j < i ==> s[j].created_at <= t,
        decreases v.len() - i,
    {
        if v[i].created_at > t {
            proof {
                lemma_first_gt_is_insert_pos(s, t, i as int);
            }
            return i;
        }
        i += 1;
    }
    proof {
        lemma_insert_pos_properties(s, t);
        if insert_pos(s, t) < s.len() {
            assert(s[insert_pos(s, t)].created_at <= t);
        }
    }
    i
}

proof fn lemma_first_gt_is_insert_pos(s: Seq<MessageV>, t: i64, i: int)
    requires
        0 <= i < s.len(),
        forall|j: int| 0 <= j < i ==> s[j].created_at <= t,
        s[i].created_at > t,
    ensures
        insert_pos(s, t) == i,
{
    lemma_insert_pos_properties(s, t);
    let p = insert_pos(s, t);
    if p < i {
        assert(s[p].created_at <= t);
    }
    if p > i {
        assert(s[i].created_at <= t);
    }
}

impl Channel {
    /// Well-formed: the log is sorted ascending by creation time.
    pub open spec fn wf(&self) -> bool {
        msgs_sorted(self@.messages)
    }

    /// A channel with an empty log. A zero `override_id` asks for a freshly
    /// minted identifier instead.
    pub fn new(override_id: u128, channel_name: &str, game_id: u128) -> (r: Self)
        ensures
            r@.messages == Seq::<MessageV>::empty(),
            r@.name == channel_name@,
            r@.game_id == game_id,
            override_id != 0 ==> r@.id == override_id,
            r@.id != 0,
            r.wf(),
    {
        let the_uuid = if override_id == 0 {
            crate::external::fresh_uuid()
        } else {
            override_id
        };
        let r = Channel {
            id: the_uuid,
            name: channel_name.to_owned(),
            game_id,
            messages: Vec::new(),
        };
        proof {
            assert(r@.messages =~= Seq::<MessageV>::empty());
        }
        r
    }

    /// The whole log, oldest first.
    pub fn messages_iter(&self) -> (r: &Vec<Message>)
        ensures
            r.deep_view() == self@.messages,
    {
        &self.messages
    }

    /// A page of the log: up to `limit` messages starting at `pos`, with
    /// `limit` clamped to the hard page cap and the page cut off at the
    /// log's end; empty when `pos` lies past the end.
    pub fn get_messages_paginate(&self, pos: usize, limit: usize) -> (r: Vec<Message>)
        ensures
            r.deep_view() == spec_paginate(self@.messages, pos as int, limit as int),
    {
        let mut nl = limit;
        if nl > MAX_RECENT_MESSAGE_LENGTH {
            nl = MAX_RECENT_MESSAGE_LENGTH;
        }
        let total_messages = self.messages.len();
        if pos >= total_messages {
            let r: Vec<Message> = Vec::new();
            proof {
                assert(r.deep_view() =~= spec_paginate(self@.messages, pos as int, limit as int));
            }
            return r;
        }
        let end = if total_messages - pos > nl {
            pos + nl
        } else {
            total_messages
        };
        let r = clone_message_range(&self.messages, pos, end);
        proof {
            assert(r.deep_view() =~= spec_paginate(self@.messages, pos as int, limit as int));
        }
        r
    }

    /// The newest messages, newest first, up to the fixed cap; a log that
    /// holds fewer than the cap yields an empty result rather than an
    /// error.
    pub fn get_recent_messages(&self) -> (r: Vec<Message>)
        ensures
            r.deep_view() == spec_recent(self@.messages),
    {
        let total_messages = self.messages.len();
        if total_messages < MAX_RECENT_MESSAGE_LENGTH {
            let r: Vec<Message> = Vec::new();
            proof {
                assert(r.deep_view() =~= spec_recent(self@.messages));
            }
            return r;
        }
        let mut r: Vec<Message> = Vec::new();
        let mut i: usize = 0;
        while i < MAX_RECENT_MESSAGE_LENGTH
            invariant
                i <= MAX_RECENT_MESSAGE_LENGTH <= self.messages@.len(),
                total_messages == self.messages@.len(),
                r@.len() == i,
                forall|j: int|
                    0 <= j < i ==> r.deep_view()[j] == self.messages.deep_view()[self.messages@.len()
                        - 1 - j],
            decreases MAX_RECENT_MESSAGE_LENGTH - i,
        {
            let ghost pre = r@;
            let ghost pre_deep = r.deep_view();
            let m = self.messages[total_messages - 1 - i].clone();
            proof {
                assert(m@ == self.messages@[total_messages - 1 - i as int]@);
            }
            r.push(m);
            proof {
                assert forall|j: int| 0 <= j < i + 1 implies r.deep_view()[j]
                    == self.messages.deep_view()[self.messages@.len() - 1 - j] by {
                    assert(r@ == pre.push(m));
                    assert(r.deep_view()[j] == r@[j]@);
                    if j < i {
                        assert(r@[j] == pre[j]);
                        assert(pre_deep[j] == self.messages.deep_view()[self.messages@.len() - 1
                            - j]);
                        assert(pre_deep[j] == pre[j]@);
                    } else {
                        assert(r@[j] == m);
                    }
                }
            }
            i += 1;
        }
        proof {
            assert(r.deep_view() =~= spec_recent(self@.messages));
        }
        r
    }

    /// Append a message, keeping the log sorted by creation time: the new
    /// message lands after every message created at or before its time.
    pub fn message_add(&mut self, message: Message)
        requires
            old(self).wf(),
        ensures
            final(self)@.messages == old(self)@.messages.insert(
                insert_pos(old(self)@.messages, message@.created_at),
                message@,
            ),
            final(self)@.id == old(self)@.id,
            final(self)@.game_id == old(self)@.game_id,
            final(self)@.name == old(self)@.name,
            final(self).wf(),
    {
        let ghost s = self.messages.deep_view();
        let pos = find_insert_pos(&self.messages, message.created_at);
        proof {
            lemma_insert_pos_properties(s, message@.created_at);
            lemma_insert_keeps_sorted(s, message@);
        }
        self.messages.insert(pos, message);
        proof {
            assert(self.messages.deep_view() =~= s.insert(pos as int, message@));
        }
    }

    /// Re-sort the whole log by creation time; the log afterwards holds the
    /// same messages, sorted ascending.
    pub fn message_sort_by_key(&mut self)
        ensures
            msgs_sorted(final(self)@.messages),
            final(self)@.messages.to_multiset() == old(self)@.messages.to_multiset(),
            final(self)@.messages.len() == old(self)@.messages.len(),
            final(self)@.id == old(self)@.id,
            final(self)@.game_id == old(self)@.game_id,
            final(self)@.name == old(self)@.name,
            final(self).wf(),
    {
        broadcast use group_to_multiset_ensures;

        let ghost orig = self.messages.deep_view();
        let n = self.messages.len();
        let mut out: Vec<Message> = Vec::new();
        let mut i: usize = 0;
        proof {
            assert(out.deep_view() =~= Seq::<MessageV>::empty());
            assert(orig.take(0) =~= Seq::<MessageV>::empty());
            assert(out.deep_view().to_multiset() =~= orig.take(0).to_multiset());
        }
        while i < n
            invariant
                i <= n == self.messages.len(),
                orig == self.messages.deep_view(),
                msgs_sorted(out.deep_view()),
                out.deep_view().to_multiset() == orig.take(i as int).to_multiset(),
            decreases n - i,
        {
            let ghost out_before = out.deep_view();
            let m = self.messages[i].clone();
            let pos = find_insert_pos(&out, m.created_at);
            proof {
                lemma_insert_pos_properties(out_before, m@.created_at);
                lemma_insert_keeps_sorted(out_before, m@);
                lemma_to_multiset_insert(out_before, pos as int, m@);
            }
            out.insert(pos, m);
            proof {
                assert(out.deep_view() =~= out_before.insert(pos as int, m@));
                assert(orig.take(i + 1 as int) =~= orig.take(i as int).push(orig[i as int]));
                orig.take(i as int).to_multiset_ensures();
                assert(orig.take(i as int).push(orig[i as int]).to_multiset() =~= orig.take(
                    i as int,
                ).to_multiset().insert(orig[i as int]));
                assert(out.deep_view().to_multiset() =~= orig.take(i + 1 as int).to_multiset());
            }
            i += 1;
        }
        proof {
            assert(orig.take(n as int) =~= orig);
            out.deep_view().to_multiset_ensures();
            orig.to_multiset_ensures();
            assert(out.deep_view().len() == orig.len());
        }
        self.messages = out;
    }

    /// The first message with the given identifier; the caller must know one
    /// is present.
    pub fn message_get_by_id(&self, message_id: u128) -> (r: &Message)
        requires
            has_message(self@.messages, message_id),
        ensures
            exists|i: int|
                0 <= i < self@.messages.len() && self@.messages[i].id == message_id && r@
                    == self@.messages[i] && (forall|j: int|
                    0 <= j < i ==> self@.messages[j].id != message_id),
    {
        let mut i: usize = 0;
        while i < self.messages.len()
            invariant
                i <= self.messages.len(),
                has_message(self@.messages, message_id),
                forall|j: int| 0 <= j < i ==> self@.messages[j].id != message_id,
            decreases self.messages.len() - i,
        {
            if self.messages[i].id == message_id {
                let r = &self.messages[i];
                proof {
                    let k = i as int;
                    assert(0 <= k < self@.messages.len() && self@.messages[k].id == message_id
                        && r@ == self@.messages[k] && (forall|j: int|
                        0 <= j < k ==> self@.messages[j].id != message_id));
                }
                return r;
            }
            i += 1;
        }
        proof {
            assert(forall|j: int| 0 <= j < self@.messages.len() ==> self@.messages[j].id
                != message_id);
            assert(false);
        }
        unreached()
    }

    /// Look a message up for editing; editing itself is not implemented, so
    /// this returns the record unchanged.
    pub fn message_edit_by_id(&self, message_id: u128) -> (r: &Message)
        requires
            has_message(self@.messages, message_id),
        ensures
            exists|i: int|
                0 <= i < self@.messages.len() && self@.messages[i].id == message_id && r@
                    == self@.messages[i],
    {
        let message = self.message_get_by_id(message_id);
        message
    }
}

/// Some message in the log carries the given identifier.
pub open spec fn has_message(msgs: Seq<MessageV>, id: u128) -> bool {
    exists|i: int| 0 <= i < msgs.len() && msgs[i].id == id
}

/// What one page of the log holds: up to `limit` messages starting at
/// `pos`, with `limit` clamped to the hard page cap and the page cut off
/// at the log's end.
pub open spec fn spec_paginate(msgs: Seq<MessageV>, pos: int, limit: int) -> Seq<MessageV> {
    let cap = if limit > MAX_RECENT_MESSAGE_LENGTH as int {
        MAX_RECENT_MESSAGE_LENGTH as int
    } else {
        limit
    };
    let end = if pos + cap > msgs.len() {
        msgs.len() as int
    } else {
        pos + cap
    };
    if 0 <= pos <= end {
        msgs.subrange(pos, end)
    } else {
        Seq::empty()
    }
}

/// What the recent-messages query returns: the newest cap-many messages,
/// newest first, when the log holds at least the cap; an empty result --
/// never an error -- when it holds fewer.
pub open spec fn spec_recent(msgs: Seq<MessageV>) -> Seq<MessageV> {
    if msgs.len() < MAX_RECENT_MESSAGE_LENGTH as int {
        Seq::empty()
    } else {
        msgs.subrange(msgs.len() - MAX_RECENT_MESSAGE_LENGTH as int, msgs.len() as int).reverse()
    }
}

} // verus!
