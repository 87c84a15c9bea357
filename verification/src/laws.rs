//! What the hub guarantees of each event, stated over the ghost transition
//! functions and proved once and for all: who ends up in the registry, what
//! lands in the channel log, and exactly how many envelopes each recipient
//! is addressed.

use vstd::prelude::*;

use crate::channel::{insert_pos, msgs_sorted};
use crate::holo_api::{ErrorOutput, OutputV, ResponsePacketV, UserDiscconnectOutput};
use crate::holocaster::{
    fanout_all, fanout_except, join_output, message_output, packet, spec_disconnect, spec_join,
    spec_message, spec_upsert, valid_body, HolocasterV,
};
use crate::message::MessageV;
use crate::registry::{contains_id, ids_unique, index_of_id};
use crate::session::SessionV;

verus! {

/// How many envelopes of `out` are addressed to `recipient`.
pub open spec fn count_to(out: Seq<ResponsePacketV>, recipient: u128) -> int
    decreases out.len(),
{
    if out.len() == 0 {
        0
    } else {
        count_to(out.drop_last(), recipient) + if out.last().session_id == recipient {
            1int
        } else {
            0int
        }
    }
}

pub proof fn lemma_count_to_add(a: Seq<ResponsePacketV>, b: Seq<ResponsePacketV>, recipient: u128)
    ensures
        count_to(a + b, recipient) == count_to(a, recipient) + count_to(b, recipient),
    decreases b.len(),
{
    if b.len() == 0 {
        assert(a + b =~= a);
    } else {
        assert((a + b).drop_last() =~= a + b.drop_last());
        assert((a + b).last() == b.last());
        lemma_count_to_add(a, b.drop_last(), recipient);
    }
}

pub proof fn lemma_count_to_single(p: ResponsePacketV, recipient: u128)
    ensures
        count_to(seq![p], recipient) == if p.session_id == recipient {
            1int
        } else {
            0int
        },
{
    let s = seq![p];
    assert(s.len() == 1);
    assert(s.last() == p);
    assert(s.drop_last() =~= Seq::<ResponsePacketV>::empty());
    assert(count_to(s.drop_last(), recipient) == 0);
}

proof fn lemma_ids_unique_drop_last(sessions: Seq<SessionV>)
    requires
        ids_unique(sessions),
        sessions.len() > 0,
    ensures
        ids_unique(sessions.drop_last()),
{
    let rest = sessions.drop_last();
    assert forall|i: int, j: int| 0 <= i < j < rest.len() implies rest[i].id != rest[j].id by {
        assert(sessions[i].id != sessions[j].id);
    }
}

/// Per-recipient delivery of deliver-to-all-except: with unique session
/// identifiers, a registered session other than the excluded one is
/// addressed exactly once; the excluded session and strangers are not
/// addressed at all.
pub proof fn lemma_fanout_except_count(
    sessions: Seq<SessionV>,
    excluded: u128,
    output: OutputV,
    recipient: u128,
)
    requires
        ids_unique(sessions),
    ensures
        count_to(fanout_except(sessions, excluded, output), recipient) == if contains_id(
            sessions,
            recipient,
        ) && recipient != excluded {
            1int
        } else {
            0int
        },
    decreases sessions.len(),
{
    if sessions.len() == 0 {
        assert(!contains_id(sessions, recipient));
    } else {
        let rest = sessions.drop_last();
        let last = sessions.last();
        lemma_ids_unique_drop_last(sessions);
        lemma_fanout_except_count(rest, excluded, output, recipient);
        let fanned = fanout_except(sessions, excluded, output);
        let rest_fanned = fanout_except(rest, excluded, output);
        if last.id == excluded {
            assert(fanned == rest_fanned);
        } else {
            let p = packet(last.id, excluded, output);
            assert(fanned == rest_fanned.push(p));
            assert(fanned.drop_last() =~= rest_fanned);
            assert(fanned.last() == p);
            assert(count_to(fanned, recipient) == count_to(rest_fanned, recipient) + if p.session_id
                == recipient {
                1int
            } else {
                0int
            });
        }
        if last.id == recipient {
            assert(contains_id(sessions, recipient)) by {
                assert(sessions[sessions.len() - 1].id == recipient);
            }
            assert(!contains_id(rest, recipient)) by {
                if contains_id(rest, recipient) {
                    let i = choose|i: int| 0 <= i < rest.len() && rest[i].id == recipient;
                    assert(sessions[i].id != sessions[sessions.len() - 1].id);
                }
            }
        } else {
            assert(contains_id(sessions, recipient) == contains_id(rest, recipient)) by {
                if contains_id(sessions, recipient) {
                    let i = choose|i: int|
                        0 <= i < sessions.len() && sessions[i].id == recipient;
                    assert(rest[i].id == recipient);
                }
                if contains_id(rest, recipient) {
                    let i = choose|i: int| 0 <= i < rest.len() && rest[i].id == recipient;
                    assert(sessions[i].id == recipient);
                }
            }
        }
    }
}

/// Per-recipient delivery of deliver-to-all: with unique session
/// identifiers, every registered session is addressed exactly once and
/// nobody else is addressed. The heartbeat tick reaches the full registry
/// through this.
pub proof fn lemma_fanout_all_count(sessions: Seq<SessionV>, output: OutputV, recipient: u128)
    requires
        ids_unique(sessions),
    ensures
        count_to(fanout_all(sessions, output), recipient) == if contains_id(sessions, recipient) {
            1int
        } else {
            0int
        },
    decreases sessions.len(),
{
    if sessions.len() == 0 {
        assert(!contains_id(sessions, recipient));
    } else {
        let rest = sessions.drop_last();
        let last = sessions.last();
        lemma_ids_unique_drop_last(sessions);
        lemma_fanout_all_count(rest, output, recipient);
        let fanned = fanout_all(sessions, output);
        let rest_fanned = fanout_all(rest, output);
        let p = packet(last.id, last.id, output);
        assert(fanned == rest_fanned.push(p));
        assert(fanned.drop_last() =~= rest_fanned);
        assert(fanned.last() == p);
        assert(count_to(fanned, recipient) == count_to(rest_fanned, recipient) + if p.session_id
            == recipient {
            1int
        } else {
            0int
        });
        if last.id == recipient {
            assert(contains_id(sessions, recipient)) by {
                assert(sessions[sessions.len() - 1].id == recipient);
            }
            assert(!contains_id(rest, recipient)) by {
                if contains_id(rest, recipient) {
                    let i = choose|i: int| 0 <= i < rest.len() && rest[i].id == recipient;
                    assert(sessions[i].id != sessions[sessions.len() - 1].id);
                }
            }
        } else {
            assert(contains_id(sessions, recipient) == contains_id(rest, recipient)) by {
                if contains_id(sessions, recipient) {
                    let i = choose|i: int|
                        0 <= i < sessions.len() && sessions[i].id == recipient;
                    assert(rest[i].id == recipient);
                }
                if contains_id(rest, recipient) {
                    let i = choose|i: int| 0 <= i < rest.len() && rest[i].id == recipient;
                    assert(sessions[i].id == recipient);
                }
            }
        }
    }
}

/// Every envelope of deliver-to-all-except carries the given payload, the
/// excluded session as origin, and a recipient other than the excluded
/// session.
pub proof fn lemma_fanout_except_payload(sessions: Seq<SessionV>, excluded: u128, output: OutputV)
    ensures
        forall|j: int|
            0 <= j < fanout_except(sessions, excluded, output).len() ==> {
                let p = #[trigger] fanout_except(sessions, excluded, output)[j];
                p.output == output && p.channel_id == excluded && p.session_id != excluded
            },
    decreases sessions.len(),
{
    if sessions.len() > 0 {
        lemma_fanout_except_payload(sessions.drop_last(), excluded, output);
    }
}

/// After an upsert the identifier is registered, everyone registered
/// before stays registered, and nobody else appears.
pub proof fn lemma_upsert_membership(sessions: Seq<SessionV>, sid: u128, name: Seq<char>)
    requires
        ids_unique(sessions),
    ensures
        contains_id(spec_upsert(sessions, sid, name), sid),
        forall|other: u128| #![auto]
            contains_id(spec_upsert(sessions, sid, name), other) == (contains_id(sessions, other)
                || other == sid),
        ids_unique(spec_upsert(sessions, sid, name)),
{
    let s2 = spec_upsert(sessions, sid, name);
    if contains_id(sessions, sid) {
        let k = index_of_id(sessions, sid);
        assert(0 <= k < sessions.len() && sessions[k].id == sid);
        assert(s2[k].id == sid);
        assert forall|other: u128| #![auto] contains_id(s2, other) == (contains_id(sessions, other)
            || other == sid) by {
            if contains_id(s2, other) {
                let i = choose|i: int| 0 <= i < s2.len() && s2[i].id == other;
                if i != k {
                    assert(sessions[i].id == other);
                }
            }
            if contains_id(sessions, other) {
                let i = choose|i: int| 0 <= i < sessions.len() && sessions[i].id == other;
                if i != k {
                    assert(s2[i].id == other);
                } else {
                    assert(other == sid);
                    assert(s2[k].id == other);
                }
            }
        }
        assert forall|i: int, j: int| 0 <= i < j < s2.len() implies s2[i].id != s2[j].id by {
            assert(sessions[i].id != sessions[j].id);
            assert(sessions[k].id == sid);
            if i != k {
                assert(s2[i] == sessions[i]);
            }
            if j != k {
                assert(s2[j] == sessions[j]);
            }
        }
    } else {
        assert(s2[sessions.len() as int].id == sid);
        assert forall|other: u128| #![auto] contains_id(s2, other) == (contains_id(sessions, other)
            || other == sid) by {
            if contains_id(s2, other) {
                let i = choose|i: int| 0 <= i < s2.len() && s2[i].id == other;
                if i < sessions.len() {
                    assert(sessions[i].id == other);
                }
            }
            if contains_id(sessions, other) {
                let i = choose|i: int| 0 <= i < sessions.len() && sessions[i].id == other;
                assert(s2[i].id == other);
            }
        }
        assert forall|i: int, j: int| 0 <= i < j < s2.len() implies s2[i].id != s2[j].id by {
            if j < sessions.len() {
                assert(sessions[i].id != sessions[j].id);
            } else {
                assert(s2[i] == sessions[i]);
                assert(s2[j].id == sid);
                assert(sessions[i].id != sid);
            }
        }
    }
}

/// A valid join registers the joining session and addresses exactly one
/// `UserJoined` envelope to it, exactly one to each other registered
/// session (zero others when it is alone), and none to anyone else; every
/// produced envelope carries the `UserJoined` announcement.
pub proof fn lemma_join_registers_and_announces(h: HolocasterV, sid: u128, name: Seq<char>)
    requires
        ids_unique(h.sessions),
    ensures
        ({
            let (h2, out) = spec_join(h, sid, name);
            &&& contains_id(h2.sessions, sid)
            &&& count_to(out, sid) == 1
            &&& forall|other: u128|
                other != sid ==> count_to(out, other) == (if contains_id(h.sessions, other) {
                    1int
                } else {
                    0int
                })
            &&& forall|j: int|
                0 <= j < out.len() ==> (#[trigger] out[j]).output == join_output(
                    h.channels,
                    sid,
                    name,
                )
        }),
{
    let out_payload = join_output(h.channels, sid, name);
    let sessions2 = spec_upsert(h.sessions, sid, name);
    let (h2, out) = spec_join(h, sid, name);
    lemma_upsert_membership(h.sessions, sid, name);
    let head = seq![packet(sid, sid, out_payload)];
    let tail = fanout_except(sessions2, sid, out_payload);
    assert(out == head + tail);
    assert forall|other: u128| true implies count_to(out, other) == count_to(head, other)
        + count_to(tail, other) by {
        lemma_count_to_add(head, tail, other);
    }
    lemma_count_to_single(packet(sid, sid, out_payload), sid);
    lemma_fanout_except_count(sessions2, sid, out_payload, sid);
    assert(count_to(out, sid) == 1);
    assert forall|other: u128| other != sid implies count_to(out, other) == (if contains_id(
        h.sessions,
        other,
    ) {
        1int
    } else {
        0int
    }) by {
        lemma_count_to_single(packet(sid, sid, out_payload), other);
        lemma_fanout_except_count(sessions2, sid, out_payload, other);
        assert(contains_id(sessions2, other) == contains_id(h.sessions, other));
    }
    lemma_fanout_except_payload(sessions2, sid, out_payload);
    assert forall|j: int| 0 <= j < out.len() implies (#[trigger] out[j]).output
        == out_payload by {
        if j == 0 {
            assert(out[0] == head[0]);
        } else {
            assert(out[j] == tail[j - 1]);
        }
    }
}

/// A message event from an unregistered session mutates nothing and
/// addresses exactly one `InvalidSession` error to the sender.
pub proof fn lemma_message_unregistered(h: HolocasterV, sid: u128, body: Seq<char>, mid: u128, t: i64)
    requires
        !contains_id(h.sessions, sid),
    ensures
        spec_message(h, sid, body, mid, t).0 == h,
        spec_message(h, sid, body, mid, t).1 == seq![
            packet(sid, sid, OutputV::Error(ErrorOutput::InvalidSession)),
        ],
{
}

/// A message event whose body is empty or over the length limit mutates
/// nothing and addresses exactly one `InvalidMessageRequest` error to the
/// sender; a body inside the limit appends exactly one message to the
/// default channel and produces the sender's echo followed by one
/// broadcast envelope per other registered session.
pub proof fn lemma_message_body_rules(h: HolocasterV, sid: u128, body: Seq<char>, mid: u128, t: i64)
    requires
        ids_unique(h.sessions),
        contains_id(h.sessions, sid),
        h.channels.len() >= 1,
    ensures
        !valid_body(body) ==> spec_message(h, sid, body, mid, t).0 == h && spec_message(
            h,
            sid,
            body,
            mid,
            t,
        ).1 == seq![packet(sid, sid, OutputV::Error(ErrorOutput::InvalidMessageRequest))],
        valid_body(body) ==> ({
            let (h2, out) = spec_message(h, sid, body, mid, t);
            let m = MessageV {
                id: mid,
                channel_id: h.channels[0].id,
                body,
                user: h.sessions[index_of_id(h.sessions, sid)],
                created_by: sid,
                created_at: t,
            };
            let delivered = message_output(h.channels, sid, body, mid, t);
            &&& h2.sessions == h.sessions
            &&& h2.channels[0].messages == h.channels[0].messages.insert(
                insert_pos(h.channels[0].messages, t),
                m,
            )
            &&& h2.channels[0].messages.len() == h.channels[0].messages.len() + 1
            &&& out == seq![packet(sid, sid, OutputV::UserMessage(delivered))] + fanout_except(
                h.sessions,
                sid,
                OutputV::Message(delivered),
            )
            &&& count_to(out, sid) == 1
            &&& forall|other: u128|
                other != sid ==> count_to(out, other) == (if contains_id(h.sessions, other) {
                    1int
                } else {
                    0int
                })
        }),
{
    if valid_body(body) {
        let (h2, out) = spec_message(h, sid, body, mid, t);
        let delivered = message_output(h.channels, sid, body, mid, t);
        let head = seq![packet(sid, sid, OutputV::UserMessage(delivered))];
        let tail = fanout_except(h.sessions, sid, OutputV::Message(delivered));
        let ch0 = h.channels[0];
        assert(h2.channels[0] == h.channels.update(0, h2.channels[0])[0]);
        crate::channel::lemma_insert_pos_properties(ch0.messages, t);
        ch0.messages.insert_ensures(insert_pos(ch0.messages, t), spec_message_record(h, sid, body, mid, t));
        assert forall|other: u128| true implies count_to(out, other) == count_to(head, other)
            + count_to(tail, other) by {
            lemma_count_to_add(head, tail, other);
        }
        lemma_count_to_single(packet(sid, sid, OutputV::UserMessage(delivered)), sid);
        lemma_fanout_except_count(h.sessions, sid, OutputV::Message(delivered), sid);
        assert forall|other: u128| other != sid implies count_to(out, other) == (if contains_id(
            h.sessions,
            other,
        ) {
            1int
        } else {
            0int
        }) by {
            lemma_count_to_single(packet(sid, sid, OutputV::UserMessage(delivered)), other);
            lemma_fanout_except_count(h.sessions, sid, OutputV::Message(delivered), other);
        }
    }
}

/// The message record a valid message event appends.
pub open spec fn spec_message_record(
    h: HolocasterV,
    sid: u128,
    body: Seq<char>,
    mid: u128,
    t: i64,
) -> MessageV {
    MessageV {
        id: mid,
        channel_id: h.channels[0].id,
        body,
        user: h.sessions[index_of_id(h.sessions, sid)],
        created_by: sid,
        created_at: t,
    }
}

/// The channel log stays sorted ascending by creation time after any
/// message event, whatever timestamp the clock handed out: appends keep
/// order, rejections change nothing.
pub proof fn lemma_message_keeps_order(h: HolocasterV, sid: u128, body: Seq<char>, mid: u128, t: i64)
    requires
        h.channels.len() >= 1,
        msgs_sorted(h.channels[0].messages),
    ensures
        msgs_sorted(spec_message(h, sid, body, mid, t).0.channels[0].messages),
{
    if contains_id(h.sessions, sid) && valid_body(body) {
        let m = spec_message_record(h, sid, body, mid, t);
        crate::channel::lemma_insert_keeps_sorted(h.channels[0].messages, m);
        assert(spec_message(h, sid, body, mid, t).0.channels[0].messages == h.channels[0].messages
            .insert(insert_pos(h.channels[0].messages, m.created_at), m));
    }
}

/// Disconnecting a registered session removes it from the registry and
/// addresses `UserDisconnected` exactly once to every remaining session
/// and to nobody else; disconnecting an unknown identifier mutates nothing
/// and produces zero envelopes.
pub proof fn lemma_disconnect(h: HolocasterV, sid: u128)
    requires
        ids_unique(h.sessions),
    ensures
        !contains_id(h.sessions, sid) ==> spec_disconnect(h, sid).0 == h && spec_disconnect(
            h,
            sid,
        ).1.len() == 0,
        contains_id(h.sessions, sid) ==> ({
            let (h2, out) = spec_disconnect(h, sid);
            &&& !contains_id(h2.sessions, sid)
            &&& forall|other: u128|
                other != sid ==> count_to(out, other) == (if contains_id(h.sessions, other) {
                    1int
                } else {
                    0int
                })
            &&& count_to(out, sid) == 0
            &&& forall|j: int|
                0 <= j < out.len() ==> (#[trigger] out[j]).output == OutputV::UserDisconnect(
                    UserDiscconnectOutput { user_id: sid },
                )
        }),
{
    if contains_id(h.sessions, sid) {
        let k = index_of_id(h.sessions, sid);
        assert(0 <= k < h.sessions.len() && h.sessions[k].id == sid);
        let sessions2 = h.sessions.remove(k);
        let (h2, out) = spec_disconnect(h, sid);
        assert(h2.sessions == sessions2);
        assert(ids_unique(sessions2)) by {
            assert forall|i: int, j: int| 0 <= i < j < sessions2.len() implies sessions2[i].id
                != sessions2[j].id by {
                let i0 = if i < k {
                    i
                } else {
                    i + 1
                };
                let j0 = if j < k {
                    j
                } else {
                    j + 1
                };
                assert(sessions2[i] == h.sessions[i0]);
                assert(sessions2[j] == h.sessions[j0]);
                assert(h.sessions[i0].id != h.sessions[j0].id);
            }
        }
        assert(!contains_id(sessions2, sid)) by {
            if contains_id(sessions2, sid) {
                let i = choose|i: int| 0 <= i < sessions2.len() && sessions2[i].id == sid;
                let i0 = if i < k {
                    i
                } else {
                    i + 1
                };
                assert(sessions2[i] == h.sessions[i0]);
                if i0 < k {
                    assert(h.sessions[i0].id != h.sessions[k].id);
                } else {
                    assert(h.sessions[k].id != h.sessions[i0].id);
                }
            }
        }
        let payload = OutputV::UserDisconnect(UserDiscconnectOutput { user_id: sid });
        lemma_fanout_except_count(sessions2, sid, payload, sid);
        assert forall|other: u128| other != sid implies count_to(out, other) == (if contains_id(
            h.sessions,
            other,
        ) {
            1int
        } else {
            0int
        }) by {
            lemma_fanout_except_count(sessions2, sid, payload, other);
            assert(contains_id(sessions2, other) == contains_id(h.sessions, other)) by {
                if contains_id(sessions2, other) {
                    let i = choose|i: int|
                        0 <= i < sessions2.len() && sessions2[i].id == other;
                    let i0 = if i < k {
                        i
                    } else {
                        i + 1
                    };
                    assert(sessions2[i] == h.sessions[i0]);
                    assert(h.sessions[i0].id == other);
                }
                if contains_id(h.sessions, other) {
                    let i = choose|i: int|
                        0 <= i < h.sessions.len() && h.sessions[i].id == other;
                    assert(i != k);
                    let i2 = if i < k {
                        i
                    } else {
                        i - 1
                    };
                    assert(sessions2[i2] == h.sessions[i]);
                    assert(sessions2[i2].id == other);
                }
            }
        }
        lemma_fanout_except_payload(sessions2, sid, payload);
    }
}

} // verus!
