use holonet::channel::Channel;
use holonet::message::Message;
use holonet::registry::SessionRegistry;
use holonet::session::Session;

fn msg(id: u128, body: &str, created_at: i64) -> Message {
    Message::new(id, 7, Session::new(0xa1, "alice"), body, created_at)
}

#[test]
fn channel_new_keeps_a_nonzero_override_id() {
    let ch = Channel::new(55, "general", 9);
    assert_eq!(ch.id, 55);
    assert_eq!(ch.name, "general");
    assert_eq!(ch.game_id, 9);
    assert!(ch.messages.is_empty());
}

#[test]
fn channel_new_mints_an_id_for_a_zero_override() {
    let ch = Channel::new(0, "general", 0);
    assert_ne!(ch.id, 0);
}

#[test]
fn message_new_snapshots_the_author() {
    let m = msg(1, "hello", 10);
    assert_eq!(m.id, 1);
    assert_eq!(m.channel_id, 7);
    assert_eq!(m.body, "hello");
    assert_eq!(m.created_by, 0xa1);
    assert_eq!(m.created_at, 10);
    assert_eq!(m.user.name, "alice");
}

#[test]
fn message_add_keeps_the_log_sorted() {
    let mut ch = Channel::new(1, "general", 0);
    ch.message_add(msg(1, "c", 30));
    ch.message_add(msg(2, "a", 10));
    ch.message_add(msg(3, "b", 20));
    let times: Vec<i64> = ch.messages.iter().map(|m| m.created_at).collect();
    assert_eq!(times, vec![10, 20, 30]);
}

#[test]
fn message_add_breaks_ties_by_insertion_order() {
    let mut ch = Channel::new(1, "general", 0);
    ch.message_add(msg(1, "first", 10));
    ch.message_add(msg(2, "second", 10));
    ch.message_add(msg(3, "third", 10));
    let ids: Vec<u128> = ch.messages.iter().map(|m| m.id).collect();
    assert_eq!(ids, vec![1, 2, 3]);
}

#[test]
fn message_sort_by_key_orders_any_log() {
    let mut ch = Channel::new(1, "general", 0);
    ch.messages.push(msg(1, "z", 50));
    ch.messages.push(msg(2, "y", 10));
    ch.messages.push(msg(3, "x", 30));
    ch.message_sort_by_key();
    let times: Vec<i64> = ch.messages.iter().map(|m| m.created_at).collect();
    assert_eq!(times, vec![10, 30, 50]);
    assert_eq!(ch.messages.len(), 3);
}

#[test]
fn paginate_returns_limit_messages_from_the_offset() {
    let mut ch = Channel::new(1, "general", 0);
    for i in 0..5u32 {
        ch.message_add(msg(i as u128 + 1, "m", i as i64));
    }
    let page = ch.get_messages_paginate(1, 3);
    let ids: Vec<u128> = page.iter().map(|m| m.id).collect();
    assert_eq!(ids, vec![2, 3, 4]);

    let tail = ch.get_messages_paginate(3, 100);
    let ids: Vec<u128> = tail.iter().map(|m| m.id).collect();
    assert_eq!(ids, vec![4, 5]);

    let all = ch.get_messages_paginate(0, 500);
    assert_eq!(all.len(), 5);

    let empty = ch.get_messages_paginate(9, 3);
    assert!(empty.is_empty());
}

#[test]
fn paginate_with_limit_one_returns_one_message() {
    let mut ch = Channel::new(1, "general", 0);
    ch.message_add(msg(1, "a", 1));
    ch.message_add(msg(2, "b", 2));
    let page = ch.get_messages_paginate(1, 1);
    assert_eq!(page.len(), 1);
    assert_eq!(page[0].id, 2);
}

#[test]
fn recent_messages_of_an_empty_channel_are_empty() {
    let ch = Channel::new(1, "general", 0);
    assert!(ch.get_recent_messages().is_empty());
}

#[test]
fn recent_messages_of_a_log_under_the_cap_are_empty() {
    let mut ch = Channel::new(1, "general", 0);
    for i in 0..3u32 {
        ch.message_add(msg(i as u128 + 1, "m", i as i64));
    }
    assert!(ch.get_recent_messages().is_empty());
}

#[test]
fn recent_messages_return_the_newest_cap_many_newest_first() {
    let mut ch = Channel::new(1, "general", 0);
    for i in 0..101u32 {
        ch.message_add(msg(i as u128 + 1, "m", i as i64));
    }
    let recent = ch.get_recent_messages();
    assert_eq!(recent.len(), 100);
    assert_eq!(recent[0].id, 101);
    assert_eq!(recent[0].created_at, 100);
    assert_eq!(recent[99].id, 2);
    assert_eq!(recent[99].created_at, 1);
}

#[test]
fn message_get_by_id_finds_the_first_match() {
    let mut ch = Channel::new(1, "general", 0);
    ch.message_add(msg(5, "a", 1));
    ch.message_add(msg(6, "b", 2));
    assert_eq!(ch.message_get_by_id(6).body, "b");
    assert_eq!(ch.message_edit_by_id(5).body, "a");
}

#[test]
fn messages_iter_exposes_the_whole_log() {
    let mut ch = Channel::new(1, "general", 0);
    ch.message_add(msg(5, "a", 1));
    assert_eq!(ch.messages_iter().len(), 1);
    assert_eq!(ch.messages_iter()[0].id, 5);
}

#[test]
fn registry_upsert_inserts_and_overwrites_in_place() {
    let mut reg = SessionRegistry::new();
    reg.upsert(1, "alice");
    reg.upsert(2, "bob");
    assert_eq!(reg.len(), 2);
    reg.upsert(1, "al");
    assert_eq!(reg.len(), 2);
    let snap = reg.snapshot();
    assert_eq!(snap[0].id, 1);
    assert_eq!(snap[0].name, "al");
    assert_eq!(snap[1].id, 2);
    assert_eq!(snap[1].name, "bob");
}

#[test]
fn registry_remove_returns_the_record() {
    let mut reg = SessionRegistry::new();
    reg.upsert(1, "alice");
    reg.upsert(2, "bob");
    let removed = reg.remove(1).expect("was registered");
    assert_eq!(removed.id, 1);
    assert_eq!(removed.name, "alice");
    assert!(!reg.contains(1));
    assert!(reg.contains(2));
    assert!(reg.remove(1).is_none());
}

#[test]
fn registry_get_returns_a_copy() {
    let mut reg = SessionRegistry::new();
    reg.upsert(1, "alice");
    let got = reg.get(1).expect("registered");
    assert_eq!(got.id, 1);
    assert_eq!(got.name, "alice");
    assert!(reg.get(9).is_none());
}

#[test]
fn session_clone_copies_the_record() {
    let s = Session::new(3, "alice");
    let c = s.clone();
    assert_eq!(c.id, 3);
    assert_eq!(c.name, "alice");
}
