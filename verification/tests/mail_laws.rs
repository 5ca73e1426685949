use chat_plugins::mail::changes::{follow, read_changes, Change};
use chat_plugins::mail::engine::{
    clear_mailbox, delete_message, read_message, reconcile, remove_message, send_message,
    DeleteOutcome, SendOutcome,
};
use chat_plugins::mail::mailbox::Mailbox;
use chat_plugins::mail::message::Message;
use chat_plugins::mail::model::{MessageRef, MAX_MESSAGES};
use chat_plugins::mail::store::{load_mailbox, store_mailbox, MailStore};

fn filled(owner: u32, count: u32) -> MailStore {
    let mut store = MailStore::new();
    for n in 0..count {
        let text = format!("message {}", n);
        let outcome = send_message(&mut store, 100 + n, Some(owner), &text);
        assert!(matches!(outcome, SendOutcome::Delivered { .. }));
    }
    store
}

fn keys_of(mailbox: &Mailbox) -> Vec<u32> {
    (0..mailbox.len()).map(|i| mailbox.get(i).unwrap().key).collect()
}

#[test]
fn stored_mailbox_loads_back() {
    let mut store = MailStore::new();
    let mut mailbox = Mailbox::new(9);
    assert!(mailbox.file_message(&mut store, Message::new(1, String::from("a")), 11));
    assert!(mailbox.file_message(&mut store, Message::new(2, String::from("b")), 22));
    assert_eq!(load_mailbox(9, &store).len(), 0);
    store_mailbox(&mailbox, &mut store);
    let loaded = load_mailbox(9, &store);
    assert_eq!(loaded, mailbox);
    assert_eq!(loaded.get(0), Some(MessageRef { unread: true, sender: 1, key: 11 }));
    assert_eq!(loaded.get(1), Some(MessageRef { unread: true, sender: 2, key: 22 }));
    assert_eq!(store.load_message(9, 11).unwrap().contents(), "a");
    assert_eq!(store.load_message(9, 22).unwrap().contents(), "b");
}

#[test]
fn missing_record_loads_as_empty_mailbox_of_the_owner() {
    let store = MailStore::new();
    let mailbox = load_mailbox(31, &store);
    assert_eq!(mailbox.owner(), 31);
    assert_eq!(mailbox.len(), 0);
    assert_eq!(mailbox, Mailbox::new(31));
}

#[test]
fn mailbox_never_exceeds_capacity() {
    let mut store = MailStore::new();
    let mut delivered = 0;
    for n in 0..12u32 {
        match send_message(&mut store, n, Some(5), "again") {
            SendOutcome::Delivered { .. } => delivered += 1,
            SendOutcome::MailboxFull => {}
            other => panic!("unexpected {:?}", other),
        }
        assert!(load_mailbox(5, &store).len() <= MAX_MESSAGES);
    }
    assert_eq!(delivered, 5);
    assert_eq!(MAX_MESSAGES, 5);
    assert_eq!(load_mailbox(5, &store).len(), 5);
}

#[test]
fn reading_twice_gives_the_same_body() {
    let mut store = filled(3, 3);
    let first = read_message(&mut store, 3, 1).unwrap();
    let after_first = load_mailbox(3, &store);
    assert!(!after_first.get(1).unwrap().unread);
    assert!(after_first.get(0).unwrap().unread);
    assert!(after_first.get(2).unwrap().unread);
    let second = read_message(&mut store, 3, 1).unwrap();
    assert_eq!(first, second);
    assert_eq!(first.contents(), "message 1");
    assert_eq!(first.sender(), 101);
    assert_eq!(load_mailbox(3, &store), after_first);
}

#[test]
fn clearing_deletes_every_body() {
    let mut store = filled(3, 4);
    let other = send_message(&mut store, 1, Some(8), "for someone else");
    assert_eq!(other, SendOutcome::Delivered { key: 0 });
    let keys = keys_of(&load_mailbox(3, &store));
    assert_eq!(keys.len(), 4);
    let deleted = clear_mailbox(&mut store, 3);
    assert_eq!(deleted, keys);
    assert_eq!(load_mailbox(3, &store).len(), 0);
    for key in keys {
        assert!(!store.message_exists(3, key));
    }
    assert_eq!(load_mailbox(8, &store).len(), 1);
    assert_eq!(store.load_message(8, 0).unwrap().contents(), "for someone else");
}

#[test]
fn out_of_range_index_changes_nothing() {
    let mut store = filled(3, 2);
    let before = load_mailbox(3, &store);
    assert!(read_message(&mut store, 3, 2).is_none());
    assert!(read_message(&mut store, 3, usize::MAX).is_none());
    assert_eq!(remove_message(&mut store, 3, 2), None);
    assert_eq!(delete_message(&mut store, 3, Some(7)), DeleteOutcome::NoSuchMessage);
    let after = load_mailbox(3, &store);
    assert_eq!(after, before);
    assert!(after.get(0).unwrap().unread);
    assert!(after.get(1).unwrap().unread);
    for key in keys_of(&after) {
        assert!(store.message_exists(3, key));
    }
    assert!(read_message(&mut store, 4, 0).is_none());
    assert_eq!(load_mailbox(4, &store).len(), 0);
}

#[test]
fn live_keys_are_distinct() {
    let mut store = filled(3, 5);
    assert_eq!(remove_message(&mut store, 3, 0), Some(0));
    assert_eq!(
        send_message(&mut store, 1, Some(3), "takes the free key"),
        SendOutcome::Delivered { key: 0 }
    );
    let keys = keys_of(&load_mailbox(3, &store));
    assert_eq!(keys.len(), 5);
    for i in 0..keys.len() {
        for j in 0..i {
            assert_ne!(keys[i], keys[j]);
        }
    }
    assert_eq!(store.load_message(3, 0).unwrap().contents(), "takes the free key");
}

#[test]
fn removing_keeps_the_other_messages_in_order() {
    let mut store = filled(3, 4);
    let before = load_mailbox(3, &store);
    let gone = before.get(1).unwrap();
    assert_eq!(delete_message(&mut store, 3, Some(1)), DeleteOutcome::Deleted { key: gone.key });
    let after = load_mailbox(3, &store);
    assert_eq!(after.len(), 3);
    assert_eq!(after.get(0), before.get(0));
    assert_eq!(after.get(1), before.get(2));
    assert_eq!(after.get(2), before.get(3));
    assert!(!store.message_exists(3, gone.key));
    assert_eq!(read_message(&mut store, 3, 1).unwrap().contents(), "message 2");
}

#[test]
fn last_place_goes_to_one_sender() {
    let mut store = filled(3, 4);
    let first = send_message(&mut store, 1, Some(3), "first");
    let second = send_message(&mut store, 2, Some(3), "second");
    assert!(matches!(first, SendOutcome::Delivered { .. }));
    assert_eq!(second, SendOutcome::MailboxFull);
    let mailbox = load_mailbox(3, &store);
    assert_eq!(mailbox.len(), 5);
    assert_eq!(mailbox.get(4).unwrap().sender, 1);
}

#[test]
fn filing_under_a_taken_key_is_refused() {
    let mut store = MailStore::new();
    let mut mailbox = Mailbox::new(9);
    assert!(mailbox.file_message(&mut store, Message::new(1, String::from("kept")), 11));
    assert!(!mailbox.file_message(&mut store, Message::new(2, String::from("lost")), 11));
    assert_eq!(mailbox.len(), 1);
    assert_eq!(store.load_message(9, 11).unwrap().contents(), "kept");
    let mut fresh = Mailbox::new(9);
    assert!(!fresh.file_message(&mut store, Message::new(2, String::from("lost")), 11));
    assert_eq!(fresh.len(), 0);
    assert_eq!(store.load_message(9, 11).unwrap().sender(), 1);
}

#[test]
fn new_message_gets_a_free_key() {
    let mut store = MailStore::new();
    store.store_message(9, 0, Message::new(1, String::from("in the way")));
    let message = Message::new(2, String::from("new"));
    let name = message.unique_message_name(9, &store).expect("a key is free");
    assert_ne!(name, 0);
    assert!(!store.message_exists(9, name));
    assert_eq!(message.unique_message_name(10, &store), Some(0));
}

#[test]
fn reference_without_body_cannot_be_opened() {
    let mut store = filled(3, 2);
    store.delete_message(3, 0);
    let before = load_mailbox(3, &store);
    assert!(read_message(&mut store, 3, 0).is_none());
    assert_eq!(load_mailbox(3, &store), before);
    assert!(before.get(0).unwrap().unread);
    assert_eq!(
        send_message(&mut store, 1, Some(3), "key zero is still referenced"),
        SendOutcome::NoFreeKey
    );
    assert_eq!(load_mailbox(3, &store), before);
}

#[test]
fn reconciling_drops_references_without_body() {
    let mut store = filled(3, 4);
    let before = load_mailbox(3, &store);
    assert_eq!(reconcile(&mut store, 3), 0);
    assert_eq!(load_mailbox(3, &store), before);
    store.delete_message(3, before.get(0).unwrap().key);
    store.delete_message(3, before.get(2).unwrap().key);
    assert_eq!(reconcile(&mut store, 3), 2);
    let after = load_mailbox(3, &store);
    assert_eq!(after.len(), 2);
    assert_eq!(after.get(0), before.get(1));
    assert_eq!(after.get(1), before.get(3));
    assert_eq!(read_message(&mut store, 3, 0).unwrap().contents(), "message 1");
    assert_eq!(read_message(&mut store, 3, 1).unwrap().contents(), "message 3");
    assert_eq!(reconcile(&mut store, 9), 0);
    assert_eq!(load_mailbox(9, &store).len(), 0);
}

#[test]
fn bodies_of_different_owners_do_not_collide() {
    let mut store = MailStore::new();
    store.store_message(1, 2, Message::new(5, String::from("one two")));
    store.store_message(2, 1, Message::new(6, String::from("two one")));
    store.store_message(0, u32::MAX, Message::new(7, String::from("edge")));
    store.store_message(u32::MAX, 0, Message::new(8, String::from("other edge")));
    assert_eq!(store.load_message(1, 2).unwrap().contents(), "one two");
    assert_eq!(store.load_message(2, 1).unwrap().contents(), "two one");
    assert_eq!(store.load_message(0, u32::MAX).unwrap().contents(), "edge");
    assert_eq!(store.load_message(u32::MAX, 0).unwrap().contents(), "other edge");
    assert!(store.load_message(1, 1).is_none());
    store.delete_message(1, 2);
    assert!(!store.message_exists(1, 2));
    assert!(store.message_exists(2, 1));
}

#[test]
fn mailbox_is_built_from_a_record() {
    let a = MessageRef { unread: true, sender: 1, key: 10 };
    let b = MessageRef { unread: false, sender: 2, key: 20 };
    let built = Mailbox::from_refs(4, vec![a, b]);
    assert_eq!(built.owner(), 4);
    assert_eq!(built.len(), 2);
    assert_eq!(built.get(0), Some(a));
    assert_eq!(built.get(1), Some(b));
    assert_eq!(built.keys(), vec![10, 20]);
    assert!(built.has_unread());
    assert!(built.contains_key(20));
    assert!(!built.contains_key(30));
    let five: Vec<MessageRef> =
        (0..5).map(|key| MessageRef { unread: true, sender: 1, key }).collect();
    let full = Mailbox::from_refs(4, five.clone());
    assert!(full.is_full());
    assert_eq!(full.keys(), vec![0, 1, 2, 3, 4]);
}

#[test]
fn invalid_parts_of_a_record_are_left_out() {
    let a = MessageRef { unread: true, sender: 1, key: 10 };
    let b = MessageRef { unread: false, sender: 2, key: 20 };
    let again = MessageRef { unread: false, sender: 3, key: 10 };
    let built = Mailbox::from_refs(4, vec![a, again, b, a]);
    assert_eq!(built.len(), 2);
    assert_eq!(built.get(0), Some(a));
    assert_eq!(built.get(1), Some(b));
    let six: Vec<MessageRef> =
        (0..6).map(|key| MessageRef { unread: true, sender: 1, key }).collect();
    let built = Mailbox::from_refs(4, six);
    assert_eq!(built.keys(), vec![0, 1, 2, 3, 4]);
}

#[test]
fn defaults_belong_to_user_zero() {
    assert_eq!(Mailbox::default(), Mailbox::new(0));
    assert_eq!(Message::default(), Message::new(0, String::new()));
    assert_eq!(Message::new(4, String::from("x")).clone(), Message::new(4, String::from("x")));
}

#[test]
fn mailbox_steps() {
    let mut mailbox = Mailbox::new(1);
    assert!(mailbox.accept(7, 3));
    assert!(!mailbox.accept(8, 3));
    assert!(mailbox.accept(8, 4));
    assert_eq!(mailbox.mark_read(1), Some(MessageRef { unread: false, sender: 8, key: 4 }));
    assert_eq!(mailbox.mark_read(2), None);
    assert_eq!(mailbox.remove(0), Some(MessageRef { unread: true, sender: 7, key: 3 }));
    assert_eq!(mailbox.remove(1), None);
    assert!(!mailbox.has_unread());
    assert_eq!(mailbox.clone(), mailbox);
    assert_eq!(mailbox.for_owner(2).owner(), 2);
    assert_eq!(mailbox.clear(), vec![4]);
    assert_eq!(mailbox.len(), 0);
}

fn same_records(left: &MailStore, right: &MailStore, owner: u32, keys: &[u32]) {
    assert_eq!(load_mailbox(owner, left), load_mailbox(owner, right));
    for key in keys {
        assert_eq!(left.load_message(owner, *key), right.load_message(owner, *key));
    }
}

fn has_no_dangling_reference(store: &MailStore, owner: u32) -> bool {
    keys_of(&load_mailbox(owner, store)).iter().all(|key| store.message_exists(owner, *key))
}

fn copy_of(source: &MailStore, owner: u32) -> MailStore {
    let mut copy = MailStore::new();
    follow(&mut copy, source, Change::WriteMailbox { owner });
    for key in keys_of(&load_mailbox(owner, source)) {
        follow(&mut copy, source, Change::WriteBody { owner, key });
    }
    copy
}

#[test]
fn delivery_is_told_body_first() {
    let mut store = filled(3, 2);
    let mut copy = copy_of(&store, 3);
    let outcome = send_message(&mut store, 7, Some(3), "third");
    let key = match outcome {
        SendOutcome::Delivered { key } => key,
        other => panic!("unexpected {:?}", other),
    };
    let changes = outcome.changes(Some(3));
    assert_eq!(
        changes,
        vec![Change::WriteBody { owner: 3, key }, Change::WriteMailbox { owner: 3 }]
    );
    follow(&mut copy, &store, changes[0]);
    assert!(has_no_dangling_reference(&copy, 3));
    assert_eq!(load_mailbox(3, &copy).len(), 2);
    assert_eq!(copy.load_message(3, key).unwrap().contents(), "third");
    follow(&mut copy, &store, changes[1]);
    same_records(&copy, &store, 3, &keys_of(&load_mailbox(3, &store)));
    assert_eq!(load_mailbox(3, &copy).len(), 3);
}

#[test]
fn failed_delivery_changes_no_record() {
    let mut store = filled(3, 5);
    assert!(send_message(&mut store, 7, Some(3), "x").changes(Some(3)).is_empty());
    assert!(send_message(&mut store, 7, None, "x").changes(None).is_empty());
    assert!(SendOutcome::Delivered { key: 1 }.changes(None).is_empty());
}

#[test]
fn opening_is_told_as_the_mailbox() {
    let mut store = filled(3, 2);
    let mut copy = copy_of(&store, 3);
    let opened = read_message(&mut store, 3, 1);
    let changes = read_changes(&opened, 3);
    assert_eq!(changes, vec![Change::WriteMailbox { owner: 3 }]);
    follow(&mut copy, &store, changes[0]);
    same_records(&copy, &store, 3, &keys_of(&load_mailbox(3, &store)));
    assert!(!load_mailbox(3, &copy).get(1).unwrap().unread);
    let nothing = read_message(&mut store, 3, 9);
    assert!(read_changes(&nothing, 3).is_empty());
}

#[test]
fn deletion_is_told_mailbox_first() {
    let mut store = filled(3, 3);
    let mut copy = copy_of(&store, 3);
    let keys = keys_of(&load_mailbox(3, &store));
    let outcome = delete_message(&mut store, 3, Some(1));
    let changes = outcome.changes(3);
    assert_eq!(
        changes,
        vec![Change::WriteMailbox { owner: 3 }, Change::RemoveBody { owner: 3, key: keys[1] }]
    );
    follow(&mut copy, &store, changes[0]);
    assert!(has_no_dangling_reference(&copy, 3));
    assert!(copy.message_exists(3, keys[1]));
    follow(&mut copy, &store, changes[1]);
    same_records(&copy, &store, 3, &keys);
    assert!(delete_message(&mut store, 3, Some(5)).changes(3).is_empty());
}

#[test]
fn emptying_is_told_mailbox_first() {
    let mut store = filled(3, 3);
    let mut copy = copy_of(&store, 3);
    let keys = keys_of(&load_mailbox(3, &store));
    let outcome = delete_message(&mut store, 3, None);
    let changes = outcome.changes(3);
    assert_eq!(changes.len(), 4);
    assert_eq!(changes[0], Change::WriteMailbox { owner: 3 });
    for (n, key) in keys.iter().enumerate() {
        assert_eq!(changes[n + 1], Change::RemoveBody { owner: 3, key: *key });
    }
    for change in &changes {
        follow(&mut copy, &store, *change);
        assert!(has_no_dangling_reference(&copy, 3));
    }
    same_records(&copy, &store, 3, &keys);
    assert_eq!(load_mailbox(3, &copy).len(), 0);
    for key in keys {
        assert!(!copy.message_exists(3, key));
    }
}

#[test]
fn body_that_is_gone_is_taken_over_as_gone() {
    let source = MailStore::new();
    let mut copy = filled(3, 1);
    follow(&mut copy, &source, Change::WriteBody { owner: 3, key: 0 });
    assert!(!copy.message_exists(3, 0));
}
