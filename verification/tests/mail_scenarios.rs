use chat_plugins::mail::directory::user_id_from_name;
use chat_plugins::mail::reply::{delete_reply, read_reply, send_reply};
use chat_plugins::mail::{
    chat_filter, delete_message, load_mailbox, mailbox_string, message_string, read_message,
    send_message, user_connected, Command, DeleteOutcome, MailStore, MessageRef, SendOutcome,
};

const ALICE: u32 = 7;
const BOB: u32 = 42;

fn bob_with_one_message() -> MailStore {
    let mut store = MailStore::new();
    let outcome = send_message(&mut store, ALICE, Some(BOB), "hello world");
    assert_eq!(outcome, SendOutcome::Delivered { key: 0 });
    store
}

#[test]
fn alice_sends_bob_a_message() {
    let mut store = MailStore::new();
    let (recipient, body) = match chat_filter("!mail send bob hello world") {
        Command::Send { recipient, body } => (recipient, body),
        other => panic!("parsed as {:?}", other),
    };
    assert_eq!(recipient, "bob");
    assert_eq!(body, "hello world");
    let resolved = user_id_from_name(&vec![BOB]);
    assert_eq!(resolved, Some(BOB));
    let outcome = send_message(&mut store, ALICE, resolved, &body);
    assert_eq!(outcome, SendOutcome::Delivered { key: 0 });
    let mailbox = load_mailbox(BOB, &store);
    assert_eq!(mailbox.owner(), BOB);
    assert_eq!(mailbox.len(), 1);
    assert_eq!(mailbox.get(0), Some(MessageRef { unread: true, sender: ALICE, key: 0 }));
    let reply = send_reply(outcome, &recipient);
    assert_eq!(
        reply,
        "Message sent to <b><span style=\"color:#00aa7f\">bob</span></b>'s mailbox"
    );
    let body = store.load_message(BOB, 0).unwrap();
    assert_eq!(body.sender(), ALICE);
    assert_eq!(body.contents(), "hello world");
}

#[test]
fn bob_connects_with_unread_mail() {
    let store = bob_with_one_message();
    let mailbox = user_connected(&store, BOB).expect("a summary is due");
    let summary = mailbox_string(&mailbox, &vec![Some(String::from("alice"))]);
    assert_eq!(
        summary,
        "<tt><h3>\u{1F4EC} Your Mailbox:</h3>\
         <b><span style=\"color:#5555ff\">[0] From: alice</span></b><br/>\
         <br/><sup>type <b>!mail</b> for instructions</sup></tt>"
    );
    assert!(user_connected(&store, ALICE).is_none());
}

#[test]
fn bob_reads_the_message() {
    let mut store = bob_with_one_message();
    assert_eq!(chat_filter("!mail read 0"), Command::Read { index: 0 });
    let opened = read_message(&mut store, BOB, 0);
    let reply = read_reply(opened.as_ref(), Some("alice"));
    assert_eq!(reply, "<h3>\u{2709}\u{FE0F} From: alice</h3>hello world");
    assert!(reply.contains("From: alice"));
    assert!(reply.ends_with("hello world"));
    let mailbox = load_mailbox(BOB, &store);
    assert_eq!(mailbox.get(0), Some(MessageRef { unread: false, sender: ALICE, key: 0 }));
    assert!(user_connected(&store, BOB).is_none());
}

#[test]
fn bob_empties_the_mailbox() {
    let mut store = bob_with_one_message();
    assert_eq!(chat_filter("!mail delete"), Command::ClearAll);
    let outcome = delete_message(&mut store, BOB, None);
    assert_eq!(outcome, DeleteOutcome::Emptied { keys: vec![0] });
    assert_eq!(delete_reply(&outcome), "Emptied mailbox");
    assert_eq!(load_mailbox(BOB, &store).len(), 0);
    assert!(!store.message_exists(BOB, 0));
    assert!(store.load_message(BOB, 0).is_none());
}

#[test]
fn alice_writes_to_nobody() {
    let mut store = bob_with_one_message();
    let (recipient, body) = match chat_filter("!mail send zzz hi") {
        Command::Send { recipient, body } => (recipient, body),
        other => panic!("parsed as {:?}", other),
    };
    let resolved = user_id_from_name(&vec![]);
    assert_eq!(resolved, None);
    let outcome = send_message(&mut store, ALICE, resolved, &body);
    assert_eq!(outcome, SendOutcome::UnknownRecipient);
    assert_eq!(
        send_reply(outcome, &recipient),
        "<b><span style=\"color:#aa0000\">Couldn't find a user with the name `zzz`</span></b>"
    );
    assert_eq!(load_mailbox(BOB, &store).len(), 1);
    assert_eq!(load_mailbox(ALICE, &store).len(), 0);
}

#[test]
fn sixth_message_is_turned_away() {
    let mut store = MailStore::new();
    for n in 0..5u32 {
        let outcome = send_message(&mut store, ALICE + n, Some(BOB), "one of five");
        assert!(matches!(outcome, SendOutcome::Delivered { .. }));
    }
    let before = load_mailbox(BOB, &store);
    assert_eq!(before.len(), 5);
    let outcome = send_message(&mut store, ALICE, Some(BOB), "one too many");
    assert_eq!(outcome, SendOutcome::MailboxFull);
    let reply = send_reply(outcome, "bob");
    assert_eq!(
        reply,
        "<b><span style=\"color:#00aa7f\">bob</span></b>'s mailbox is full so your message was not delivered"
    );
    assert!(reply.contains("mailbox is full"));
    let after = load_mailbox(BOB, &store);
    assert_eq!(after, before);
    for index in 0..5 {
        let key = after.get(index).unwrap().key;
        assert_eq!(store.load_message(BOB, key).unwrap().contents(), "one of five");
    }
}

#[test]
fn opened_message_names_an_unknown_sender() {
    let mut store = bob_with_one_message();
    let opened = read_message(&mut store, BOB, 0).unwrap();
    assert_eq!(
        message_string(None, &opened),
        "<h3>\u{2709}\u{FE0F} From: The user with this ID is no longer registered</h3>hello world"
    );
}
