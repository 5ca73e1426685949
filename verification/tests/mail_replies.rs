use chat_plugins::mail::engine::{DeleteOutcome, SendOutcome};
use chat_plugins::mail::layout::{mailbox_path, message_path};
use chat_plugins::mail::mailbox::Mailbox;
use chat_plugins::mail::model::MessageRef;
use chat_plugins::mail::reply::{
    bad_index, delete_reply, mailbox_string, no_such_message, read_reply, send_reply,
    storage_failure, usage,
};

#[test]
fn usage_lists_the_three_commands() {
    let help = usage();
    assert!(help.starts_with("<br/><h3>\u{1F4E8} !mail commands:</h3><ul> <li>"));
    assert!(help.contains("<tt>!mail send <b>recipient</b> <b>message</b></tt>"));
    assert!(help.contains("<tt>!mail read <b>number</b></tt>"));
    assert!(help.contains("<tt>!mail delete <b>number</b></tt>"));
    assert!(help.ends_with("will empty your mailbox.)</li></ul>"));
}

#[test]
fn listing_shows_each_reference() {
    let refs = vec![
        MessageRef { unread: false, sender: 1, key: 5 },
        MessageRef { unread: true, sender: 2, key: 6 },
        MessageRef { unread: true, sender: 3, key: 7 },
    ];
    let mailbox = Mailbox::from_refs(9, refs);
    let names = vec![Some(String::from("ann")), None];
    assert_eq!(
        mailbox_string(&mailbox, &names),
        "<tt><h3>\u{1F4EC} Your Mailbox:</h3>\
         [0] From: ann</span></b><br/>\
         <b><span style=\"color:#5555ff\">[1] From: The user with this ID is no longer registered</span></b><br/>\
         <b><span style=\"color:#5555ff\">[2] From: The user with this ID is no longer registered</span></b><br/>\
         <br/><sup>type <b>!mail</b> for instructions</sup></tt>"
    );
}

#[test]
fn empty_listing_has_heading_and_footer() {
    assert_eq!(
        mailbox_string(&Mailbox::new(1), &vec![]),
        "<tt><h3>\u{1F4EC} Your Mailbox:</h3><br/><sup>type <b>!mail</b> for instructions</sup></tt>"
    );
}

#[test]
fn replies_for_what_went_wrong() {
    assert_eq!(
        send_reply(SendOutcome::NoFreeKey, "bob"),
        "<b><span style=\"color:#aa0000\">Message not delivered, try again</span></b>"
    );
    assert_eq!(send_reply(SendOutcome::NoFreeKey, "bob"), storage_failure());
    assert_eq!(
        read_reply(None, Some("alice")),
        "<b><span style=\"color:#aa0000\">No such message</span></b>"
    );
    assert_eq!(delete_reply(&DeleteOutcome::NoSuchMessage), no_such_message());
    assert_eq!(delete_reply(&DeleteOutcome::Deleted { key: 3 }), "Deleted 1 message");
    assert_eq!(delete_reply(&DeleteOutcome::Emptied { keys: vec![] }), "Emptied mailbox");
    assert_eq!(
        bad_index(),
        "<b><span style=\"color:#aa0000\">That is not a message number</span></b>"
    );
}

#[test]
fn records_have_their_places() {
    assert_eq!(mailbox_path(42), "mailboxes/42/mailbox.toml");
    assert_eq!(mailbox_path(0), "mailboxes/0/mailbox.toml");
    assert_eq!(message_path(42, 7), "mailboxes/42/message_7.toml");
    assert_eq!(
        message_path(u32::MAX, 1234567890),
        "mailboxes/4294967295/message_1234567890.toml"
    );
}
