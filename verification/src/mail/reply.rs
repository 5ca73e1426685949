//! The texts that answer mail commands.

use vstd::prelude::*;
use vstd::string::*;
use crate::mail::engine::{DeleteOutcome, SendOutcome};
use crate::mail::mailbox::Mailbox;
use crate::mail::message::Message;
use crate::mail::model::{MailboxView, MessageRef, MessageView};
use crate::text::{decimal, push_decimal};

verus! {

/// The help that `!mail` alone is answered with.
pub open spec fn usage_text() -> Seq<char> {
    "<br/><h3>\u{1F4E8} !mail commands:</h3><ul> <li><tt>!mail send <b>recipient</b> <b>message</b></tt><br/>(Send a <b>message</b> to the user with the given name.)</li> <li><tt>!mail read <b>number</b></tt><br/>(Read a message. Typing <tt>!mail read</tt> without a number will open your mailbox.)</li> <li><tt>!mail delete <b>number</b></tt><br/>(Delete a message. Typing <tt>!mail delete</tt> without a number will empty your mailbox.)</li></ul>"@
}

/// How a sender is named: by the name the id resolved to, or by a notice
/// that it resolved to nobody.
pub open spec fn sender_text(name: Option<Seq<char>>) -> Seq<char> {
    match name {
        Some(name) => name,
        None => "The user with this ID is no longer registered"@,
    }
}

/// An opened message: a heading that names the sender, then the contents.
pub open spec fn message_text(name: Option<Seq<char>>, message: MessageView) -> Seq<char> {
    "<h3>\u{2709}\u{FE0F} From: "@ + sender_text(name) + "</h3>"@ + message.contents
}

/// One line of the mailbox listing: the index, the sender, and emphasis in
/// front where the message is unread.
pub open spec fn entry_text(index: nat, reference: MessageRef, name: Option<Seq<char>>) -> Seq<
    char,
> {
    let line = "["@ + decimal(index) + "] From: "@ + sender_text(name) + "</span></b><br/>"@;
    if reference.unread {
        "<b><span style=\"color:#5555ff\">"@ + line
    } else {
        line
    }
}

/// The name that goes with the reference at `index`, where one was
/// resolved.
pub open spec fn name_at(names: Seq<Option<String>>, index: int) -> Option<Seq<char>> {
    if 0 <= index < names.len() {
        match names[index] {
            Some(name) => Some(name@),
            None => None,
        }
    } else {
        None
    }
}

/// The lines of the first `count` references, in order.
pub open spec fn entries_text(refs: Seq<MessageRef>, names: Seq<Option<String>>, count: nat) -> Seq<
    char,
>
    decreases count,
{
    if count == 0 {
        Seq::empty()
    } else {
        entries_text(refs, names, (count - 1) as nat) + entry_text(
            (count - 1) as nat,
            refs[count - 1],
            name_at(names, count - 1),
        )
    }
}

/// The listing of a mailbox: a heading, one line for each reference, and a
/// pointer to the help.
pub open spec fn mailbox_text(mailbox: MailboxView, names: Seq<Option<String>>) -> Seq<char> {
    "<tt><h3>\u{1F4EC} Your Mailbox:</h3>"@ + entries_text(
        mailbox.messages,
        names,
        mailbox.messages.len(),
    ) + "<br/><sup>type <b>!mail</b> for instructions</sup></tt>"@
}

/// What the sender is told of an attempt to send to `recipient`.
pub open spec fn send_reply_text(outcome: SendOutcome, recipient: Seq<char>) -> Seq<char> {
    match outcome {
        SendOutcome::Delivered { key } => "Message sent to <b><span style=\"color:#00aa7f\">"@
            + recipient + "</span></b>'s mailbox"@,
        SendOutcome::MailboxFull => "<b><span style=\"color:#00aa7f\">"@ + recipient
            + "</span></b>'s mailbox is full so your message was not delivered"@,
        SendOutcome::UnknownRecipient =>
            "<b><span style=\"color:#aa0000\">Couldn't find a user with the name `"@ + recipient
            + "`</span></b>"@,
        SendOutcome::NoFreeKey => storage_failure_text(),
    }
}

/// What a user is told when a record could not be written.
pub open spec fn storage_failure_text() -> Seq<char> {
    "<b><span style=\"color:#aa0000\">Message not delivered, try again</span></b>"@
}

/// What a user is told when an index names no message.
pub open spec fn no_such_message_text() -> Seq<char> {
    "<b><span style=\"color:#aa0000\">No such message</span></b>"@
}

/// What a user is told when the argument of `read` or `delete` is no
/// message number.
pub open spec fn bad_index_text() -> Seq<char> {
    "<b><span style=\"color:#aa0000\">That is not a message number</span></b>"@
}

/// What the owner is told of a delete command.
pub open spec fn delete_reply_text(outcome: DeleteOutcome) -> Seq<char> {
    match outcome {
        DeleteOutcome::Emptied { keys } => "Emptied mailbox"@,
        DeleteOutcome::Deleted { key } => "Deleted 1 message"@,
        DeleteOutcome::NoSuchMessage => no_such_message_text(),
    }
}

/// The usage help.
pub fn usage() -> (reply: String)
    ensures
        reply@ == usage_text(),
{
    String::from_str(
        "<br/><h3>\u{1F4E8} !mail commands:</h3><ul> <li><tt>!mail send <b>recipient</b> <b>message</b></tt><br/>(Send a <b>message</b> to the user with the given name.)</li> <li><tt>!mail read <b>number</b></tt><br/>(Read a message. Typing <tt>!mail read</tt> without a number will open your mailbox.)</li> <li><tt>!mail delete <b>number</b></tt><br/>(Delete a message. Typing <tt>!mail delete</tt> without a number will empty your mailbox.)</li></ul>",
    )
}

/// The reply for a record that could not be written.
pub fn storage_failure() -> (reply: String)
    ensures
        reply@ == storage_failure_text(),
{
    String::from_str("<b><span style=\"color:#aa0000\">Message not delivered, try again</span></b>")
}

/// The reply for an index that names no message.
pub fn no_such_message() -> (reply: String)
    ensures
        reply@ == no_such_message_text(),
{
    String::from_str("<b><span style=\"color:#aa0000\">No such message</span></b>")
}

/// The reply for an argument that is no message number.
pub fn bad_index() -> (reply: String)
    ensures
        reply@ == bad_index_text(),
{
    String::from_str("<b><span style=\"color:#aa0000\">That is not a message number</span></b>")
}

/// Appends the way a sender is named to `out`.
fn push_sender(out: &mut String, name: Option<&str>)
    ensures
        final(out)@ == old(out)@ + sender_text(
            match name {
                Some(name) => Some(name@),
                None => None,
            },
        ),
{
    match name {
        Some(name) => out.append(name),
        None => out.append("The user with this ID is no longer registered"),
    }
}

/// The reply to the sender of a message addressed to `recipient`.
pub fn send_reply(outcome: SendOutcome, recipient: &str) -> (reply: String)
    ensures
        reply@ == send_reply_text(outcome, recipient@),
{
    match outcome {
        SendOutcome::Delivered { key } => {
            let mut reply = String::from_str("Message sent to <b><span style=\"color:#00aa7f\">");
            reply.append(recipient);
            reply.append("</span></b>'s mailbox");
            reply
        },
        SendOutcome::MailboxFull => {
            let mut reply = String::from_str("<b><span style=\"color:#00aa7f\">");
            reply.append(recipient);
            reply.append("</span></b>'s mailbox is full so your message was not delivered");
            reply
        },
        SendOutcome::UnknownRecipient => {
            let mut reply = String::from_str(
                "<b><span style=\"color:#aa0000\">Couldn't find a user with the name `",
            );
            reply.append(recipient);
            reply.append("`</span></b>");
            reply
        },
        SendOutcome::NoFreeKey => storage_failure(),
    }
}

/// The text of an opened message. `sender_name` is the name that the
/// sender's id resolved to, if it resolved.
pub fn message_string(sender_name: Option<&str>, message: &Message) -> (reply: String)
    ensures
        reply@ == message_text(
            match sender_name {
                Some(name) => Some(name@),
                None => None,
            },
            message@,
        ),
{
    let mut reply = String::from_str("<h3>\u{2709}\u{FE0F} From: ");
    push_sender(&mut reply, sender_name);
    reply.append("</h3>");
    reply.append(message.contents());
    reply
}

/// The reply to a read command with an index: the opened message, or the
/// notice that there is none.
pub fn read_reply(opened: Option<&Message>, sender_name: Option<&str>) -> (reply: String)
    ensures
        reply@ == match opened {
            Some(message) => message_text(
                match sender_name {
                    Some(name) => Some(name@),
                    None => None,
                },
                message@,
            ),
            None => no_such_message_text(),
        },
{
    match opened {
        Some(message) => message_string(sender_name, message),
        None => no_such_message(),
    }
}

/// The reply to a delete command.
pub fn delete_reply(outcome: &DeleteOutcome) -> (reply: String)
    ensures
        reply@ == delete_reply_text(*outcome),
{
    match outcome {
        DeleteOutcome::Emptied { keys } => String::from_str("Emptied mailbox"),
        DeleteOutcome::Deleted { key } => String::from_str("Deleted 1 message"),
        DeleteOutcome::NoSuchMessage => no_such_message(),
    }
}

/// The listing of `mailbox`. `names` holds, for each reference in order,
/// the name that its sender's id resolved to, if it resolved; a reference
/// without an entry there is listed as one whose sender did not resolve.
pub fn mailbox_string(mailbox: &Mailbox, names: &Vec<Option<String>>) -> (reply: String)
    ensures
        reply@ == mailbox_text(mailbox@, names@),
{
    let mut reply = String::from_str("<tt><h3>\u{1F4EC} Your Mailbox:</h3>");
    let ghost heading = reply@;
    let count: usize = mailbox.len();
    let mut index: usize = 0;
    while index < count
        invariant
            index <= count,
            count == mailbox@.messages.len(),
            reply@ == heading + entries_text(mailbox@.messages, names@, index as nat),
        decreases count - index,
    {
        let reference = match mailbox.get(index) {
            Some(reference) => reference,
            None => MessageRef { unread: false, sender: 0, key: 0 },
        };
        if reference.unread {
            reply.append("<b><span style=\"color:#5555ff\">");
        }
        reply.append("[");
        push_decimal(&mut reply, index as u64);
        reply.append("] From: ");
        if index < names.len() {
            match &names[index] {
                Some(name) => push_sender(&mut reply, Some(name.as_str())),
                None => push_sender(&mut reply, None),
            }
        } else {
            push_sender(&mut reply, None);
        }
        reply.append("</span></b><br/>");
        proof {
            let entry = entry_text(
                index as nat,
                mailbox@.messages[index as int],
                name_at(names@, index as int),
            );
            assert(reply@ =~= heading + (entries_text(mailbox@.messages, names@, index as nat)
                + entry));
        }
        index += 1;
    }
    reply.append("<br/><sup>type <b>!mail</b> for instructions</sup></tt>");
    reply
}

} // verus!
