//! The mailbox operations: deliver, open, delete, empty. Each loads the
//! owner's mailbox from the store, changes it, and writes the records back.

use vstd::prelude::*;
use crate::mail::changes::{
    changes_of_delete, changes_of_read, changes_of_removal, changes_of_send,
    lemma_changes_of_clearing, lemma_changes_of_deletion, lemma_changes_of_delivery,
    lemma_changes_of_opening,
};
use crate::mail::laws::{
    lemma_clearing_leaves_nothing, lemma_consistent_mailboxes, lemma_delivery_keeps_consistency,
    lemma_opening_keeps_consistency, lemma_reconciling_drops_dangling_refs,
    lemma_removal_keeps_consistency,
};
use crate::mail::mailbox::Mailbox;
use crate::mail::message::Message;
use crate::mail::store::{load_mailbox, store_mailbox, MailStore};

verus! {

impl Mailbox {
    /// Files `message` under `key`: writes the body to the store and takes
    /// an unread reference into the mailbox. Refused, with nothing changed,
    /// when the mailbox is full, when a body is already stored under the
    /// key, or when a reference already carries it.
    pub fn file_message(
        &mut self,
        store: &mut MailStore,
        message: Message,
        key: u32,
    ) -> (filed: bool)
        ensures
            filed == (!old(self)@.is_full() && !old(store)@.has_body(old(self)@.owner, key) && !old(
                self,
            )@.has_key(key)),
            filed ==> final(self)@ == old(self)@.with_message(message@.sender, key) && final(store)@
                == old(store)@.with_body(old(self)@.owner, key, message@),
            !filed ==> final(self)@ == old(self)@ && final(store)@ == old(store)@,
            old(self)@.wf() ==> final(self)@.wf(),
    {
        if store.message_exists(self.owner(), key) {
            return false;
        }
        if !self.accept(message.sender(), key) {
            return false;
        }
        store.store_message(self.owner(), key, message);
        true
    }

    /// Adds `message` to the mailbox under a key of its own. Refused, with
    /// nothing changed, when the mailbox is full or no free key was found.
    /// The body is written to the store; the mailbox record is not.
    pub fn add_message(&mut self, store: &mut MailStore, message: Message) -> (added: bool)
        ensures
            old(self)@.is_full() ==> !added,
            !old(self)@.is_full() && !old(store)@.has_body(old(self)@.owner, 0) && !old(
                self,
            )@.has_key(0) ==> added && final(self)@.messages.last().key == 0,
            added ==> {
                let key = final(self)@.messages.last().key;
                &&& !old(store)@.has_body(old(self)@.owner, key)
                &&& !old(self)@.has_key(key)
                &&& final(self)@ == old(self)@.with_message(message@.sender, key)
                &&& final(store)@ == old(store)@.with_body(old(self)@.owner, key, message@)
            },
            !added ==> final(self)@ == old(self)@ && final(store)@ == old(store)@,
            old(self)@.wf() ==> final(self)@.wf(),
    {
        if self.is_full() {
            return false;
        }
        match message.unique_message_name(self.owner(), store) {
            Some(key) => self.file_message(store, message, key),
            None => false,
        }
    }

    /// Opens the message at `index`: marks its reference as read and
    /// returns the body. Out of range, or where the body is gone from the
    /// store, nothing changes and nothing is returned.
    pub fn read_message(&mut self, store: &MailStore, index: usize) -> (opened: Option<Message>)
        ensures
            opened.is_some() == (index < old(self)@.messages.len() && store@.has_body(
                old(self)@.owner,
                old(self)@.messages[index as int].key,
            )),
            opened matches Some(message) ==> final(self)@ == old(self)@.marked_read(index as int)
                && Some(message@) == store@.body(
                old(self)@.owner,
                old(self)@.messages[index as int].key,
            ),
            opened.is_none() ==> final(self)@ == old(self)@,
            old(self)@.wf() ==> final(self)@.wf(),
    {
        match self.get(index) {
            Some(reference) => {
                match store.load_message(self.owner(), reference.key) {
                    Some(message) => {
                        self.mark_read(index);
                        Some(message)
                    },
                    None => None,
                }
            },
            None => None,
        }
    }
}

/// How an attempt to send a message ended.
#[derive(Clone, Copy, Debug, PartialEq, Eq, Structural)]
pub enum SendOutcome {
    /// The recipient's name resolved to nobody.
    UnknownRecipient,
    /// The recipient's mailbox holds as many messages as it may.
    MailboxFull,
    /// No free key was found for the message.
    NoFreeKey,
    /// The message is in the recipient's mailbox under `key`.
    Delivered { key: u32 },
}

/// Sends `contents` from `sender` to the mailbox of `recipient`, the id
/// that the recipient's name resolved to. Unless the message is delivered,
/// the store is left as it was.
pub fn send_message(
    store: &mut MailStore,
    sender: u32,
    recipient: Option<u32>,
    contents: &str,
) -> (outcome: SendOutcome)
    ensures
        outcome is UnknownRecipient <==> recipient.is_none(),
        recipient matches Some(owner) ==> {
            &&& outcome is MailboxFull <==> old(store)@.mailbox(owner).is_full()
            &&& !old(store)@.mailbox(owner).is_full() && old(store)@.key_is_free(owner, 0)
                ==> outcome == (SendOutcome::Delivered { key: 0 })
            &&& outcome matches SendOutcome::Delivered { key } ==> old(store)@.key_is_free(
                owner,
                key,
            ) && final(store)@ == old(store)@.delivered(owner, sender, key, contents@)
        },
        !(outcome is Delivered) ==> final(store)@ == old(store)@,
        exists|key: u32|
            final(store)@ == #[trigger] old(store)@.after_send(recipient, sender, key, contents@),
        old(store)@.consistent() ==> final(store)@.consistent(),
        old(store)@.reaches(final(store)@, changes_of_send(outcome, recipient)),
{
    let owner: u32 = match recipient {
        Some(owner) => owner,
        None => {
            assert(store@ == old(store)@.after_send(recipient, sender, 0, contents@));
            return SendOutcome::UnknownRecipient;
        },
    };
    let mut mailbox = load_mailbox(owner, store);
    let message = Message::new(sender, contents.to_owned());
    if mailbox.add_message(store, message) {
        store_mailbox(&mailbox, store);
        proof {
            let key = mailbox@.messages.last().key;
            lemma_changes_of_delivery(old(store)@, owner, sender, key, contents@);
            if old(store)@.consistent() {
                lemma_delivery_keeps_consistency(old(store)@, owner, sender, key, contents@);
            }
        }
        assert(store@ == old(store)@.after_send(
            recipient,
            sender,
            mailbox@.messages.last().key,
            contents@,
        ));
        match mailbox.get(mailbox.len() - 1) {
            Some(reference) => SendOutcome::Delivered { key: reference.key },
            None => SendOutcome::NoFreeKey,
        }
    } else {
        assert(store@ == old(store)@.after_send(recipient, sender, 0, contents@));
        if mailbox.is_full() {
            SendOutcome::MailboxFull
        } else {
            SendOutcome::NoFreeKey
        }
    }
}

/// Opens the message at `index` of the mailbox of `owner`: its reference is
/// marked as read, the record is written back, and the body is returned.
/// Out of range, or where the body is gone, the store is left as it was.
pub fn read_message(store: &mut MailStore, owner: u32, index: usize) -> (opened: Option<Message>)
    ensures
        opened.is_some() == (index < old(store)@.mailbox(owner).messages.len() && old(
            store,
        )@.has_body(owner, old(store)@.mailbox(owner).messages[index as int].key)),
        opened matches Some(message) ==> final(store)@ == old(store)@.opened(owner, index as int)
            && Some(message@) == old(store)@.body(
            owner,
            old(store)@.mailbox(owner).messages[index as int].key,
        ),
        opened.is_none() ==> final(store)@ == old(store)@,
        old(store)@.consistent() ==> final(store)@.consistent(),
        old(store)@.reaches(final(store)@, changes_of_read(opened.is_some(), owner)),
{
    let mut mailbox = load_mailbox(owner, store);
    match mailbox.read_message(store, index) {
        Some(message) => {
            store_mailbox(&mailbox, store);
            proof {
                lemma_changes_of_opening(old(store)@, owner, index as int);
                if old(store)@.consistent() {
                    lemma_opening_keeps_consistency(old(store)@, owner, index as int);
                }
            }
            Some(message)
        },
        None => None,
    }
}

/// Deletes the message at `index` of the mailbox of `owner`, body and
/// reference, and returns the key it had. Out of range, the store is left
/// as it was.
pub fn remove_message(store: &mut MailStore, owner: u32, index: usize) -> (removed: Option<u32>)
    ensures
        index < old(store)@.mailbox(owner).messages.len() ==> removed == Some(
            old(store)@.mailbox(owner).messages[index as int].key,
        ) && final(store)@ == old(store)@.removed(owner, index as int),
        index >= old(store)@.mailbox(owner).messages.len() ==> removed.is_none() && final(store)@
            == old(store)@,
        old(store)@.consistent() ==> final(store)@.consistent(),
        removed matches Some(key) ==> old(store)@.reaches(
            final(store)@,
            changes_of_removal(owner, seq![key]),
        ),
{
    let mut mailbox = load_mailbox(owner, store);
    match mailbox.remove(index) {
        Some(reference) => {
            store.delete_message(owner, reference.key);
            store_mailbox(&mailbox, store);
            proof {
                lemma_changes_of_deletion(old(store)@, owner, index as int);
                if old(store)@.consistent() {
                    lemma_removal_keeps_consistency(old(store)@, owner, index as int);
                }
            }
            Some(reference.key)
        },
        None => None,
    }
}

/// Empties the mailbox of `owner`: every body it refers to is deleted, the
/// record is written back without references, and the keys of the deleted
/// bodies are returned in mailbox order.
pub fn clear_mailbox(store: &mut MailStore, owner: u32) -> (keys: Vec<u32>)
    ensures
        keys@ == old(store)@.mailbox(owner).keys(),
        final(store)@ == old(store)@.cleared(owner),
        final(store)@.mailbox(owner).messages.len() == 0,
        old(store)@.consistent() ==> final(store)@.consistent() && forall|key: u32|
            !#[trigger] final(store)@.has_body(owner, key),
        old(store)@.reaches(final(store)@, changes_of_removal(owner, keys@)),
{
    let mut mailbox = load_mailbox(owner, store);
    let keys = mailbox.clear();
    let mut i: usize = 0;
    assert(store@.bodies =~= old(store)@.without_bodies(owner, keys@.subrange(0, 0)).bodies);
    while i < keys.len()
        invariant
            i <= keys.len(),
            store@ == old(store)@.without_bodies(owner, keys@.subrange(0, i as int)),
        decreases keys.len() - i,
    {
        store.delete_message(owner, keys[i]);
        proof {
            let before = keys@.subrange(0, i as int);
            let after = keys@.subrange(0, i + 1);
            assert forall|key: u32| after.contains(key) <==> (before.contains(key) || key
                == keys@[i as int]) by {
                if key == keys@[i as int] {
                    assert(after[i as int] == key);
                }
            }
            assert(store@.bodies =~= old(store)@.without_bodies(owner, after).bodies);
        }
        i += 1;
    }
    assert(keys@.subrange(0, keys@.len() as int) =~= keys@);
    store_mailbox(&mailbox, store);
    proof {
        lemma_changes_of_clearing(old(store)@, owner);
        if old(store)@.consistent() {
            lemma_clearing_leaves_nothing(old(store)@, owner);
        }
    }
    keys
}

/// Reconciles the mailbox of `owner` with the bodies that the store holds:
/// the references without a body are dropped from the record, and their
/// number is returned.
pub fn reconcile(store: &mut MailStore, owner: u32) -> (dropped: usize)
    ensures
        final(store)@ == old(store)@.reconciled(owner),
        dropped == old(store)@.mailbox(owner).messages.len() - final(store)@.mailbox(
            owner,
        ).messages.len(),
        forall|i: int|
            0 <= i < final(store)@.mailbox(owner).messages.len() ==> final(store)@.has_body(
                owner,
                (#[trigger] final(store)@.mailbox(owner).messages[i]).key,
            ),
        old(store)@.consistent_but_for(owner) ==> final(store)@.consistent(),
        old(store)@.consistent() ==> dropped == 0,
{
    let mut mailbox = load_mailbox(owner, store);
    let dropped = mailbox.drop_dangling(store);
    store_mailbox(&mailbox, store);
    proof {
        lemma_reconciling_drops_dangling_refs(old(store)@, owner);
        if old(store)@.consistent() {
            lemma_consistent_mailboxes(old(store)@, owner);
        }
    }
    dropped
}

/// What a delete command did.
#[derive(Debug, PartialEq, Eq)]
pub enum DeleteOutcome {
    /// The index named no message; nothing was deleted.
    NoSuchMessage,
    /// The message stored under `key` was deleted.
    Deleted { key: u32 },
    /// The mailbox was emptied; the bodies under `keys` were deleted.
    Emptied { keys: Vec<u32> },
}

/// Runs a delete command for `owner`: with an index, that one message is
/// deleted; without, the whole mailbox is emptied.
pub fn delete_message(store: &mut MailStore, owner: u32, index: Option<usize>) -> (outcome:
    DeleteOutcome)
    ensures
        match index {
            Some(at) => if at < old(store)@.mailbox(owner).messages.len() {
                &&& outcome matches DeleteOutcome::Deleted { key }
                &&& key == old(store)@.mailbox(owner).messages[at as int].key
                &&& final(store)@ == old(store)@.removed(owner, at as int)
            } else {
                &&& outcome is NoSuchMessage
                &&& final(store)@ == old(store)@
            },
            None => {
                &&& outcome matches DeleteOutcome::Emptied { keys }
                &&& keys@ == old(store)@.mailbox(owner).keys()
                &&& final(store)@ == old(store)@.cleared(owner)
            },
        },
        old(store)@.consistent() ==> final(store)@.consistent(),
        old(store)@.reaches(final(store)@, changes_of_delete(outcome, owner)),
{
    match index {
        Some(at) => match remove_message(store, owner, at) {
            Some(key) => DeleteOutcome::Deleted { key },
            None => DeleteOutcome::NoSuchMessage,
        },
        None => DeleteOutcome::Emptied { keys: clear_mailbox(store, owner) },
    }
}

/// Looks at the mailbox of a user who has just connected: the mailbox is
/// returned, to be shown, if at least one of its messages is unread.
pub fn user_connected(store: &MailStore, owner: u32) -> (summary: Option<Mailbox>)
    ensures
        summary.is_some() == store@.mailbox(owner).has_unread(),
        summary matches Some(mailbox) ==> mailbox@ == store@.mailbox(owner),
{
    let mailbox = load_mailbox(owner, store);
    if mailbox.has_unread() {
        Some(mailbox)
    } else {
        None
    }
}

} // verus!
