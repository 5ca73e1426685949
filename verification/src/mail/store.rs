//! The record store: mailbox records by owner, message bodies by owner and
//! key.
//!
//! The store lives in memory. A handler fills it with the records it read
//! for the command at hand and carries what the command changed back to
//! where the records are kept.

use std::collections::HashMap;
use vstd::prelude::*;
use vstd::std_specs::hash::*;
use crate::mail::mailbox::Mailbox;
use crate::mail::message::Message;
use crate::mail::model::StoreView;

verus! {

broadcast use vstd::std_specs::hash::group_hash_axioms;

/// Where the body of `owner` under `key` is filed.
spec fn slot(owner: u32, key: u32) -> u64 {
    (owner * 0x1_0000_0000 + key) as u64
}

proof fn lemma_slot_injective(a: (u32, u32), b: (u32, u32))
    ensures
        slot(a.0, a.1) == slot(b.0, b.1) <==> a == b,
{
}

fn slot_of(owner: u32, key: u32) -> (at: u64)
    ensures
        at == slot(owner, key),
{
    (owner as u64) * 0x1_0000_0000u64 + (key as u64)
}

/// The records of one server: a mailbox per owner and the message bodies
/// the mailboxes refer to.
pub struct MailStore {
    mailboxes: HashMap<u32, Mailbox>,
    bodies: HashMap<u64, Message>,
}

impl View for MailStore {
    type V = StoreView;

    closed spec fn view(&self) -> StoreView {
        StoreView {
            mailboxes: Map::new(
                |owner: u32| self.mailboxes@.contains_key(owner),
                |owner: u32| self.mailboxes@[owner]@,
            ),
            bodies: Map::new(
                |at: (u32, u32)| self.bodies@.contains_key(slot(at.0, at.1)),
                |at: (u32, u32)| self.bodies@[slot(at.0, at.1)]@,
            ),
        }
    }
}

impl MailStore {
    /// A store without records.
    pub fn new() -> (store: MailStore)
        ensures
            store@ == StoreView::empty(),
            store@.consistent(),
    {
        let store = MailStore { mailboxes: HashMap::new(), bodies: HashMap::new() };
        assert(store@.mailboxes =~= Map::empty());
        assert(store@.bodies =~= Map::empty());
        store
    }

    /// Whether a body is stored for `owner` under `key`.
    pub fn message_exists(&self, owner: u32, key: u32) -> (found: bool)
        ensures
            found == self@.has_body(owner, key),
    {
        let at = slot_of(owner, key);
        self.bodies.contains_key(&at)
    }

    /// Reads the body stored for `owner` under `key`.
    pub fn load_message(&self, owner: u32, key: u32) -> (found: Option<Message>)
        ensures
            found.is_some() == self@.has_body(owner, key),
            found matches Some(message) ==> Some(message@) == self@.body(owner, key),
    {
        let at = slot_of(owner, key);
        match self.bodies.get(&at) {
            Some(message) => Some(message.clone()),
            None => None,
        }
    }

    /// Writes `message` as the body of `owner` under `key`, over whatever
    /// was stored there.
    pub fn store_message(&mut self, owner: u32, key: u32, message: Message)
        ensures
            final(self)@ == old(self)@.with_body(owner, key, message@),
    {
        let at = slot_of(owner, key);
        self.bodies.insert(at, message);
        proof {
            assert forall|p: (u32, u32)| slot(p.0, p.1) == at <==> p == (owner, key) by {
                lemma_slot_injective(p, (owner, key));
            }
            assert(final(self)@.bodies =~= old(self)@.bodies.insert((owner, key), message@));
        }
    }

    /// Deletes the body of `owner` under `key`, if there is one.
    pub fn delete_message(&mut self, owner: u32, key: u32)
        ensures
            final(self)@ == old(self)@.without_body(owner, key),
    {
        let at = slot_of(owner, key);
        self.bodies.remove(&at);
        proof {
            assert forall|p: (u32, u32)| slot(p.0, p.1) == at <==> p == (owner, key) by {
                lemma_slot_injective(p, (owner, key));
            }
            assert(final(self)@.bodies =~= old(self)@.bodies.remove((owner, key)));
        }
    }
}

/// Loads the mailbox of `owner`: the stored record if there is one, a fresh
/// empty mailbox otherwise. Either way the result is attributed to `owner`.
pub fn load_mailbox(owner: u32, store: &MailStore) -> (mailbox: Mailbox)
    ensures
        mailbox@ == store@.mailbox(owner),
{
    match store.mailboxes.get(&owner) {
        Some(record) => record.for_owner(owner),
        None => Mailbox::new(owner),
    }
}

/// Overwrites the record of the mailbox's owner with `mailbox`.
pub fn store_mailbox(mailbox: &Mailbox, store: &mut MailStore)
    ensures
        final(store)@ == old(store)@.with_mailbox(mailbox@),
{
    let owner = mailbox.owner();
    let copy = mailbox.for_owner(owner);
    store.mailboxes.insert(owner, copy);
    proof {
        assert(final(store)@.mailboxes =~= old(store)@.mailboxes.insert(owner, mailbox@));
    }
}

} // verus!
