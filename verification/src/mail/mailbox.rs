//! The mailbox: one owner's references to stored messages.

use vstd::prelude::*;
use crate::mail::model::{MailboxView, MessageRef, MAX_MESSAGES};
use crate::mail::store::MailStore;

verus! {

/// One owner's message references, in arrival order. The position of a
/// reference is the number by which the owner names the message.
#[derive(Debug, PartialEq, Eq)]
pub struct Mailbox {
    owner: u32,
    messages: Vec<MessageRef>,
}

impl View for Mailbox {
    type V = MailboxView;

    closed spec fn view(&self) -> MailboxView {
        MailboxView { owner: self.owner, messages: self.messages@ }
    }
}

impl Clone for Mailbox {
    fn clone(&self) -> (copy: Mailbox)
        ensures
            copy@ == self@,
    {
        self.for_owner(self.owner)
    }
}

impl Default for Mailbox {
    /// The empty mailbox of user zero.
    fn default() -> (mailbox: Mailbox)
        ensures
            mailbox@ == MailboxView::empty(0),
    {
        Mailbox::new(0)
    }
}

impl Mailbox {
    /// An empty mailbox for `owner`.
    pub fn new(owner: u32) -> (mailbox: Mailbox)
        ensures
            mailbox@ == MailboxView::empty(owner),
            mailbox@.wf(),
    {
        Mailbox { owner, messages: Vec::new() }
    }

    /// The user id the mailbox belongs to.
    pub fn owner(&self) -> (owner: u32)
        ensures
            owner == self@.owner,
    {
        self.owner
    }

    /// Number of references held.
    pub fn len(&self) -> (len: usize)
        ensures
            len == self@.messages.len(),
    {
        self.messages.len()
    }

    /// Whether the capacity bound is reached.
    pub fn is_full(&self) -> (full: bool)
        ensures
            full == self@.is_full(),
    {
        self.messages.len() >= MAX_MESSAGES
    }

    /// The reference at `index`, if there is one.
    pub fn get(&self, index: usize) -> (found: Option<MessageRef>)
        ensures
            index < self@.messages.len() ==> found == Some(self@.messages[index as int]),
            index >= self@.messages.len() ==> found.is_none(),
    {
        if index < self.messages.len() {
            Some(self.messages[index])
        } else {
            None
        }
    }

    /// Whether some reference carries `key`.
    pub fn contains_key(&self, key: u32) -> (found: bool)
        ensures
            found == self@.has_key(key),
    {
        let mut i: usize = 0;
        while i < self.messages.len()
            invariant
                i <= self.messages.len(),
                forall|j: int| 0 <= j < i ==> (#[trigger] self.messages@[j]).key != key,
            decreases self.messages.len() - i,
        {
            if self.messages[i].key == key {
                assert(self@.messages[i as int].key == key);
                return true;
            }
            i += 1;
        }
        false
    }

    /// Whether some reference is still unread.
    pub fn has_unread(&self) -> (found: bool)
        ensures
            found == self@.has_unread(),
    {
        let mut i: usize = 0;
        while i < self.messages.len()
            invariant
                i <= self.messages.len(),
                forall|j: int| 0 <= j < i ==> !(#[trigger] self.messages@[j]).unread,
            decreases self.messages.len() - i,
        {
            if self.messages[i].unread {
                assert(self@.messages[i as int].unread);
                return true;
            }
            i += 1;
        }
        false
    }

    /// The keys of the references, in order.
    pub fn keys(&self) -> (keys: Vec<u32>)
        ensures
            keys@ == self@.keys(),
    {
        let mut keys: Vec<u32> = Vec::new();
        let mut i: usize = 0;
        while i < self.messages.len()
            invariant
                i <= self.messages.len(),
                keys@.len() == i,
                forall|j: int| 0 <= j < i ==> keys@[j] == (#[trigger] self.messages@[j]).key,
            decreases self.messages.len() - i,
        {
            keys.push(self.messages[i].key);
            i += 1;
        }
        keys
    }

    /// A copy of the mailbox that belongs to `owner`.
    pub fn for_owner(&self, owner: u32) -> (copy: Mailbox)
        ensures
            copy@ == (MailboxView { owner, messages: self@.messages }),
    {
        let mut messages: Vec<MessageRef> = Vec::new();
        let mut i: usize = 0;
        while i < self.messages.len()
            invariant
                i <= self.messages.len(),
                messages@ == self.messages@.subrange(0, i as int),
            decreases self.messages.len() - i,
        {
            messages.push(self.messages[i]);
            i += 1;
        }
        assert(messages@ =~= self.messages@);
        Mailbox { owner, messages }
    }

    /// Builds the mailbox of `owner` from references read back from a
    /// record. The references are taken in order; one that would break the
    /// capacity bound, or whose key is already held, is left out, so that
    /// a valid record is taken whole.
    pub fn from_refs(owner: u32, refs: Vec<MessageRef>) -> (mailbox: Mailbox)
        ensures
            mailbox@ == MailboxView::from_refs(owner, refs@, refs@.len()),
            mailbox@.wf(),
            (MailboxView { owner, messages: refs@ }).wf() ==> mailbox@.messages == refs@,
    {
        let mut mailbox = Mailbox::new(owner);
        let mut i: usize = 0;
        while i < refs.len()
            invariant
                i <= refs.len(),
                mailbox@ == MailboxView::from_refs(owner, refs@, i as nat),
                mailbox@.owner == owner,
                mailbox@.wf(),
            decreases refs.len() - i,
        {
            let next = refs[i];
            if !mailbox.is_full() && !mailbox.contains_key(next.key) {
                mailbox.messages.push(next);
            }
            i += 1;
        }
        proof {
            if (MailboxView { owner, messages: refs@ }).wf() {
                lemma_valid_record_is_taken_whole(owner, refs@, refs@.len());
            }
        }
        mailbox
    }

    /// Takes in an unread message from `sender` stored under `key`, unless
    /// the mailbox is full or already holds that key.
    pub fn accept(&mut self, sender: u32, key: u32) -> (accepted: bool)
        ensures
            accepted == (!old(self)@.is_full() && !old(self)@.has_key(key)),
            accepted ==> final(self)@ == old(self)@.with_message(sender, key),
            !accepted ==> final(self)@ == old(self)@,
            old(self)@.wf() ==> final(self)@.wf(),
    {
        if self.is_full() || self.contains_key(key) {
            return false;
        }
        self.messages.push(MessageRef { unread: true, sender, key });
        true
    }

    /// Marks the reference at `index` as read and returns it as it now
    /// stands; out of range, nothing changes.
    pub fn mark_read(&mut self, index: usize) -> (opened: Option<MessageRef>)
        ensures
            index < old(self)@.messages.len() ==> final(self)@ == old(self)@.marked_read(
                index as int,
            ) && opened == Some(final(self)@.messages[index as int]),
            index >= old(self)@.messages.len() ==> final(self)@ == old(self)@ && opened.is_none(),
            old(self)@.wf() ==> final(self)@.wf(),
    {
        if index >= self.messages.len() {
            return None;
        }
        let seen = MessageRef {
            unread: false,
            sender: self.messages[index].sender,
            key: self.messages[index].key,
        };
        self.messages.set(index, seen);
        Some(seen)
    }

    /// Takes the reference at `index` out and returns it; out of range,
    /// nothing changes.
    pub fn remove(&mut self, index: usize) -> (removed: Option<MessageRef>)
        ensures
            index < old(self)@.messages.len() ==> final(self)@ == old(self)@.without(index as int)
                && removed == Some(old(self)@.messages[index as int]),
            index >= old(self)@.messages.len() ==> final(self)@ == old(self)@ && removed.is_none(),
            old(self)@.wf() ==> final(self)@.wf(),
    {
        if index >= self.messages.len() {
            return None;
        }
        let removed = self.messages.remove(index);
        Some(removed)
    }

    /// Drops the references whose body `store` does not hold and returns
    /// how many there were; the other references stay in their order.
    pub fn drop_dangling(&mut self, store: &MailStore) -> (dropped: usize)
        ensures
            final(self)@ == old(self)@.only(
                |reference: MessageRef| store@.has_body(old(self)@.owner, reference.key),
            ),
            dropped == old(self)@.messages.len() - final(self)@.messages.len(),
    {
        let ghost keep = |reference: MessageRef| store@.has_body(self@.owner, reference.key);
        let mut kept: Vec<MessageRef> = Vec::new();
        let mut i: usize = 0;
        proof {
            reveal(Seq::filter);
            assert(self.messages@.take(0).filter(keep) =~= kept@);
        }
        while i < self.messages.len()
            invariant
                i <= self.messages.len(),
                keep == |reference: MessageRef| store@.has_body(self@.owner, reference.key),
                kept@ == self.messages@.take(i as int).filter(keep),
                kept@.len() <= i,
            decreases self.messages.len() - i,
        {
            let reference = self.messages[i];
            proof {
                reveal(Seq::filter);
                assert(self.messages@.take(i + 1).drop_last() =~= self.messages@.take(i as int));
            }
            if store.message_exists(self.owner, reference.key) {
                kept.push(reference);
            }
            i += 1;
        }
        assert(self.messages@.take(self.messages@.len() as int) =~= self.messages@);
        let dropped = self.messages.len() - kept.len();
        self.messages = kept;
        dropped
    }

    /// Drops every reference and returns the keys they carried, in order.
    pub fn clear(&mut self) -> (keys: Vec<u32>)
        ensures
            final(self)@ == old(self)@.emptied(),
            keys@ == old(self)@.keys(),
            final(self)@.wf(),
    {
        let keys = self.keys();
        self.messages.clear();
        keys
    }
}

/// Of a record that respects the capacity bound and has distinct keys,
/// nothing is left out when a mailbox is built from it.
pub proof fn lemma_valid_record_is_taken_whole(owner: u32, refs: Seq<MessageRef>, count: nat)
    requires
        (MailboxView { owner, messages: refs }).wf(),
        count <= refs.len(),
    ensures
        MailboxView::from_refs(owner, refs, count).messages == refs.take(count as int),
        MailboxView::from_refs(owner, refs, count).owner == owner,
    decreases count,
{
    if count > 0 {
        lemma_valid_record_is_taken_whole(owner, refs, (count - 1) as nat);
    }
}

} // verus!
