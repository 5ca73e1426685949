//! Mathematical model of mailboxes and of the record store.
//!
//! Every contract in the mailbox subsystem is stated over the types of this
//! module: a mailbox is an owner with a sequence of references, a store is a
//! pair of maps, and each operation is a function from store to store.

use vstd::prelude::*;

verus! {

/// The capacity bound: the most references a mailbox holds at once.
pub const MAX_MESSAGES: usize = 5;

/// Entry of a mailbox that points at a stored message body.
#[derive(Clone, Copy, Debug, PartialEq, Eq, Structural)]
pub struct MessageRef {
    /// Whether the owner has yet to read the message.
    pub unread: bool,
    /// User id of the sender.
    pub sender: u32,
    /// Key under which the body is stored, unique within the mailbox.
    pub key: u32,
}

/// What a mailbox is: its owner and its references in arrival order.
pub struct MailboxView {
    pub owner: u32,
    pub messages: Seq<MessageRef>,
}

impl MailboxView {
    /// The mailbox of `owner` before anything has arrived.
    pub open spec fn empty(owner: u32) -> MailboxView {
        MailboxView { owner, messages: Seq::empty() }
    }

    /// No further message fits.
    pub open spec fn is_full(self) -> bool {
        self.messages.len() >= MAX_MESSAGES
    }

    /// Some reference of the mailbox carries `key`.
    pub open spec fn has_key(self, key: u32) -> bool {
        exists|i: int| 0 <= i < self.messages.len() && (#[trigger] self.messages[i]).key == key
    }

    /// Some reference of the mailbox is still unread.
    pub open spec fn has_unread(self) -> bool {
        exists|i: int| 0 <= i < self.messages.len() && (#[trigger] self.messages[i]).unread
    }

    /// No two references share a key.
    pub open spec fn keys_distinct(self) -> bool {
        forall|i: int, j: int|
            0 <= i < j < self.messages.len() ==> (#[trigger] self.messages[i]).key != (
            #[trigger] self.messages[j]).key
    }

    /// The mailbox respects the capacity bound and its keys are distinct.
    pub open spec fn wf(self) -> bool {
        &&& self.messages.len() <= MAX_MESSAGES
        &&& self.keys_distinct()
    }

    /// The keys of the references, in order.
    pub open spec fn keys(self) -> Seq<u32> {
        Seq::new(self.messages.len(), |i: int| self.messages[i].key)
    }

    /// The mailbox after an unread message from `sender` arrived under `key`.
    pub open spec fn with_message(self, sender: u32, key: u32) -> MailboxView {
        MailboxView {
            owner: self.owner,
            messages: self.messages.push(MessageRef { unread: true, sender, key }),
        }
    }

    /// The mailbox after the reference at `index` was marked as read.
    pub open spec fn marked_read(self, index: int) -> MailboxView
        recommends
            0 <= index < self.messages.len(),
    {
        MailboxView {
            owner: self.owner,
            messages: self.messages.update(
                index,
                MessageRef {
                    unread: false,
                    sender: self.messages[index].sender,
                    key: self.messages[index].key,
                },
            ),
        }
    }

    /// The mailbox after the reference at `index` was taken out.
    pub open spec fn without(self, index: int) -> MailboxView
        recommends
            0 <= index < self.messages.len(),
    {
        MailboxView { owner: self.owner, messages: self.messages.remove(index) }
    }

    /// The mailbox of `owner` that the first `count` of `refs` make up when
    /// they are taken in one by one: a reference that would break the
    /// capacity bound, or whose key is already held, is left out.
    pub open spec fn from_refs(owner: u32, refs: Seq<MessageRef>, count: nat) -> MailboxView
        decreases count,
    {
        if count == 0 {
            MailboxView::empty(owner)
        } else {
            let before = MailboxView::from_refs(owner, refs, (count - 1) as nat);
            let next = refs[count - 1];
            if before.is_full() || before.has_key(next.key) {
                before
            } else {
                MailboxView { owner, messages: before.messages.push(next) }
            }
        }
    }

    /// The mailbox without the references that `keep` does not hold of; the
    /// others stay in their order.
    pub open spec fn only(self, keep: spec_fn(MessageRef) -> bool) -> MailboxView {
        MailboxView { owner: self.owner, messages: self.messages.filter(keep) }
    }

    /// The mailbox with the same owner and no references.
    pub open spec fn emptied(self) -> MailboxView {
        MailboxView::empty(self.owner)
    }
}

/// What a stored message body is: who sent it and what it says. Whether it
/// has been read is recorded in the reference alone.
pub struct MessageView {
    pub sender: u32,
    pub contents: Seq<char>,
}

/// What the record store holds: at most one mailbox record per owner, and
/// message bodies located by owner and key.
pub struct StoreView {
    pub mailboxes: Map<u32, MailboxView>,
    pub bodies: Map<(u32, u32), MessageView>,
}

impl StoreView {
    /// The store without any record.
    pub open spec fn empty() -> StoreView {
        StoreView { mailboxes: Map::empty(), bodies: Map::empty() }
    }

    /// The mailbox that loading `owner` yields: the record if there is one,
    /// an empty mailbox otherwise, and in both cases attributed to `owner`.
    pub open spec fn mailbox(self, owner: u32) -> MailboxView {
        if self.mailboxes.contains_key(owner) {
            MailboxView { owner, messages: self.mailboxes[owner].messages }
        } else {
            MailboxView::empty(owner)
        }
    }

    /// A body is stored for `owner` under `key`.
    pub open spec fn has_body(self, owner: u32, key: u32) -> bool {
        self.bodies.contains_key((owner, key))
    }

    /// The body stored for `owner` under `key`, if any.
    pub open spec fn body(self, owner: u32, key: u32) -> Option<MessageView> {
        if self.has_body(owner, key) {
            Some(self.bodies[(owner, key)])
        } else {
            None
        }
    }

    /// The store after `mailbox` overwrote the record of its owner.
    pub open spec fn with_mailbox(self, mailbox: MailboxView) -> StoreView {
        StoreView { mailboxes: self.mailboxes.insert(mailbox.owner, mailbox), bodies: self.bodies }
    }

    /// The store after `message` was written for `owner` under `key`.
    pub open spec fn with_body(self, owner: u32, key: u32, message: MessageView) -> StoreView {
        StoreView { mailboxes: self.mailboxes, bodies: self.bodies.insert((owner, key), message) }
    }

    /// The store after the body of `owner` under `key` was deleted.
    pub open spec fn without_body(self, owner: u32, key: u32) -> StoreView {
        StoreView { mailboxes: self.mailboxes, bodies: self.bodies.remove((owner, key)) }
    }

    /// The store after the bodies of `owner` under each of `keys` were
    /// deleted.
    pub open spec fn without_bodies(self, owner: u32, keys: Seq<u32>) -> StoreView {
        StoreView {
            mailboxes: self.mailboxes,
            bodies: Map::new(
                |at: (u32, u32)|
                    self.bodies.contains_key(at) && !(at.0 == owner && keys.contains(at.1)),
                |at: (u32, u32)| self.bodies[at],
            ),
        }
    }

    /// `key` can be given to a new message of `owner`: no body is stored
    /// under it and no reference of the mailbox carries it.
    pub open spec fn key_is_free(self, owner: u32, key: u32) -> bool {
        !self.has_body(owner, key) && !self.mailbox(owner).has_key(key)
    }

    /// The store after `contents` from `sender` was delivered to `owner`
    /// under `key`.
    pub open spec fn delivered(
        self,
        owner: u32,
        sender: u32,
        key: u32,
        contents: Seq<char>,
    ) -> StoreView {
        self.with_body(owner, key, MessageView { sender, contents }).with_mailbox(
            self.mailbox(owner).with_message(sender, key),
        )
    }

    /// The store after an attempt to send: the message is delivered if the
    /// recipient is known, the mailbox has room and `key` is free;
    /// otherwise nothing changes.
    pub open spec fn after_send(
        self,
        recipient: Option<u32>,
        sender: u32,
        key: u32,
        contents: Seq<char>,
    ) -> StoreView {
        match recipient {
            Some(owner) => if !self.mailbox(owner).is_full() && self.key_is_free(owner, key) {
                self.delivered(owner, sender, key, contents)
            } else {
                self
            },
            None => self,
        }
    }

    /// The store after `owner` opened the message at `index`.
    pub open spec fn opened(self, owner: u32, index: int) -> StoreView
        recommends
            0 <= index < self.mailbox(owner).messages.len(),
    {
        self.with_mailbox(self.mailbox(owner).marked_read(index))
    }

    /// The store after `owner` deleted the message at `index`.
    pub open spec fn removed(self, owner: u32, index: int) -> StoreView
        recommends
            0 <= index < self.mailbox(owner).messages.len(),
    {
        self.without_body(owner, self.mailbox(owner).messages[index].key).with_mailbox(
            self.mailbox(owner).without(index),
        )
    }

    /// The store after `owner` emptied the mailbox.
    pub open spec fn cleared(self, owner: u32) -> StoreView {
        self.without_bodies(owner, self.mailbox(owner).keys()).with_mailbox(
            self.mailbox(owner).emptied(),
        )
    }

    /// The store after the mailbox of `owner` was reconciled with the
    /// bodies: the references that have no body are dropped.
    pub open spec fn reconciled(self, owner: u32) -> StoreView {
        self.with_mailbox(
            self.mailbox(owner).only(|reference: MessageRef| self.has_body(owner, reference.key)),
        )
    }

    /// Every reference of every record resolves to a stored body.
    pub open spec fn no_dangling_refs(self) -> bool {
        forall|owner: u32, i: int|
            self.mailboxes.contains_key(owner) && 0 <= i < self.mailboxes[owner].messages.len()
                ==> self.has_body(owner, (#[trigger] self.mailboxes[owner].messages[i]).key)
    }

    /// Every stored body is referenced by the mailbox of its owner.
    pub open spec fn no_orphaned_bodies(self) -> bool {
        forall|owner: u32, key: u32| #[trigger]
            self.has_body(owner, key) ==> self.mailbox(owner).has_key(key)
    }

    /// The store would be consistent if `owner` had no reference without
    /// a body: the mailbox of `owner` respects the capacity bound and has
    /// distinct keys, every body has its reference, and the records of the
    /// other owners are in order.
    pub open spec fn consistent_but_for(self, owner: u32) -> bool {
        &&& self.mailbox(owner).wf()
        &&& self.no_orphaned_bodies()
        &&& forall|other: u32|
            other != owner && #[trigger] self.mailboxes.contains_key(other)
                ==> self.mailboxes[other].owner == other && self.mailboxes[other].wf()
        &&& forall|other: u32, i: int|
            other != owner && self.mailboxes.contains_key(other) && 0 <= i
                < self.mailboxes[other].messages.len() ==> self.has_body(
                other,
                (#[trigger] self.mailboxes[other].messages[i]).key,
            )
    }

    /// The invariants of the store: each record is filed under its owner,
    /// respects the capacity bound and has distinct keys; references and
    /// bodies correspond one to one.
    pub open spec fn consistent(self) -> bool {
        &&& forall|owner: u32| #[trigger]
            self.mailboxes.contains_key(owner) ==> self.mailboxes[owner].owner == owner
                && self.mailboxes[owner].wf()
        &&& self.no_dangling_refs()
        &&& self.no_orphaned_bodies()
    }
}

} // verus!
