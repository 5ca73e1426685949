//! What an operation changed in the store, told record by record, for a
//! handler that keeps the records somewhere else. The changes come in an
//! order that is safe to stop in: a copy that took over only the first few
//! of them has no reference without a body.

use vstd::prelude::*;
use crate::mail::engine::{DeleteOutcome, SendOutcome};
use crate::mail::laws::{
    lemma_clearing_leaves_nothing, lemma_consistent_mailboxes, lemma_delivery_keeps_consistency,
    lemma_opening_keeps_consistency, lemma_removal_keeps_consistency,
};
use crate::mail::message::Message;
use crate::mail::model::StoreView;
use crate::mail::store::{load_mailbox, store_mailbox, MailStore};

verus! {

/// One record that changed.
#[derive(Clone, Copy, Debug, PartialEq, Eq, Structural)]
pub enum Change {
    /// The body of `owner` under `key` is to be written as the store holds
    /// it.
    WriteBody { owner: u32, key: u32 },
    /// The mailbox of `owner` is to be written as the store holds it.
    WriteMailbox { owner: u32 },
    /// The body of `owner` under `key` is to be removed.
    RemoveBody { owner: u32, key: u32 },
}

impl StoreView {
    /// This copy of the records after it took over `change` from `source`.
    pub open spec fn following(self, source: StoreView, change: Change) -> StoreView {
        match change {
            Change::WriteBody { owner, key } => if source.has_body(owner, key) {
                self.with_body(owner, key, source.bodies[(owner, key)])
            } else {
                self.without_body(owner, key)
            },
            Change::WriteMailbox { owner } => self.with_mailbox(source.mailbox(owner)),
            Change::RemoveBody { owner, key } => self.without_body(owner, key),
        }
    }

    /// This copy of the records after it took over the first `count` of
    /// `changes` from `source`, one after the other.
    pub open spec fn following_all(
        self,
        source: StoreView,
        changes: Seq<Change>,
        count: nat,
    ) -> StoreView
        decreases count,
    {
        if count == 0 {
            self
        } else {
            self.following_all(source, changes, (count - 1) as nat).following(
                source,
                changes[count - 1],
            )
        }
    }

    /// `changes` carry this store over to `after`: a copy that takes over
    /// all of them is `after`, and where this store is consistent, a copy
    /// that takes over only the first few of them is safe.
    pub open spec fn reaches(self, after: StoreView, changes: Seq<Change>) -> bool {
        &&& self.following_all(after, changes, changes.len()) == after
        &&& self.consistent() ==> forall|count: nat|
            count <= changes.len() ==> (#[trigger] self.following_all(after, changes, count)).safe()
    }

    /// Every record is filed under its owner, respects the capacity bound
    /// and has distinct keys, and every reference has its body. A body
    /// without reference may be left over.
    pub open spec fn safe(self) -> bool {
        &&& forall|owner: u32| #[trigger]
            self.mailboxes.contains_key(owner) ==> self.mailboxes[owner].owner == owner
                && self.mailboxes[owner].wf()
        &&& self.no_dangling_refs()
    }
}

/// The changes that a delivery makes: the body first, then the mailbox.
pub open spec fn changes_of_send(outcome: SendOutcome, recipient: Option<u32>) -> Seq<Change> {
    match (outcome, recipient) {
        (SendOutcome::Delivered { key }, Some(owner)) => seq![
            Change::WriteBody { owner, key },
            Change::WriteMailbox { owner },
        ],
        _ => Seq::empty(),
    }
}

/// The change that opening a message makes: the mailbox, where a message
/// was opened.
pub open spec fn changes_of_read(opened: bool, owner: u32) -> Seq<Change> {
    if opened {
        seq![Change::WriteMailbox { owner }]
    } else {
        Seq::empty()
    }
}

/// The changes that deleting the bodies under `keys` makes: the mailbox
/// first, then the bodies in the order of the keys.
pub open spec fn changes_of_removal(owner: u32, keys: Seq<u32>) -> Seq<Change> {
    seq![Change::WriteMailbox { owner }] + Seq::new(
        keys.len(),
        |i: int| Change::RemoveBody { owner, key: keys[i] },
    )
}

/// The changes that a delete command makes.
pub open spec fn changes_of_delete(outcome: DeleteOutcome, owner: u32) -> Seq<Change> {
    match outcome {
        DeleteOutcome::NoSuchMessage => Seq::empty(),
        DeleteOutcome::Deleted { key } => changes_of_removal(owner, seq![key]),
        DeleteOutcome::Emptied { keys } => changes_of_removal(owner, keys@),
    }
}

impl SendOutcome {
    /// The records that the attempt to send to `recipient` changed.
    pub fn changes(&self, recipient: Option<u32>) -> (changes: Vec<Change>)
        ensures
            changes@ == changes_of_send(*self, recipient),
    {
        let mut changes: Vec<Change> = Vec::new();
        match (self, recipient) {
            (SendOutcome::Delivered { key }, Some(owner)) => {
                changes.push(Change::WriteBody { owner, key: *key });
                changes.push(Change::WriteMailbox { owner });
            },
            _ => {},
        }
        assert(changes@ =~= changes_of_send(*self, recipient));
        changes
    }
}

/// The records that opening a message of `owner` changed; `opened` is what
/// the attempt returned.
pub fn read_changes(opened: &Option<Message>, owner: u32) -> (changes: Vec<Change>)
    ensures
        changes@ == changes_of_read(opened.is_some(), owner),
{
    let mut changes: Vec<Change> = Vec::new();
    if opened.is_some() {
        changes.push(Change::WriteMailbox { owner });
    }
    assert(changes@ =~= changes_of_read(opened.is_some(), owner));
    changes
}

impl DeleteOutcome {
    /// The records of `owner` that the delete command changed.
    pub fn changes(&self, owner: u32) -> (changes: Vec<Change>)
        ensures
            changes@ == changes_of_delete(*self, owner),
    {
        let mut changes: Vec<Change> = Vec::new();
        match self {
            DeleteOutcome::NoSuchMessage => {},
            DeleteOutcome::Deleted { key } => {
                changes.push(Change::WriteMailbox { owner });
                changes.push(Change::RemoveBody { owner, key: *key });
            },
            DeleteOutcome::Emptied { keys } => {
                changes.push(Change::WriteMailbox { owner });
                let mut i: usize = 0;
                while i < keys.len()
                    invariant
                        i <= keys.len(),
                        changes@ == changes_of_removal(owner, keys@.take(i as int)),
                    decreases keys.len() - i,
                {
                    changes.push(Change::RemoveBody { owner, key: keys[i] });
                    assert(changes@ =~= changes_of_removal(owner, keys@.take(i + 1)));
                    i += 1;
                }
                assert(keys@.take(keys@.len() as int) =~= keys@);
            },
        }
        assert(changes@ =~= changes_of_delete(*self, owner));
        changes
    }
}

/// Lets `copy` take over `change` from `source`: the record that the
/// change names is written to the copy as the source holds it, or removed
/// from it.
pub fn follow(copy: &mut MailStore, source: &MailStore, change: Change)
    ensures
        final(copy)@ == old(copy)@.following(source@, change),
{
    match change {
        Change::WriteBody { owner, key } => match source.load_message(owner, key) {
            Some(message) => copy.store_message(owner, key, message),
            None => copy.delete_message(owner, key),
        },
        Change::WriteMailbox { owner } => {
            let mailbox = load_mailbox(owner, source);
            store_mailbox(&mailbox, copy);
        },
        Change::RemoveBody { owner, key } => copy.delete_message(owner, key),
    }
}

/// A delivery, told as changes: a copy of the store that takes over both
/// changes is the store after the delivery. Where the store was consistent
/// and the delivery in order, a copy that takes over only the first has no
/// reference without a body.
pub proof fn lemma_changes_of_delivery(
    store: StoreView,
    owner: u32,
    sender: u32,
    key: u32,
    contents: Seq<char>,
)
    ensures
        ({
            let after = store.delivered(owner, sender, key, contents);
            let changes = changes_of_send(SendOutcome::Delivered { key }, Some(owner));
            !store.mailbox(owner).is_full() && store.key_is_free(owner, key) ==> store.reaches(
                after,
                changes,
            )
        }),
{
    let after = store.delivered(owner, sender, key, contents);
    let changes = changes_of_send(SendOutcome::Delivered { key }, Some(owner));
    reveal_with_fuel(StoreView::following_all, 3);
    assert(store.following_all(after, changes, 2).mailboxes =~= after.mailboxes);
    assert(store.following_all(after, changes, 2).bodies =~= after.bodies);
    if store.consistent() && !store.mailbox(owner).is_full() && store.key_is_free(owner, key) {
        lemma_delivery_keeps_consistency(store, owner, sender, key, contents);
    }
}

/// Opening a message, told as a change: a copy of the store that takes it
/// over is the store after the opening.
pub proof fn lemma_changes_of_opening(store: StoreView, owner: u32, index: int)
    requires
        0 <= index < store.mailbox(owner).messages.len(),
    ensures
        ({
            let after = store.opened(owner, index);
            let changes = changes_of_read(true, owner);
            store.reaches(after, changes)
        }),
{
    let after = store.opened(owner, index);
    reveal_with_fuel(StoreView::following_all, 2);
    assert(store.following_all(after, changes_of_read(true, owner), 1).mailboxes
        =~= after.mailboxes);
    if store.consistent() {
        lemma_opening_keeps_consistency(store, owner, index);
    }
}

/// A copy that took over the new mailbox of `owner` and the removal of the
/// first `count` of the bodies under `keys`.
proof fn lemma_removal_step_by_step(
    store: StoreView,
    after: StoreView,
    owner: u32,
    keys: Seq<u32>,
    count: nat,
)
    requires
        count <= keys.len(),
    ensures
        store.following_all(after, changes_of_removal(owner, keys), count + 1)
            == store.with_mailbox(after.mailbox(owner)).without_bodies(
            owner,
            keys.take(count as int),
        ),
    decreases count,
{
    let changes = changes_of_removal(owner, keys);
    reveal_with_fuel(StoreView::following_all, 2);
    if count == 0 {
        let first = store.following_all(after, changes, 1);
        let stated = store.with_mailbox(after.mailbox(owner)).without_bodies(owner, keys.take(0));
        assert(first.bodies =~= stated.bodies);
    } else {
        lemma_removal_step_by_step(store, after, owner, keys, (count - 1) as nat);
        let next = store.following_all(after, changes, count + 1);
        let shorter = keys.take(count - 1);
        let stated = store.with_mailbox(after.mailbox(owner)).without_bodies(
            owner,
            keys.take(count as int),
        );
        assert(changes[count as int] == Change::RemoveBody { owner, key: keys[count - 1] });
        assert forall|key: u32|
            keys.take(count as int).contains(key) <==> (shorter.contains(key) || key == keys[count
                - 1]) by {
            if shorter.contains(key) {
                let j = choose|j: int| 0 <= j < shorter.len() && shorter[j] == key;
                assert(keys.take(count as int)[j] == key);
            }
            if key == keys[count - 1] {
                assert(keys.take(count as int)[count - 1] == key);
            }
        }
        assert(next.bodies =~= stated.bodies);
    }
}

/// Deleting one message, told as changes: a copy of the store that takes
/// over both changes is the store after the deletion. Where the store was
/// consistent, a copy that takes over only the first has no reference
/// without a body.
pub proof fn lemma_changes_of_deletion(store: StoreView, owner: u32, index: int)
    requires
        0 <= index < store.mailbox(owner).messages.len(),
    ensures
        ({
            let after = store.removed(owner, index);
            let key = store.mailbox(owner).messages[index].key;
            let changes = changes_of_delete(DeleteOutcome::Deleted { key }, owner);
            store.reaches(after, changes)
        }),
{
    let after = store.removed(owner, index);
    let key = store.mailbox(owner).messages[index].key;
    let keys = seq![key];
    let changes = changes_of_removal(owner, keys);
    lemma_removal_step_by_step(store, after, owner, keys, 0);
    lemma_removal_step_by_step(store, after, owner, keys, 1);
    let halfway = store.with_mailbox(after.mailbox(owner));
    assert(halfway.without_bodies(owner, keys.take(0)).bodies =~= halfway.bodies);
    assert(halfway.without_bodies(owner, keys.take(1)).bodies =~= after.bodies) by {
        assert(keys.take(1) =~= keys);
        assert forall|k: u32| keys.contains(k) <==> k == key by {
            if k == key {
                assert(keys[0] == k);
            }
        }
    }
    assert(halfway.mailboxes =~= after.mailboxes);
    if store.consistent() {
        lemma_removal_keeps_consistency(store, owner, index);
        lemma_consistent_mailboxes(store, owner);
        assert(halfway.safe()) by {
            let shorter = after.mailbox(owner);
            assert forall|o: u32, i: int|
                halfway.mailboxes.contains_key(o) && 0 <= i < halfway.mailboxes[o].messages.len()
                    implies halfway.has_body(
                o,
                (#[trigger] halfway.mailboxes[o].messages[i]).key,
            ) by {
                if o == owner {
                    let from = if i < index {
                        i
                    } else {
                        i + 1
                    };
                    assert(shorter.messages[i] == store.mailbox(owner).messages[from]);
                }
            }
        }
        assert forall|count: nat| count <= 2 implies (#[trigger] store.following_all(
            after,
            changes,
            count,
        )).safe() by {
            reveal_with_fuel(StoreView::following_all, 2);
            if count == 1 {
                assert(store.following_all(after, changes, 1) == halfway.without_bodies(
                    owner,
                    keys.take(0),
                ));
                assert(store.following_all(after, changes, 1).mailboxes == halfway.mailboxes);
            }
        }
    }
}

/// Emptying a mailbox, told as changes: a copy of the store that takes
/// over all the changes is the store after the emptying. Where the store
/// was consistent, a copy that takes over only the first few has no
/// reference without a body.
pub proof fn lemma_changes_of_clearing(store: StoreView, owner: u32)
    ensures
        ({
            let after = store.cleared(owner);
            let keys = store.mailbox(owner).keys();
            let changes = changes_of_removal(owner, keys);
            store.reaches(after, changes)
        }),
{
    let after = store.cleared(owner);
    let keys = store.mailbox(owner).keys();
    let changes = changes_of_removal(owner, keys);
    let emptied = store.with_mailbox(after.mailbox(owner));
    lemma_removal_step_by_step(store, after, owner, keys, keys.len());
    assert(keys.take(keys.len() as int) =~= keys);
    assert(emptied.mailboxes =~= after.mailboxes);
    assert(emptied.without_bodies(owner, keys).bodies =~= after.bodies);
    if store.consistent() {
        lemma_clearing_leaves_nothing(store, owner);
        assert forall|count: nat| count <= changes.len() implies (#[trigger] store.following_all(
            after,
            changes,
            count,
        )).safe() by {
            if count > 0 {
                lemma_removal_step_by_step(store, after, owner, keys, (count - 1) as nat);
                let partly = emptied.without_bodies(owner, keys.take(count - 1));
                assert forall|o: u32, i: int|
                    partly.mailboxes.contains_key(o) && 0 <= i < partly.mailboxes[o].messages.len()
                        implies partly.has_body(
                    o,
                    (#[trigger] partly.mailboxes[o].messages[i]).key,
                ) by {
                    if o != owner {
                        assert(store.has_body(o, store.mailboxes[o].messages[i].key));
                    }
                }
            }
        }
    }
}

} // verus!
