//! Laws of the mailbox subsystem, proved over the model that the contracts
//! of the operations are stated in.

use vstd::prelude::*;
use crate::mail::model::{MailboxView, MessageRef, MessageView, StoreView, MAX_MESSAGES};

verus! {

/// One attempt to send a message, with the key that was tried for it.
pub struct SendAttempt {
    pub sender: u32,
    pub recipient: Option<u32>,
    pub key: u32,
    pub contents: Seq<char>,
}

/// The store after each of `attempts` was made in turn.
pub open spec fn after_sends(store: StoreView, attempts: Seq<SendAttempt>) -> StoreView
    decreases attempts.len(),
{
    if attempts.len() == 0 {
        store
    } else {
        let last = attempts.last();
        after_sends(store, attempts.drop_last()).after_send(
            last.recipient,
            last.sender,
            last.key,
            last.contents,
        )
    }
}

/// Round trip: a mailbox that was stored is the mailbox that loading its
/// owner gives back, and storing it touches no message body.
pub proof fn lemma_store_then_load(store: StoreView, mailbox: MailboxView)
    ensures
        store.with_mailbox(mailbox).mailbox(mailbox.owner) == mailbox,
        store.with_mailbox(mailbox).bodies == store.bodies,
        forall|owner: u32|
            owner != mailbox.owner ==> #[trigger] store.with_mailbox(mailbox).mailbox(owner)
                == store.mailbox(owner),
{
}

/// A store stays consistent when the records of one owner are rewritten so
/// that references and bodies correspond again, and nothing else changes.
proof fn lemma_rewritten_records(store: StoreView, after: StoreView, rewritten: MailboxView)
    requires
        store.consistent(),
        rewritten.wf(),
        after.mailboxes == store.mailboxes.insert(rewritten.owner, rewritten),
        forall|o: u32, k: u32|
            o != rewritten.owner ==> #[trigger] after.has_body(o, k) == store.has_body(o, k),
        forall|i: int|
            0 <= i < rewritten.messages.len() ==> after.has_body(
                rewritten.owner,
                (#[trigger] rewritten.messages[i]).key,
            ),
        forall|k: u32| #[trigger] after.has_body(rewritten.owner, k) ==> rewritten.has_key(k),
    ensures
        after.consistent(),
{
    assert forall|o: u32, k: u32| #[trigger] after.has_body(o, k) implies after.mailbox(o).has_key(
        k,
    ) by {
        if o != rewritten.owner {
            assert(store.has_body(o, k));
            let i = choose|i: int|
                0 <= i < store.mailbox(o).messages.len() && store.mailbox(o).messages[i].key == k;
            assert(after.mailbox(o).messages[i].key == k);
        }
    }
}

/// Storing a mailbox whose references all resolve keeps a consistent store
/// consistent: the mailbox respects the capacity bound, its keys are
/// distinct, each of its references has a body in the store, and the store
/// holds no other body for its owner.
pub proof fn lemma_storing_keeps_consistency(store: StoreView, mailbox: MailboxView)
    requires
        store.consistent(),
        mailbox.wf(),
        forall|i: int|
            0 <= i < mailbox.messages.len() ==> store.has_body(
                mailbox.owner,
                (#[trigger] mailbox.messages[i]).key,
            ),
        forall|key: u32| #[trigger] store.has_body(mailbox.owner, key) ==> mailbox.has_key(key),
    ensures
        store.with_mailbox(mailbox).consistent(),
{
    let after = store.with_mailbox(mailbox);
    assert forall|k: u32| #[trigger] after.has_body(mailbox.owner, k) implies mailbox.has_key(
        k,
    ) by {
        assert(store.has_body(mailbox.owner, k));
    }
    lemma_rewritten_records(store, after, mailbox);
}

/// In a consistent store no two references of one mailbox share a key, no
/// mailbox holds more than the capacity bound, and every reference has its
/// body.
pub proof fn lemma_consistent_mailboxes(store: StoreView, owner: u32)
    requires
        store.consistent(),
    ensures
        store.mailbox(owner).wf(),
        store.mailbox(owner).messages.len() <= MAX_MESSAGES,
        forall|i: int, j: int|
            0 <= i < j < store.mailbox(owner).messages.len() ==> (
            #[trigger] store.mailbox(owner).messages[i]).key != (#[trigger] store.mailbox(
                owner,
            ).messages[j]).key,
        forall|i: int|
            0 <= i < store.mailbox(owner).messages.len() ==> store.has_body(
                owner,
                (#[trigger] store.mailbox(owner).messages[i]).key,
            ),
{
}

/// A delivery into a mailbox with room, under a free key, keeps the store
/// consistent and adds exactly one unread reference at the end.
pub proof fn lemma_delivery_keeps_consistency(
    store: StoreView,
    owner: u32,
    sender: u32,
    key: u32,
    contents: Seq<char>,
)
    requires
        store.consistent(),
        !store.mailbox(owner).is_full(),
        store.key_is_free(owner, key),
    ensures
        store.delivered(owner, sender, key, contents).consistent(),
        store.delivered(owner, sender, key, contents).mailbox(owner).messages
            == store.mailbox(owner).messages.push(MessageRef { unread: true, sender, key }),
        store.delivered(owner, sender, key, contents).body(owner, key) == Some(
            MessageView { sender, contents },
        ),
{
    let after = store.delivered(owner, sender, key, contents);
    let before_box = store.mailbox(owner);
    let after_box = before_box.with_message(sender, key);
    lemma_consistent_mailboxes(store, owner);
    assert forall|k: u32| #[trigger] after.has_body(owner, k) implies after_box.has_key(k) by {
        if k == key {
            assert(after_box.messages[before_box.messages.len() as int].key == key);
        } else {
            assert(store.has_body(owner, k));
            let i = choose|i: int|
                0 <= i < before_box.messages.len() && before_box.messages[i].key == k;
            assert(after_box.messages[i].key == k);
        }
    }
    lemma_rewritten_records(store, after, after_box);
}

/// Capacity: an attempt to send keeps a consistent store consistent, so
/// that after any sequence of attempts no mailbox holds more than
/// the capacity bound and no two of its references share a key.
pub proof fn lemma_capacity_after_sends(store: StoreView, attempts: Seq<SendAttempt>, owner: u32)
    requires
        store.consistent(),
    ensures
        after_sends(store, attempts).consistent(),
        after_sends(store, attempts).mailbox(owner).messages.len() <= MAX_MESSAGES,
        after_sends(store, attempts).mailbox(owner).keys_distinct(),
    decreases attempts.len(),
{
    if attempts.len() > 0 {
        let last = attempts.last();
        let before = after_sends(store, attempts.drop_last());
        lemma_capacity_after_sends(store, attempts.drop_last(), owner);
        match last.recipient {
            Some(to) => {
                if !before.mailbox(to).is_full() && before.key_is_free(to, last.key) {
                    lemma_delivery_keeps_consistency(
                        before,
                        to,
                        last.sender,
                        last.key,
                        last.contents,
                    );
                }
            },
            None => {},
        }
    }
    lemma_consistent_mailboxes(after_sends(store, attempts), owner);
}

/// An attempt to send to a full mailbox leaves the store as it was,
/// whatever the key.
pub proof fn lemma_send_to_full_mailbox(
    store: StoreView,
    owner: u32,
    sender: u32,
    key: u32,
    contents: Seq<char>,
)
    requires
        store.mailbox(owner).is_full(),
    ensures
        store.after_send(Some(owner), sender, key, contents) == store,
{
}

/// Opening a message twice is opening it once: the second time the store
/// does not change, the body read is the same, and after the first time the
/// reference is no longer unread. Nothing else about the reference changes.
pub proof fn lemma_read_twice(store: StoreView, owner: u32, index: int)
    requires
        0 <= index < store.mailbox(owner).messages.len(),
    ensures
        store.opened(owner, index).opened(owner, index) == store.opened(owner, index),
        !store.opened(owner, index).mailbox(owner).messages[index].unread,
        store.opened(owner, index).mailbox(owner).messages[index].key == store.mailbox(
            owner,
        ).messages[index].key,
        store.opened(owner, index).mailbox(owner).messages[index].sender == store.mailbox(
            owner,
        ).messages[index].sender,
        store.opened(owner, index).bodies == store.bodies,
        store.opened(owner, index).body(
            owner,
            store.opened(owner, index).mailbox(owner).messages[index].key,
        ) == store.body(owner, store.mailbox(owner).messages[index].key),
{
    let once = store.opened(owner, index);
    let twice = once.opened(owner, index);
    assert(once.mailbox(owner).marked_read(index).messages =~= once.mailbox(owner).messages);
    assert(twice.mailboxes =~= once.mailboxes);
}

/// Opening a message keeps the store consistent.
pub proof fn lemma_opening_keeps_consistency(store: StoreView, owner: u32, index: int)
    requires
        store.consistent(),
        0 <= index < store.mailbox(owner).messages.len(),
    ensures
        store.opened(owner, index).consistent(),
{
    let after = store.opened(owner, index);
    let before_box = store.mailbox(owner);
    let after_box = before_box.marked_read(index);
    lemma_consistent_mailboxes(store, owner);
    assert forall|i: int| 0 <= i < after_box.messages.len() implies (
    #[trigger] after_box.messages[i]).key == before_box.messages[i].key by {}
    assert forall|k: u32| #[trigger] after.has_body(owner, k) implies after_box.has_key(k) by {
        assert(store.has_body(owner, k));
        let i = choose|i: int|
            0 <= i < before_box.messages.len() && before_box.messages[i].key == k;
        assert(after_box.messages[i].key == k);
    }
    lemma_rewritten_records(store, after, after_box);
}

/// Deleting one message keeps the store consistent, removes its body, and
/// leaves the other references in their order.
pub proof fn lemma_removal_keeps_consistency(store: StoreView, owner: u32, index: int)
    requires
        store.consistent(),
        0 <= index < store.mailbox(owner).messages.len(),
    ensures
        store.removed(owner, index).consistent(),
        !store.removed(owner, index).has_body(owner, store.mailbox(owner).messages[index].key),
        store.removed(owner, index).mailbox(owner).messages == store.mailbox(owner).messages.remove(
            index,
        ),
{
    let after = store.removed(owner, index);
    let before_box = store.mailbox(owner);
    let after_box = before_box.without(index);
    lemma_consistent_mailboxes(store, owner);
    assert forall|i: int| 0 <= i < after_box.messages.len() implies (
    #[trigger] after_box.messages[i]) == before_box.messages[if i < index {
        i
    } else {
        i + 1
    }] by {}
    assert forall|k: u32| #[trigger] after.has_body(owner, k) implies after_box.has_key(k) by {
        assert(store.has_body(owner, k));
        let i = choose|i: int|
            0 <= i < before_box.messages.len() && before_box.messages[i].key == k;
        let shifted = if i < index {
            i
        } else {
            i - 1
        };
        assert(after_box.messages[shifted].key == k);
    }
    lemma_rewritten_records(store, after, after_box);
}

/// Emptying a mailbox of a consistent store leaves the owner without
/// references and without any stored body, touches no other owner's
/// records, and keeps the store consistent.
pub proof fn lemma_clearing_leaves_nothing(store: StoreView, owner: u32)
    requires
        store.consistent(),
    ensures
        store.cleared(owner).consistent(),
        store.cleared(owner).mailbox(owner).messages.len() == 0,
        forall|key: u32| !#[trigger] store.cleared(owner).has_body(owner, key),
        forall|other: u32, key: u32|
            other != owner ==> #[trigger] store.cleared(owner).body(other, key) == store.body(
                other,
                key,
            ),
        forall|other: u32|
            other != owner ==> #[trigger] store.cleared(owner).mailbox(other) == store.mailbox(
                other,
            ),
{
    let after = store.cleared(owner);
    let before_box = store.mailbox(owner);
    assert forall|key: u32| !#[trigger] after.has_body(owner, key) by {
        if store.has_body(owner, key) {
            let i = choose|i: int|
                0 <= i < before_box.messages.len() && before_box.messages[i].key == key;
            assert(before_box.keys()[i] == key);
        }
    }
    lemma_rewritten_records(store, after, before_box.emptied());
}

/// Dropping references from a mailbox leaves what is kept in its order:
/// every reference kept was there before and is one to keep, every
/// reference to keep is still there, and a mailbox that respected the
/// capacity bound with distinct keys still does.
pub proof fn lemma_only_keeps_a_selection(mailbox: MailboxView, keep: spec_fn(MessageRef) -> bool)
    ensures
        mailbox.only(keep).owner == mailbox.owner,
        mailbox.only(keep).messages.len() <= mailbox.messages.len(),
        forall|i: int|
            0 <= i < mailbox.only(keep).messages.len() ==> keep(
                #[trigger] mailbox.only(keep).messages[i],
            ) && mailbox.messages.contains(mailbox.only(keep).messages[i]),
        forall|i: int|
            0 <= i < mailbox.messages.len() && keep(#[trigger] mailbox.messages[i])
                ==> mailbox.only(keep).messages.contains(mailbox.messages[i]),
        mailbox.keys_distinct() ==> mailbox.only(keep).keys_distinct(),
        mailbox.wf() ==> mailbox.only(keep).wf(),
        (forall|i: int| 0 <= i < mailbox.messages.len() ==> keep(#[trigger] mailbox.messages[i]))
            ==> mailbox.only(keep) == mailbox,
    decreases mailbox.messages.len(),
{
    reveal(Seq::filter);
    let kept = mailbox.only(keep);
    if mailbox.messages.len() > 0 {
        let last = mailbox.messages.last();
        let shorter = MailboxView { owner: mailbox.owner, messages: mailbox.messages.drop_last() };
        let kept_before = shorter.only(keep);
        lemma_only_keeps_a_selection(shorter, keep);
        assert forall|i: int| 0 <= i < kept.messages.len() implies keep(
            #[trigger] kept.messages[i],
        ) && mailbox.messages.contains(kept.messages[i]) by {
            if i < kept_before.messages.len() {
                assert(kept.messages[i] == kept_before.messages[i]);
                assert(shorter.messages.contains(kept_before.messages[i]));
                let j = choose|j: int|
                    0 <= j < shorter.messages.len() && shorter.messages[j] == kept.messages[i];
                assert(mailbox.messages[j] == kept.messages[i]);
            } else {
                assert(mailbox.messages[mailbox.messages.len() - 1] == kept.messages[i]);
            }
        }
        assert forall|i: int|
            0 <= i < mailbox.messages.len() && keep(
                #[trigger] mailbox.messages[i],
            ) implies kept.messages.contains(mailbox.messages[i]) by {
            if i < shorter.messages.len() {
                assert(shorter.messages[i] == mailbox.messages[i]);
                assert(kept_before.messages.contains(shorter.messages[i]));
                let j = choose|j: int|
                    0 <= j < kept_before.messages.len() && kept_before.messages[j]
                        == mailbox.messages[i];
                assert(kept.messages[j] == mailbox.messages[i]);
            } else {
                assert(kept.messages[kept.messages.len() - 1] == mailbox.messages[i]);
            }
        }
        if mailbox.keys_distinct() {
            assert(shorter.keys_distinct()) by {
                assert forall|i: int, j: int| 0 <= i < j < shorter.messages.len() implies (
                #[trigger] shorter.messages[i]).key != (#[trigger] shorter.messages[j]).key by {
                    assert(mailbox.messages[i].key != mailbox.messages[j].key);
                }
            }
            assert forall|i: int, j: int| 0 <= i < j < kept.messages.len() implies (
            #[trigger] kept.messages[i]).key != (#[trigger] kept.messages[j]).key by {
                if j < kept_before.messages.len() {
                    assert(kept_before.messages[i].key != kept_before.messages[j].key);
                } else {
                    assert(kept.messages[j] == last);
                    assert(shorter.messages.contains(kept_before.messages[i]));
                    let at = choose|at: int|
                        0 <= at < shorter.messages.len() && shorter.messages[at]
                            == kept_before.messages[i];
                    assert(mailbox.messages[at].key != mailbox.messages[mailbox.messages.len()
                        - 1].key);
                }
            }
        }
        if forall|i: int| 0 <= i < mailbox.messages.len() ==> keep(#[trigger] mailbox.messages[i]) {
            assert forall|i: int| 0 <= i < shorter.messages.len() implies keep(
                #[trigger] shorter.messages[i],
            ) by {
                assert(keep(mailbox.messages[i]));
            }
            assert(keep(mailbox.messages[mailbox.messages.len() - 1]));
            assert(kept.messages =~= mailbox.messages);
        }
    } else {
        assert(kept.messages =~= mailbox.messages);
    }
}

/// Reconciling the mailbox of an owner leaves no reference of it without
/// a body: the references kept are those that had a body, in their
/// order, and no body is touched. A mailbox whose references all resolve
/// stays as it is. Where nothing else was amiss, the store is consistent
/// afterwards.
pub proof fn lemma_reconciling_drops_dangling_refs(store: StoreView, owner: u32)
    ensures
        store.reconciled(owner).bodies == store.bodies,
        store.reconciled(owner).mailbox(owner).messages.len() <= store.mailbox(
            owner,
        ).messages.len(),
        forall|i: int|
            0 <= i < store.reconciled(owner).mailbox(owner).messages.len() ==> {
                let kept = #[trigger] store.reconciled(owner).mailbox(owner).messages[i];
                store.reconciled(owner).has_body(owner, kept.key) && store.mailbox(
                    owner,
                ).messages.contains(kept)
            },
        forall|i: int|
            0 <= i < store.mailbox(owner).messages.len() && store.has_body(
                owner,
                (#[trigger] store.mailbox(owner).messages[i]).key,
            ) ==> store.reconciled(owner).mailbox(owner).messages.contains(
                store.mailbox(owner).messages[i],
            ),
        store.mailbox(owner).wf() ==> store.reconciled(owner).mailbox(owner).wf(),
        (forall|i: int|
            0 <= i < store.mailbox(owner).messages.len() ==> store.has_body(
                owner,
                (#[trigger] store.mailbox(owner).messages[i]).key,
            )) ==> store.reconciled(owner).mailbox(owner) == store.mailbox(owner),
        store.consistent_but_for(owner) ==> store.reconciled(owner).consistent(),
{
    let keep = |reference: MessageRef| store.has_body(owner, reference.key);
    let before = store.mailbox(owner);
    let after = store.reconciled(owner);
    lemma_only_keeps_a_selection(before, keep);
    assert(after.mailbox(owner) == before.only(keep));
    if store.consistent_but_for(owner) {
        let kept = before.only(keep);
        assert forall|o: u32| #[trigger] after.mailboxes.contains_key(o) implies after.mailboxes[o].owner
            == o && after.mailboxes[o].wf() by {}
        assert forall|o: u32, k: u32| #[trigger] after.has_body(o, k) implies after.mailbox(
            o,
        ).has_key(k) by {
            assert(store.has_body(o, k));
            let i = choose|i: int|
                0 <= i < store.mailbox(o).messages.len() && store.mailbox(o).messages[i].key == k;
            if o == owner {
                assert(keep(before.messages[i]));
                assert(kept.messages.contains(before.messages[i]));
                let j = choose|j: int|
                    0 <= j < kept.messages.len() && kept.messages[j] == before.messages[i];
                assert(after.mailbox(o).messages[j].key == k);
            } else {
                assert(after.mailbox(o).messages[i].key == k);
            }
        }
    }
}

/// What is done to the mailbox of one owner leaves the records of every
/// other owner as they were, and no operation deletes a mailbox record.
pub proof fn lemma_other_owners_are_untouched(
    store: StoreView,
    owner: u32,
    other: u32,
    sender: u32,
    key: u32,
    contents: Seq<char>,
    index: int,
)
    requires
        other != owner,
    ensures
        ({
            let delivered = store.delivered(owner, sender, key, contents);
            let opened = store.opened(owner, index);
            let removed = store.removed(owner, index);
            let cleared = store.cleared(owner);
            &&& delivered.mailbox(other) == store.mailbox(other)
            &&& opened.mailbox(other) == store.mailbox(other)
            &&& removed.mailbox(other) == store.mailbox(other)
            &&& cleared.mailbox(other) == store.mailbox(other)
            &&& forall|k: u32| #[trigger] delivered.body(other, k) == store.body(other, k)
            &&& forall|k: u32| #[trigger] opened.body(other, k) == store.body(other, k)
            &&& forall|k: u32| #[trigger] removed.body(other, k) == store.body(other, k)
            &&& forall|k: u32| #[trigger] cleared.body(other, k) == store.body(other, k)
            &&& forall|o: u32| #[trigger]
                store.mailboxes.contains_key(o) ==> {
                    &&& delivered.mailboxes.contains_key(o)
                    &&& opened.mailboxes.contains_key(o)
                    &&& removed.mailboxes.contains_key(o)
                    &&& cleared.mailboxes.contains_key(o)
                }
        }),
{
}

/// The last place of a mailbox goes to one sender only: of two attempts
/// made one after the other on a mailbox with a single place left, each
/// under a key that is free, the first is delivered and the second leaves the
/// store as the first left it.
pub proof fn lemma_last_place_is_given_once(
    store: StoreView,
    owner: u32,
    first: SendAttempt,
    second: SendAttempt,
)
    requires
        store.mailbox(owner).messages.len() == MAX_MESSAGES - 1,
        first.recipient == Some(owner),
        second.recipient == Some(owner),
        store.key_is_free(owner, first.key),
    ensures
        ({
            let once = store.after_send(
                first.recipient,
                first.sender,
                first.key,
                first.contents,
            );
            let twice = once.after_send(
                second.recipient,
                second.sender,
                second.key,
                second.contents,
            );
            &&& once == store.delivered(owner, first.sender, first.key, first.contents)
            &&& once.mailbox(owner).messages.len() == MAX_MESSAGES
            &&& once.mailbox(owner).messages.last() == (MessageRef {
                unread: true,
                sender: first.sender,
                key: first.key,
            })
            &&& twice == once
        }),
{
}

} // verus!
