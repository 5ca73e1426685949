//! Allocation of message keys: zero first, then random draws until a key is
//! found under which nothing is stored.

use rand::rngs::ThreadRng;
use rand::Rng;
use vstd::prelude::*;
use crate::mail::message::Message;
use crate::mail::store::MailStore;

verus! {

/// How many random keys are tried before the search for a free one is given
/// up.
pub const MAX_KEY_DRAWS: usize = 64;

/// The thread-local generator of the `rand` crate. Nothing inside it is
/// visible to the proofs.
#[verifier::external_type_specification]
#[verifier::external_body]
pub struct ExThreadRng(ThreadRng);

/// `rand::thread_rng`: hands out the thread's generator. Nothing is claimed
/// of it.
#[verifier::external_body]
fn thread_rng() -> (rng: ThreadRng) {
    rand::thread_rng()
}

/// `Rng::gen::<u32>` on the thread's generator: a draw of 32 bits. Nothing is
/// claimed of the value, nor that two draws differ.
#[verifier::external_body]
fn draw_key(rng: &mut ThreadRng) -> (key: u32) {
    rng.gen::<u32>()
}

impl Message {
    /// Looks for a key under which `owner` has no body stored. Key zero is
    /// tried first, then up to [`MAX_KEY_DRAWS`] random keys; `None` means
    /// that every one of them was taken.
    pub fn unique_message_name(&self, owner: u32, store: &MailStore) -> (name: Option<u32>)
        ensures
            name matches Some(key) ==> !store@.has_body(owner, key),
            !store@.has_body(owner, 0) ==> name == Some(0u32),
    {
        let mut name: u32 = 0;
        let mut draws: usize = 0;
        let mut rng = thread_rng();
        while store.message_exists(owner, name)
            invariant
                draws <= MAX_KEY_DRAWS,
                !store@.has_body(owner, 0) ==> name == 0,
            decreases MAX_KEY_DRAWS - draws,
        {
            if draws >= MAX_KEY_DRAWS {
                return None;
            }
            name = draw_key(&mut rng);
            draws += 1;
        }
        Some(name)
    }
}

} // verus!
