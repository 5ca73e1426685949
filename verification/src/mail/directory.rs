//! What the mailbox subsystem takes from the user directory.

use vstd::prelude::*;

verus! {

/// The id that a name resolves to, given the ids of the registered users
/// that a query for the name found: the first of them, and nobody where the
/// query found none.
pub fn user_id_from_name(found: &Vec<u32>) -> (id: Option<u32>)
    ensures
        found@.len() > 0 ==> id == Some(found@[0]),
        found@.len() == 0 ==> id.is_none(),
{
    if found.len() > 0 {
        Some(found[0])
    } else {
        None
    }
}

} // verus!
