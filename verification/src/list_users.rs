//! The `!users` command: the registered user names are listed.

use vstd::prelude::*;
use vstd::string::*;
use crate::text::{same_text, trim, trimmed};

verus! {

/// The names in the first `count` places of `names`, each followed by a
/// line break.
pub open spec fn names_text(names: Seq<String>, count: nat) -> Seq<char>
    decreases count,
{
    if count == 0 {
        Seq::empty()
    } else {
        names_text(names, (count - 1) as nat) + names[count - 1]@ + "<br/>"@
    }
}

/// The listing of the registered names: a heading, then one name to a line.
pub open spec fn user_list_text(names: Seq<String>) -> Seq<char> {
    "<b>Registered usernames:</b><br/>"@ + names_text(names, names.len())
}

/// Whether a chat text asks for the list of users: trimmed, it is `!users`.
pub fn list_users(text: &str) -> (asked: bool)
    ensures
        asked == (trim(text@) == "!users"@),
{
    same_text(trimmed(text), "!users")
}

/// The listing of the registered names.
pub fn user_list(names: &Vec<String>) -> (reply: String)
    ensures
        reply@ == user_list_text(names@),
{
    let mut reply = String::from_str("<b>Registered usernames:</b><br/>");
    let ghost heading = reply@;
    let mut i: usize = 0;
    while i < names.len()
        invariant
            i <= names.len(),
            reply@ == heading + names_text(names@, i as nat),
        decreases names.len() - i,
    {
        reply.append(names[i].as_str());
        reply.append("<br/>");
        i += 1;
    }
    reply
}

} // verus!
