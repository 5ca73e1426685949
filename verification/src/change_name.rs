//! The `!rename` command: a user asks for a new nickname.

use vstd::prelude::*;
use vstd::string::*;
use crate::pattern::{is_match, match_of};
use crate::text::starts_with;

verus! {

/// What a rename command begins with.
pub const KEYWORD: &'static str = "!rename ";

/// What a nickname must look like: one to twenty-five word characters or
/// signs out of a short list.
pub const NAME_REGEX: &'static str = r"^[\w@\{\}\(\)\|\._-]{1,25}$";

/// The reply to a nickname that is not accepted.
pub const INVALID_NICKNAME_MESSAGE: &'static str =
    "<b><span style=\"color:#aa0000\">Invalid Nickname</span></b>";

/// What is to be done about a chat text.
#[derive(Debug, PartialEq, Eq)]
pub enum Rename {
    /// The text is no rename command, or nicknames cannot be judged; other
    /// filters may look at it.
    Pass,
    /// The user is to be registered under `name`.
    Accept { name: String },
    /// The nickname asked for is invalid; the user is told so.
    Reject,
}

/// A decision with the nickname as a sequence of characters.
pub enum RenameView {
    Pass,
    Accept { name: Seq<char> },
    Reject,
}

impl View for Rename {
    type V = RenameView;

    open spec fn view(&self) -> RenameView {
        match self {
            Rename::Pass => RenameView::Pass,
            Rename::Accept { name } => RenameView::Accept { name: name@ },
            Rename::Reject => RenameView::Reject,
        }
    }
}

/// The nickname that a rename command asks for: what follows the keyword.
pub open spec fn wanted_name(text: Seq<char>) -> Seq<char> {
    text.skip(KEYWORD@.len() as int)
}

/// The decision on a nickname, given what matching it against the rule for
/// nicknames gave.
pub open spec fn judged(name: Seq<char>, matched: Option<bool>) -> RenameView {
    match matched {
        None => RenameView::Pass,
        Some(true) => RenameView::Accept { name },
        Some(false) => RenameView::Reject,
    }
}

/// The decision on a chat text.
pub open spec fn rename_of(text: Seq<char>) -> RenameView {
    if KEYWORD@.is_prefix_of(text) {
        judged(wanted_name(text), match_of(NAME_REGEX@, wanted_name(text)))
    } else {
        RenameView::Pass
    }
}

/// Decides on the nickname `name`, given what matching it against the rule
/// for nicknames gave: accepted on a match, rejected without one, and
/// passed over where the rule itself could not be read.
pub fn judge(name: &str, matched: Option<bool>) -> (decision: Rename)
    ensures
        decision@ == judged(name@, matched),
{
    match matched {
        None => Rename::Pass,
        Some(true) => Rename::Accept { name: name.to_owned() },
        Some(false) => Rename::Reject,
    }
}

/// Reads a chat text as a rename command and decides on the nickname it
/// asks for.
pub fn change_name(text: &str) -> (decision: Rename)
    ensures
        decision@ == rename_of(text@),
{
    if !starts_with(text, KEYWORD) {
        return Rename::Pass;
    }
    let keyword_length: usize = KEYWORD.unicode_len();
    let name = text.substring_char(keyword_length, text.unicode_len());
    judge(name, is_match(NAME_REGEX, name))
}

/// The reply to a nickname that is not accepted.
pub fn invalid_nickname() -> (reply: String)
    ensures
        reply@ == INVALID_NICKNAME_MESSAGE@,
{
    String::from_str(INVALID_NICKNAME_MESSAGE)
}

} // verus!
