//! Where the records are kept: one directory per owner, with the mailbox
//! record and one file per message body. The paths are relative to the
//! directory of the server.

use vstd::prelude::*;
use vstd::string::*;
use crate::text::{
    decimal, lemma_decimal_is_injective, lemma_decimal_reads_back,
    lemma_digits_end_at_other_text, push_decimal,
};

verus! {

/// Path of the mailbox record of `owner`.
pub open spec fn mailbox_path_text(owner: u32) -> Seq<char> {
    "mailboxes/"@ + decimal(owner as nat) + "/mailbox.toml"@
}

/// Path of the body that `owner` holds under `name`.
pub open spec fn message_path_text(owner: u32, name: u32) -> Seq<char> {
    "mailboxes/"@ + decimal(owner as nat) + "/message_"@ + decimal(name as nat) + ".toml"@
}

/// Path of the mailbox record of `owner`.
pub fn mailbox_path(owner: u32) -> (path: String)
    ensures
        path@ == mailbox_path_text(owner),
{
    let mut path = String::from_str("mailboxes/");
    push_decimal(&mut path, owner as u64);
    path.append("/mailbox.toml");
    path
}

/// Path of the body that `owner` holds under `name`.
pub fn message_path(owner: u32, name: u32) -> (path: String)
    ensures
        path@ == message_path_text(owner, name),
{
    let mut path = String::from_str("mailboxes/");
    push_decimal(&mut path, owner as u64);
    path.append("/message_");
    push_decimal(&mut path, name as u64);
    path.append(".toml");
    path
}

/// No two records share a file: the paths of two message bodies are the
/// same only for the same owner and key, those of two mailbox records only
/// for the same owner, and no message body has the path of a mailbox
/// record.
pub proof fn lemma_records_have_files_of_their_own(
    owner: u32,
    name: u32,
    other_owner: u32,
    other_name: u32,
)
    ensures
        message_path_text(owner, name) == message_path_text(other_owner, other_name) ==> owner
            == other_owner && name == other_name,
        mailbox_path_text(owner) == mailbox_path_text(other_owner) ==> owner == other_owner,
        message_path_text(owner, name) != mailbox_path_text(other_owner),
{
    reveal_strlit("/message_");
    reveal_strlit(".toml");
    reveal_strlit("/mailbox.toml");
    let root = "mailboxes/"@;
    let owner_digits = decimal(owner as nat);
    let other_owner_digits = decimal(other_owner as nat);
    let name_digits = decimal(name as nat);
    let other_name_digits = decimal(other_name as nat);
    lemma_decimal_reads_back(owner as nat);
    lemma_decimal_reads_back(other_owner as nat);
    lemma_decimal_reads_back(name as nat);
    lemma_decimal_reads_back(other_name as nat);
    let message_rest = "/message_"@ + (name_digits + ".toml"@);
    let other_message_rest = "/message_"@ + (other_name_digits + ".toml"@);
    let mailbox_rest = "/mailbox.toml"@;
    assert(message_path_text(owner, name) =~= root + (owner_digits + message_rest));
    assert(message_path_text(other_owner, other_name) =~= root + (other_owner_digits
        + other_message_rest));
    assert(mailbox_path_text(owner) =~= root + (owner_digits + mailbox_rest));
    assert(mailbox_path_text(other_owner) =~= root + (other_owner_digits + mailbox_rest));
    if message_path_text(owner, name) == message_path_text(other_owner, other_name) {
        assert(owner_digits + message_rest =~= (root + (owner_digits + message_rest)).skip(
            root.len() as int,
        ));
        assert(other_owner_digits + other_message_rest =~= (root + (other_owner_digits
            + other_message_rest)).skip(root.len() as int));
        lemma_digits_end_at_other_text(
            owner_digits,
            message_rest,
            other_owner_digits,
            other_message_rest,
        );
        lemma_decimal_is_injective(owner as nat, other_owner as nat);
        assert(name_digits + ".toml"@ =~= message_rest.skip("/message_"@.len() as int));
        assert(other_name_digits + ".toml"@ =~= other_message_rest.skip(
            "/message_"@.len() as int,
        ));
        lemma_digits_end_at_other_text(
            name_digits,
            ".toml"@,
            other_name_digits,
            ".toml"@,
        );
        lemma_decimal_is_injective(name as nat, other_name as nat);
    }
    if mailbox_path_text(owner) == mailbox_path_text(other_owner) {
        assert(owner_digits + mailbox_rest =~= (root + (owner_digits + mailbox_rest)).skip(
            root.len() as int,
        ));
        assert(other_owner_digits + mailbox_rest =~= (root + (other_owner_digits
            + mailbox_rest)).skip(root.len() as int));
        lemma_digits_end_at_other_text(
            owner_digits,
            mailbox_rest,
            other_owner_digits,
            mailbox_rest,
        );
        lemma_decimal_is_injective(owner as nat, other_owner as nat);
    }
    if message_path_text(owner, name) == mailbox_path_text(other_owner) {
        assert(owner_digits + message_rest =~= (root + (owner_digits + message_rest)).skip(
            root.len() as int,
        ));
        assert(other_owner_digits + mailbox_rest =~= (root + (other_owner_digits
            + mailbox_rest)).skip(root.len() as int));
        lemma_digits_end_at_other_text(
            owner_digits,
            message_rest,
            other_owner_digits,
            mailbox_rest,
        );
    }
}

} // verus!
