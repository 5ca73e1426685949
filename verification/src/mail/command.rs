//! The command router: reads a chat text as a `!mail` command.

use vstd::prelude::*;
use vstd::string::*;
use crate::text::{
    after_first_word, decimal, find_space, first_word, is_blank, is_digit, is_number,
    lemma_decimal_reads_back, lemma_find_space_stops, lemma_skip_blanks_back_stops,
    lemma_skip_blanks_stops, number_value, parse_index, same_text, split_word, starts_with,
    trim, trim_end, trim_start, trimmed, trimmed_start,
};

verus! {

/// What a chat text asks of the mailbox subsystem.
#[derive(Debug, PartialEq, Eq)]
pub enum Command {
    /// The text is no mail command; other filters may look at it.
    NotMail,
    /// `!mail` alone: the usage help is wanted.
    Usage,
    /// `!mail send <name> <text>`.
    Send { recipient: String, body: String },
    /// `!mail read`: the listing of the whole mailbox.
    ReadAll,
    /// `!mail read <n>`.
    Read { index: usize },
    /// `!mail delete`: empty the mailbox.
    ClearAll,
    /// `!mail delete <n>`.
    Delete { index: usize },
    /// `read` or `delete` with an argument that is no message number.
    BadIndex,
    /// A mail command that names no known operation; it is swallowed
    /// without a reply.
    Unrecognized,
}

/// A command with its texts as sequences of characters.
pub enum CommandView {
    NotMail,
    Usage,
    Send { recipient: Seq<char>, body: Seq<char> },
    ReadAll,
    Read { index: usize },
    ClearAll,
    Delete { index: usize },
    BadIndex,
    Unrecognized,
}

impl View for Command {
    type V = CommandView;

    open spec fn view(&self) -> CommandView {
        match self {
            Command::NotMail => CommandView::NotMail,
            Command::Usage => CommandView::Usage,
            Command::Send { recipient, body } => CommandView::Send {
                recipient: recipient@,
                body: body@,
            },
            Command::ReadAll => CommandView::ReadAll,
            Command::Read { index } => CommandView::Read { index: *index },
            Command::ClearAll => CommandView::ClearAll,
            Command::Delete { index } => CommandView::Delete { index: *index },
            Command::BadIndex => CommandView::BadIndex,
            Command::Unrecognized => CommandView::Unrecognized,
        }
    }
}

impl Command {
    /// Whether the text was a mail command. Such a text is consumed: it is
    /// kept from the chat and from other filters, whatever became of the
    /// command.
    pub open spec fn is_consumed(self) -> bool {
        !(self is NotMail)
    }

    /// Whether the text is consumed.
    pub fn consumed(&self) -> (consumed: bool)
        ensures
            consumed == self.is_consumed(),
    {
        match self {
            Command::NotMail => false,
            _ => true,
        }
    }
}

/// The argument of `read` and `delete`.
#[derive(Clone, Copy, Debug, PartialEq, Eq, Structural)]
pub enum IndexArgument {
    /// Nothing but blanks follows the operation.
    Absent,
    /// A message number follows.
    At(usize),
    /// Something follows that is no message number.
    Malformed,
}

/// Reads what follows `read` or `delete`: trimmed, it is empty, or digits
/// that spell a number within `usize`, or malformed.
pub open spec fn index_argument(rest: Seq<char>) -> IndexArgument {
    let argument = trim(rest);
    if argument.len() == 0 {
        IndexArgument::Absent
    } else if is_number(argument) && number_value(argument) <= usize::MAX {
        IndexArgument::At(number_value(argument) as usize)
    } else {
        IndexArgument::Malformed
    }
}

/// Reads what follows `send`: after leading blanks, the recipient's name up
/// to the first space, then the message, trimmed. Without that space there
/// is no command.
pub open spec fn send_command(rest: Seq<char>) -> CommandView {
    let named = trim_start(rest);
    if find_space(named, 0) >= named.len() {
        CommandView::Unrecognized
    } else {
        CommandView::Send { recipient: first_word(named), body: trim(after_first_word(named)) }
    }
}

/// The command that `text` spells. A mail command begins with `!mail`; its
/// words are separated by single spaces, the second word names the
/// operation, and what follows that word is the operation's argument.
pub open spec fn command_of(text: Seq<char>) -> CommandView {
    if !"!mail"@.is_prefix_of(text) {
        CommandView::NotMail
    } else if find_space(text, 0) >= text.len() {
        CommandView::Usage
    } else {
        let tail = after_first_word(text).skip(1);
        let operation = first_word(tail);
        let rest = after_first_word(tail);
        if operation == "send"@ {
            send_command(rest)
        } else if operation == "read"@ {
            match index_argument(rest) {
                IndexArgument::Absent => CommandView::ReadAll,
                IndexArgument::At(index) => CommandView::Read { index },
                IndexArgument::Malformed => CommandView::BadIndex,
            }
        } else if operation == "delete"@ {
            match index_argument(rest) {
                IndexArgument::Absent => CommandView::ClearAll,
                IndexArgument::At(index) => CommandView::Delete { index },
                IndexArgument::Malformed => CommandView::BadIndex,
            }
        } else {
            CommandView::Unrecognized
        }
    }
}

/// Reads the argument of `read` or `delete`.
pub fn parse_index_argument(rest: &str) -> (argument: IndexArgument)
    ensures
        argument == index_argument(rest@),
{
    let argument = trimmed(rest);
    if argument.unicode_len() == 0 {
        IndexArgument::Absent
    } else {
        match parse_index(argument) {
            Some(index) => IndexArgument::At(index),
            None => IndexArgument::Malformed,
        }
    }
}

/// Reads the argument of `send`.
pub fn parse_send(rest: &str) -> (command: Command)
    ensures
        command@ == send_command(rest@),
{
    let named = trimmed_start(rest);
    let (recipient, body) = split_word(named);
    if body.unicode_len() == 0 {
        Command::Unrecognized
    } else {
        Command::Send { recipient: recipient.to_owned(), body: trimmed(body).to_owned() }
    }
}

/// Reads a chat text as a mail command.
pub fn chat_filter(text: &str) -> (command: Command)
    ensures
        command@ == command_of(text@),
{
    if !starts_with(text, "!mail") {
        return Command::NotMail;
    }
    let (_, spaced) = split_word(text);
    let length: usize = spaced.unicode_len();
    if length == 0 {
        return Command::Usage;
    }
    let tail = spaced.substring_char(1, length);
    let (operation, rest) = split_word(tail);
    if same_text(operation, "send") {
        parse_send(rest)
    } else if same_text(operation, "read") {
        match parse_index_argument(rest) {
            IndexArgument::Absent => Command::ReadAll,
            IndexArgument::At(index) => Command::Read { index },
            IndexArgument::Malformed => Command::BadIndex,
        }
    } else if same_text(operation, "delete") {
        match parse_index_argument(rest) {
            IndexArgument::Absent => Command::ClearAll,
            IndexArgument::At(index) => Command::Delete { index },
            IndexArgument::Malformed => Command::BadIndex,
        }
    } else {
        Command::Unrecognized
    }
}

/// A send command written out in full is read as it was meant: after
/// `!mail send ` come the recipient's name, which holds no space and does
/// not begin with a blank, one space, and the message, which neither begins
/// nor ends with a blank.
pub proof fn lemma_send_is_read_back(recipient: Seq<char>, body: Seq<char>)
    requires
        recipient.len() > 0,
        !is_blank(recipient[0]),
        forall|i: int| 0 <= i < recipient.len() ==> recipient[i] != ' ',
        body.len() > 0 ==> !is_blank(body[0]) && !is_blank(body.last()),
    ensures
        command_of("!mail send "@ + recipient + seq![' '] + body) == (CommandView::Send {
            recipient,
            body,
        }),
{
    reveal_strlit("!mail send ");
    reveal_strlit("!mail");
    reveal_strlit("send");
    reveal_strlit("send ");
    let text = "!mail send "@ + recipient + seq![' '] + body;
    lemma_find_space_stops(text, 0, 5);
    let tail = after_first_word(text).skip(1);
    assert(tail =~= "send "@ + recipient + seq![' '] + body);
    lemma_find_space_stops(tail, 0, 4);
    assert(first_word(tail) =~= "send"@);
    let rest = after_first_word(tail);
    lemma_skip_blanks_stops(rest, 0, 1);
    let named = trim_start(rest);
    lemma_find_space_stops(named, 0, recipient.len() as int);
    assert(first_word(named) =~= recipient);
    let spaced = after_first_word(named);
    lemma_skip_blanks_stops(spaced, 0, 1);
    assert(trim_start(spaced) =~= body);
    lemma_skip_blanks_back_stops(body, body.len() as int, body.len() as int);
    assert(trim_end(body) =~= body);
}

/// A message number written in base ten is read as that number: behind
/// `!mail read ` it asks for that message, behind `!mail delete ` for its
/// deletion.
pub proof fn lemma_index_is_read_back(index: usize)
    ensures
        command_of("!mail read "@ + decimal(index as nat)) == (CommandView::Read { index }),
        command_of("!mail delete "@ + decimal(index as nat)) == (CommandView::Delete { index }),
{
    reveal_strlit("!mail read ");
    reveal_strlit("!mail delete ");
    reveal_strlit("!mail");
    reveal_strlit("send");
    reveal_strlit("read");
    reveal_strlit("delete");
    let digits = decimal(index as nat);
    lemma_decimal_reads_back(index as nat);
    assert(!is_blank(digits[0]));
    assert(!is_blank(digits.last()));
    let spaced = seq![' '] + digits;
    lemma_skip_blanks_stops(spaced, 0, 1);
    assert(trim_start(spaced) =~= digits);
    lemma_skip_blanks_back_stops(digits, digits.len() as int, digits.len() as int);
    assert(trim_end(digits) =~= digits);
    {
        let text = "!mail read "@ + digits;
        lemma_find_space_stops(text, 0, 5);
        let tail = after_first_word(text).skip(1);
        lemma_find_space_stops(tail, 0, 4);
        assert(first_word(tail) =~= "read"@);
        assert(after_first_word(tail) =~= spaced);
        assert("read"@ != "send"@) by {
            assert("read"@[0] != "send"@[0]);
        }
    }
    {
        let text = "!mail delete "@ + digits;
        lemma_find_space_stops(text, 0, 5);
        let tail = after_first_word(text).skip(1);
        lemma_find_space_stops(tail, 0, 6);
        assert(first_word(tail) =~= "delete"@);
        assert(after_first_word(tail) =~= spaced);
        assert("delete"@ != "send"@);
        assert("delete"@ != "read"@);
    }
}

} // verus!
