use chat_plugins::mail::command::{
    chat_filter, parse_index_argument, parse_send, Command, IndexArgument,
};

fn send(recipient: &str, body: &str) -> Command {
    Command::Send { recipient: String::from(recipient), body: String::from(body) }
}

#[test]
fn other_texts_are_passed_on() {
    assert_eq!(chat_filter("hello"), Command::NotMail);
    assert_eq!(chat_filter(""), Command::NotMail);
    assert_eq!(chat_filter("!mai"), Command::NotMail);
    assert_eq!(chat_filter(" !mail"), Command::NotMail);
    assert_eq!(chat_filter("!Mail read"), Command::NotMail);
    assert!(!chat_filter("hello").consumed());
}

#[test]
fn bare_keyword_asks_for_help() {
    assert_eq!(chat_filter("!mail"), Command::Usage);
    assert_eq!(chat_filter("!mailbox"), Command::Usage);
    assert!(chat_filter("!mail").consumed());
}

#[test]
fn unknown_operations_are_swallowed() {
    assert_eq!(chat_filter("!mail "), Command::Unrecognized);
    assert_eq!(chat_filter("!mail  read"), Command::Unrecognized);
    assert_eq!(chat_filter("!mail frobnicate 3"), Command::Unrecognized);
    assert_eq!(chat_filter("!mail READ"), Command::Unrecognized);
    assert_eq!(chat_filter("!mail sendbob hi"), Command::Unrecognized);
    assert!(chat_filter("!mail frobnicate 3").consumed());
}

#[test]
fn send_takes_a_name_and_a_text() {
    assert_eq!(chat_filter("!mail send bob hello world"), send("bob", "hello world"));
    assert_eq!(chat_filter("!mail send   bob   hello  world  "), send("bob", "hello  world"));
    assert_eq!(chat_filter("!mail send bob "), send("bob", ""));
    assert_eq!(chat_filter("!mail send b\u{e9}a \u{1F600} ok"), send("b\u{e9}a", "\u{1F600} ok"));
    assert_eq!(chat_filter("!mail send bob"), Command::Unrecognized);
    assert_eq!(chat_filter("!mail send"), Command::Unrecognized);
    assert_eq!(chat_filter("!mail send    "), Command::Unrecognized);
    assert_eq!(parse_send(" carol see you\tsoon\n"), send("carol", "see you\tsoon"));
}

#[test]
fn read_with_and_without_index() {
    assert_eq!(chat_filter("!mail read"), Command::ReadAll);
    assert_eq!(chat_filter("!mail read   "), Command::ReadAll);
    assert_eq!(chat_filter("!mail read 0"), Command::Read { index: 0 });
    assert_eq!(chat_filter("!mail read  12 "), Command::Read { index: 12 });
    assert_eq!(chat_filter("!mail read 007"), Command::Read { index: 7 });
    assert_eq!(chat_filter("!mail read two"), Command::BadIndex);
    assert_eq!(chat_filter("!mail read -1"), Command::BadIndex);
    assert_eq!(chat_filter("!mail read 1 2"), Command::BadIndex);
    assert_eq!(chat_filter("!mail read 1.5"), Command::BadIndex);
}

#[test]
fn delete_with_and_without_index() {
    assert_eq!(chat_filter("!mail delete"), Command::ClearAll);
    assert_eq!(chat_filter("!mail delete "), Command::ClearAll);
    assert_eq!(chat_filter("!mail delete 4"), Command::Delete { index: 4 });
    assert_eq!(chat_filter("!mail delete all"), Command::BadIndex);
    assert_eq!(chat_filter("!mail delete 4x"), Command::BadIndex);
}

#[test]
fn index_must_fit_the_machine() {
    let largest = format!("{}", usize::MAX);
    assert_eq!(parse_index_argument(&largest), IndexArgument::At(usize::MAX));
    let too_large = format!("{}0", usize::MAX);
    assert_eq!(parse_index_argument(&too_large), IndexArgument::Malformed);
    assert_eq!(
        parse_index_argument("340282366920938463463374607431768211456"),
        IndexArgument::Malformed
    );
    assert_eq!(parse_index_argument(" \t "), IndexArgument::Absent);
    assert_eq!(parse_index_argument(""), IndexArgument::Absent);
    assert_eq!(parse_index_argument(" 3"), IndexArgument::At(3));
    assert_eq!(parse_index_argument("+3"), IndexArgument::Malformed);
}
