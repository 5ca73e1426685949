use chat_plugins::change_name::{change_name, invalid_nickname, judge, Rename};
use chat_plugins::list_users::{list_users, user_list};

fn accept(name: &str) -> Rename {
    Rename::Accept { name: String::from(name) }
}

#[test]
fn other_texts_are_no_rename() {
    assert_eq!(change_name("hello"), Rename::Pass);
    assert_eq!(change_name("!rename"), Rename::Pass);
    assert_eq!(change_name("!renamebob"), Rename::Pass);
    assert_eq!(change_name(" !rename bob"), Rename::Pass);
}

#[test]
fn valid_nicknames_are_accepted() {
    assert_eq!(change_name("!rename bob"), accept("bob"));
    assert_eq!(change_name("!rename B_o.b-(1)|{x}@y"), accept("B_o.b-(1)|{x}@y"));
    assert_eq!(change_name("!rename \u{e9}t\u{e9}"), accept("\u{e9}t\u{e9}"));
    assert_eq!(
        change_name("!rename abcdefghijklmnopqrstuvwxy"),
        accept("abcdefghijklmnopqrstuvwxy")
    );
}

#[test]
fn invalid_nicknames_are_rejected() {
    assert_eq!(change_name("!rename "), Rename::Reject);
    assert_eq!(change_name("!rename bob smith"), Rename::Reject);
    assert_eq!(change_name("!rename  bob"), Rename::Reject);
    assert_eq!(change_name("!rename bob!"), Rename::Reject);
    assert_eq!(change_name("!rename abcdefghijklmnopqrstuvwxyz"), Rename::Reject);
    assert_eq!(
        invalid_nickname(),
        "<b><span style=\"color:#aa0000\">Invalid Nickname</span></b>"
    );
}

#[test]
fn decision_follows_the_match() {
    assert_eq!(judge("bob", Some(true)), accept("bob"));
    assert_eq!(judge("bob", Some(false)), Rename::Reject);
    assert_eq!(judge("bob", None), Rename::Pass);
}

#[test]
fn users_command_is_recognised() {
    assert!(list_users("!users"));
    assert!(list_users("  !users \n"));
    assert!(!list_users("!users now"));
    assert!(!list_users("!user"));
    assert!(!list_users(""));
}

#[test]
fn names_are_listed_one_to_a_line() {
    assert_eq!(user_list(&vec![]), "<b>Registered usernames:</b><br/>");
    assert_eq!(
        user_list(&vec![String::from("ann"), String::from("bob")]),
        "<b>Registered usernames:</b><br/>ann<br/>bob<br/>"
    );
}
