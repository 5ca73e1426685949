use chat_plugins::emotes::filter::{delimited, keep_named};
use chat_plugins::emotes::{chat_filter, image_html, render, EmoteCache, Piece};

fn text(s: &str) -> Piece {
    Piece::Text(String::from(s))
}

fn emote(s: &str) -> Piece {
    Piece::Emote(String::from(s))
}

#[test]
fn text_without_emotes_stays_as_it_is() {
    assert_eq!(chat_filter("hello world"), None);
    assert_eq!(chat_filter(""), None);
    assert_eq!(chat_filter("at 10:30 then"), None);
    assert_eq!(chat_filter("a :not an emote: b"), None);
    assert_eq!(chat_filter("::"), None);
    assert_eq!(chat_filter(":Smile:"), None);
}

#[test]
fn names_between_colons_are_cut_out() {
    assert_eq!(
        chat_filter("hi :smile: there"),
        Some(vec![text("hi "), emote("smile"), text(" there")])
    );
    assert_eq!(chat_filter(":a1:"), Some(vec![text(""), emote("a1"), text("")]));
    assert_eq!(
        chat_filter(":a::b:"),
        Some(vec![text(""), emote("a"), text(""), emote("b"), text("")])
    );
    assert_eq!(
        chat_filter("x :no good: y :ok: z"),
        Some(vec![text("x "), text(":no good:"), text(" y "), emote("ok"), text(" z")])
    );
    assert_eq!(
        chat_filter(":ok: and :open"),
        Some(vec![text(""), emote("ok"), text(" and :open")])
    );
    assert_eq!(
        chat_filter("caf\u{e9} :tea: \u{1F600}"),
        Some(vec![text("caf\u{e9} "), emote("tea"), text(" \u{1F600}")])
    );
}

#[test]
fn delimiters_cut_the_text() {
    assert_eq!(delimited(""), vec![text("")]);
    assert_eq!(delimited("plain"), vec![text("plain")]);
    assert_eq!(delimited("a:b"), vec![text("a:b")]);
    assert_eq!(delimited("a :b c: d"), vec![text("a "), emote("b c"), text(" d")]);
    assert_eq!(delimited("::"), vec![text(""), emote(""), text("")]);
    assert_eq!(delimited(":a:b:c"), vec![text(""), emote("a"), text("b:c")]);
}

#[test]
fn names_without_a_match_go_back_to_text() {
    let pieces = delimited("a :b: c :d: e");
    assert_eq!(
        keep_named(&pieces, &vec![None, Some(true), None, Some(false), None]),
        Some(vec![text("a "), emote("b"), text(" c "), text(":d:"), text(" e")])
    );
    assert_eq!(
        keep_named(&pieces, &vec![None, Some(true)]),
        Some(vec![text("a "), emote("b"), text(" c "), text(":d:"), text(" e")])
    );
    assert_eq!(keep_named(&pieces, &vec![None, Some(false), None, None, None]), None);
    assert_eq!(keep_named(&pieces, &vec![]), None);
    assert_eq!(keep_named(&pieces, &vec![Some(true), None, Some(true)]), None);
}

#[test]
fn closing_colon_does_not_open_the_next_name() {
    assert_eq!(chat_filter("a:b c:smile:"), None);
}

#[test]
fn too_many_emotes_leave_the_text_alone() {
    assert!(chat_filter(":a: :b: :c: :d: :e:").is_some());
    assert_eq!(chat_filter(":a: :b: :c: :d: :e: :f:"), None);
}

#[test]
fn pieces_are_put_together_with_their_pictures() {
    let pieces = chat_filter("hi :smile: and :frown:!").unwrap();
    assert_eq!(pieces.len(), 5);
    let images = vec![None, Some(String::from("<S>")), None, None, None];
    assert_eq!(render(&pieces, &images), "hi <S> and !");
    assert_eq!(render(&pieces, &vec![]), "hi  and !");
    let both = vec![None, Some(String::from("<S>")), None, Some(String::from("<F>"))];
    assert_eq!(render(&pieces, &both), "hi <S> and <F>!");
}

#[test]
fn picture_markup() {
    assert_eq!(
        image_html(String::from("QUJD")),
        "<img height=\"25\" src=\"data:image/png;base64,QUJD\"/>"
    );
}

#[test]
fn cache_moves_what_is_used_to_the_front() {
    let mut cache = EmoteCache::new();
    assert_eq!(cache.get_emote("a"), None);
    cache.cache(String::from("a"), String::from("A"));
    cache.cache(String::from("b"), String::from("B"));
    assert_eq!(cache.len(), 2);
    assert_eq!(cache.get_emote("a"), Some(String::from("A")));
    cache.cache(String::from("b"), String::from("ignored"));
    assert_eq!(cache.get_emote("b"), Some(String::from("B")));
    assert_eq!(cache.len(), 2);
    let mut copy = cache.clone();
    assert_eq!(copy.len(), 2);
    assert_eq!(copy.get_emote("a"), Some(String::from("A")));
}

#[test]
fn cache_drops_what_was_used_longest_ago() {
    let mut cache = EmoteCache::new();
    for n in 0..11 {
        cache.cache(format!("e{}", n), format!("E{}", n));
    }
    assert_eq!(cache.len(), 11);
    assert_eq!(cache.get_emote("e0"), Some(String::from("E0")));
    cache.cache(String::from("new"), String::from("NEW"));
    assert_eq!(cache.len(), 11);
    assert_eq!(cache.get_emote("e1"), None);
    assert_eq!(cache.get_emote("e0"), Some(String::from("E0")));
    assert_eq!(cache.get_emote("e2"), Some(String::from("E2")));
    assert_eq!(cache.get_emote("new"), Some(String::from("NEW")));
}
