use ansi_renderer::text::{findsplit, split_at_in_place};

#[test]
fn split_after_plain_letters() {
    assert_eq!(findsplit("hello world", 5), 5);
    assert_eq!(findsplit("hello world", 0), 0);
    assert_eq!(findsplit("hello world", 10), 10);
}

#[test]
fn split_past_the_end_is_the_length() {
    assert_eq!(findsplit("abc", 3), 3);
    assert_eq!(findsplit("abc", 7), 3);
    assert_eq!(findsplit("", 0), 0);
    assert_eq!(findsplit("", 4), 0);
}

#[test]
fn split_keeps_combining_marks_with_their_base() {
    // "e" followed by a combining acute accent is one cluster of three bytes
    let text = "e\u{301}x";
    assert_eq!(findsplit(text, 1), 3);
    assert_eq!(findsplit(text, 2), 4);
}

#[test]
fn split_keeps_emoji_sequences_whole() {
    // a family joined by zero-width joiners is one cluster
    let family = "\u{1F468}\u{200D}\u{1F469}\u{200D}\u{1F467}";
    let text = format!("{}!", family);
    assert_eq!(findsplit(&text, 1), family.len());
    // two regional indicators make one flag
    let flag = "\u{1F1F7}\u{1F1FA}";
    assert_eq!(findsplit(flag, 1), flag.len());
}

#[test]
fn split_counts_wide_characters_as_clusters() {
    assert_eq!(findsplit("日本語", 2), 6);
}

#[test]
fn split_in_place_keeps_the_front() {
    let mut text = String::from("hello world");
    let rest = split_at_in_place(&mut text, 5);
    assert_eq!(text, "hello");
    assert_eq!(rest, " world");
}

#[test]
fn split_in_place_at_the_ends() {
    let mut text = String::from("abc");
    let rest = split_at_in_place(&mut text, 0);
    assert_eq!(text, "");
    assert_eq!(rest, "abc");
    let mut text = String::from("abc");
    let rest = split_at_in_place(&mut text, 3);
    assert_eq!(text, "abc");
    assert_eq!(rest, "");
}

#[test]
fn split_in_place_between_characters() {
    let mut text = String::from("日本語");
    let offset = findsplit(&text, 1);
    let rest = split_at_in_place(&mut text, offset);
    assert_eq!(text, "日");
    assert_eq!(rest, "本語");
}
