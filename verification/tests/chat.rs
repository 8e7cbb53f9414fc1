use molva::chat::{choose_nickname, format_outgoing, incoming_text, on_stdin, StdinAction, StdinEvent};

#[test]
fn entered_nickname_is_trimmed() {
    let (nick, generated) = choose_nickname("  alice \n");
    assert_eq!(nick, "alice");
    assert!(!generated);
}

#[test]
fn unicode_white_space_is_trimmed_too() {
    let (nick, generated) = choose_nickname("\u{3000}bob\u{a0}\t");
    assert_eq!(nick, "bob");
    assert!(!generated);
}

#[test]
fn inner_white_space_is_kept() {
    let (nick, _) = choose_nickname(" a b ");
    assert_eq!(nick, "a b");
}

#[test]
fn blank_nickname_is_generated() {
    let (nick, generated) = choose_nickname(" \n");
    assert!(generated);
    assert!(!nick.is_empty());
    assert!(nick.contains('-'));
}

#[test]
fn empty_nickname_is_generated() {
    let (nick, generated) = choose_nickname("");
    assert!(generated);
    assert!(nick.contains('-'));
}

#[test]
fn chosen_nickname_entered_again_is_unchanged() {
    let (nick, _) = choose_nickname("\tcarol  ");
    let (again, generated) = choose_nickname(&nick);
    assert_eq!(again, nick);
    assert!(!generated);
}

#[test]
fn outgoing_line_has_nickname_and_separator() {
    assert_eq!(format_outgoing("alice", "hello there"), "alice> hello there");
    assert_eq!(format_outgoing("", ""), "> ");
}

#[test]
fn typed_line_is_published() {
    match on_stdin("dave", StdinEvent::Line("hi".to_string())) {
        StdinAction::Publish(msg) => assert_eq!(msg, "dave> hi"),
        StdinAction::Stop => panic!("a typed line must be published"),
    }
}

#[test]
fn closed_or_pending_console_stops() {
    assert!(matches!(on_stdin("dave", StdinEvent::Closed), StdinAction::Stop));
    assert!(matches!(on_stdin("dave", StdinEvent::Pending), StdinAction::Stop));
}

#[test]
fn incoming_valid_utf8_is_decoded() {
    assert_eq!(incoming_text("alice> héllo".as_bytes()), "alice> héllo");
}

#[test]
fn incoming_invalid_bytes_are_replaced() {
    assert_eq!(incoming_text(&[0x68, 0x69, 0xff]), "hi\u{fffd}");
}

#[test]
fn generated_nickname_has_the_name_shape() {
    for _ in 0..50 {
        let (nick, generated) = choose_nickname("\t \n");
        assert!(generated);
        assert!(nick.chars().all(|c| c.is_ascii_lowercase() || c == '-'));
        assert!(nick.chars().next().unwrap().is_ascii_lowercase());
        assert!(nick.chars().last().unwrap().is_ascii_lowercase());
        assert!(nick.contains('-'));
    }
}

#[test]
fn generated_nickname_entered_again_is_unchanged() {
    let (nick, _) = choose_nickname("");
    let (again, generated) = choose_nickname(&nick);
    assert_eq!(again, nick);
    assert!(!generated);
}
