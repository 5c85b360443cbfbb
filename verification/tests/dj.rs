use talklike::dj::{Dj, DjAction};

fn play(action: DjAction) -> Option<String> {
    match action {
        DjAction::Play(what) => Some(what),
        _ => None,
    }
}

#[test]
fn the_module_is_named_dj() {
    assert_eq!(Dj.get_name(), "dj");
}

#[test]
fn messages_that_are_no_command_are_ignored() {
    for content in ["", "hello", "dj stop", "!djx stop", " !dj stop", "!d j", "say !dj stop"] {
        assert!(matches!(Dj.on_message(false, true, content), DjAction::Ignore), "{:?}", content);
    }
}

#[test]
fn own_messages_are_ignored() {
    assert!(matches!(Dj.on_message(true, true, "!dj stop"), DjAction::Ignore));
    assert!(matches!(Dj.on_message(true, false, "!dj song"), DjAction::Ignore));
}

#[test]
fn stop_and_quit_in_any_case_of_letters() {
    assert!(matches!(Dj.on_message(false, true, "!dj stop"), DjAction::Stop));
    assert!(matches!(Dj.on_message(false, true, "!DJ STOP"), DjAction::Stop));
    assert!(matches!(Dj.on_message(false, true, "!Dj sToP now"), DjAction::Stop));
    assert!(matches!(Dj.on_message(false, true, "!dj quit"), DjAction::Quit));
    assert!(matches!(Dj.on_message(false, true, "!dJ QuIt please"), DjAction::Quit));
}

#[test]
fn stop_and_quit_count_only_in_a_voice_channel() {
    assert!(matches!(Dj.on_message(false, false, "!dj stop"), DjAction::Ignore));
    assert!(matches!(Dj.on_message(false, false, "!dj quit"), DjAction::Ignore));
}

#[test]
fn anything_else_is_played() {
    assert_eq!(
        play(Dj.on_message(false, true, "!dj https://example.org/a?b=c")),
        Some("https://example.org/a?b=c".to_string())
    );
    assert_eq!(play(Dj.on_message(false, true, "!dj song title")), Some("song".to_string()));
    assert_eq!(play(Dj.on_message(false, true, "!dj stopp")), Some("stopp".to_string()));
    assert_eq!(play(Dj.on_message(false, true, "!dj Caf\u{e9} x")), Some("Caf\u{e9}".to_string()));
    assert_eq!(play(Dj.on_message(false, true, "!dj")), Some(String::new()));
    assert_eq!(play(Dj.on_message(false, true, "!dj  song")), Some(String::new()));
    assert_eq!(play(Dj.on_message(false, true, "!dj\tstop")), None);
}

#[test]
fn playing_is_refused_outside_a_voice_channel() {
    assert!(matches!(Dj.on_message(false, false, "!dj song"), DjAction::Refuse));
    assert!(matches!(Dj.on_message(false, false, "!dj"), DjAction::Refuse));
}

#[test]
fn letters_beyond_ascii_keep_their_case() {
    assert!(matches!(Dj.on_message(false, true, "!dj \u{17f}top"), DjAction::Play(_)));
    assert!(matches!(Dj.on_message(false, true, "!dj qu\u{130}t"), DjAction::Play(_)));
}

#[test]
fn the_module_leaves_when_it_is_alone() {
    assert!(Dj.should_leave(0));
    assert!(Dj.should_leave(1));
    assert!(!Dj.should_leave(2));
    assert!(!Dj.should_leave(usize::MAX));
}
