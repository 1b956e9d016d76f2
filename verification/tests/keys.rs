use terminologyyyy::keys::{named_key_text, KeyEvent, LogicalKey, NamedKey};

fn press(key: LogicalKey, text: Option<&str>) -> Option<String> {
    KeyEvent { pressed: true, key, text: text.map(|t| t.to_string()) }.input()
}

#[test]
fn named_keys_send_fixed_sequences() {
    let cases = [
        (NamedKey::Backspace, "\x08"),
        (NamedKey::Enter, "\r"),
        (NamedKey::Tab, "\t"),
        (NamedKey::Escape, "\x1b"),
        (NamedKey::ArrowUp, "\x1b[A"),
        (NamedKey::ArrowDown, "\x1b[B"),
        (NamedKey::ArrowRight, "\x1b[C"),
        (NamedKey::ArrowLeft, "\x1b[D"),
        (NamedKey::Home, "\x1b[H"),
        (NamedKey::End, "\x1b[F"),
        (NamedKey::Space, " "),
    ];
    for (k, s) in cases {
        assert_eq!(named_key_text(k), Some(s.to_string()));
        assert_eq!(press(LogicalKey::Named(k), Some("ignored")), Some(s.to_string()));
    }
    assert_eq!(named_key_text(NamedKey::Other), None);
}

#[test]
fn releases_send_nothing() {
    let e = KeyEvent { pressed: false, key: LogicalKey::Named(NamedKey::Enter), text: Some("\r".to_string()) };
    assert_eq!(e.input(), None);
}

#[test]
fn text_is_sent_for_other_keys() {
    assert_eq!(press(LogicalKey::Character("a".to_string()), Some("A")), Some("A".to_string()));
    assert_eq!(press(LogicalKey::Named(NamedKey::Other), Some("x")), Some("x".to_string()));
    assert_eq!(press(LogicalKey::Unidentified, Some("ü")), Some("ü".to_string()));
}

#[test]
fn character_key_without_text_sends_its_characters() {
    assert_eq!(press(LogicalKey::Character("q".to_string()), None), Some("q".to_string()));
}

#[test]
fn keys_without_text_or_characters_send_nothing() {
    assert_eq!(press(LogicalKey::Named(NamedKey::Other), None), None);
    assert_eq!(press(LogicalKey::Unidentified, None), None);
}
