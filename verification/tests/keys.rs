use keychord::{Key, Keys, Mode, Modifiers, RawEvent, RawKey};

const NONE: Modifiers = Modifiers { ctrl: false, shift: false, alt: false, caps: false };

fn plain(key: Keys) -> Key {
    Key { alt: false, shift: false, ctrl: false, key }
}

#[test]
fn named_raw_keys_decode_to_named_keys() {
    assert_eq!(Keys::from(RawKey::Tab, None), Keys::Tab);
    assert_eq!(Keys::from(RawKey::Escape, None), Keys::Esc);
    assert_eq!(Keys::from(RawKey::Return, None), Keys::CR);
    assert_eq!(Keys::from(RawKey::Space, None), Keys::Char(' '));
    assert_eq!(Keys::from(RawKey::Left, None), Keys::Left);
    assert_eq!(Keys::from(RawKey::Right, None), Keys::Right);
    assert_eq!(Keys::from(RawKey::Up, None), Keys::Up);
    assert_eq!(Keys::from(RawKey::Down, None), Keys::Down);
    assert_eq!(Keys::from(RawKey::Backspace, None), Keys::Backspace);
}

#[test]
fn named_raw_keys_ignore_their_text() {
    assert_eq!(Keys::from(RawKey::Tab, Some("x".to_string())), Keys::Tab);
    assert_eq!(Keys::from(RawKey::Space, Some("x".to_string())), Keys::Char(' '));
}

#[test]
fn other_keys_decode_to_the_first_character_in_lower_case() {
    assert_eq!(Keys::from(RawKey::Other, Some("a".to_string())), Keys::Char('a'));
    assert_eq!(Keys::from(RawKey::Other, Some("A".to_string())), Keys::Char('a'));
    assert_eq!(Keys::from(RawKey::Other, Some("Qx".to_string())), Keys::Char('q'));
    assert_eq!(Keys::from(RawKey::Other, Some("É".to_string())), Keys::Char('é'));
    assert_eq!(Keys::from(RawKey::Other, Some("7".to_string())), Keys::Char('7'));
}

#[test]
fn other_keys_without_text_are_unknown() {
    assert_eq!(Keys::from(RawKey::Other, None), Keys::Unknown);
    assert_eq!(Keys::from(RawKey::Other, Some(String::new())), Keys::Unknown);
}

#[test]
fn modifiers_are_taken_as_reported() {
    let mods = Modifiers { ctrl: true, shift: false, alt: true, caps: false };
    assert_eq!(
        Key::from_raw(RawKey::Other, mods, Some("w".to_string())),
        Key { alt: true, shift: false, ctrl: true, key: Keys::Char('w') }
    );
}

#[test]
fn caps_lock_inverts_shift() {
    let caps = Modifiers { ctrl: false, shift: false, alt: false, caps: true };
    let both = Modifiers { ctrl: false, shift: true, alt: false, caps: true };
    let shift = Modifiers { ctrl: false, shift: true, alt: false, caps: false };
    assert!(Key::from_raw(RawKey::Other, caps, Some("a".to_string())).shift);
    assert!(!Key::from_raw(RawKey::Other, both, Some("a".to_string())).shift);
    assert!(Key::from_raw(RawKey::Other, shift, Some("a".to_string())).shift);
    assert!(!Key::from_raw(RawKey::Other, NONE, Some("a".to_string())).shift);
}

#[test]
fn finish_is_the_bare_sentinel() {
    assert_eq!(Key::finish(), plain(Keys::Finish));
}

#[test]
fn strip_removes_the_modifiers() {
    let k = Key { alt: true, shift: true, ctrl: true, key: Keys::Char('x') };
    assert_eq!(k.strip(), plain(Keys::Char('x')));
    assert_eq!(plain(Keys::Tab).strip(), plain(Keys::Tab));
}

#[test]
fn defaults() {
    assert_eq!(Keys::default(), Keys::Esc);
    assert_eq!(Key::default(), plain(Keys::Esc));
}

fn event_of(k: Key) -> (RawKey, Modifiers, Option<String>, bool) {
    let e: RawEvent = k.to_event();
    (e.key, e.mods, e.text, e.finish)
}

#[test]
fn named_keys_replay_as_named_raw_keys() {
    assert_eq!(event_of(plain(Keys::Esc)), (RawKey::Escape, NONE, None, false));
    assert_eq!(event_of(plain(Keys::Tab)), (RawKey::Tab, NONE, None, false));
    assert_eq!(event_of(plain(Keys::CR)), (RawKey::Return, NONE, None, false));
    assert_eq!(event_of(plain(Keys::Up)), (RawKey::Up, NONE, None, false));
    assert_eq!(event_of(plain(Keys::Down)), (RawKey::Down, NONE, None, false));
    assert_eq!(event_of(plain(Keys::Left)), (RawKey::Left, NONE, None, false));
    assert_eq!(event_of(plain(Keys::Right)), (RawKey::Right, NONE, None, false));
    assert_eq!(event_of(plain(Keys::Backspace)), (RawKey::Backspace, NONE, None, false));
}

#[test]
fn characters_replay_with_their_text() {
    assert_eq!(
        event_of(plain(Keys::Char('y'))),
        (RawKey::Other, NONE, Some("y".to_string()), false)
    );
    assert_eq!(event_of(plain(Keys::Char(' '))), (RawKey::Space, NONE, None, false));
}

#[test]
fn modifiers_replay_without_caps_lock() {
    let k = Key { alt: true, shift: true, ctrl: true, key: Keys::Char('y') };
    let mods = Modifiers { ctrl: true, shift: true, alt: true, caps: false };
    assert_eq!(event_of(k), (RawKey::Other, mods, Some("y".to_string()), false));
}

#[test]
fn finish_replays_as_the_finish_event() {
    assert_eq!(event_of(Key::finish()), (RawKey::Other, NONE, None, true));
}

#[test]
fn replayed_keys_decode_to_themselves() {
    let keys = [
        plain(Keys::Char('a')),
        plain(Keys::Char(' ')),
        plain(Keys::Char('0')),
        Key { alt: true, shift: false, ctrl: true, key: Keys::Char('w') },
        Key { alt: false, shift: true, ctrl: false, key: Keys::Tab },
        plain(Keys::Esc),
        plain(Keys::Backspace),
        plain(Keys::Left),
    ];
    for k in keys {
        let e = k.to_event();
        assert_eq!(Key::from_raw(e.key, e.mods, e.text), k);
        assert!(!e.finish);
    }
}

#[test]
fn finish_event_decodes_to_unknown() {
    let e = Key::finish().to_event();
    assert_eq!(Key::from_raw(e.key, e.mods, e.text), plain(Keys::Unknown));
}

#[test]
fn mode_letters() {
    assert_eq!(Mode::Normal.to_char(), 'n');
    assert_eq!(Mode::Insert.to_char(), 'i');
    assert_eq!(Mode::Visual.to_char(), 'v');
}

#[test]
fn modes_by_letter() {
    assert_eq!(Mode::from('n'), Some(Mode::Normal));
    assert_eq!(Mode::from('i'), Some(Mode::Insert));
    assert_eq!(Mode::from('v'), Some(Mode::Visual));
    assert_eq!(Mode::from('N'), Some(Mode::Normal));
    assert_eq!(Mode::from('I'), Some(Mode::Insert));
    assert_eq!(Mode::from('V'), Some(Mode::Visual));
    assert_eq!(Mode::from('x'), None);
    assert_eq!(Mode::from(' '), None);
}

#[test]
fn mode_letter_names_its_mode() {
    for m in [Mode::Normal, Mode::Insert, Mode::Visual] {
        assert_eq!(Mode::from(m.to_char()), Some(m));
    }
}
