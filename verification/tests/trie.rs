use keychord::{parse_keys, Action, Key, Keymap, KeymapError, Keys};

fn plain(key: Keys) -> Key {
    Key { alt: false, shift: false, ctrl: false, key }
}

fn ch(c: char) -> Key {
    plain(Keys::Char(c))
}

fn mac(text: &str) -> Action {
    Action::Macro(text.to_string())
}

fn macro_of(a: &Option<Action>) -> Option<String> {
    match a {
        Some(Action::Macro(m)) => Some(m.clone()),
        Some(Action::Function(_)) => panic!("expected a macro"),
        None => None,
    }
}

fn bound(map: &Keymap, keys: &str) -> Option<String> {
    let path = parse_keys(keys, ' ').unwrap();
    let w = map.walk(&path, false);
    if w.dead_end || w.path != path {
        return None;
    }
    macro_of(w.node.action())
}

#[test]
fn new_keymap_is_a_bare_root() {
    let map = Keymap::new();
    assert!(map.is_leaf());
    assert!(map.action().is_none());
    assert!(map.get(&ch('a')).is_none());
}

#[test]
fn set_binds_the_path() {
    let mut map = Keymap::new();
    map.set("gg".to_string(), mac("top"), ' ').unwrap();
    assert!(!map.is_leaf());
    let g = map.get(&ch('g')).unwrap();
    assert!(g.action().is_none());
    assert!(!g.is_leaf());
    let gg = g.get(&ch('g')).unwrap();
    assert_eq!(macro_of(gg.action()), Some("top".to_string()));
    assert!(gg.is_leaf());
    assert!(map.get(&ch('x')).is_none());
}

#[test]
fn binding_the_empty_sequence_changes_nothing() {
    let mut map = Keymap::new();
    map.set("".to_string(), mac("nothing"), ' ').unwrap();
    assert!(map.is_leaf());
    assert!(map.action().is_none());
    map.set("a".to_string(), mac("a"), ' ').unwrap();
    map.set("".to_string(), mac("nothing"), ' ').unwrap();
    assert!(map.action().is_none());
    assert_eq!(bound(&map, "a"), Some("a".to_string()));
}

#[test]
fn later_binding_overwrites() {
    let mut map = Keymap::new();
    map.set("dd".to_string(), mac("first"), ' ').unwrap();
    map.set("dd".to_string(), mac("second"), ' ').unwrap();
    assert_eq!(bound(&map, "dd"), Some("second".to_string()));
}

#[test]
fn binding_keeps_siblings_and_prefixes() {
    let mut map = Keymap::new();
    map.set("g".to_string(), mac("g"), ' ').unwrap();
    map.set("gg".to_string(), mac("gg"), ' ').unwrap();
    map.set("gd".to_string(), mac("gd"), ' ').unwrap();
    map.set("x".to_string(), mac("x"), ' ').unwrap();
    map.set("gg".to_string(), mac("again"), ' ').unwrap();
    assert_eq!(bound(&map, "g"), Some("g".to_string()));
    assert_eq!(bound(&map, "gg"), Some("again".to_string()));
    assert_eq!(bound(&map, "gd"), Some("gd".to_string()));
    assert_eq!(bound(&map, "x"), Some("x".to_string()));
    assert_eq!(bound(&map, "gx"), None);
}

#[test]
fn binding_a_prefix_keeps_the_longer_binding() {
    let mut map = Keymap::new();
    map.set("abc".to_string(), mac("abc"), ' ').unwrap();
    map.set("a".to_string(), mac("a"), ' ').unwrap();
    assert_eq!(bound(&map, "abc"), Some("abc".to_string()));
    assert_eq!(bound(&map, "a"), Some("a".to_string()));
    assert_eq!(bound(&map, "ab"), None);
    let ab = map.get(&ch('a')).unwrap().get(&ch('b')).unwrap();
    assert!(!ab.is_leaf());
}

#[test]
fn set_rejects_unknown_names_and_changes_nothing() {
    let mut map = Keymap::new();
    map.set("a".to_string(), mac("a"), ' ').unwrap();
    match map.set("ab<nope>".to_string(), mac("bad"), ' ') {
        Err(KeymapError::UnknownKey(name)) => assert_eq!(name, "nope"),
        other => panic!("expected an unknown key, got {:?}", other),
    }
    assert!(map.get(&ch('a')).unwrap().is_leaf());
    assert_eq!(bound(&map, "a"), Some("a".to_string()));
}

#[test]
fn set_uses_the_leader() {
    let mut map = Keymap::new();
    map.set("<leader>w".to_string(), mac("save"), ',').unwrap();
    assert_eq!(bound(&map, ",w"), Some("save".to_string()));
    assert!(map.get(&ch(' ')).is_none());
}

#[test]
fn keys_differ_by_modifiers() {
    let mut map = Keymap::new();
    map.set("<c-a>".to_string(), mac("ctrl"), ' ').unwrap();
    map.set("a".to_string(), mac("bare"), ' ').unwrap();
    map.set("A".to_string(), mac("shift"), ' ').unwrap();
    assert_eq!(bound(&map, "<c-a>"), Some("ctrl".to_string()));
    assert_eq!(bound(&map, "a"), Some("bare".to_string()));
    assert_eq!(bound(&map, "<s-a>"), Some("shift".to_string()));
    assert!(map.get(&Key { alt: true, shift: false, ctrl: false, key: Keys::Char('a') }).is_none());
}

#[test]
fn walk_follows_the_keys() {
    let mut map = Keymap::new();
    map.set("gg".to_string(), mac("top"), ' ').unwrap();
    let w = map.walk(&vec![ch('g')], false);
    assert!(!w.dead_end);
    assert_eq!(w.path, vec![ch('g')]);
    assert!(!w.node.is_leaf());
    let w = map.walk(&vec![ch('g'), ch('g')], false);
    assert!(!w.dead_end);
    assert_eq!(w.path, vec![ch('g'), ch('g')]);
    assert_eq!(macro_of(w.node.action()), Some("top".to_string()));
}

#[test]
fn walk_of_no_keys_stays_at_the_root() {
    let mut map = Keymap::new();
    map.set("a".to_string(), mac("a"), ' ').unwrap();
    let w = map.walk(&vec![], false);
    assert!(!w.dead_end);
    assert!(w.path.is_empty());
    assert!(!w.node.is_leaf());
}

#[test]
fn walk_stops_at_a_dead_end() {
    let mut map = Keymap::new();
    map.set("g".to_string(), mac("g"), ' ').unwrap();
    map.set("gg".to_string(), mac("gg"), ' ').unwrap();
    let w = map.walk(&vec![ch('g'), ch('z'), ch('g')], false);
    assert!(w.dead_end);
    assert_eq!(w.path, vec![ch('g')]);
    assert_eq!(macro_of(w.node.action()), Some("g".to_string()));
    let w = map.walk(&vec![ch('z')], false);
    assert!(w.dead_end);
    assert!(w.path.is_empty());
}

#[test]
fn walk_falls_back_to_the_key_without_modifiers() {
    let mut map = Keymap::new();
    map.set("ab".to_string(), mac("ab"), ' ').unwrap();
    let ctrl_a = Key { alt: false, shift: false, ctrl: true, key: Keys::Char('a') };
    let shift_b = Key { alt: false, shift: true, ctrl: false, key: Keys::Char('b') };
    let w = map.walk(&vec![ctrl_a, shift_b], false);
    assert!(!w.dead_end);
    assert_eq!(w.path, vec![ch('a'), ch('b')]);
    assert_eq!(macro_of(w.node.action()), Some("ab".to_string()));
}

#[test]
fn walk_prefers_the_key_as_it_is() {
    let mut map = Keymap::new();
    map.set("<c-a>".to_string(), mac("ctrl"), ' ').unwrap();
    map.set("a".to_string(), mac("bare"), ' ').unwrap();
    let ctrl_a = Key { alt: false, shift: false, ctrl: true, key: Keys::Char('a') };
    let w = map.walk(&vec![ctrl_a], false);
    assert_eq!(w.path, vec![ctrl_a]);
    assert_eq!(macro_of(w.node.action()), Some("ctrl".to_string()));
}

#[test]
fn walk_with_finish_ignores_modifiers() {
    let mut map = Keymap::new();
    map.set("<c-a>".to_string(), mac("ctrl"), ' ').unwrap();
    map.set("a".to_string(), mac("bare"), ' ').unwrap();
    let ctrl_a = Key { alt: false, shift: false, ctrl: true, key: Keys::Char('a') };
    let w = map.walk(&vec![ctrl_a], true);
    assert!(!w.dead_end);
    assert_eq!(w.path, vec![ch('a')]);
    assert_eq!(macro_of(w.node.action()), Some("bare".to_string()));
}

#[test]
fn walk_with_finish_and_no_bare_child_is_a_dead_end() {
    let mut map = Keymap::new();
    map.set("<c-a>".to_string(), mac("ctrl"), ' ').unwrap();
    let ctrl_a = Key { alt: false, shift: false, ctrl: true, key: Keys::Char('a') };
    let w = map.walk(&vec![ctrl_a], true);
    assert!(w.dead_end);
    assert!(w.path.is_empty());
}

#[test]
fn unknown_and_finish_match_nothing() {
    let mut map = Keymap::new();
    map.set("a".to_string(), mac("a"), ' ').unwrap();
    for k in [plain(Keys::Unknown), plain(Keys::Finish)] {
        assert!(map.get(&k).is_none());
        let w = map.walk(&vec![ch('a'), k], false);
        assert!(w.dead_end);
        assert_eq!(w.path, vec![ch('a')]);
    }
}

#[test]
fn bind_takes_parsed_keys() {
    let mut map = Keymap::new();
    let keys = parse_keys("<c-w>l", ' ').unwrap();
    map.bind(&keys, mac("right"));
    assert_eq!(bound(&map, "<c-w>l"), Some("right".to_string()));
    map.bind(&vec![], mac("nothing"));
    assert!(map.action().is_none());
}

#[test]
fn many_children_of_one_node() {
    let mut map = Keymap::new();
    let letters = "abcdefghijklmnopqrstuvwxyz";
    for c in letters.chars() {
        map.set(format!("g{}", c), mac(&c.to_string()), ' ').unwrap();
    }
    for c in letters.chars() {
        assert_eq!(bound(&map, &format!("g{}", c)), Some(c.to_string()));
    }
    assert_eq!(bound(&map, "g"), None);
}
