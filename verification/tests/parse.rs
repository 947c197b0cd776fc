use keychord::{parse_keys, parse_section, Key, KeymapError, Keys};

fn plain(key: Keys) -> Key {
    Key { alt: false, shift: false, ctrl: false, key }
}

fn ch(c: char) -> Key {
    plain(Keys::Char(c))
}

fn keys(input: &str) -> Vec<Key> {
    parse_keys(input, '\\').unwrap()
}

fn unknown(r: Result<Vec<Key>, KeymapError>) -> String {
    match r {
        Err(KeymapError::UnknownKey(name)) => name,
        other => panic!("expected an unknown key, got {:?}", other),
    }
}

#[test]
fn empty_sequence_has_no_keys() {
    assert_eq!(keys(""), vec![]);
}

#[test]
fn literal_characters_are_keys() {
    assert_eq!(keys("gg"), vec![ch('g'), ch('g')]);
    assert_eq!(keys("d2w"), vec![ch('d'), ch('2'), ch('w')]);
    assert_eq!(keys(" "), vec![ch(' ')]);
    assert_eq!(keys(">"), vec![ch('>')]);
}

#[test]
fn doubled_sequence_is_the_single_one_twice() {
    for leader in [' ', ',', '\\'] {
        let single = parse_keys("g", leader).unwrap();
        let mut twice = single.clone();
        twice.extend(single.iter().cloned());
        assert_eq!(parse_keys("gg", leader).unwrap(), twice);
    }
}

#[test]
fn concatenation_of_closed_sequences() {
    let a = "<c-w>x<esc>";
    let b = "G<leader>";
    let mut expected = keys(a);
    expected.extend(keys(b));
    assert_eq!(keys("<c-w>x<esc>G<leader>"), expected);
}

#[test]
fn upper_case_literal_is_shift_and_lower_case() {
    assert_eq!(
        keys("G"),
        vec![Key { alt: false, shift: true, ctrl: false, key: Keys::Char('g') }]
    );
    assert_eq!(
        keys("É"),
        vec![Key { alt: false, shift: true, ctrl: false, key: Keys::Char('é') }]
    );
    assert_eq!(keys("gG"), vec![
        ch('g'),
        Key { alt: false, shift: true, ctrl: false, key: Keys::Char('g') },
    ]);
}

#[test]
fn fixed_names() {
    assert_eq!(keys("<gt>"), vec![ch('>')]);
    assert_eq!(keys("<lt>"), vec![ch('<')]);
    assert_eq!(keys("<bs>"), vec![plain(Keys::Backspace)]);
    assert_eq!(keys("<tab>"), vec![plain(Keys::Tab)]);
    assert_eq!(keys("<cr>"), vec![plain(Keys::CR)]);
    assert_eq!(keys("<esc>"), vec![plain(Keys::Esc)]);
    assert_eq!(keys("<space>"), vec![ch(' ')]);
    assert_eq!(keys("<left>"), vec![plain(Keys::Left)]);
    assert_eq!(keys("<right>"), vec![plain(Keys::Right)]);
    assert_eq!(keys("<up>"), vec![plain(Keys::Up)]);
    assert_eq!(keys("<down>"), vec![plain(Keys::Down)]);
}

#[test]
fn leader_is_the_configured_character() {
    assert_eq!(parse_keys("<leader>", ',').unwrap(), vec![ch(',')]);
    assert_eq!(parse_keys("<leader>w", ' ').unwrap(), vec![ch(' '), ch('w')]);
    assert_eq!(parse_keys("<leader>", 'X').unwrap(), vec![ch('X')]);
}

#[test]
fn section_names_are_lower_cased() {
    assert_eq!(keys("<ESC>"), vec![plain(Keys::Esc)]);
    assert_eq!(keys("<Tab>"), vec![plain(Keys::Tab)]);
    assert_eq!(keys("<A>"), vec![ch('a')]);
    assert_eq!(
        keys("<C-A>"),
        vec![Key { alt: false, shift: false, ctrl: true, key: Keys::Char('a') }]
    );
}

#[test]
fn single_character_section() {
    assert_eq!(keys("<a>"), vec![ch('a')]);
    assert_eq!(keys("<é>"), vec![ch('é')]);
    assert_eq!(keys("<->"), vec![ch('-')]);
}

#[test]
fn ctrl_prefix_sets_ctrl_and_nothing_else() {
    for leader in [' ', ','] {
        let bare = parse_keys("<a>", leader).unwrap();
        let with_ctrl = parse_keys("<c-a>", leader).unwrap();
        assert_eq!(bare.len(), 1);
        assert_eq!(with_ctrl.len(), 1);
        assert_eq!(with_ctrl[0], Key { ctrl: true, ..bare[0] });
        assert!(!bare[0].ctrl);
    }
}

#[test]
fn modifier_prefixes() {
    assert_eq!(
        keys("<s-a>"),
        vec![Key { alt: false, shift: true, ctrl: false, key: Keys::Char('a') }]
    );
    assert_eq!(
        keys("<a-x>"),
        vec![Key { alt: true, shift: false, ctrl: false, key: Keys::Char('x') }]
    );
    assert_eq!(
        keys("<m-x>"),
        vec![Key { alt: true, shift: false, ctrl: false, key: Keys::Char('x') }]
    );
    assert_eq!(
        keys("<c-cr>"),
        vec![Key { alt: false, shift: false, ctrl: true, key: Keys::CR }]
    );
    assert_eq!(
        keys("<c-leader>"),
        vec![Key { alt: false, shift: false, ctrl: true, key: Keys::Char('\\') }]
    );
}

#[test]
fn prefixes_compose() {
    assert_eq!(
        keys("<c-s-a>"),
        vec![Key { alt: false, shift: true, ctrl: true, key: Keys::Char('a') }]
    );
    assert_eq!(
        keys("<s-c-a>"),
        vec![Key { alt: false, shift: true, ctrl: true, key: Keys::Char('a') }]
    );
    assert_eq!(
        keys("<c-a-s-tab>"),
        vec![Key { alt: true, shift: true, ctrl: true, key: Keys::Tab }]
    );
    assert_eq!(
        keys("<c-c-a>"),
        vec![Key { alt: false, shift: false, ctrl: true, key: Keys::Char('a') }]
    );
}

#[test]
fn prefix_before_a_dash() {
    assert_eq!(
        keys("<c-->"),
        vec![Key { alt: false, shift: false, ctrl: true, key: Keys::Char('-') }]
    );
}

#[test]
fn section_without_its_end_runs_to_the_end() {
    assert_eq!(keys("<esc"), vec![plain(Keys::Esc)]);
    assert_eq!(keys("x<c-a"), vec![
        ch('x'),
        Key { alt: false, shift: false, ctrl: true, key: Keys::Char('a') },
    ]);
}

#[test]
fn sections_and_literals_mix() {
    assert_eq!(keys("<c-w>l"), vec![
        Key { alt: false, shift: false, ctrl: true, key: Keys::Char('w') },
        ch('l'),
    ]);
    assert_eq!(keys("a<esc>b<cr>"), vec![
        ch('a'),
        plain(Keys::Esc),
        ch('b'),
        plain(Keys::CR),
    ]);
    assert_eq!(keys("<gt><lt>"), vec![ch('>'), ch('<')]);
}

#[test]
fn unknown_names_are_rejected() {
    assert_eq!(unknown(parse_keys("<foo>", ' ')), "foo");
    assert_eq!(unknown(parse_keys("<>", ' ')), "");
    assert_eq!(unknown(parse_keys("<", ' ')), "");
    assert_eq!(unknown(parse_keys("<x-a>", ' ')), "x-a");
    assert_eq!(unknown(parse_keys("<c->", ' ')), "");
    assert_eq!(unknown(parse_keys("<c-foo>", ' ')), "foo");
    assert_eq!(unknown(parse_keys("<escape>", ' ')), "escape");
}

#[test]
fn first_unknown_name_is_reported() {
    assert_eq!(unknown(parse_keys("a<one>b<two>", ' ')), "one");
    assert_eq!(unknown(parse_keys("<esc><two><one>", ' ')), "two");
}

#[test]
fn unknown_name_is_reported_in_lower_case() {
    assert_eq!(unknown(parse_keys("<FOO>", ' ')), "foo");
}

#[test]
fn parse_section_resolves_names() {
    assert_eq!(parse_section("esc", ' ').unwrap(), plain(Keys::Esc));
    assert_eq!(parse_section("leader", ';').unwrap(), ch(';'));
    assert_eq!(parse_section("q", ' ').unwrap(), ch('q'));
    assert_eq!(
        parse_section("c-s-a", ' ').unwrap(),
        Key { alt: false, shift: true, ctrl: true, key: Keys::Char('a') }
    );
}

#[test]
fn parse_section_does_not_lower_case() {
    assert_eq!(parse_section("Q", ' ').unwrap(), ch('Q'));
    match parse_section("ESC", ' ') {
        Err(KeymapError::UnknownKey(name)) => assert_eq!(name, "ESC"),
        other => panic!("expected an unknown key, got {:?}", other),
    }
}

#[test]
fn parse_section_rejects_unknown_names() {
    for name in ["", "ctrl", "c-", "c-s-", "s-nope", "xx"] {
        assert!(matches!(parse_section(name, ' '), Err(KeymapError::UnknownKey(_))));
    }
}

#[test]
fn parsed_keys_can_be_bound() {
    for input in ["gg", "<c-a>", "<esc><tab><cr><bs>", "<left><right><up><down>", "A<leader>"] {
        for k in keys(input) {
            assert!(k.key != Keys::Unknown);
            assert!(k.key != Keys::Finish);
        }
    }
}

#[test]
fn error_message_names_the_key() {
    let e = parse_keys("<foo>", ' ').unwrap_err();
    assert_eq!(e.message(), "unknown key <foo>");
}
