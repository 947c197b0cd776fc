use keychord::{
    BufType, Cursor, CursorType, Input, Line, Mode, Modifiers, Pane, RawKey, TextBufOptions,
    TextCell,
};

const NONE: Modifiers = Modifiers { ctrl: false, shift: false, alt: false, caps: false };

fn pane_of(lines: &[&str], x: u32, y: u32) -> Pane<u8> {
    let buf = lines
        .iter()
        .map(|l| Line { cells: l.chars().map(|c| TextCell { char: c, style: 0 }).collect() })
        .collect();
    Pane {
        z_index: 0,
        buf: BufType::Text {
            buf,
            cursor: Cursor { x, y, cursor_type: CursorType::Block },
            opts: TextBufOptions::new(),
        },
    }
}

fn lines(p: &Pane<u8>) -> Vec<String> {
    match &p.buf {
        BufType::Text { buf, .. } => {
            buf.iter().map(|l| l.cells.iter().map(|c| c.char).collect()).collect()
        }
    }
}

fn styles(p: &Pane<u8>, y: usize) -> Vec<u8> {
    match &p.buf {
        BufType::Text { buf, .. } => buf[y].cells.iter().map(|c| c.style).collect(),
    }
}

fn cursor_type(p: &Pane<u8>) -> CursorType {
    match &p.buf {
        BufType::Text { cursor, .. } => cursor.cursor_type,
    }
}

#[test]
fn new_pane_is_empty() {
    let p: Pane<u8> = Pane::text(3);
    assert_eq!(p.z_index, 3);
    assert!(lines(&p).is_empty());
    assert_eq!(p.get_cursor(), (0, 0));
    assert_eq!(cursor_type(&p), CursorType::Block);
}

#[test]
fn cursor_goes_where_it_is_set() {
    let mut p = pane_of(&["ab"], 0, 0);
    p.set_cursor(7, 9);
    assert_eq!(p.get_cursor(), (7, 9));
    assert_eq!(lines(&p), vec!["ab"]);
    assert_eq!(cursor_type(&p), CursorType::Block);
}

#[test]
fn fix_cursor_makes_room_in_an_empty_pane() {
    let mut p: Pane<u8> = Pane::text(0);
    p.fix_cursor(Mode::Normal, 5);
    assert_eq!(lines(&p), vec![" "]);
    assert_eq!(styles(&p, 0), vec![5]);
    assert_eq!(p.get_cursor(), (0, 0));
}

#[test]
fn fix_cursor_adds_lines_and_cells() {
    let mut p = pane_of(&["ab"], 3, 2);
    p.fix_cursor(Mode::Normal, 7);
    assert_eq!(lines(&p), vec!["ab", "", "    "]);
    assert_eq!(styles(&p, 2), vec![7, 7, 7, 7]);
    assert_eq!(p.get_cursor(), (3, 2));
}

#[test]
fn fix_cursor_pads_the_line_of_the_cursor_only() {
    let mut p = pane_of(&["ab", "c"], 2, 0);
    p.fix_cursor(Mode::Normal, 7);
    assert_eq!(lines(&p), vec!["ab ", "c"]);
    assert_eq!(styles(&p, 0), vec![0, 0, 7]);
}

#[test]
fn fix_cursor_leaves_a_cursor_in_the_text_alone() {
    let mut p = pane_of(&["ab", "cd"], 1, 1);
    p.fix_cursor(Mode::Visual, 7);
    assert_eq!(lines(&p), vec!["ab", "cd"]);
    assert_eq!(styles(&p, 1), vec![0, 0]);
}

#[test]
fn fix_cursor_draws_the_cursor_by_mode() {
    let mut p = pane_of(&["ab"], 0, 0);
    p.fix_cursor(Mode::Insert, 0);
    assert_eq!(cursor_type(&p), CursorType::Line);
    p.fix_cursor(Mode::Visual, 0);
    assert_eq!(cursor_type(&p), CursorType::Block);
    p.fix_cursor(Mode::Normal, 0);
    assert_eq!(cursor_type(&p), CursorType::Block);
    assert_eq!(CursorType::for_mode(Mode::Insert), CursorType::Line);
    assert_eq!(CursorType::for_mode(Mode::Normal), CursorType::Block);
    assert_eq!(CursorType::for_mode(Mode::Visual), CursorType::Block);
}

#[test]
fn typing_inserts_at_the_cursor() {
    let mut p = pane_of(&["ac"], 1, 0);
    p.insert_char('b', Some(4), 9);
    assert_eq!(lines(&p), vec!["abc"]);
    assert_eq!(styles(&p, 0), vec![0, 9, 0]);
    assert_eq!(p.get_cursor(), (2, 0));
    p.insert_char('!', None, 9);
    assert_eq!(lines(&p), vec!["ab!c"]);
    assert_eq!(p.get_cursor(), (3, 0));
}

#[test]
fn typing_at_the_end_of_a_line() {
    let mut p = pane_of(&["ab", "cd"], 2, 1);
    p.insert_char('e', None, 1);
    assert_eq!(lines(&p), vec!["ab", "cde"]);
    assert_eq!(p.get_cursor(), (3, 1));
}

#[test]
fn tab_is_typed_as_spaces() {
    let mut p = pane_of(&["ab"], 1, 0);
    p.insert_char('\t', Some(4), 2);
    assert_eq!(lines(&p), vec!["a    b"]);
    assert_eq!(styles(&p, 0), vec![0, 2, 2, 2, 2, 0]);
    assert_eq!(p.get_cursor(), (5, 0));
}

#[test]
fn tab_of_no_spaces_types_nothing() {
    let mut p = pane_of(&["ab"], 1, 0);
    p.insert_char('\t', Some(0), 2);
    assert_eq!(lines(&p), vec!["ab"]);
    assert_eq!(p.get_cursor(), (1, 0));
}

#[test]
fn tab_is_kept_where_no_width_is_set() {
    let mut p = pane_of(&["ab"], 1, 0);
    p.insert_char('\t', None, 2);
    assert_eq!(lines(&p), vec!["a\tb"]);
    assert_eq!(p.get_cursor(), (2, 0));
}

#[test]
fn newline_breaks_the_line() {
    let mut p = pane_of(&["abcd", "ef"], 2, 0);
    p.insert_char('\n', Some(4), 0);
    assert_eq!(lines(&p), vec!["ab", "cd", "ef"]);
    assert_eq!(p.get_cursor(), (0, 1));
}

#[test]
fn newline_at_the_ends_of_a_line() {
    let mut p = pane_of(&["ab"], 2, 0);
    p.insert_char('\n', None, 0);
    assert_eq!(lines(&p), vec!["ab", ""]);
    assert_eq!(p.get_cursor(), (0, 1));
    let mut p = pane_of(&["ab"], 0, 0);
    p.insert_char('\n', None, 0);
    assert_eq!(lines(&p), vec!["", "ab"]);
    assert_eq!(p.get_cursor(), (0, 1));
}

#[test]
fn backspace_deletes_before_the_cursor() {
    let mut p = pane_of(&["abc"], 2, 0);
    p.backspace();
    assert_eq!(lines(&p), vec!["ac"]);
    assert_eq!(p.get_cursor(), (1, 0));
    p.backspace();
    assert_eq!(lines(&p), vec!["c"]);
    assert_eq!(p.get_cursor(), (0, 0));
}

#[test]
fn backspace_at_the_start_of_the_text_does_nothing() {
    let mut p = pane_of(&["abc", "d"], 0, 0);
    p.backspace();
    assert_eq!(lines(&p), vec!["abc", "d"]);
    assert_eq!(p.get_cursor(), (0, 0));
}

#[test]
fn backspace_joins_lines() {
    let mut p = pane_of(&["ab", "cd", "ef"], 0, 1);
    p.backspace();
    assert_eq!(lines(&p), vec!["abcd", "ef"]);
    assert_eq!(p.get_cursor(), (2, 0));
}

#[test]
fn backspace_undoes_a_newline() {
    let mut p = pane_of(&["abcd"], 3, 0);
    p.insert_char('\n', None, 0);
    p.backspace();
    assert_eq!(lines(&p), vec!["abcd"]);
    assert_eq!(p.get_cursor(), (3, 0));
}

#[test]
fn delete_line_in_the_middle() {
    let mut p = pane_of(&["ab", "cd", "ef"], 1, 1);
    p.delete_line();
    assert_eq!(lines(&p), vec!["ab", "ef"]);
    assert_eq!(p.get_cursor(), (0, 1));
}

#[test]
fn delete_last_line_moves_the_cursor_up() {
    let mut p = pane_of(&["ab", "cd"], 2, 1);
    p.delete_line();
    assert_eq!(lines(&p), vec!["ab"]);
    assert_eq!(p.get_cursor(), (0, 0));
}

#[test]
fn delete_the_only_line() {
    let mut p = pane_of(&["ab"], 1, 0);
    p.delete_line();
    assert!(lines(&p).is_empty());
    assert_eq!(p.get_cursor(), (0, 0));
}

#[test]
fn keys_outside_insert_mode_go_to_the_dispatcher() {
    for mode in [Mode::Normal, Mode::Visual] {
        assert_eq!(Input::decide(mode, RawKey::Tab, "Tab", NONE), Input::Dispatch);
        assert_eq!(Input::decide(mode, RawKey::Other, "A", NONE), Input::Dispatch);
        assert_eq!(Input::decide(mode, RawKey::Backspace, "Backspace", NONE), Input::Dispatch);
    }
}

#[test]
fn named_keys_in_insert_mode() {
    assert_eq!(Input::decide(Mode::Insert, RawKey::Tab, "Tab", NONE), Input::Insert('\t'));
    assert_eq!(Input::decide(Mode::Insert, RawKey::Space, "Space", NONE), Input::Insert(' '));
    assert_eq!(Input::decide(Mode::Insert, RawKey::Return, "Return", NONE), Input::Insert('\n'));
    assert_eq!(Input::decide(Mode::Insert, RawKey::Backspace, "Backspace", NONE), Input::Backspace);
    assert_eq!(Input::decide(Mode::Insert, RawKey::Escape, "Escape", NONE), Input::Dispatch);
    assert_eq!(Input::decide(Mode::Insert, RawKey::Left, "Left", NONE), Input::Dispatch);
    assert_eq!(Input::decide(Mode::Insert, RawKey::Other, "F1", NONE), Input::Dispatch);
    assert_eq!(Input::decide(Mode::Insert, RawKey::Other, "", NONE), Input::Dispatch);
}

#[test]
fn letters_in_insert_mode_follow_shift_and_caps_lock() {
    let shift = Modifiers { shift: true, ..NONE };
    let caps = Modifiers { caps: true, ..NONE };
    let both = Modifiers { shift: true, caps: true, ..NONE };
    assert_eq!(Input::decide(Mode::Insert, RawKey::Other, "A", NONE), Input::Insert('a'));
    assert_eq!(Input::decide(Mode::Insert, RawKey::Other, "A", shift), Input::Insert('A'));
    assert_eq!(Input::decide(Mode::Insert, RawKey::Other, "A", caps), Input::Insert('A'));
    assert_eq!(Input::decide(Mode::Insert, RawKey::Other, "A", both), Input::Insert('a'));
    assert_eq!(Input::decide(Mode::Insert, RawKey::Other, "a", shift), Input::Insert('A'));
    assert_eq!(Input::decide(Mode::Insert, RawKey::Other, "7", shift), Input::Insert('7'));
    assert_eq!(Input::decide(Mode::Insert, RawKey::Other, ";", NONE), Input::Insert(';'));
}

#[test]
fn names_beyond_ascii_go_to_the_dispatcher() {
    assert_eq!(Input::decide(Mode::Insert, RawKey::Other, "é", NONE), Input::Dispatch);
    assert_eq!(Input::decide(Mode::Insert, RawKey::Other, "ab", NONE), Input::Dispatch);
}
