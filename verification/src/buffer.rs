//! The text of a pane: lines of cells, a cursor, and the edits that typing
//! makes at the cursor.
//!
//! A cell holds a character and a style. What a style is, is up to the
//! host; the buffer only hands it on.

use vstd::prelude::*;
use crate::key::{Modifiers, RawKey};
use crate::mode::Mode;
use crate::text::{char_lowercase, char_uppercase, chars_of, lowercase, uppercase};

verus! {

/// One character of the text, with its style.
#[derive(Clone, Copy, Debug, PartialEq, Eq)]
pub struct TextCell<S> {
    pub char: char,
    pub style: S,
}

/// One line of the text.
#[derive(Debug)]
pub struct Line<S> {
    pub cells: Vec<TextCell<S>>,
}

/// How the cursor is drawn.
#[derive(Clone, Copy, Debug, PartialEq, Eq, Structural)]
pub enum CursorType {
    Block,
    Line,
    Underline,
}

/// Where the cursor is: `x` cells into line `y`.
#[derive(Clone, Copy, Debug, PartialEq, Eq, Structural)]
pub struct Cursor {
    pub x: u32,
    pub y: u32,
    pub cursor_type: CursorType,
}

/// The options of a text buffer. There are none yet.
#[derive(Clone, Copy, Debug, PartialEq, Eq, Structural)]
pub struct TextBufOptions {
}

/// What a pane shows.
#[derive(Debug)]
pub enum BufType<S> {
    Text { buf: Vec<Line<S>>, cursor: Cursor, opts: TextBufOptions },
}

/// A pane. With `z_index` 0 it is tiled, otherwise it floats.
#[derive(Debug)]
pub struct Pane<S> {
    pub z_index: u32,
    pub buf: BufType<S>,
}

/// What a keypress in a pane asks for.
#[derive(Clone, Copy, Debug, PartialEq, Eq, Structural)]
pub enum Input {
    /// Type this character at the cursor.
    Insert(char),
    /// Delete the character before the cursor.
    Backspace,
    /// Hand the key to the dispatcher.
    Dispatch,
}

/// The text of a pane as a value: the cells of each line, and the cursor.
pub struct Text<S> {
    pub lines: Seq<Seq<TextCell<S>>>,
    pub cursor: Cursor,
}

/// The cell of a character in a style.
pub open spec fn cell<S>(c: char, style: S) -> TextCell<S> {
    TextCell { char: c, style }
}

/// The cells of the characters of `chars`, each in `style`.
pub open spec fn cells_of<S>(chars: Seq<char>, style: S) -> Seq<TextCell<S>> {
    Seq::new(chars.len(), |i: int| cell(chars[i], style))
}

/// The cells of each of the lines.
pub open spec fn lines_view<S>(buf: Seq<Line<S>>) -> Seq<Seq<TextCell<S>>> {
    Seq::new(buf.len(), |i: int| buf[i].cells@)
}

/// The characters that typing `c` inserts: a tab stands for `tabs` spaces
/// where `tabs` is set; every other character stands for itself.
pub open spec fn expansion(c: char, tabs: Option<usize>) -> Seq<char> {
    if c == '\t' {
        match tabs {
            Some(n) => Seq::new(n as nat, |i: int| ' '),
            None => seq!['\t'],
        }
    } else {
        seq![c]
    }
}

/// Whether a key name is a single ASCII character.
pub open spec fn is_letter_name(name: Seq<char>) -> bool {
    name.len() == 1 && (name[0] as u32) < 128
}

impl CursorType {
    /// How the cursor is drawn in a mode: as a line in insert mode, as a
    /// block otherwise.
    pub open spec fn of(mode: Mode) -> CursorType {
        match mode {
            Mode::Normal => CursorType::Block,
            Mode::Insert => CursorType::Line,
            Mode::Visual => CursorType::Block,
        }
    }

    /// How the cursor is drawn in a mode.
    pub fn for_mode(mode: Mode) -> (t: CursorType)
        ensures
            t == CursorType::of(mode),
    {
        match mode {
            Mode::Normal => CursorType::Block,
            Mode::Insert => CursorType::Line,
            Mode::Visual => CursorType::Block,
        }
    }
}

impl TextBufOptions {
    pub fn new() -> (o: TextBufOptions)
        ensures
            o == (TextBufOptions {  }),
    {
        TextBufOptions {  }
    }
}

impl Input {
    /// What a keypress asks for. Outside insert mode every key goes to the
    /// dispatcher. In insert mode tab, space and return type their
    /// character, backspace deletes, and a key whose name is a single ASCII
    /// character types that character: in upper case where shift or caps
    /// lock is on, but not both, and in lower case otherwise. Every other
    /// key goes to the dispatcher.
    pub open spec fn of(mode: Mode, key: RawKey, name: Seq<char>, mods: Modifiers) -> Input {
        if mode != Mode::Insert {
            Input::Dispatch
        } else {
            match key {
                RawKey::Tab => Input::Insert('\t'),
                RawKey::Space => Input::Insert(' '),
                RawKey::Return => Input::Insert('\n'),
                RawKey::Backspace => Input::Backspace,
                _ => if is_letter_name(name) {
                    if mods.shift != mods.caps {
                        Input::Insert(uppercase(name[0]))
                    } else {
                        Input::Insert(lowercase(name[0]))
                    }
                } else {
                    Input::Dispatch
                },
            }
        }
    }

    /// What a keypress asks for, by the key, the name that the host has for
    /// it, and the modifiers.
    pub fn decide(mode: Mode, key: RawKey, name: &str, mods: Modifiers) -> (i: Input)
        ensures
            i == Input::of(mode, key, name@, mods),
    {
        match mode {
            Mode::Insert => {},
            _ => {
                return Input::Dispatch;
            },
        }
        match key {
            RawKey::Tab => Input::Insert('\t'),
            RawKey::Space => Input::Insert(' '),
            RawKey::Return => Input::Insert('\n'),
            RawKey::Backspace => Input::Backspace,
            _ => {
                let letters = chars_of(name);
                if letters.len() == 1 && (letters[0] as u32) < 128 {
                    if mods.shift != mods.caps {
                        Input::Insert(char_uppercase(letters[0]))
                    } else {
                        Input::Insert(char_lowercase(letters[0]))
                    }
                } else {
                    Input::Dispatch
                }
            },
        }
    }
}

impl<S> Text<S> {
    /// Whether the cursor is in the text: on a line, and at a cell of it or
    /// at its end.
    pub open spec fn cursor_in_text(self) -> bool {
        self.cursor.y < self.lines.len() && self.cursor.x <= self.lines[self.cursor.y as int].len()
    }

    /// The text with the cursor at `x`, `y`.
    pub open spec fn moved(self, x: u32, y: u32) -> Text<S> {
        Text { cursor: Cursor { x, y, ..self.cursor }, ..self }
    }

    /// The text with empty lines added until it has a line for the cursor,
    /// blank cells of `style` added to that line until it has a cell for the
    /// cursor, and the cursor drawn as `mode` has it.
    pub open spec fn fixed(self, mode: Mode, style: S) -> Text<S> {
        let y = self.cursor.y as int;
        let x = self.cursor.x as int;
        let lines = if self.lines.len() > y {
            self.lines
        } else {
            self.lines + Seq::new((y + 1 - self.lines.len()) as nat, |i: int| Seq::empty())
        };
        let line = if lines[y].len() > x {
            lines[y]
        } else {
            lines[y] + Seq::new((x + 1 - lines[y].len()) as nat, |i: int| cell(' ', style))
        };
        Text {
            lines: lines.update(y, line),
            cursor: Cursor { cursor_type: CursorType::of(mode), ..self.cursor },
        }
    }

    /// The text after `c` is typed at the cursor. A newline breaks the line
    /// at the cursor and puts the cursor at the start of the new line. Any
    /// other character is inserted at the cursor, a tab as [`expansion`] has
    /// it, in cells of `style`, and the cursor moves behind what was
    /// inserted.
    pub open spec fn typed(self, c: char, tabs: Option<usize>, style: S) -> Text<S> {
        let y = self.cursor.y as int;
        let x = self.cursor.x as int;
        let line = self.lines[y];
        if c == '\n' {
            Text {
                lines: self.lines.update(y, line.subrange(0, x)).insert(
                    y + 1,
                    line.subrange(x, line.len() as int),
                ),
                cursor: Cursor { x: 0, y: (y + 1) as u32, ..self.cursor },
            }
        } else {
            let cells = cells_of(expansion(c, tabs), style);
            Text {
                lines: self.lines.update(
                    y,
                    line.subrange(0, x) + cells + line.subrange(x, line.len() as int),
                ),
                cursor: Cursor { x: (x + cells.len()) as u32, ..self.cursor },
            }
        }
    }

    /// The text after a backspace. Within a line the cell before the cursor
    /// goes and the cursor moves back. At the start of a line that is not
    /// the first, the line is joined to the one above, with the cursor at
    /// the joint. At the start of the text nothing changes.
    pub open spec fn backspaced(self) -> Text<S> {
        let y = self.cursor.y as int;
        let x = self.cursor.x as int;
        if x > 0 {
            Text {
                lines: self.lines.update(y, self.lines[y].remove(x - 1)),
                cursor: Cursor { x: (x - 1) as u32, ..self.cursor },
            }
        } else if y > 0 {
            Text {
                lines: self.lines.remove(y).update(y - 1, self.lines[y - 1] + self.lines[y]),
                cursor: Cursor {
                    x: self.lines[y - 1].len() as u32,
                    y: (y - 1) as u32,
                    ..self.cursor
                },
            }
        } else {
            self
        }
    }

    /// The text without the line of the cursor. The cursor goes to the
    /// start of the line that follows, or of the last line where none
    /// follows.
    pub open spec fn line_deleted(self) -> Text<S> {
        let y = self.cursor.y as int;
        let lines = self.lines.remove(y);
        Text {
            lines,
            cursor: Cursor {
                x: 0,
                y: if y >= lines.len() && y > 0 {
                    (y - 1) as u32
                } else {
                    y as u32
                },
                ..self.cursor
            },
        }
    }
}

impl<S: Copy> View for Pane<S> {
    type V = Text<S>;

    open spec fn view(&self) -> Text<S> {
        Text { lines: lines_view(self.buf->buf@), cursor: self.buf->cursor }
    }
}

impl<S: Copy> Pane<S> {
    /// A pane with an empty text and a block cursor at its start.
    pub fn text(z_index: u32) -> (p: Pane<S>)
        ensures
            p.z_index == z_index,
            p@.lines.len() == 0,
            p@.cursor == (Cursor { x: 0, y: 0, cursor_type: CursorType::Block }),
    {
        Pane {
            z_index,
            buf: BufType::Text {
                buf: Vec::new(),
                cursor: Cursor { x: 0, y: 0, cursor_type: CursorType::Block },
                opts: TextBufOptions::new(),
            },
        }
    }

    /// Puts the cursor at `x`, `y`, whether or not the text reaches there.
    pub fn set_cursor(&mut self, x: u32, y: u32)
        ensures
            final(self)@ == old(self)@.moved(x, y),
            final(self).z_index == old(self).z_index,
    {
        match &mut self.buf {
            BufType::Text { cursor, .. } => {
                cursor.x = x;
                cursor.y = y;
            },
        }
        assert(self@.lines =~= old(self)@.lines);
    }

    /// Where the cursor is: `x`, then `y`.
    pub fn get_cursor(&self) -> (at: (u32, u32))
        ensures
            at == (self@.cursor.x, self@.cursor.y),
    {
        match &self.buf {
            BufType::Text { cursor, .. } => (cursor.x, cursor.y),
        }
    }

    /// Makes room for the cursor: adds empty lines until there is a line
    /// for it, and blank cells of `style` to that line until there is a cell
    /// for it. Sets how the cursor is drawn by the mode.
    pub fn fix_cursor(&mut self, mode: Mode, style: S)
        ensures
            final(self)@ == old(self)@.fixed(mode, style),
            final(self)@.cursor_in_text(),
            final(self).z_index == old(self).z_index,
    {
        match &mut self.buf {
            BufType::Text { buf, cursor, .. } => {
                pad_lines(buf, cursor.y);
                pad_cells(&mut buf[cursor.y as usize].cells, cursor.x, style);
                cursor.cursor_type = CursorType::for_mode(mode);
            },
        }
        assert(self@.lines =~= old(self)@.fixed(mode, style).lines);
    }

    /// Types `c` at the cursor. A newline breaks the line there. A tab is
    /// typed as `tabs` spaces where `tabs` is set. New cells get `style`.
    pub fn insert_char(&mut self, c: char, tabs: Option<usize>, style: S)
        requires
            old(self)@.cursor_in_text(),
            c == '\n' ==> old(self)@.cursor.y < u32::MAX,
            c != '\n' ==> old(self)@.cursor.x + expansion(c, tabs).len() <= u32::MAX,
        ensures
            final(self)@ == old(self)@.typed(c, tabs, style),
            final(self)@.cursor_in_text(),
            final(self).z_index == old(self).z_index,
    {
        match &mut self.buf {
            BufType::Text { buf, cursor, .. } => {
                let y = cursor.y as usize;
                let x = cursor.x as usize;
                if c == '\n' {
                    let tail = buf[y].cells.split_off(x);
                    buf.insert(y + 1, Line { cells: tail });
                    cursor.x = 0;
                    cursor.y += 1;
                } else {
                    let n = insert_cells(&mut buf[y].cells, x, c, tabs, style);
                    cursor.x += n;
                }
            },
        }
        proof {
            let before = old(self)@;
            let after = before.typed(c, tabs, style);
            assert(self@.lines =~= after.lines);
            if c != '\n' {
                let cells = cells_of(expansion(c, tabs), style);
                let line = before.lines[before.cursor.y as int];
                let x = before.cursor.x as int;
                assert(cells.len() == expansion(c, tabs).len());
                assert(line.subrange(0, x).len() == x);
                assert(line.subrange(x, line.len() as int).len() == line.len() - x);
                assert(after.lines[before.cursor.y as int].len() == line.len() + cells.len());
            }
        }
    }

    /// Deletes backwards from the cursor: the cell before it, or at the
    /// start of a line the line break before it.
    pub fn backspace(&mut self)
        requires
            old(self)@.cursor_in_text(),
            old(self)@.cursor.x == 0 && old(self)@.cursor.y > 0 ==> old(self)@.lines[old(
                self,
            )@.cursor.y - 1].len() <= u32::MAX,
        ensures
            final(self)@ == old(self)@.backspaced(),
            final(self)@.cursor_in_text(),
            final(self).z_index == old(self).z_index,
    {
        match &mut self.buf {
            BufType::Text { buf, cursor, .. } => {
                if cursor.x > 0 {
                    cursor.x -= 1;
                    buf[cursor.y as usize].cells.remove(cursor.x as usize);
                } else if cursor.y > 0 {
                    let mut c = buf.remove(cursor.y as usize);
                    cursor.y -= 1;
                    cursor.x = buf[cursor.y as usize].cells.len() as u32;
                    buf[cursor.y as usize].cells.append(&mut c.cells);
                }
            },
        }
        assert(self@.lines =~= old(self)@.backspaced().lines);
    }

    /// Deletes the line of the cursor.
    pub fn delete_line(&mut self)
        requires
            old(self)@.cursor.y < old(self)@.lines.len(),
        ensures
            final(self)@ == old(self)@.line_deleted(),
            final(self).z_index == old(self).z_index,
    {
        match &mut self.buf {
            BufType::Text { buf, cursor, .. } => {
                buf.remove(cursor.y as usize);
                cursor.x = 0;
                if cursor.y as usize >= buf.len() {
                    if cursor.y > 0 {
                        cursor.y -= 1;
                    }
                }
            },
        }
        assert(self@.lines =~= old(self)@.line_deleted().lines);
    }
}

/// Adds empty lines until there is a line `y`.
fn pad_lines<S>(buf: &mut Vec<Line<S>>, y: u32)
    ensures
        lines_view(final(buf)@) == (if old(buf)@.len() > y {
            lines_view(old(buf)@)
        } else {
            lines_view(old(buf)@) + Seq::new(
                (y + 1 - old(buf)@.len()) as nat,
                |i: int| Seq::<TextCell<S>>::empty(),
            )
        }),
        final(buf)@.len() > y,
{
    while buf.len() <= y as usize
        invariant
            old(buf)@.len() <= buf@.len() <= y + 1 || buf@ == old(buf)@,
            forall|i: int| 0 <= i < old(buf)@.len() ==> buf@[i] == old(buf)@[i],
            forall|i: int|
                old(buf)@.len() <= i < buf@.len() ==> (#[trigger] buf@[i]).cells@.len() == 0,
        decreases y + 1 - buf@.len(),
    {
        buf.push(Line { cells: Vec::new() });
    }
    assert(lines_view(buf@) =~= (if old(buf)@.len() > y {
        lines_view(old(buf)@)
    } else {
        lines_view(old(buf)@) + Seq::new(
            (y + 1 - old(buf)@.len()) as nat,
            |i: int| Seq::<TextCell<S>>::empty(),
        )
    })) by {
        assert forall|i: int| old(buf)@.len() <= i < buf@.len() implies lines_view(buf@)[i]
            =~= Seq::<TextCell<S>>::empty() by {
            assert(buf@[i].cells@.len() == 0);
        }
    }
}

/// Adds blank cells of `style` until there is a cell `x`.
fn pad_cells<S: Copy>(cells: &mut Vec<TextCell<S>>, x: u32, style: S)
    ensures
        final(cells)@ == (if old(cells)@.len() > x {
            old(cells)@
        } else {
            old(cells)@ + Seq::new((x + 1 - old(cells)@.len()) as nat, |i: int| cell(' ', style))
        }),
        final(cells)@.len() > x,
{
    while cells.len() <= x as usize
        invariant
            old(cells)@.len() <= cells@.len() <= x + 1 || cells@ == old(cells)@,
            forall|i: int| 0 <= i < old(cells)@.len() ==> cells@[i] == old(cells)@[i],
            forall|i: int| old(cells)@.len() <= i < cells@.len() ==> cells@[i] == cell(' ', style),
        decreases x + 1 - cells@.len(),
    {
        cells.push(TextCell { char: ' ', style });
    }
    assert(cells@ =~= (if old(cells)@.len() > x {
        old(cells)@
    } else {
        old(cells)@ + Seq::new((x + 1 - old(cells)@.len()) as nat, |i: int| cell(' ', style))
    }));
}

/// Inserts at `x` the cells that typing `c` makes, and returns how many
/// they are.
fn insert_cells<S: Copy>(
    cells: &mut Vec<TextCell<S>>,
    x: usize,
    c: char,
    tabs: Option<usize>,
    style: S,
) -> (n: u32)
    requires
        x <= old(cells)@.len(),
        c != '\n',
        x + expansion(c, tabs).len() <= u32::MAX,
    ensures
        n == expansion(c, tabs).len(),
        final(cells)@ == old(cells)@.subrange(0, x as int) + cells_of(expansion(c, tabs), style)
            + old(cells)@.subrange(x as int, old(cells)@.len() as int),
{
    let ghost typed = cells_of(expansion(c, tabs), style);
    if c == '\t' {
        if let Some(count) = tabs {
            let mut i: usize = 0;
            while i < count
                invariant
                    i <= count,
                    x + count <= u32::MAX,
                    x <= old(cells)@.len(),
                    cells@ == old(cells)@.subrange(0, x as int) + Seq::new(
                        i as nat,
                        |j: int| cell(' ', style),
                    ) + old(cells)@.subrange(x as int, old(cells)@.len() as int),
                decreases count - i,
            {
                cells.insert(x + i, TextCell { char: ' ', style });
                i += 1;
                assert(cells@ =~= old(cells)@.subrange(0, x as int) + Seq::new(
                    i as nat,
                    |j: int| cell(' ', style),
                ) + old(cells)@.subrange(x as int, old(cells)@.len() as int));
            }
            assert(Seq::new(count as nat, |j: int| cell(' ', style)) =~= typed);
            return count as u32;
        }
    }
    cells.insert(x, TextCell { char: c, style });
    proof {
        assert(expansion(c, tabs) =~= seq![c]);
        assert(typed.len() == 1);
        assert(typed[0] == cell(c, style));
        assert(cells@ =~= old(cells)@.subrange(0, x as int) + typed + old(cells)@.subrange(
            x as int,
            old(cells)@.len() as int,
        ));
    }
    1
}

/// Typing a character and then a backspace leaves the text as it was.
pub proof fn lemma_backspace_undoes_typing<S>(t: Text<S>, c: char, tabs: Option<usize>, style: S)
    requires
        t.cursor_in_text(),
        t.cursor.x < u32::MAX,
        c != '\n',
        c != '\t' || tabs is None,
    ensures
        t.typed(c, tabs, style).backspaced() == t,
{
    let y = t.cursor.y as int;
    let x = t.cursor.x as int;
    let line = t.lines[y];
    let cells = cells_of(expansion(c, tabs), style);
    assert(expansion(c, tabs) =~= seq![c]);
    assert(cells.len() == 1);
    let typed = t.typed(c, tabs, style);
    let grown = line.subrange(0, x) + cells + line.subrange(x, line.len() as int);
    assert(typed.lines[y] == grown);
    assert(grown.remove(x) =~= line);
    assert(typed.backspaced().lines =~= t.lines);
}

/// Breaking a line and then a backspace leaves the text as it was.
pub proof fn lemma_backspace_undoes_newline<S>(t: Text<S>, tabs: Option<usize>, style: S)
    requires
        t.cursor_in_text(),
        t.cursor.y < u32::MAX,
    ensures
        t.typed('\n', tabs, style).backspaced() == t,
{
    let y = t.cursor.y as int;
    let x = t.cursor.x as int;
    let line = t.lines[y];
    let broken = t.typed('\n', tabs, style);
    assert(broken.lines[y] == line.subrange(0, x));
    assert(broken.lines[y + 1] == line.subrange(x, line.len() as int));
    assert(line.subrange(0, x) + line.subrange(x, line.len() as int) =~= line);
    assert(broken.backspaced().lines =~= t.lines);
}

/// After typing, the cursor is still in the text, behind what was typed.
pub proof fn lemma_typing_keeps_cursor_in_text<S>(
    t: Text<S>,
    c: char,
    tabs: Option<usize>,
    style: S,
)
    requires
        t.cursor_in_text(),
        c == '\n' ==> t.cursor.y < u32::MAX,
        c != '\n' ==> t.cursor.x + expansion(c, tabs).len() <= u32::MAX,
    ensures
        t.typed(c, tabs, style).cursor_in_text(),
        c != '\n' ==> t.typed(c, tabs, style).lines.len() == t.lines.len(),
        c == '\n' ==> t.typed(c, tabs, style).lines.len() == t.lines.len() + 1,
{
    let y = t.cursor.y as int;
    let x = t.cursor.x as int;
    let line = t.lines[y];
    if c != '\n' {
        let cells = cells_of(expansion(c, tabs), style);
        assert(cells.len() == expansion(c, tabs).len());
        assert(line.subrange(0, x).len() == x);
        assert(line.subrange(x, line.len() as int).len() == line.len() - x);
        assert(t.typed(c, tabs, style).lines[y].len() == line.len() + cells.len());
    }
}

} // verus!
