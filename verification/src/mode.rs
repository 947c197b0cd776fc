//! Editing modes.

use vstd::prelude::*;
use crate::text::{char_lowercase, lowercase};

verus! {

/// The editing mode of the host, which selects the keymap that is consulted.
#[derive(Clone, Copy, Debug, PartialEq, Eq, Hash, Structural)]
pub enum Mode {
    Normal,
    Insert,
    Visual,
}

impl Mode {
    /// The letter that names this mode.
    pub open spec fn letter(self) -> char {
        match self {
            Mode::Insert => 'i',
            Mode::Normal => 'n',
            Mode::Visual => 'v',
        }
    }

    /// The mode that a character names, if it names one: `i`, `n` or `v`,
    /// in either case.
    pub open spec fn named(c: char) -> Option<Mode> {
        let l = lowercase(c);
        if l == 'i' {
            Some(Mode::Insert)
        } else if l == 'n' {
            Some(Mode::Normal)
        } else if l == 'v' {
            Some(Mode::Visual)
        } else {
            None
        }
    }

    /// The letter that names this mode.
    pub fn to_char(&self) -> (c: char)
        ensures
            c == self.letter(),
    {
        match self {
            Mode::Insert => 'i',
            Mode::Normal => 'n',
            Mode::Visual => 'v',
        }
    }

    /// The mode that a character names, or `None` where it names none.
    pub fn from(c: char) -> (m: Option<Mode>)
        ensures
            m == Mode::named(c),
    {
        let l = char_lowercase(c);
        if l == 'i' {
            Some(Mode::Insert)
        } else if l == 'n' {
            Some(Mode::Normal)
        } else if l == 'v' {
            Some(Mode::Visual)
        } else {
            None
        }
    }
}

} // verus!
