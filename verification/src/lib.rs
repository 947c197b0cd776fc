//! A modal key-chord dispatcher.
//!
//! Key sequences such as `gg` or `<c-w>l` are bound to actions in the keymap
//! of a mode. The dispatcher takes raw input events one at a time, collects
//! a count and a chord, and fires the action that the chord is bound to:
//! at once where the chord cannot go on, and after a timeout where it can.
//! An action is a Lua function, or a macro whose keys are played back
//! through the dispatcher.

pub mod action;
pub mod buffer;
pub mod clock;
pub mod dispatch;
pub mod error;
pub mod key;
pub mod laws;
pub mod mode;
pub mod parse;
pub mod queue;
pub mod text;
pub mod trie;

pub use action::Action;
pub use buffer::{BufType, Cursor, CursorType, Input, Line, Pane, TextBufOptions, TextCell};
pub use dispatch::Keymaps;
pub use error::KeymapError;
pub use key::{Key, Keys, Modifiers, RawEvent, RawKey};
pub use mode::Mode;
pub use parse::{parse_keys, parse_section};
pub use queue::first;
pub use trie::Keymap;
