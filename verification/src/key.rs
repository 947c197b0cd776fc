//! Keys: the canonical form of one keypress, the raw events they are decoded
//! from, and the raw events that replay them.

use vstd::prelude::*;
use crate::text::{char_lowercase, lowercase, push_char};

verus! {

/// The logical key of a keypress, without its modifiers.
#[derive(Clone, Copy, Debug, PartialEq, Eq, Hash, Structural)]
pub enum Keys {
    /// A character key. The canonical form holds the lower-case character;
    /// case is carried by the `shift` flag of the [`Key`].
    Char(char),
    Esc,
    Tab,
    CR,
    /// Input that could not be decoded. No binding ever holds it.
    Unknown,
    Left,
    Right,
    Up,
    Down,
    Backspace,
    /// The sentinel that asks for the pending chord to be resolved at once.
    /// Hardware never produces it and no binding ever holds it.
    Finish,
}

impl Default for Keys {
    fn default() -> (k: Keys)
        ensures
            k == Keys::Esc,
    {
        Keys::Esc
    }
}

/// The keys that a host reports by name rather than by text.
#[derive(Clone, Copy, Debug, PartialEq, Eq, Hash, Structural)]
pub enum RawKey {
    Tab,
    Escape,
    Return,
    Space,
    Left,
    Right,
    Up,
    Down,
    Backspace,
    /// Any other key; what it is, if anything, is told by the event's text.
    Other,
}

/// The modifier state that a host reports with a key.
#[derive(Clone, Copy, Debug, PartialEq, Eq, Hash, Structural)]
pub struct Modifiers {
    pub ctrl: bool,
    pub shift: bool,
    pub alt: bool,
    /// Caps lock is active.
    pub caps: bool,
}

impl Modifiers {
    pub open spec fn none() -> Modifiers {
        Modifiers { ctrl: false, shift: false, alt: false, caps: false }
    }
}

/// One raw input event, as the host delivers it and as macro playback
/// synthesizes it.
#[derive(Clone, Debug)]
pub struct RawEvent {
    pub key: RawKey,
    pub mods: Modifiers,
    /// The text that the keypress decoded to, if any.
    pub text: Option<String>,
    /// Set on the synthetic event that ends a macro: resolve now.
    pub finish: bool,
}

/// A raw event with its text as a sequence of characters.
pub struct RawEventView {
    pub key: RawKey,
    pub mods: Modifiers,
    pub text: Option<Seq<char>>,
    pub finish: bool,
}

/// The characters of an optional string.
pub open spec fn text_view(text: Option<String>) -> Option<Seq<char>> {
    match text {
        Some(s) => Some(s@),
        None => None,
    }
}

impl View for RawEvent {
    type V = RawEventView;

    open spec fn view(&self) -> RawEventView {
        RawEventView {
            key: self.key,
            mods: self.mods,
            text: text_view(self.text),
            finish: self.finish,
        }
    }
}

/// One keypress in canonical form: three modifiers and a logical key.
#[derive(Clone, Copy, Debug, PartialEq, Eq, Hash, Structural)]
pub struct Key {
    pub alt: bool,
    pub shift: bool,
    pub ctrl: bool,
    pub key: Keys,
}

impl Default for Key {
    fn default() -> (k: Key)
        ensures
            k == Key::plain(Keys::Esc),
    {
        Key { alt: false, shift: false, ctrl: false, key: Keys::Esc }
    }
}

impl Keys {
    /// The logical key that a raw key and its decoded text stand for: a named
    /// key stands for itself, space for the space character, and any other
    /// key for the first character of its text in lower case, or for
    /// `Unknown` where there is no such character.
    pub open spec fn classify(raw: RawKey, text: Option<Seq<char>>) -> Keys {
        match raw {
            RawKey::Tab => Keys::Tab,
            RawKey::Escape => Keys::Esc,
            RawKey::Return => Keys::CR,
            RawKey::Space => Keys::Char(' '),
            RawKey::Left => Keys::Left,
            RawKey::Right => Keys::Right,
            RawKey::Up => Keys::Up,
            RawKey::Backspace => Keys::Backspace,
            RawKey::Down => Keys::Down,
            RawKey::Other => match text {
                Some(t) => if t.len() > 0 {
                    Keys::Char(lowercase(t[0]))
                } else {
                    Keys::Unknown
                },
                None => Keys::Unknown,
            },
        }
    }

    /// Whether a binding may hold this key: every key but `Unknown` and
    /// `Finish`.
    pub open spec fn bindable(self) -> bool {
        !(self is Unknown) && !(self is Finish)
    }

    /// Decodes a raw key and its text into a logical key.
    pub fn from(value: RawKey, text: Option<String>) -> (k: Keys)
        ensures
            k == Keys::classify(value, text_view(text)),
    {
        match value {
            RawKey::Tab => Keys::Tab,
            RawKey::Escape => Keys::Esc,
            RawKey::Return => Keys::CR,
            RawKey::Space => Keys::Char(' '),
            RawKey::Left => Keys::Left,
            RawKey::Right => Keys::Right,
            RawKey::Up => Keys::Up,
            RawKey::Backspace => Keys::Backspace,
            RawKey::Down => Keys::Down,
            RawKey::Other => {
                if let Some(t) = text {
                    let mut it = t.as_str().chars();
                    if let Some(c) = it.next() {
                        return Keys::Char(char_lowercase(c));
                    }
                }
                Keys::Unknown
            },
        }
    }
}

impl Key {
    /// The key with no modifier.
    pub open spec fn plain(key: Keys) -> Key {
        Key { alt: false, shift: false, ctrl: false, key }
    }

    /// This key with its modifiers removed.
    pub open spec fn stripped(self) -> Key {
        Key::plain(self.key)
    }

    /// Whether no modifier is set.
    pub open spec fn unmodified(self) -> bool {
        !self.alt && !self.shift && !self.ctrl
    }

    /// Whether a binding may hold this key.
    pub open spec fn bindable(self) -> bool {
        self.key.bindable()
    }

    /// The key that a raw event stands for. Control and alt are taken as
    /// reported; shift is the reported shift, inverted while caps lock is
    /// active.
    pub open spec fn decode(raw: RawKey, mods: Modifiers, text: Option<Seq<char>>) -> Key {
        Key {
            alt: mods.alt,
            shift: mods.shift != mods.caps,
            ctrl: mods.ctrl,
            key: Keys::classify(raw, text),
        }
    }

    /// The raw event that replays this key.
    pub open spec fn event(self) -> RawEventView {
        let mods = Modifiers { ctrl: self.ctrl, shift: self.shift, alt: self.alt, caps: false };
        match self.key {
            Keys::Esc => RawEventView { key: RawKey::Escape, mods, text: None, finish: false },
            Keys::Tab => RawEventView { key: RawKey::Tab, mods, text: None, finish: false },
            Keys::CR => RawEventView { key: RawKey::Return, mods, text: None, finish: false },
            Keys::Up => RawEventView { key: RawKey::Up, mods, text: None, finish: false },
            Keys::Left => RawEventView { key: RawKey::Left, mods, text: None, finish: false },
            Keys::Right => RawEventView { key: RawKey::Right, mods, text: None, finish: false },
            Keys::Down => RawEventView { key: RawKey::Down, mods, text: None, finish: false },
            Keys::Backspace => RawEventView {
                key: RawKey::Backspace,
                mods,
                text: None,
                finish: false,
            },
            Keys::Unknown => RawEventView { key: RawKey::Other, mods, text: None, finish: false },
            Keys::Finish => RawEventView { key: RawKey::Other, mods, text: None, finish: true },
            Keys::Char(c) => if c == ' ' {
                RawEventView { key: RawKey::Space, mods, text: None, finish: false }
            } else {
                RawEventView { key: RawKey::Other, mods, text: Some(seq![c]), finish: false }
            },
        }
    }

    /// The sentinel key: `Finish`, without modifiers.
    pub fn finish() -> (k: Key)
        ensures
            k == Key::plain(Keys::Finish),
    {
        Key { alt: false, shift: false, ctrl: false, key: Keys::Finish }
    }

    /// This key without its modifiers.
    pub fn strip(&self) -> (k: Key)
        ensures
            k == self.stripped(),
    {
        Key { alt: false, shift: false, ctrl: false, key: self.key }
    }

    /// Decodes a raw event into a key.
    pub fn from_raw(raw: RawKey, mods: Modifiers, text: Option<String>) -> (k: Key)
        ensures
            k == Key::decode(raw, mods, text_view(text)),
    {
        Key {
            alt: mods.alt,
            shift: mods.shift != mods.caps,
            ctrl: mods.ctrl,
            key: Keys::from(raw, text),
        }
    }

    /// The raw event that replays this key. `Unknown` stands for input that
    /// could not be decoded, so there is no event that replays it.
    pub fn to_event(&self) -> (e: RawEvent)
        requires
            !(self.key is Unknown),
        ensures
            e@ == self.event(),
    {
        let mods = Modifiers { ctrl: self.ctrl, shift: self.shift, alt: self.alt, caps: false };
        let mut text: Option<String> = None;
        let mut finish = false;
        let key = match self.key {
            Keys::Esc => RawKey::Escape,
            Keys::Tab => RawKey::Tab,
            Keys::CR => RawKey::Return,
            Keys::Up => RawKey::Up,
            Keys::Left => RawKey::Left,
            Keys::Right => RawKey::Right,
            Keys::Down => RawKey::Down,
            Keys::Backspace => RawKey::Backspace,
            Keys::Unknown => RawKey::Other,
            Keys::Finish => {
                finish = true;
                RawKey::Other
            },
            Keys::Char(c) => {
                if c == ' ' {
                    RawKey::Space
                } else {
                    let mut s = String::new();
                    push_char(&mut s, c);
                    text = Some(s);
                    RawKey::Other
                }
            },
        };
        RawEvent { key, mods, text, finish }
    }
}

/// Replaying a key gives that key back: the event of a bindable key whose
/// character, if it has one, is its own lower case decodes to the key itself.
pub proof fn lemma_event_replays_key(k: Key)
    requires
        k.bindable(),
        k.key matches Keys::Char(c) ==> lowercase(c) == c,
    ensures
        Key::decode(k.event().key, k.event().mods, k.event().text) == k,
        !k.event().finish,
{
}

/// No raw event decodes to the sentinel: hardware cannot produce it, and
/// neither can playback.
pub proof fn lemma_decode_is_not_finish(raw: RawKey, mods: Modifiers, text: Option<Seq<char>>)
    ensures
        !(Key::decode(raw, mods, text).key is Finish),
{
}

/// The event of the sentinel carries the finish flag and decodes to a key
/// that no binding holds.
pub proof fn lemma_finish_event()
    ensures
        Key::plain(Keys::Finish).event().finish,
        !Key::decode(
            Key::plain(Keys::Finish).event().key,
            Key::plain(Keys::Finish).event().mods,
            Key::plain(Keys::Finish).event().text,
        ).bindable(),
{
}

} // verus!
