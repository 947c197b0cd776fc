//! The errors of the library.

use vstd::prelude::*;
use crate::text::push_char;

verus! {

/// What can go wrong when a binding is registered or an action is run.
#[derive(Debug)]
pub enum KeymapError {
    /// A `<...>` section of a key sequence names no key. Holds the name.
    UnknownKey(String),
    /// A mode string holds a character that names no mode.
    UnknownMode(char),
    /// The function behind an action failed. Holds its message.
    ActionFailed(String),
}

/// An error with its texts as sequences of characters.
pub enum KeymapErrorView {
    UnknownKey(Seq<char>),
    UnknownMode(char),
    ActionFailed(Seq<char>),
}

impl View for KeymapError {
    type V = KeymapErrorView;

    open spec fn view(&self) -> KeymapErrorView {
        match self {
            KeymapError::UnknownKey(name) => KeymapErrorView::UnknownKey(name@),
            KeymapError::UnknownMode(c) => KeymapErrorView::UnknownMode(*c),
            KeymapError::ActionFailed(message) => KeymapErrorView::ActionFailed(message@),
        }
    }
}

impl KeymapErrorView {
    /// The sentence that describes the error.
    pub open spec fn message(self) -> Seq<char> {
        match self {
            KeymapErrorView::UnknownKey(name) => "unknown key <"@ + name + ">"@,
            KeymapErrorView::UnknownMode(c) => "mode '"@ + seq![c] + "' doesn't exist"@,
            KeymapErrorView::ActionFailed(message) => "action failed: "@ + message + ""@,
        }
    }
}

impl KeymapError {
    /// A sentence that describes the error.
    pub fn message(&self) -> (s: String)
        ensures
            s@ == self@.message(),
    {
        match self {
            KeymapError::UnknownKey(name) => describe("unknown key <", name.as_str(), ">"),
            KeymapError::UnknownMode(c) => {
                let mut name = String::new();
                push_char(&mut name, *c);
                describe("mode '", name.as_str(), "' doesn't exist")
            },
            KeymapError::ActionFailed(message) => describe("action failed: ", message.as_str(), ""),
        }
    }
}

/// The three parts put together.
fn describe(before: &str, middle: &str, after: &str) -> (s: String)
    ensures
        s@ == before@ + middle@ + after@,
{
    let mut s = String::from_str(before);
    s.append(middle);
    s.append(after);
    s
}

} // verus!
