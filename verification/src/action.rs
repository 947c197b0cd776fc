//! Actions: what a key sequence is bound to.

use vstd::prelude::*;
use crate::error::KeymapError;

verus! {

#[verifier::external_type_specification]
#[verifier::external_body]
pub struct ExFunction(mlua::Function);

#[verifier::external_type_specification]
#[verifier::external_body]
pub struct ExLuaError(mlua::Error);

/// What a key sequence is bound to.
#[derive(Debug)]
pub enum Action {
    /// A Lua function, called with no arguments.
    Function(mlua::Function),
    /// A macro: a key sequence that is played back as if it were typed.
    Macro(String),
}

/// An action with the text of its macro as a sequence of characters. A
/// handle to a Lua function stands for the function it refers to.
pub enum ActionView {
    Function(mlua::Function),
    Macro(Seq<char>),
}

impl View for Action {
    type V = ActionView;

    open spec fn view(&self) -> ActionView {
        match self {
            Action::Function(f) => ActionView::Function(*f),
            Action::Macro(m) => ActionView::Macro(m@),
        }
    }
}

/// The view of an optional action.
pub open spec fn action_view(a: Option<Action>) -> Option<ActionView> {
    match a {
        Some(a) => Some(a@),
        None => None,
    }
}

/// Calls `mlua::Function::clone`, which copies the handle: the copy refers to
/// the same slot of the same Lua state, and so to the same function.
#[verifier::external_body]
fn clone_function(f: &mlua::Function) -> (r: mlua::Function)
    ensures
        r == *f,
{
    f.clone()
}

/// Calls `mlua::Function::call` with no arguments and no results wanted,
/// while holding the function's Lua state. `call` panics where that state
/// has been destroyed, so that case is answered with an error instead.
/// Whether the call succeeds is up to the Lua function, and so is whether it
/// returns at all; the contract claims nothing of the result.
#[verifier::external_body]
fn call_function(f: &mlua::Function) -> (r: Result<(), mlua::Error>) {
    match f.weak_lua().try_upgrade() {
        Some(_state) => f.call::<()>(()),
        None => Err(mlua::Error::runtime("Lua instance is destroyed")),
    }
}

/// Formats an `mlua::Error` through its `Display` impl.
#[verifier::external_body]
fn error_text(e: &mlua::Error) -> (s: String) {
    format!("{}", e)
}

impl Clone for Action {
    fn clone(&self) -> (a: Action)
        ensures
            a@ == self@,
    {
        match self {
            Action::Function(f) => Action::Function(clone_function(f)),
            Action::Macro(m) => Action::Macro(m.clone()),
        }
    }
}

/// What the dispatcher reports for the outcome of a call into Lua: success
/// for success, and `ActionFailed` for every failure.
pub fn call_outcome(r: Result<(), mlua::Error>) -> (o: Result<(), KeymapError>)
    ensures
        o is Ok <==> r is Ok,
        o matches Err(e) ==> e is ActionFailed,
{
    match r {
        Ok(()) => Ok(()),
        Err(e) => Err(KeymapError::ActionFailed(error_text(&e))),
    }
}

/// Calls a Lua function with no arguments. Fails with `ActionFailed` where
/// the call fails.
pub fn invoke(f: &mlua::Function) -> (r: Result<(), KeymapError>)
    ensures
        r matches Err(e) ==> e is ActionFailed,
{
    call_outcome(call_function(f))
}

} // verus!
