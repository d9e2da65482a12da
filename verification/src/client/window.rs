//! What the user does to the window, and what comes of it.

use vstd::prelude::*;

verus! {

/// The keys that mean something to the window.
#[derive(Debug, Clone, Copy, PartialEq, Eq, Structural)]
pub enum Key {
    Escape,
    F4,
    Other,
}

/// Something that happens to the window.
#[derive(Debug, Clone, Copy, PartialEq, Eq, Structural)]
pub enum WindowInput {
    CloseRequested,
    /// A key goes down or up. Not every key has a name.
    Keyboard { key: Option<Key>, pressed: bool },
    Resized,
    Other,
}

/// What the window does about it.
#[derive(Debug, Clone, Copy, PartialEq, Eq, Structural)]
pub enum Reaction {
    /// The program ends.
    Exit,
    /// The surface, the depth buffer and the camera take on the new size.
    Reconfigure,
    /// Nothing more.
    Nothing,
}

/// Whether the program ends: the window is closed, or escape goes down.
pub open spec fn ends(input: WindowInput) -> bool {
    ||| input is CloseRequested
    ||| input == WindowInput::Keyboard { key: Some(Key::Escape), pressed: true }
}

/// Whether the chunk lines are switched on or off: F4 goes down.
pub open spec fn switches_lines(input: WindowInput) -> bool {
    input == WindowInput::Keyboard { key: Some(Key::F4), pressed: true }
}

/// Whether the chunk lines are shown after `input`, when they were `shown` before.
pub open spec fn lines_after(input: WindowInput, shown: bool) -> bool {
    if switches_lines(input) {
        !shown
    } else {
        shown
    }
}

/// The same input twice leaves the chunk lines as they were.
pub proof fn lines_switch_back(input: WindowInput, shown: bool)
    ensures
        lines_after(input, lines_after(input, shown)) == shown,
{
}

/// Decides what the window does about `input`, and whether the chunk lines are shown from
/// then on.
pub fn react(input: WindowInput, chunklines_shown: bool) -> (res: (Reaction, bool))
    ensures
        res.0 is Exit <==> ends(input),
        res.0 is Reconfigure <==> input is Resized,
        res.1 == lines_after(input, chunklines_shown),
        match input {
            WindowInput::CloseRequested => res == (Reaction::Exit, chunklines_shown),
            WindowInput::Resized => res == (Reaction::Reconfigure, chunklines_shown),
            WindowInput::Other => res == (Reaction::Nothing, chunklines_shown),
            WindowInput::Keyboard { key, pressed } => {
                &&& res.0 == Reaction::Exit <==> pressed && key == Some(Key::Escape)
                &&& res.0 != Reaction::Exit ==> res.0 == Reaction::Nothing
                &&& res.1 != chunklines_shown <==> pressed && key == Some(Key::F4)
            },
        },
{
    match input {
        WindowInput::CloseRequested => (Reaction::Exit, chunklines_shown),
        WindowInput::Keyboard { key: Some(Key::Escape), pressed: true } => (
            Reaction::Exit,
            chunklines_shown,
        ),
        WindowInput::Keyboard { key: Some(Key::F4), pressed: true } => (
            Reaction::Nothing,
            !chunklines_shown,
        ),
        WindowInput::Resized => (Reaction::Reconfigure, chunklines_shown),
        _ => (Reaction::Nothing, chunklines_shown),
    }
}

} // verus!
