//! Logical input events and the actions the engine asks the host to take.

use vstd::prelude::*;

verus! {

/// A logical keyboard event. Hosts translate physical key codes into
/// these; the core never sees platform key values.
#[derive(Clone, PartialEq, Eq, Debug)]
pub enum InputEvent {
    /// One typed character, usually a letter or the break marker.
    Char(char),
    /// Remove the character before the cursor.
    Backspace,
    /// Select the highlighted candidate.
    Space,
    /// Commit the confirmed text together with the remaining raw input.
    Enter,
    /// Abandon the current composition.
    Clear,
    /// Select the candidate at the given list index.
    Select(usize),
    /// Quit; meaningful only to the host, ignored by the core.
    Exit,
}

/// A side effect the host must carry out.
#[derive(Clone, PartialEq, Eq, Debug)]
pub enum Action {
    /// Insert the given text upstream.
    Commit(String),
}

} // verus!
