//! Launch policy: how the modifier keys held on a confirm keystroke turn
//! into run options and a command source.

use vstd::prelude::*;
use crate::resolve::CommandSource;

verus! {

/// Modifier-key state accompanying one confirm intent, as reported by the
/// presentation layer.
#[derive(Clone, Copy, PartialEq, Eq, Structural, Debug)]
pub struct Modifiers {
    pub ctrl: bool,
    pub alt: bool,
    pub shift: bool,
}

/// Options governing one launch: whether the application quits afterwards
/// and whether the command is recorded to the history.
#[derive(Clone, Copy, PartialEq, Eq, Structural, Debug)]
pub struct RunOptions {
    /// Whether to quit after running the command
    pub quit: bool,
    /// Whether to add this command to the history
    pub record: bool,
}

impl RunOptions {
    /// Options for a direct row activation: always quit, always record.
    pub fn activate() -> (r: RunOptions)
        ensures
            r.quit,
            r.record,
    {
        RunOptions { quit: true, record: true }
    }
}

/// Fixed policy table for a confirm keystroke: holding Ctrl keeps the
/// application open, holding Alt suppresses history recording.
pub fn decide(modifiers: Modifiers) -> (r: RunOptions)
    ensures
        r.quit == !modifiers.ctrl,
        r.record == !modifiers.alt,
{
    RunOptions { quit: !modifiers.ctrl, record: !modifiers.alt }
}

/// Command source for a confirm keystroke: holding Shift forces the entry
/// text; otherwise the list selection is used, falling back to the entry.
pub fn confirm_source(modifiers: Modifiers) -> (r: CommandSource)
    ensures
        modifiers.shift ==> r == CommandSource::Entry,
        !modifiers.shift ==> r == CommandSource::ListSelection(true),
{
    if modifiers.shift {
        CommandSource::Entry
    } else {
        CommandSource::ListSelection(true)
    }
}

} // verus!
