//! Dispatch of one invocation.
//!
//! The surrounding program parses its arguments into an optional
//! subcommand and asks `run` what to do; the program then performs the
//! chosen action — recording, listing history, showing or copying a
//! stored transcript.

use vstd::prelude::*;

verus! {

/// A parsed subcommand.
pub enum Command {
    /// Show transcript history, up to `limit` entries.
    History { limit: usize },
    /// Show a transcript by identifier or identifier prefix.
    Show { id: String },
    /// Copy a transcript to the clipboard by identifier or prefix.
    Copy { id: String },
}

/// What one invocation does.
pub enum Action {
    /// Record a new transcript.
    Record,
    /// Show transcript history, up to `limit` entries.
    History { limit: usize },
    /// Show the transcript found by `id`.
    Show { id: String },
    /// Copy the transcript found by `id` to the clipboard.
    Copy { id: String },
}

/// Decides what one invocation does: with no subcommand a new
/// transcript is recorded; otherwise the subcommand names the action.
pub fn run(command: Option<Command>) -> (a: Action)
    ensures
        match command {
            None => a == Action::Record,
            Some(Command::History { limit }) => a == (Action::History { limit }),
            Some(Command::Show { id }) => a == (Action::Show { id }),
            Some(Command::Copy { id }) => a == (Action::Copy { id }),
        },
{
    match command {
        None => Action::Record,
        Some(Command::History { limit }) => Action::History { limit },
        Some(Command::Show { id }) => Action::Show { id },
        Some(Command::Copy { id }) => Action::Copy { id },
    }
}

} // verus!
