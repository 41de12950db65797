//! Borrowing the console of whatever launched the program.
//!
//! The program is built without a console of its own, so that a double click
//! goes straight to the tray. Started from a terminal it attaches to that
//! terminal's console, so that command-line output still has somewhere to go.
use vstd::prelude::*;

verus! {

/// Whether a standard handle points at something. One that is not set comes
/// back as zero or minus one, or not at all.
pub fn is_usable(handle: Option<isize>) -> (r: bool)
    ensures
        r == (handle matches Some(h) && h != 0 && h != -1),
{
    match handle {
        Some(h) => h != 0 && h != -1,
        None => false,
    }
}

/// What is done next to get hold of a console.
#[derive(Debug, Clone, Copy, PartialEq, Eq, Structural)]
pub enum ConsoleAction {
    /// Look whether standard output points at something.
    CheckOutput,
    /// Attach to the parent's console.
    Attach,
    /// Open the console for output.
    OpenOutput,
    /// Point standard output at the console unless it is set.
    SetOutput,
    /// Point standard error at the console unless it is set.
    SetError,
    /// Look whether standard input points at something.
    CheckInput,
    /// Open the console for input.
    OpenInput,
    /// Point standard input at the console.
    SetInput,
    /// Done: whether output goes anywhere.
    Done(bool),
}

/// The next action after `action`, which went well or found what it looked for
/// if `ok`.
///
/// Output that is already redirected stays where it is: pointing it at the
/// console would throw the redirection away. Input is best effort.
pub fn next_action(action: ConsoleAction, ok: bool) -> (r: ConsoleAction)
    ensures
        r == (match action {
            ConsoleAction::CheckOutput => if ok {
                ConsoleAction::Done(true)
            } else {
                ConsoleAction::Attach
            },
            ConsoleAction::Attach => if ok {
                ConsoleAction::OpenOutput
            } else {
                ConsoleAction::Done(false)
            },
            ConsoleAction::OpenOutput => if ok {
                ConsoleAction::SetOutput
            } else {
                ConsoleAction::Done(false)
            },
            ConsoleAction::SetOutput => ConsoleAction::SetError,
            ConsoleAction::SetError => ConsoleAction::CheckInput,
            ConsoleAction::CheckInput => if ok {
                ConsoleAction::Done(true)
            } else {
                ConsoleAction::OpenInput
            },
            ConsoleAction::OpenInput => if ok {
                ConsoleAction::SetInput
            } else {
                ConsoleAction::Done(true)
            },
            ConsoleAction::SetInput => ConsoleAction::Done(true),
            ConsoleAction::Done(usable) => ConsoleAction::Done(usable),
        }),
        action !is Done ==> remaining(r) < remaining(action),
{
    match action {
        ConsoleAction::CheckOutput => if ok {
            ConsoleAction::Done(true)
        } else {
            ConsoleAction::Attach
        },
        ConsoleAction::Attach => if ok {
            ConsoleAction::OpenOutput
        } else {
            ConsoleAction::Done(false)
        },
        ConsoleAction::OpenOutput => if ok {
            ConsoleAction::SetOutput
        } else {
            ConsoleAction::Done(false)
        },
        ConsoleAction::SetOutput => ConsoleAction::SetError,
        ConsoleAction::SetError => ConsoleAction::CheckInput,
        ConsoleAction::CheckInput => if ok {
            ConsoleAction::Done(true)
        } else {
            ConsoleAction::OpenInput
        },
        ConsoleAction::OpenInput => if ok {
            ConsoleAction::SetInput
        } else {
            ConsoleAction::Done(true)
        },
        ConsoleAction::SetInput => ConsoleAction::Done(true),
        ConsoleAction::Done(usable) => ConsoleAction::Done(usable),
    }
}

/// How many actions are left at most.
pub open spec fn remaining(action: ConsoleAction) -> nat {
    match action {
        ConsoleAction::CheckOutput => 8,
        ConsoleAction::Attach => 7,
        ConsoleAction::OpenOutput => 6,
        ConsoleAction::SetOutput => 5,
        ConsoleAction::SetError => 4,
        ConsoleAction::CheckInput => 3,
        ConsoleAction::OpenInput => 2,
        ConsoleAction::SetInput => 1,
        ConsoleAction::Done(_) => 0,
    }
}

} // verus!
