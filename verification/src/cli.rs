//! The command surface as plain data: what a driver asks the library to
//! do. Argument parsing itself lives with the driver.

use vstd::prelude::*;

verus! {

/// A recurrence kind: fixed day steps, whole calendar months, or a single
/// one-shot reminder.
#[derive(Clone, Copy, Debug, PartialEq, Eq, Structural)]
pub enum Routine {
    Daily,
    Weekly,
    Biweekly,
    Qweekly,
    Monthly,
    Once,
}

/// One requested operation.
#[derive(Clone, Debug)]
pub enum Commands {
    Add { what: Option<String>, date_stamp: bool, routine: Option<Routine>, non_interactive: bool },
    Mark { delete: bool },
    List,
    Listall,
    Listbox,
    Edit { diffwith: Option<String>, routines: bool },
    Count,
    Browse,
    Purge { sort: bool },
    Sink { interactive: bool },
    Shift { interactive: bool },
    Collect { from: Option<String>, interactive: bool },
    Pool { interactive: bool },
    Import { file: Option<String> },
    Cleanup,
    Checkout,
    Routines,
}

/// A full invocation: global options plus the chosen command.
#[derive(Clone, Debug)]
pub struct Cli {
    pub config: Option<String>,
    pub dir: Option<String>,
    pub inbox: Option<String>,
    pub command: Option<Commands>,
}

} // verus!
