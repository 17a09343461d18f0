//! A task-list library: checkbox documents ("boxes") holding major and sub
//! tasks, a recurrence scheduler for routine templates, and the move engine
//! that transfers open tasks between boxes.

pub mod cli;
pub mod clock;
pub mod codec;
pub mod conf;
pub mod date;
pub mod routine;
pub mod taskbox;

use vstd::prelude::*;

verus! {

/// Reserved name of the default inbox box.
pub const INBOX_BOXNAME: &'static str = "INBOX";

/// Reserved name of the recurring-template box.
pub const ROUTINE_BOXNAME: &'static str = "ROUTINES";

} // verus!
