//! The actions the interactive layer passes around, and the windows it can
//! show. The library only defines the vocabulary; dispatch stays outside.

use vstd::prelude::*;

verus! {

/// The top-level windows of the interface.
pub enum Window {
    HelpPopup,
    Home,
    FPS,
}

/// One step of work the interactive loop can schedule.
#[derive(Clone, PartialEq, Eq, Debug)]
pub enum Action {
    Tick,
    Render,
    Resize(u16, u16),
    Suspend,
    Resume,
    Quit,
    Refresh,
    Error(String),
    Help,
    ToggleShowHelp,
    ScheduleIncrement,
    ScheduleDecrement,
    Increment(usize),
    Decrement(usize),
    CompleteInput(String),
    EditInput,
    EnterNormal,
    EnterInsert,
    EnterProcessing,
    ExitProcessing,
    Update,
    FocusLost,
    FocusGained,
    Restart,
}

} // verus!
