//! The order in which a file is replaced.
//!
//! The new content goes to a temporary file beside the file; only when
//! every byte is written and flushed is the temporary file renamed over
//! the file, as the last step.  The caller does each step and reports how
//! it went; what to do next is decided here.  After a failure nothing more
//! is done: the file is as it was, and the temporary file, if it came to
//! be, is left for the caller to remove.

use vstd::prelude::*;

verus! {

/// Where the replacing of a file stands.
#[derive(Clone, Copy, Debug, PartialEq, Eq, Structural)]
pub enum ReplaceState {
    /// The temporary file is being written.
    Writing,
    /// The temporary file is being flushed.
    Flushing,
    /// The temporary file is being renamed over the file.
    Renaming,
    /// The file is replaced.
    Done,
    /// A step failed.
    Failed,
}

/// What the caller is to do next.
#[derive(Clone, Copy, Debug, PartialEq, Eq, Structural)]
pub enum ReplaceAction {
    /// Create the temporary file and write every byte to it.
    WriteTemp,
    /// Flush the temporary file and close it.
    FlushTemp,
    /// Rename the temporary file over the file.
    RenameTemp,
    /// Nothing: the file is replaced.
    Finish,
    /// Nothing: report the failure of the last step.
    GiveUp,
}

/// What is asked of the caller in a state.
pub open spec fn action_in(state: ReplaceState) -> ReplaceAction {
    match state {
        ReplaceState::Writing => ReplaceAction::WriteTemp,
        ReplaceState::Flushing => ReplaceAction::FlushTemp,
        ReplaceState::Renaming => ReplaceAction::RenameTemp,
        ReplaceState::Done => ReplaceAction::Finish,
        ReplaceState::Failed => ReplaceAction::GiveUp,
    }
}

/// The state that follows `state` once the step asked for in it went well
/// (`succeeded`) or not.
pub open spec fn state_after(state: ReplaceState, succeeded: bool) -> ReplaceState {
    match state {
        ReplaceState::Writing => if succeeded {
            ReplaceState::Flushing
        } else {
            ReplaceState::Failed
        },
        ReplaceState::Flushing => if succeeded {
            ReplaceState::Renaming
        } else {
            ReplaceState::Failed
        },
        ReplaceState::Renaming => if succeeded {
            ReplaceState::Done
        } else {
            ReplaceState::Failed
        },
        ReplaceState::Done => ReplaceState::Done,
        ReplaceState::Failed => ReplaceState::Failed,
    }
}

/// The state after the steps whose outcomes are `reports`, in their order.
pub open spec fn state_reached(reports: Seq<bool>) -> ReplaceState
    decreases reports.len(),
{
    if reports.len() == 0 {
        ReplaceState::Writing
    } else {
        state_after(state_reached(reports.drop_last()), reports.last())
    }
}

/// The state in which replacing starts, and the first thing to do.
pub fn begin_replace() -> (r: (ReplaceState, ReplaceAction))
    ensures
        r.0 == ReplaceState::Writing,
        r.1 == action_in(r.0),
{
    (ReplaceState::Writing, ReplaceAction::WriteTemp)
}

/// The state after the step that was asked for in `state`, and the next
/// thing to do.
pub fn next_step(state: ReplaceState, succeeded: bool) -> (r: (ReplaceState, ReplaceAction))
    ensures
        r.0 == state_after(state, succeeded),
        r.1 == action_in(r.0),
{
    let next = match state {
        ReplaceState::Writing => if succeeded {
            ReplaceState::Flushing
        } else {
            ReplaceState::Failed
        },
        ReplaceState::Flushing => if succeeded {
            ReplaceState::Renaming
        } else {
            ReplaceState::Failed
        },
        ReplaceState::Renaming => if succeeded {
            ReplaceState::Done
        } else {
            ReplaceState::Failed
        },
        ReplaceState::Done => ReplaceState::Done,
        ReplaceState::Failed => ReplaceState::Failed,
    };
    let action = match next {
        ReplaceState::Writing => ReplaceAction::WriteTemp,
        ReplaceState::Flushing => ReplaceAction::FlushTemp,
        ReplaceState::Renaming => ReplaceAction::RenameTemp,
        ReplaceState::Done => ReplaceAction::Finish,
        ReplaceState::Failed => ReplaceAction::GiveUp,
    };
    (next, action)
}

/// Whatever the caller reports, the rename is asked for only when exactly
/// two steps were done and both went well: the writing and the flushing.
/// The file counts as replaced only when the rename went well too, and
/// once a step has failed nothing more is asked for.
pub proof fn law_rename_comes_last(reports: Seq<bool>)
    ensures
        state_reached(reports) == ReplaceState::Flushing <==> reports == seq![true],
        state_reached(reports) == ReplaceState::Renaming <==> reports == seq![true, true],
        state_reached(reports) == ReplaceState::Done <==> reports.len() >= 3 && reports[0]
            && reports[1] && reports[2],
        state_reached(reports) == ReplaceState::Writing <==> reports.len() == 0,
        state_reached(reports) == ReplaceState::Failed <==> exists|i: int|
            0 <= i < reports.len() && i < 3 && !reports[i],
    decreases reports.len(),
{
    if reports.len() > 0 {
        let init = reports.drop_last();
        law_rename_comes_last(init);
        assert(reports =~= init.push(reports.last()));
        if reports.len() == 1 {
            assert(reports[0] ==> reports =~= seq![true]);
        } else if reports.len() == 2 {
            assert(init == seq![true] ==> init[0]);
            assert(reports[0] && reports[1] ==> reports =~= seq![true, true]);
            assert(reports == seq![true, true] ==> init =~= seq![true]);
        } else {
            assert(init == seq![true, true] ==> init[0] && init[1]);
        }
        if state_reached(init) == ReplaceState::Failed {
            let i = choose|i: int| 0 <= i < init.len() && i < 3 && !init[i];
            assert(!reports[i]);
        }
        if exists|i: int| 0 <= i < reports.len() && i < 3 && !reports[i] {
            let i = choose|i: int| 0 <= i < reports.len() && i < 3 && !reports[i];
            if i < init.len() {
                assert(!init[i]);
            }
        }
    }
}

} // verus!
