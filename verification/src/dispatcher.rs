//! The interactive menu loop, modelled as a finite state machine.
//!
//! The shell presents a fixed menu, fans the chosen bulk action out over
//! every account, reports per-account failures, and loops. The machine here
//! decides which action a selection dispatches and how the loop advances;
//! the shell merely performs the directives.

use vstd::prelude::*;

verus! {

/// The fixed menu of bulk actions, one per selectable entry.
#[derive(Clone, Copy, PartialEq, Eq, Structural, Debug)]
pub enum MenuAction {
    JoinChannels,
    Register,
    StartFarming,
    ClaimFarming,
    CompleteTasks,
}

/// Phases of the dispatcher loop.
#[derive(Clone, Copy, PartialEq, Eq, Structural, Debug)]
pub enum DispatcherState {
    /// Waiting for a menu selection.
    Idle,
    /// A batch for the chosen action is in flight.
    Running(MenuAction),
    /// The batch finished; per-account failures are being reported.
    Reporting,
    /// The loop has terminated cleanly.
    Exited,
}

/// What the shell observed since the last step.
#[derive(Clone, Copy, PartialEq, Eq, Structural, Debug)]
pub enum DispatchEvent {
    /// The user picked menu entry `sel` (zero-based).
    Selected(usize),
    /// The fanned-out batch completed, every item with an outcome.
    BatchDone,
    /// All failures of the last batch have been reported.
    Reported,
}

/// What the shell must do next.
#[derive(Clone, Copy, PartialEq, Eq, Structural, Debug)]
pub enum Directive {
    /// Fan the action out over the full account list.
    RunBatch(MenuAction),
    /// Walk the outcomes and report every per-account failure.
    Report,
    /// Leave the loop.
    Exit,
    /// Nothing to do; the event did not apply to the current state.
    Stay,
}

/// The action a menu selection dispatches, if the selection is recognized.
pub open spec fn spec_action_for_selection(sel: usize) -> Option<MenuAction> {
    if sel == 0 {
        Some(MenuAction::JoinChannels)
    } else if sel == 1 {
        Some(MenuAction::Register)
    } else if sel == 2 {
        Some(MenuAction::StartFarming)
    } else if sel == 3 {
        Some(MenuAction::ClaimFarming)
    } else if sel == 4 {
        Some(MenuAction::CompleteTasks)
    } else {
        None
    }
}

/// Maps a zero-based menu selection to its bulk action; any selection past
/// the menu is unrecognized.
pub fn action_for_selection(sel: usize) -> (r: Option<MenuAction>)
    ensures
        r == spec_action_for_selection(sel),
{
    if sel == 0 {
        Some(MenuAction::JoinChannels)
    } else if sel == 1 {
        Some(MenuAction::Register)
    } else if sel == 2 {
        Some(MenuAction::StartFarming)
    } else if sel == 3 {
        Some(MenuAction::ClaimFarming)
    } else if sel == 4 {
        Some(MenuAction::CompleteTasks)
    } else {
        None
    }
}

/// The next state and directive for one step of the dispatcher loop.
pub open spec fn spec_dispatcher_step(state: DispatcherState, event: DispatchEvent) -> (
    DispatcherState,
    Directive,
) {
    match (state, event) {
        (DispatcherState::Idle, DispatchEvent::Selected(sel)) => match spec_action_for_selection(
            sel,
        ) {
            Some(action) => (DispatcherState::Running(action), Directive::RunBatch(action)),
            None => (DispatcherState::Exited, Directive::Exit),
        },
        (DispatcherState::Running(_), DispatchEvent::BatchDone) => (
            DispatcherState::Reporting,
            Directive::Report,
        ),
        (DispatcherState::Reporting, DispatchEvent::Reported) => (
            DispatcherState::Idle,
            Directive::Stay,
        ),
        _ => (state, Directive::Stay),
    }
}

/// Advances the dispatcher loop by one observed event.
///
/// A recognized selection starts a batch for its action; an unrecognized
/// selection changes nothing else and ends the loop cleanly. A finished
/// batch moves to reporting, and a finished report returns to the menu.
/// An event that does not apply to the current state leaves it unchanged.
pub fn dispatcher_step(state: DispatcherState, event: DispatchEvent) -> (r: (
    DispatcherState,
    Directive,
))
    ensures
        r == spec_dispatcher_step(state, event),
        (event matches DispatchEvent::Selected(sel) && state is Idle && spec_action_for_selection(
            sel,
        ) is None) ==> (r.0 is Exited && r.1 is Exit),
{
    match (state, event) {
        (DispatcherState::Idle, DispatchEvent::Selected(sel)) => match action_for_selection(sel) {
            Some(action) => (DispatcherState::Running(action), Directive::RunBatch(action)),
            None => (DispatcherState::Exited, Directive::Exit),
        },
        (DispatcherState::Running(_), DispatchEvent::BatchDone) => (
            DispatcherState::Reporting,
            Directive::Report,
        ),
        (DispatcherState::Reporting, DispatchEvent::Reported) => (
            DispatcherState::Idle,
            Directive::Stay,
        ),
        _ => (state, Directive::Stay),
    }
}

/// Once exited, the dispatcher never runs another batch: every later event
/// leaves the machine exited and issues no directive.
pub proof fn lemma_exit_is_final(event: DispatchEvent)
    ensures
        spec_dispatcher_step(DispatcherState::Exited, event).0 is Exited,
        spec_dispatcher_step(DispatcherState::Exited, event).1 is Stay,
{
}

} // verus!
