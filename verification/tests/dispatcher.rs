use cephei::dispatcher::{
    action_for_selection, dispatcher_step, DispatchEvent, DispatcherState, Directive, MenuAction,
};

#[test]
fn every_menu_entry_maps_to_its_action() {
    assert_eq!(action_for_selection(0), Some(MenuAction::JoinChannels));
    assert_eq!(action_for_selection(1), Some(MenuAction::Register));
    assert_eq!(action_for_selection(2), Some(MenuAction::StartFarming));
    assert_eq!(action_for_selection(3), Some(MenuAction::ClaimFarming));
    assert_eq!(action_for_selection(4), Some(MenuAction::CompleteTasks));
}

#[test]
fn selections_past_the_menu_are_unrecognized() {
    assert_eq!(action_for_selection(5), None);
    assert_eq!(action_for_selection(usize::MAX), None);
}

#[test]
fn recognized_selection_dispatches_a_batch() {
    let (state, directive) =
        dispatcher_step(DispatcherState::Idle, DispatchEvent::Selected(2));
    assert_eq!(state, DispatcherState::Running(MenuAction::StartFarming));
    assert_eq!(directive, Directive::RunBatch(MenuAction::StartFarming));
}

#[test]
fn batch_completion_moves_to_reporting_and_back() {
    let (state, directive) = dispatcher_step(
        DispatcherState::Running(MenuAction::Register),
        DispatchEvent::BatchDone,
    );
    assert_eq!(state, DispatcherState::Reporting);
    assert_eq!(directive, Directive::Report);

    let (state, directive) = dispatcher_step(state, DispatchEvent::Reported);
    assert_eq!(state, DispatcherState::Idle);
    assert_eq!(directive, Directive::Stay);
}

#[test]
fn unrecognized_selection_exits_cleanly() {
    // An unrecognized selection changes nothing else and ends the loop.
    let (state, directive) =
        dispatcher_step(DispatcherState::Idle, DispatchEvent::Selected(9));
    assert_eq!(state, DispatcherState::Exited);
    assert_eq!(directive, Directive::Exit);
}

#[test]
fn exit_is_final() {
    let (state, directive) =
        dispatcher_step(DispatcherState::Exited, DispatchEvent::Selected(0));
    assert_eq!(state, DispatcherState::Exited);
    assert_eq!(directive, Directive::Stay);

    let (state, directive) = dispatcher_step(DispatcherState::Exited, DispatchEvent::BatchDone);
    assert_eq!(state, DispatcherState::Exited);
    assert_eq!(directive, Directive::Stay);
}

#[test]
fn stray_events_leave_the_state_unchanged() {
    let (state, directive) = dispatcher_step(DispatcherState::Idle, DispatchEvent::BatchDone);
    assert_eq!(state, DispatcherState::Idle);
    assert_eq!(directive, Directive::Stay);
}
