use crab_gambit::coordinator::{
    controller_start, controller_step, worker_step, ControllerAction, ControllerEvent,
    ControllerState, WorkerStep,
};
use crab_gambit::moves::Move;
use crab_gambit::square::Square;

fn mv(text_rank: i8) -> Move {
    Move {
        src: Square { rank: 1, file: 4 },
        dest: Square { rank: text_rank, file: 4 },
        promotion: None,
    }
}

#[test]
fn worker_publishes_a_completed_depth_and_deepens() {
    assert_eq!(
        worker_step(3, false, Some(mv(3))),
        WorkerStep::Deepen { publish: Some(mv(3)), next_depth: 4 }
    );
    assert_eq!(worker_step(1, false, None), WorkerStep::Deepen { publish: None, next_depth: 2 });
}

#[test]
fn worker_never_publishes_under_a_set_flag() {
    assert_eq!(worker_step(3, true, Some(mv(3))), WorkerStep::Cancelled);
    assert_eq!(worker_step(1, true, None), WorkerStep::Cancelled);
    assert_eq!(worker_step(i32::MAX, true, Some(mv(3))), WorkerStep::Cancelled);
}

#[test]
fn worker_stops_at_the_deepest_depth() {
    assert_eq!(worker_step(i32::MAX, false, Some(mv(3))), WorkerStep::Exhausted);
}

#[test]
fn controller_keeps_the_last_move_and_emits_it_at_the_deadline() {
    let state = controller_start();
    assert_eq!(state, ControllerState::Waiting { best: None });
    let (state, action) = controller_step(state, ControllerEvent::Received(mv(2)));
    assert_eq!(action, ControllerAction::Wait);
    let (state, action) = controller_step(state, ControllerEvent::Received(mv(3)));
    assert_eq!(action, ControllerAction::Wait);
    assert_eq!(state, ControllerState::Waiting { best: Some(mv(3)) });
    let (state, action) = controller_step(state, ControllerEvent::DeadlinePassed);
    assert_eq!(action, ControllerAction::CancelAndEmit(mv(3)));
    assert_eq!(state, ControllerState::Done);
    let (state, action) = controller_step(state, ControllerEvent::Received(mv(2)));
    assert_eq!(action, ControllerAction::Nothing);
    assert_eq!(state, ControllerState::Done);
}

#[test]
fn controller_waits_for_the_first_move_past_the_deadline() {
    let (state, action) = controller_step(controller_start(), ControllerEvent::DeadlinePassed);
    assert_eq!(state, ControllerState::Overtime);
    assert_eq!(action, ControllerAction::WaitUnbounded);
    let (again, action) = controller_step(state, ControllerEvent::DeadlinePassed);
    assert_eq!(again, ControllerState::Overtime);
    assert_eq!(action, ControllerAction::WaitUnbounded);
    let (done, action) = controller_step(state, ControllerEvent::Received(mv(3)));
    assert_eq!(done, ControllerState::Done);
    assert_eq!(action, ControllerAction::Emit(mv(3)));
}

#[test]
fn controller_emits_nothing_when_the_worker_is_gone() {
    let (state, _) = controller_step(controller_start(), ControllerEvent::DeadlinePassed);
    let (done, action) = controller_step(state, ControllerEvent::Disconnected);
    assert_eq!(done, ControllerState::Done);
    assert_eq!(action, ControllerAction::EmitNothing);
}

#[test]
fn controller_keeps_waiting_for_the_deadline_after_a_disconnect() {
    let (state, _) = controller_step(controller_start(), ControllerEvent::Received(mv(2)));
    let (state, action) = controller_step(state, ControllerEvent::Disconnected);
    assert_eq!(state, ControllerState::Waiting { best: Some(mv(2)) });
    assert_eq!(action, ControllerAction::Wait);
}
