use wayland_2_gnome::proxy::event_loop::{session_continues, EventLoop, LoopAction, StepOutcome, POLL_INTERVAL_MS};

#[test]
fn idle_round_sleeps_and_accepts_again() {
    let mut l = EventLoop::new(0);
    assert_eq!(l.action, LoopAction::Accept);
    l.advance(StepOutcome::Done, 0, false);
    assert_eq!(l.action, LoopAction::Sleep);
    l.advance(StepOutcome::Done, 0, false);
    assert_eq!(l.action, LoopAction::Accept);
    assert_eq!(POLL_INTERVAL_MS, 10);
}

#[test]
fn new_client_starts_session_or_is_refused_at_limit() {
    let mut l = EventLoop::new(2);
    l.advance(StepOutcome::NewClient, 1, false);
    assert_eq!(l.action, LoopAction::StartSession);
    l.advance(StepOutcome::Done, 2, false);
    assert_eq!(l.action, LoopAction::Accept);
    l.advance(StepOutcome::NewClient, 2, false);
    assert_eq!(l.action, LoopAction::Refuse);
    let mut unlimited = EventLoop::new(0);
    unlimited.advance(StepOutcome::NewClient, 1000, false);
    assert_eq!(unlimited.action, LoopAction::StartSession);
}

#[test]
fn failures_never_end_the_loop() {
    let mut l = EventLoop::new(0);
    for _ in 0..10 {
        l.advance(StepOutcome::Failed, 0, false);
        assert!(!l.is_done());
    }
}

#[test]
fn shutdown_ends_the_loop_from_any_step() {
    for (outcome, start) in [
        (StepOutcome::Done, 0),
        (StepOutcome::NewClient, 1),
        (StepOutcome::Failed, 2),
    ] {
        let mut l = EventLoop::new(0);
        for _ in 0..start {
            l.advance(StepOutcome::NewClient, 0, false);
        }
        l.advance(outcome, 0, true);
        assert_eq!(l.action, LoopAction::Exit);
        assert!(l.is_done());
        l.advance(StepOutcome::Done, 0, false);
        assert!(l.is_done());
    }
}

#[test]
fn sessions_end_on_either_side_or_shutdown() {
    assert!(session_continues(true, true, false));
    assert!(!session_continues(false, true, false));
    assert!(!session_continues(true, false, false));
    assert!(!session_continues(true, true, true));
}
