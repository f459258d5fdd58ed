use rust_npm_host::measure::{
    MState, MeasureError, MeasureMachine, SessionAction, SessionEvent, ELEMENT_TIMEOUT_MS,
    POLL_INTERVAL_MS,
};

/// Drives a machine over the events, counting Close actions, and
/// returns (final machine, closes).
fn drive(has_selector: bool, events: &[SessionEvent]) -> (MeasureMachine, u32) {
    let mut m = MeasureMachine::new(has_selector);
    let mut closes: u32 = 0;
    for ev in events {
        let a = m.step(*ev);
        if a == SessionAction::Close {
            closes += 1;
        }
    }
    (m, closes)
}

#[test]
fn no_selector_duration_is_navigation_time() {
    let (m, closes) = drive(
        false,
        &[
            SessionEvent::OpenOk,
            SessionEvent::NavOk { elapsed_ms: 120 },
            SessionEvent::CloseOk,
        ],
    );
    assert_eq!(m.state, MState::Done { outcome: Ok(120), close_failed: false });
    assert_eq!(closes, 1);
}

#[test]
fn selector_duration_is_first_visible_poll() {
    let mut m = MeasureMachine::new(true);
    assert_eq!(m.step(SessionEvent::OpenOk), SessionAction::Navigate);
    assert_eq!(m.step(SessionEvent::NavOk { elapsed_ms: 100 }), SessionAction::CheckVisible);
    assert_eq!(
        m.step(SessionEvent::Visible { shown: false, elapsed_ms: 600 }),
        SessionAction::Sleep { ms: POLL_INTERVAL_MS }
    );
    assert_eq!(m.step(SessionEvent::Slept), SessionAction::CheckVisible);
    assert_eq!(
        m.step(SessionEvent::Visible { shown: true, elapsed_ms: 1100 }),
        SessionAction::Close
    );
    assert_eq!(m.step(SessionEvent::CloseOk), SessionAction::Finish);
    assert_eq!(m.state, MState::Done { outcome: Ok(1100), close_failed: false });
}

#[test]
fn immediate_visibility_beats_delayed_visibility() {
    let (fast, _) = drive(
        true,
        &[
            SessionEvent::OpenOk,
            SessionEvent::NavOk { elapsed_ms: 100 },
            SessionEvent::Visible { shown: true, elapsed_ms: 150 },
            SessionEvent::CloseOk,
        ],
    );
    let (slow, _) = drive(
        true,
        &[
            SessionEvent::OpenOk,
            SessionEvent::NavOk { elapsed_ms: 100 },
            SessionEvent::Visible { shown: false, elapsed_ms: 150 },
            SessionEvent::Slept,
            SessionEvent::Visible { shown: true, elapsed_ms: 700 },
            SessionEvent::CloseOk,
        ],
    );
    let (fast_d, slow_d) = match (fast.state, slow.state) {
        (
            MState::Done { outcome: Ok(a), .. },
            MState::Done { outcome: Ok(b), .. },
        ) => (a, b),
        _ => panic!("both runs should succeed"),
    };
    assert!(fast_d < slow_d);
    assert!(slow_d >= 500);
}

#[test]
fn element_timeout_fires_at_the_budget_not_before() {
    let mut m = MeasureMachine::new(true);
    m.step(SessionEvent::OpenOk);
    m.step(SessionEvent::NavOk { elapsed_ms: 50 });
    assert_eq!(
        m.step(SessionEvent::Visible { shown: false, elapsed_ms: ELEMENT_TIMEOUT_MS - 1 }),
        SessionAction::Sleep { ms: POLL_INTERVAL_MS }
    );
    m.step(SessionEvent::Slept);
    assert_eq!(
        m.step(SessionEvent::Visible { shown: false, elapsed_ms: ELEMENT_TIMEOUT_MS }),
        SessionAction::Close
    );
    m.step(SessionEvent::CloseOk);
    assert_eq!(
        m.state,
        MState::Done {
            outcome: Err(MeasureError::ElementTimeout { timeout_ms: ELEMENT_TIMEOUT_MS }),
            close_failed: false,
        }
    );
}

#[test]
fn absent_element_is_distinguished_from_timeout() {
    let (m, _) = drive(
        true,
        &[
            SessionEvent::OpenOk,
            SessionEvent::NavOk { elapsed_ms: 50 },
            SessionEvent::VisAbsent,
            SessionEvent::CloseOk,
        ],
    );
    assert_eq!(
        m.state,
        MState::Done { outcome: Err(MeasureError::NoSuchElement), close_failed: false }
    );
    let (m2, _) = drive(
        true,
        &[
            SessionEvent::OpenOk,
            SessionEvent::NavOk { elapsed_ms: 50 },
            SessionEvent::VisTransport,
            SessionEvent::CloseOk,
        ],
    );
    assert_eq!(
        m2.state,
        MState::Done { outcome: Err(MeasureError::SessionError), close_failed: false }
    );
}

#[test]
fn navigation_failure_still_closes_once() {
    let (m, closes) = drive(
        false,
        &[SessionEvent::OpenOk, SessionEvent::NavFailed, SessionEvent::CloseOk],
    );
    assert_eq!(
        m.state,
        MState::Done { outcome: Err(MeasureError::NavigationError), close_failed: false }
    );
    assert_eq!(closes, 1);
}

#[test]
fn failed_open_never_closes() {
    let (m, closes) = drive(true, &[SessionEvent::OpenFailed]);
    assert_eq!(
        m.state,
        MState::Done { outcome: Err(MeasureError::SessionUnavailable), close_failed: false }
    );
    assert_eq!(closes, 0);
}

#[test]
fn close_exactly_once_across_outcomes() {
    let runs: Vec<Vec<SessionEvent>> = vec![
        vec![
            SessionEvent::OpenOk,
            SessionEvent::NavOk { elapsed_ms: 10 },
            SessionEvent::Visible { shown: true, elapsed_ms: 20 },
            SessionEvent::CloseOk,
        ],
        vec![SessionEvent::OpenOk, SessionEvent::NavFailed, SessionEvent::CloseFailed],
        vec![
            SessionEvent::OpenOk,
            SessionEvent::NavOk { elapsed_ms: 10 },
            SessionEvent::VisTransport,
            SessionEvent::CloseOk,
        ],
        vec![
            SessionEvent::OpenOk,
            SessionEvent::NavOk { elapsed_ms: 10 },
            SessionEvent::Visible { shown: false, elapsed_ms: ELEMENT_TIMEOUT_MS + 7 },
            SessionEvent::CloseOk,
        ],
    ];
    for events in &runs {
        let (m, closes) = drive(true, events);
        assert!(matches!(m.state, MState::Done { .. }));
        assert_eq!(closes, 1);
    }
}

#[test]
fn failed_close_never_masks_the_measurement() {
    let (m, closes) = drive(
        false,
        &[
            SessionEvent::OpenOk,
            SessionEvent::NavOk { elapsed_ms: 250 },
            SessionEvent::CloseFailed,
        ],
    );
    assert_eq!(m.state, MState::Done { outcome: Ok(250), close_failed: true });
    assert_eq!(closes, 1);
}

#[test]
fn zero_duration_is_a_valid_result() {
    let (m, _) = drive(
        false,
        &[
            SessionEvent::OpenOk,
            SessionEvent::NavOk { elapsed_ms: 0 },
            SessionEvent::CloseOk,
        ],
    );
    assert_eq!(m.state, MState::Done { outcome: Ok(0), close_failed: false });
}
