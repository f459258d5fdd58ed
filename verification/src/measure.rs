//! The functional-time measurement protocol.
//!
//! Measuring how long a page takes to become functional means driving a
//! browser-automation session: open it, navigate, optionally poll for a
//! readiness selector, and always close the session once it was opened.
//! The outside transport performs each of those actions; this module
//! holds the protocol itself as an explicit state machine.  The driver
//! asks the machine what to do, performs the action, and reports the
//! event that came back, together with the elapsed time read from a
//! monotonic clock started just before navigation.

use vstd::prelude::*;

verus! {

/// Interval between readiness polls, in milliseconds.
pub const POLL_INTERVAL_MS: u64 = 500;

/// Wall-clock budget for the readiness selector to become visible,
/// counted from the start of navigation, in milliseconds.
pub const ELEMENT_TIMEOUT_MS: u64 = 30000;

/// Why a measurement failed.
#[derive(Clone, Copy, PartialEq, Eq, Structural, Debug)]
pub enum MeasureError {
    /// The automation endpoint was unreachable or session negotiation
    /// failed; no session was opened.
    SessionUnavailable,
    /// Navigation to the target URL failed.
    NavigationError,
    /// The readiness selector never became visible within the budget.
    ElementTimeout { timeout_ms: u64 },
    /// The transport reported the selector as absent.
    NoSuchElement,
    /// Any other transport failure while polling.
    SessionError,
}

/// What the driver must do next.
#[derive(Clone, Copy, PartialEq, Eq, Structural, Debug)]
pub enum SessionAction {
    /// Open a session against the automation endpoint.
    Open,
    /// Start the clock and navigate to the target URL.
    Navigate,
    /// Ask whether the readiness selector is currently visible.
    CheckVisible,
    /// Sleep for the poll interval.
    Sleep { ms: u64 },
    /// Close the session.
    Close,
    /// The measurement is over; read the outcome off the machine.
    Finish,
}

/// What the outside transport reported back for the latest action.
#[derive(Clone, Copy, PartialEq, Eq, Structural, Debug)]
pub enum SessionEvent {
    /// The session opened.
    OpenOk,
    /// The session could not be opened.
    OpenFailed,
    /// Navigation completed after `elapsed_ms` on the clock.
    NavOk { elapsed_ms: u64 },
    /// Navigation failed.
    NavFailed,
    /// A visibility poll answered, `elapsed_ms` on the clock.
    Visible { shown: bool, elapsed_ms: u64 },
    /// A poll failed with the transport blaming an absent element.
    VisAbsent,
    /// A poll failed with any other transport error.
    VisTransport,
    /// The sleep finished.
    Slept,
    /// The session closed cleanly.
    CloseOk,
    /// Closing the session failed; this never masks the measurement.
    CloseFailed,
}

/// The protocol states.
#[derive(Clone, Copy, PartialEq, Eq, Debug)]
pub enum MState {
    /// Waiting for the session to open.
    Opening,
    /// Waiting for navigation to finish.
    Navigating,
    /// Waiting for a visibility poll to answer.
    Polling,
    /// Waiting out the poll interval.
    Sleeping,
    /// The measurement is decided; waiting for the session to close.
    Closing { pending: Result<u64, MeasureError> },
    /// Everything is over.  `close_failed` surfaces a failed close as a
    /// secondary signal beside the (unchanged) outcome.
    Done { outcome: Result<u64, MeasureError>, close_failed: bool },
}

/// The measurement state machine for one invocation.
#[derive(Clone, Copy, PartialEq, Eq, Debug)]
pub struct MeasureMachine {
    pub state: MState,
    /// Whether this measurement waits for a readiness selector, or only
    /// for navigation to complete.
    pub has_selector: bool,
}

impl MeasureMachine {
    /// A fresh machine; the driver's first action is `Open`.
    pub fn new(has_selector: bool) -> (m: MeasureMachine)
        ensures
            m == (MeasureMachine { state: MState::Opening, has_selector }),
    {
        MeasureMachine { state: MState::Opening, has_selector }
    }

    /// Whether the machine is willing to take `ev` in its current state.
    pub open spec fn fits(self, ev: SessionEvent) -> bool {
        match self.state {
            MState::Opening => ev is OpenOk || ev is OpenFailed,
            MState::Navigating => ev is NavOk || ev is NavFailed,
            MState::Polling => ev is Visible || ev is VisAbsent || ev is VisTransport,
            MState::Sleeping => ev is Slept,
            MState::Closing { .. } => ev is CloseOk || ev is CloseFailed,
            MState::Done { .. } => false,
        }
    }

    /// The transition relation: the machine after taking `ev`, and the
    /// action the driver must perform next.
    pub open spec fn spec_step(self, ev: SessionEvent) -> (MeasureMachine, SessionAction) {
        let next = |s: MState, a: SessionAction|
            (MeasureMachine { state: s, has_selector: self.has_selector }, a);
        match (self.state, ev) {
            (MState::Opening, SessionEvent::OpenOk) => next(MState::Navigating, SessionAction::Navigate),
            (MState::Opening, SessionEvent::OpenFailed) => next(
                MState::Done { outcome: Err(MeasureError::SessionUnavailable), close_failed: false },
                SessionAction::Finish,
            ),
            (MState::Navigating, SessionEvent::NavOk { elapsed_ms }) => if self.has_selector {
                next(MState::Polling, SessionAction::CheckVisible)
            } else {
                next(MState::Closing { pending: Ok(elapsed_ms) }, SessionAction::Close)
            },
            (MState::Navigating, SessionEvent::NavFailed) => next(
                MState::Closing { pending: Err(MeasureError::NavigationError) },
                SessionAction::Close,
            ),
            (MState::Polling, SessionEvent::Visible { shown, elapsed_ms }) => if shown {
                next(MState::Closing { pending: Ok(elapsed_ms) }, SessionAction::Close)
            } else if elapsed_ms >= ELEMENT_TIMEOUT_MS {
                next(
                    MState::Closing {
                        pending: Err(MeasureError::ElementTimeout { timeout_ms: ELEMENT_TIMEOUT_MS }),
                    },
                    SessionAction::Close,
                )
            } else {
                next(MState::Sleeping, SessionAction::Sleep { ms: POLL_INTERVAL_MS })
            },
            (MState::Polling, SessionEvent::VisAbsent) => next(
                MState::Closing { pending: Err(MeasureError::NoSuchElement) },
                SessionAction::Close,
            ),
            (MState::Polling, SessionEvent::VisTransport) => next(
                MState::Closing { pending: Err(MeasureError::SessionError) },
                SessionAction::Close,
            ),
            (MState::Sleeping, SessionEvent::Slept) => next(MState::Polling, SessionAction::CheckVisible),
            (MState::Closing { pending }, SessionEvent::CloseOk) => next(
                MState::Done { outcome: pending, close_failed: false },
                SessionAction::Finish,
            ),
            (MState::Closing { pending }, SessionEvent::CloseFailed) => next(
                MState::Done { outcome: pending, close_failed: true },
                SessionAction::Finish,
            ),
            _ => next(self.state, SessionAction::Finish),
        }
    }

    /// Takes one reported event and answers with the next action.
    pub fn step(&mut self, ev: SessionEvent) -> (a: SessionAction)
        requires
            old(self).fits(ev),
        ensures
            *final(self) == old(self).spec_step(ev).0,
            a == old(self).spec_step(ev).1,
    {
        let (state, action): (MState, SessionAction) = match (self.state, ev) {
            (MState::Opening, SessionEvent::OpenOk) => (MState::Navigating, SessionAction::Navigate),
            (MState::Opening, SessionEvent::OpenFailed) => (
                MState::Done { outcome: Err(MeasureError::SessionUnavailable), close_failed: false },
                SessionAction::Finish,
            ),
            (MState::Navigating, SessionEvent::NavOk { elapsed_ms }) => if self.has_selector {
                (MState::Polling, SessionAction::CheckVisible)
            } else {
                (MState::Closing { pending: Ok(elapsed_ms) }, SessionAction::Close)
            },
            (MState::Navigating, SessionEvent::NavFailed) => (
                MState::Closing { pending: Err(MeasureError::NavigationError) },
                SessionAction::Close,
            ),
            (MState::Polling, SessionEvent::Visible { shown, elapsed_ms }) => if shown {
                (MState::Closing { pending: Ok(elapsed_ms) }, SessionAction::Close)
            } else if elapsed_ms >= ELEMENT_TIMEOUT_MS {
                (
                    MState::Closing {
                        pending: Err(MeasureError::ElementTimeout { timeout_ms: ELEMENT_TIMEOUT_MS }),
                    },
                    SessionAction::Close,
                )
            } else {
                (MState::Sleeping, SessionAction::Sleep { ms: POLL_INTERVAL_MS })
            },
            (MState::Polling, SessionEvent::VisAbsent) => (
                MState::Closing { pending: Err(MeasureError::NoSuchElement) },
                SessionAction::Close,
            ),
            (MState::Polling, SessionEvent::VisTransport) => (
                MState::Closing { pending: Err(MeasureError::SessionError) },
                SessionAction::Close,
            ),
            (MState::Sleeping, SessionEvent::Slept) => (MState::Polling, SessionAction::CheckVisible),
            (MState::Closing { pending }, SessionEvent::CloseOk) => (
                MState::Done { outcome: pending, close_failed: false },
                SessionAction::Finish,
            ),
            (MState::Closing { pending }, SessionEvent::CloseFailed) => (
                MState::Done { outcome: pending, close_failed: true },
                SessionAction::Finish,
            ),
            _ => (self.state, SessionAction::Finish),
        };
        self.state = state;
        action
    }
}

/// The machine after taking a whole sequence of events.
pub open spec fn run_state(m: MeasureMachine, evs: Seq<SessionEvent>) -> MeasureMachine
    decreases evs.len(),
{
    if evs.len() == 0 {
        m
    } else {
        run_state(m.spec_step(evs[0]).0, evs.drop_first())
    }
}

/// The actions the machine hands out along a sequence of events.
pub open spec fn run_actions(m: MeasureMachine, evs: Seq<SessionEvent>) -> Seq<SessionAction>
    decreases evs.len(),
{
    if evs.len() == 0 {
        Seq::<SessionAction>::empty()
    } else {
        seq![m.spec_step(evs[0]).1] + run_actions(m.spec_step(evs[0]).0, evs.drop_first())
    }
}

/// Every event of the sequence arrives in a state that expects it.
pub open spec fn valid_run(m: MeasureMachine, evs: Seq<SessionEvent>) -> bool
    decreases evs.len(),
{
    if evs.len() == 0 {
        true
    } else {
        m.fits(evs[0]) && valid_run(m.spec_step(evs[0]).0, evs.drop_first())
    }
}

/// How many of the actions close the session.
pub open spec fn close_count(acts: Seq<SessionAction>) -> int
    decreases acts.len(),
{
    if acts.len() == 0 {
        0
    } else {
        (if acts[0] is Close {
            1int
        } else {
            0int
        }) + close_count(acts.drop_first())
    }
}

/// How many closes a machine in this state will still hand out before
/// it is done: one while the session is open and undecided, none once
/// the close was already ordered.
pub open spec fn closes_owed(s: MState) -> int {
    match s {
        MState::Opening => 0,
        MState::Navigating => 1,
        MState::Polling => 1,
        MState::Sleeping => 1,
        MState::Closing { .. } => 0,
        MState::Done { .. } => 0,
    }
}

proof fn lemma_closes_from(m: MeasureMachine, evs: Seq<SessionEvent>)
    requires
        valid_run(m, evs),
        run_state(m, evs).state is Done,
        !(m.state is Opening),
    ensures
        close_count(run_actions(m, evs)) == closes_owed(m.state),
    decreases evs.len(),
{
    if m.state is Done {
        if evs.len() > 0 {
            assert(!m.fits(evs[0]));
        }
    } else {
        assert(evs.len() > 0);
        let m2 = m.spec_step(evs[0]).0;
        let a = m.spec_step(evs[0]).1;
        let rest = run_actions(m2, evs.drop_first());
        assert((seq![a] + rest)[0] == a);
        assert((seq![a] + rest).drop_first() =~= rest);
        lemma_closes_from(m2, evs.drop_first());
    }
}

/// Law: over one measurement run, the session is closed exactly once
/// when it was opened, and never when opening itself failed — whether
/// the steps in between succeeded or failed.
pub proof fn lemma_close_exactly_once(hs: bool, evs: Seq<SessionEvent>)
    requires
        valid_run(MeasureMachine { state: MState::Opening, has_selector: hs }, evs),
        run_state(MeasureMachine { state: MState::Opening, has_selector: hs }, evs).state
            is Done,
    ensures
        evs.len() > 0,
        close_count(
            run_actions(MeasureMachine { state: MState::Opening, has_selector: hs }, evs),
        ) == if evs[0] is OpenOk {
            1int
        } else {
            0int
        },
{
    let m = MeasureMachine { state: MState::Opening, has_selector: hs };
    assert(evs.len() > 0);
    let m2 = m.spec_step(evs[0]).0;
    let a = m.spec_step(evs[0]).1;
    let rest = run_actions(m2, evs.drop_first());
    assert(run_actions(m, evs) == seq![a] + rest);
    assert(run_state(m, evs) == run_state(m2, evs.drop_first()));
    assert((seq![a] + rest)[0] == a);
    assert((seq![a] + rest).drop_first() =~= rest);
    assert(close_count(seq![a] + rest) == (if a is Close {
        1int
    } else {
        0int
    }) + close_count(rest));
    if evs[0] is OpenOk {
        lemma_closes_from(m2, evs.drop_first());
        assert(!(a is Close));
        assert(close_count(rest) == 1);
    } else {
        assert(m2.state is Done);
        if evs.drop_first().len() > 0 {
            assert(!m2.fits(evs.drop_first()[0]));
        }
        assert(evs.drop_first().len() == 0);
        assert(rest =~= Seq::<SessionAction>::empty());
        assert(close_count(rest) == 0);
        assert(!(a is Close));
    }
}

/// A poll event that reports the element unseen at or past the budget.
pub open spec fn is_timeout_poll(ev: SessionEvent) -> bool {
    ev matches SessionEvent::Visible { shown, elapsed_ms } && shown == false && elapsed_ms
        >= ELEMENT_TIMEOUT_MS
}

/// Some event of the sequence is a budget-exceeded poll.
pub open spec fn has_timeout_poll(evs: Seq<SessionEvent>) -> bool {
    exists|i: int| 0 <= i < evs.len() && is_timeout_poll(#[trigger] evs[i])
}

/// The machine has decided on an element-timeout failure.
pub open spec fn pending_timeout(s: MState) -> bool {
    match s {
        MState::Closing { pending } => pending == Err::<u64, MeasureError>(
            MeasureError::ElementTimeout { timeout_ms: ELEMENT_TIMEOUT_MS },
        ),
        MState::Done { outcome, .. } => outcome == Err::<u64, MeasureError>(
            MeasureError::ElementTimeout { timeout_ms: ELEMENT_TIMEOUT_MS },
        ),
        _ => false,
    }
}

proof fn lemma_timeout_iff_from(m: MeasureMachine, evs: Seq<SessionEvent>)
    requires
        valid_run(m, evs),
    ensures
        pending_timeout(run_state(m, evs).state) <==> (pending_timeout(m.state)
            || has_timeout_poll(evs)),
    decreases evs.len(),
{
    if evs.len() == 0 {
        assert(!has_timeout_poll(evs));
    } else {
        let m2 = m.spec_step(evs[0]).0;
        lemma_timeout_iff_from(m2, evs.drop_first());
        assert(has_timeout_poll(evs) <==> (is_timeout_poll(evs[0]) || has_timeout_poll(
            evs.drop_first(),
        ))) by {
            if has_timeout_poll(evs.drop_first()) {
                let i = choose|i: int|
                    0 <= i < evs.drop_first().len() && is_timeout_poll(
                        #[trigger] evs.drop_first()[i],
                    );
                assert(is_timeout_poll(evs[i + 1]));
            }
            if has_timeout_poll(evs) {
                let i = choose|i: int| 0 <= i < evs.len() && is_timeout_poll(#[trigger] evs[i]);
                if i > 0 {
                    assert(is_timeout_poll(evs.drop_first()[i - 1]));
                }
            }
        }
        if is_timeout_poll(evs[0]) {
            assert(m.state is Polling);
            assert(pending_timeout(m2.state));
        } else {
            assert(pending_timeout(m2.state) == pending_timeout(m.state));
        }
    }
}

/// Law: a measurement run fails with `ElementTimeout` exactly when some
/// visibility poll reported the element unseen at or past the budget —
/// so the failure never comes while every poll was still inside it.
pub proof fn lemma_element_timeout_iff(hs: bool, evs: Seq<SessionEvent>)
    requires
        valid_run(MeasureMachine { state: MState::Opening, has_selector: hs }, evs),
    ensures
        pending_timeout(
            run_state(MeasureMachine { state: MState::Opening, has_selector: hs }, evs).state,
        ) <==> has_timeout_poll(evs),
{
    lemma_timeout_iff_from(MeasureMachine { state: MState::Opening, has_selector: hs }, evs);
}

/// Some event completed navigation with `d` on the clock.
pub open spec fn has_nav_ok(evs: Seq<SessionEvent>, d: u64) -> bool {
    exists|i: int|
        0 <= i < evs.len() && #[trigger] evs[i] == (SessionEvent::NavOk { elapsed_ms: d })
}

/// Some poll saw the element visible with `d` on the clock.
pub open spec fn has_vis_ok(evs: Seq<SessionEvent>, d: u64) -> bool {
    exists|i: int|
        0 <= i < evs.len() && #[trigger] evs[i] == (SessionEvent::Visible {
            shown: true,
            elapsed_ms: d,
        })
}

/// The machine has decided on the successful duration `d`.
pub open spec fn pending_ok(s: MState, d: u64) -> bool {
    match s {
        MState::Closing { pending } => pending == Ok::<u64, MeasureError>(d),
        MState::Done { outcome, .. } => outcome == Ok::<u64, MeasureError>(d),
        _ => false,
    }
}

proof fn lemma_ok_source_from(m: MeasureMachine, evs: Seq<SessionEvent>, d: u64)
    requires
        valid_run(m, evs),
        pending_ok(run_state(m, evs).state, d),
        (m.state is Polling || m.state is Sleeping) ==> m.has_selector,
    ensures
        pending_ok(m.state, d) || (m.has_selector && has_vis_ok(evs, d)) || (!m.has_selector
            && has_nav_ok(evs, d)),
    decreases evs.len(),
{
    if evs.len() == 0 {
    } else {
        let m2 = m.spec_step(evs[0]).0;
        assert(run_state(m, evs) == run_state(m2, evs.drop_first()));
        assert(m2.has_selector == m.has_selector);
        lemma_ok_source_from(m2, evs.drop_first(), d);
        if pending_ok(m2.state, d) && !pending_ok(m.state, d) {
            if m.state is Navigating && !m.has_selector {
                assert(evs[0] == (SessionEvent::NavOk { elapsed_ms: d }));
                assert(has_nav_ok(evs, d)) by {
                    assert(0 <= 0 < evs.len() && evs[0] == (SessionEvent::NavOk {
                        elapsed_ms: d,
                    }));
                }
            } else {
                assert(m.state is Polling);
                assert(evs[0] == (SessionEvent::Visible { shown: true, elapsed_ms: d }));
                assert(has_vis_ok(evs, d)) by {
                    assert(0 <= 0 < evs.len() && evs[0] == (SessionEvent::Visible {
                        shown: true,
                        elapsed_ms: d,
                    }));
                }
            }
        }
        if m.has_selector && has_vis_ok(evs.drop_first(), d) {
            let i = choose|i: int|
                0 <= i < evs.drop_first().len() && #[trigger] evs.drop_first()[i]
                    == (SessionEvent::Visible { shown: true, elapsed_ms: d });
            assert(evs[i + 1] == (SessionEvent::Visible { shown: true, elapsed_ms: d }));
        }
        if !m.has_selector && has_nav_ok(evs.drop_first(), d) {
            let i = choose|i: int|
                0 <= i < evs.drop_first().len() && #[trigger] evs.drop_first()[i]
                    == (SessionEvent::NavOk { elapsed_ms: d });
            assert(evs[i + 1] == (SessionEvent::NavOk { elapsed_ms: d }));
        }
    }
}

/// A poll event that saw the element visible.
pub open spec fn is_vis_true(ev: SessionEvent) -> bool {
    ev matches SessionEvent::Visible { shown, .. } && shown
}

proof fn lemma_no_vis_after_close(m: MeasureMachine, evs: Seq<SessionEvent>)
    requires
        valid_run(m, evs),
        m.state is Closing || m.state is Done,
    ensures
        forall|i: int| 0 <= i < evs.len() ==> !(#[trigger] evs[i] is Visible),
    decreases evs.len(),
{
    if evs.len() > 0 {
        let m2 = m.spec_step(evs[0]).0;
        assert(m2.state is Done);
        lemma_no_vis_after_close(m2, evs.drop_first());
        assert forall|i: int| 0 <= i < evs.len() implies !(#[trigger] evs[i] is Visible) by {
            if i > 0 {
                assert(evs[i] == evs.drop_first()[i - 1]);
            }
        }
    }
}

/// In one run, at most one poll sees the element visible: the machine
/// stops polling the moment one does.
pub proof fn lemma_single_vis_true(m: MeasureMachine, evs: Seq<SessionEvent>)
    requires
        valid_run(m, evs),
    ensures
        forall|i: int, j: int|
            0 <= i < j < evs.len() && is_vis_true(#[trigger] evs[i]) ==> !is_vis_true(
                #[trigger] evs[j],
            ),
    decreases evs.len(),
{
    if evs.len() > 0 {
        let m2 = m.spec_step(evs[0]).0;
        lemma_single_vis_true(m2, evs.drop_first());
        if is_vis_true(evs[0]) {
            assert(m.state is Polling);
            assert(m2.state is Closing);
            lemma_no_vis_after_close(m2, evs.drop_first());
        }
        assert forall|i: int, j: int|
            0 <= i < j < evs.len() && is_vis_true(#[trigger] evs[i]) implies !is_vis_true(
            #[trigger] evs[j],
        ) by {
            if i == 0 {
                assert(evs[j] == evs.drop_first()[j - 1]);
            } else {
                assert(evs[i] == evs.drop_first()[i - 1]);
                assert(evs[j] == evs.drop_first()[j - 1]);
            }
        }
    }
}

/// Law: with a selector, a successful measurement's duration is the
/// clock reading of the one poll that saw the element visible; so of
/// two measurements whose elements became visible at `ea` and `eb` on
/// their clocks, `ea <= eb` means the first never measures longer.
pub proof fn lemma_earlier_visibility_never_longer(
    evs_a: Seq<SessionEvent>,
    evs_b: Seq<SessionEvent>,
    da: u64,
    db: u64,
    ea: u64,
    eb: u64,
)
    requires
        valid_run(MeasureMachine { state: MState::Opening, has_selector: true }, evs_a),
        valid_run(MeasureMachine { state: MState::Opening, has_selector: true }, evs_b),
        pending_ok(
            run_state(MeasureMachine { state: MState::Opening, has_selector: true }, evs_a).state,
            da,
        ),
        pending_ok(
            run_state(MeasureMachine { state: MState::Opening, has_selector: true }, evs_b).state,
            db,
        ),
        has_vis_ok(evs_a, ea),
        has_vis_ok(evs_b, eb),
        ea <= eb,
    ensures
        da == ea,
        db == eb,
        da <= db,
{
    let m0 = MeasureMachine { state: MState::Opening, has_selector: true };
    lemma_duration_source(true, evs_a, da);
    lemma_duration_source(true, evs_b, db);
    lemma_single_vis_true(m0, evs_a);
    lemma_single_vis_true(m0, evs_b);
    let ia = choose|i: int|
        0 <= i < evs_a.len() && #[trigger] evs_a[i] == (SessionEvent::Visible {
            shown: true,
            elapsed_ms: ea,
        });
    let ja = choose|i: int|
        0 <= i < evs_a.len() && #[trigger] evs_a[i] == (SessionEvent::Visible {
            shown: true,
            elapsed_ms: da,
        });
    assert(ia == ja);
    let ib = choose|i: int|
        0 <= i < evs_b.len() && #[trigger] evs_b[i] == (SessionEvent::Visible {
            shown: true,
            elapsed_ms: eb,
        });
    let jb = choose|i: int|
        0 <= i < evs_b.len() && #[trigger] evs_b[i] == (SessionEvent::Visible {
            shown: true,
            elapsed_ms: db,
        });
    assert(ib == jb);
}

/// Law: a successful measurement's duration is exactly the clock
/// reading of the event that made the page functional — navigation
/// completion when no selector is configured, a successful visibility
/// poll otherwise.  In particular, without a selector the duration
/// equals the navigation wall-time.
pub proof fn lemma_duration_source(hs: bool, evs: Seq<SessionEvent>, d: u64)
    requires
        valid_run(MeasureMachine { state: MState::Opening, has_selector: hs }, evs),
        pending_ok(
            run_state(MeasureMachine { state: MState::Opening, has_selector: hs }, evs).state,
            d,
        ),
    ensures
        hs ==> has_vis_ok(evs, d),
        !hs ==> has_nav_ok(evs, d),
{
    lemma_ok_source_from(MeasureMachine { state: MState::Opening, has_selector: hs }, evs, d);
}

} // verus!
