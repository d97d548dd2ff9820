use wscore::pool::{ClaimOutcome, JobQueue, PoolShutdownError};
use wscore::session::{greeting, session_step, SessionAction, SessionEvent, SessionState};

#[test]
fn jobs_are_claimed_exactly_once_in_submission_order() {
    let mut q = JobQueue::new();
    let n: u64 = 5;
    for id in 0..n {
        q.submit(id).expect("queue accepts while open");
    }
    assert_eq!(q.pending_count(), 5);
    let mut claimed: Vec<u64> = Vec::new();
    loop {
        match q.claim() {
            ClaimOutcome::Job(id) => claimed.push(id),
            ClaimOutcome::Empty => break,
            ClaimOutcome::ShutDown => unreachable!("queue was not closed"),
        }
    }
    assert_eq!(claimed, vec![0, 1, 2, 3, 4]);
    assert_eq!(q.pending_count(), 0);
}

#[test]
fn submit_after_close_is_refused_and_pending_jobs_survive() {
    let mut q = JobQueue::new();
    q.submit(7).expect("queue accepts while open");
    q.close();
    assert_eq!(q.submit(8), Err(PoolShutdownError));
    assert_eq!(q.claim(), ClaimOutcome::Job(7));
    assert_eq!(q.claim(), ClaimOutcome::ShutDown);
}

#[test]
fn empty_open_queue_reports_empty_not_shutdown() {
    let mut q = JobQueue::new();
    assert_eq!(q.claim(), ClaimOutcome::Empty);
    q.close();
    assert_eq!(q.claim(), ClaimOutcome::ShutDown);
}

#[test]
fn session_transition_table() {
    assert_eq!(
        session_step(SessionState::Handshaking, SessionEvent::HandshakeAccepted),
        (SessionState::Open, SessionAction::SendGreeting)
    );
    assert_eq!(
        session_step(SessionState::Handshaking, SessionEvent::HandshakeFailed),
        (SessionState::Closed, SessionAction::CloseConnection)
    );
    assert_eq!(
        session_step(SessionState::Open, SessionEvent::MessageArrived),
        (SessionState::Open, SessionAction::DispatchMessage)
    );
    assert_eq!(
        session_step(SessionState::Open, SessionEvent::ReadClosed),
        (SessionState::Closed, SessionAction::CloseConnection)
    );
    for ev in [
        SessionEvent::HandshakeAccepted,
        SessionEvent::HandshakeFailed,
        SessionEvent::MessageArrived,
        SessionEvent::ReadClosed,
    ] {
        assert_eq!(
            session_step(SessionState::Closed, ev),
            (SessionState::Closed, SessionAction::DoNothing)
        );
    }
}

#[test]
fn greeting_text() {
    assert_eq!(greeting(), "Welcome to the WebSocket server!");
}
