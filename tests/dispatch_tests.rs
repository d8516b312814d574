use secmanager::dispatch::{Slot, SlotState};
use secmanager::identity::{first_check, IdentityAction, LoginWatch, LOGIN_POLL_LIMIT};

#[test]
fn slot_delivers_result_once() {
    let mut s: Slot<u32> = Slot::new();
    assert!(s.is_idle());
    assert!(s.poll().is_none());
    assert!(s.start());
    assert!(s.poll().is_none());
    assert!(s.complete(7));
    assert_eq!(s.poll(), Some(7));
    assert_eq!(s.poll(), None);
    assert!(s.is_idle());
}

#[test]
fn slot_refuses_second_start() {
    let mut s: Slot<u32> = Slot::new();
    assert!(s.start());
    assert!(!s.start());
    assert!(s.complete(1));
    assert!(!s.start());
    assert!(!s.complete(2));
    assert_eq!(s.poll(), Some(1));
    assert!(s.start());
}

#[test]
fn slot_drops_result_when_nothing_pending() {
    let mut s: Slot<u32> = Slot::new();
    assert!(!s.complete(3));
    assert!(matches!(s.state, SlotState::Idle));
}

fn run_watch(limit: u32, mut stub: impl FnMut() -> bool) -> (IdentityAction, u32, u32) {
    let mut w = LoginWatch::new(limit);
    let mut calls = 0;
    loop {
        calls += 1;
        let a = w.record_poll(stub());
        if a != IdentityAction::WaitAndPoll {
            return (a, w.polls, calls);
        }
    }
}

#[test]
fn login_watch_succeeds_after_k_failures() {
    for k in 0..LOGIN_POLL_LIMIT {
        let mut n = 0;
        let (a, polls, calls) = run_watch(LOGIN_POLL_LIMIT, || {
            n += 1;
            n > k
        });
        assert_eq!(a, IdentityAction::ReportValid);
        assert_eq!(polls, k + 1);
        assert_eq!(calls, k + 1);
    }
}

#[test]
fn login_watch_gives_up_after_limit() {
    let (a, polls, calls) = run_watch(LOGIN_POLL_LIMIT, || false);
    assert_eq!(a, IdentityAction::ReportStillInvalid);
    assert_eq!(polls, LOGIN_POLL_LIMIT);
    assert_eq!(calls, LOGIN_POLL_LIMIT);
    let (a, polls, _) = run_watch(1, || false);
    assert_eq!(a, IdentityAction::ReportStillInvalid);
    assert_eq!(polls, 1);
}

#[test]
fn first_check_opens_login_only_when_invalid() {
    assert_eq!(first_check(true), IdentityAction::ReportValid);
    assert_eq!(first_check(false), IdentityAction::OpenLogin);
}
