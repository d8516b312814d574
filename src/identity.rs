//! Decisions of the identity check: report a valid identity at once, or
//! open an interactive login and poll, at a fixed interval, up to a fixed
//! number of times.
use vstd::prelude::*;

verus! {

/// How many times the identity is polled after a login was opened.
pub const LOGIN_POLL_LIMIT: u32 = 20;

/// Seconds between two polls.
pub const LOGIN_POLL_INTERVAL_SECS: u64 = 3;

/// What the loop running the check does next.
#[derive(Clone, Copy, Debug, PartialEq, Eq, Structural)]
pub enum IdentityAction {
    /// Report "SSO valid" and stop.
    ReportValid,
    /// Open the interactive login, report it, then wait and poll.
    OpenLogin,
    /// Wait the interval, then poll again.
    WaitAndPoll,
    /// Report "SSO still invalid after waiting" and stop.
    ReportStillInvalid,
}

/// The polling that follows an opened login.
pub struct LoginWatch {
    pub limit: u32,
    pub polls: u32,
    pub finished: bool,
    pub valid: bool,
}

/// The first check: a valid identity is reported, else a login is opened.
pub fn first_check(valid: bool) -> (r: IdentityAction)
    ensures
        r == (if valid {
            IdentityAction::ReportValid
        } else {
            IdentityAction::OpenLogin
        }),
{
    if valid {
        IdentityAction::ReportValid
    } else {
        IdentityAction::OpenLogin
    }
}

/// The state after one more poll that found the identity `valid` or not.
pub open spec fn after_poll(w: LoginWatch, valid: bool) -> LoginWatch {
    if w.finished {
        w
    } else if valid {
        LoginWatch { polls: (w.polls + 1) as u32, finished: true, valid: true, ..w }
    } else if w.polls + 1 >= w.limit {
        LoginWatch { polls: (w.polls + 1) as u32, finished: true, valid: false, ..w }
    } else {
        LoginWatch { polls: (w.polls + 1) as u32, ..w }
    }
}

/// The state after the polls `outcomes`, in order, stopping once finished.
pub open spec fn after_polls(w: LoginWatch, outcomes: Seq<bool>) -> LoginWatch
    decreases outcomes.len(),
{
    if outcomes.len() == 0 || w.finished {
        w
    } else {
        after_polls(after_poll(w, outcomes[0]), outcomes.drop_first())
    }
}

pub open spec fn watch_ok(w: LoginWatch) -> bool {
    &&& w.limit >= 1
    &&& w.polls <= w.limit
    &&& !w.finished ==> w.polls < w.limit
    &&& !w.finished ==> !w.valid
}

impl LoginWatch {
    /// A watch that polls at most `limit` times.
    pub fn new(limit: u32) -> (r: LoginWatch)
        requires
            limit >= 1,
        ensures
            r == (LoginWatch { limit, polls: 0, finished: false, valid: false }),
            watch_ok(r),
    {
        LoginWatch { limit, polls: 0, finished: false, valid: false }
    }

    /// Records one poll and says what to do next.
    pub fn record_poll(&mut self, valid: bool) -> (r: IdentityAction)
        requires
            watch_ok(*old(self)),
            !old(self).finished,
        ensures
            *final(self) == after_poll(*old(self), valid),
            watch_ok(*final(self)),
            r == (if final(self).finished {
                if final(self).valid {
                    IdentityAction::ReportValid
                } else {
                    IdentityAction::ReportStillInvalid
                }
            } else {
                IdentityAction::WaitAndPoll
            }),
    {
        self.polls = self.polls + 1;
        if valid {
            self.finished = true;
            self.valid = true;
            IdentityAction::ReportValid
        } else if self.polls >= self.limit {
            self.finished = true;
            IdentityAction::ReportStillInvalid
        } else {
            IdentityAction::WaitAndPoll
        }
    }
}

/// `k` failed polls and then a successful one: with `k` below the limit, the
/// watch ends valid after exactly `k + 1` polls, whatever would follow.
pub proof fn lemma_valid_after_failures(limit: u32, k: nat, rest: Seq<bool>)
    requires
        limit >= 1,
        k < limit,
    ensures
        ({
            let outcomes = Seq::new(k, |i: int| false).push(true) + rest;
            let w = after_polls(LoginWatch { limit, polls: 0, finished: false, valid: false }, outcomes);
            w.finished && w.valid && w.polls == k + 1
        }),
{
    lemma_failures_then_success(LoginWatch { limit, polls: 0, finished: false, valid: false }, k, rest);
}

proof fn lemma_failures_then_success(w: LoginWatch, k: nat, rest: Seq<bool>)
    requires
        watch_ok(w),
        !w.finished,
        w.polls + k < w.limit,
    ensures
        ({
            let r = after_polls(w, Seq::new(k, |i: int| false).push(true) + rest);
            r.finished && r.valid && r.polls == w.polls + k + 1 && r.limit == w.limit
        }),
    decreases k,
{
    let outcomes = Seq::new(k, |i: int| false).push(true) + rest;
    if k == 0 {
        assert(outcomes[0] == true);
        let w1 = after_poll(w, true);
        assert(after_polls(w1, outcomes.drop_first()) == w1);
    } else {
        assert(outcomes[0] == false);
        let w1 = after_poll(w, false);
        assert(outcomes.drop_first() =~= Seq::new((k - 1) as nat, |i: int| false).push(true) + rest);
        lemma_failures_then_success(w1, (k - 1) as nat, rest);
    }
}

/// Polls that all fail: the watch ends, not valid, after exactly `limit`
/// polls, whatever would follow.
pub proof fn lemma_gives_up_at_limit(limit: u32, rest: Seq<bool>)
    requires
        limit >= 1,
    ensures
        ({
            let outcomes = Seq::new(limit as nat, |i: int| false) + rest;
            let w = after_polls(LoginWatch { limit, polls: 0, finished: false, valid: false }, outcomes);
            w.finished && !w.valid && w.polls == limit
        }),
{
    lemma_all_failures(LoginWatch { limit, polls: 0, finished: false, valid: false }, rest);
}

proof fn lemma_all_failures(w: LoginWatch, rest: Seq<bool>)
    requires
        watch_ok(w),
        !w.finished,
    ensures
        ({
            let r = after_polls(w, Seq::new((w.limit - w.polls) as nat, |i: int| false) + rest);
            r.finished && !r.valid && r.polls == w.limit
        }),
    decreases w.limit - w.polls,
{
    let n = (w.limit - w.polls) as nat;
    let outcomes = Seq::new(n, |i: int| false) + rest;
    assert(outcomes[0] == false);
    let w1 = after_poll(w, false);
    if w1.finished {
        assert(after_polls(w1, outcomes.drop_first()) == w1);
    } else {
        assert(outcomes.drop_first() =~= Seq::new((w1.limit - w1.polls) as nat, |i: int| false) + rest);
        lemma_all_failures(w1, rest);
    }
}

} // verus!
