//! Trying again: how often a page is opened again while a site's challenge
//! page shows and how long to wait in between, and how often a failed fetch
//! is repeated.
use crate::text;
use crate::text::{contains_str, str_eq, trim_str};
use vstd::prelude::*;

verus! {

/// What to do after a page was opened.
pub enum CfAction {
    /// The page is there.
    Done,
    /// The challenge stayed on the last try: give up.
    GiveUp,
    /// Wait this many seconds, then open the page again.
    Wait(u64),
}

/// The tries made so far to open one page.
pub struct CfRetry {
    /// Tries made.
    pub attempt: usize,
    /// Tries allowed.
    pub retry: usize,
    /// The first wait, in seconds; each later one is longer by as much.
    pub sleep: u64,
    /// The next wait, in seconds.
    pub sleep_time: u64,
}

impl CfRetry {
    /// The waits grow by `sleep` each time: before try `a + 1` the wait is
    /// `sleep * (a + 1)`.
    pub open spec fn wf(&self) -> bool {
        self.sleep_time == self.sleep * (self.attempt + 1)
    }

    /// No try made yet.
    pub fn new(retry: usize, sleep: u64) -> (r: CfRetry)
        ensures
            r.attempt == 0,
            r.retry == retry,
            r.sleep == sleep,
            r.sleep_time == sleep,
            r.wf(),
    {
        CfRetry { attempt: 0, retry, sleep, sleep_time: sleep }
    }

    /// Whether the page is to be opened (again): while fewer than `retry`
    /// tries were made.
    pub fn should_open(&self) -> (b: bool)
        ensures
            b == (self.attempt < self.retry),
    {
        self.attempt < self.retry
    }

    /// The next step after a try, where `challenged` tells whether the
    /// challenge page was shown. A page without it is done; the last allowed
    /// try with it gives up; an earlier one waits the current time, then the
    /// next wait is longer by `sleep`.
    pub fn on_page(&mut self, challenged: bool) -> (a: CfAction)
        requires
            old(self).attempt < old(self).retry,
            old(self).wf(),
            challenged && old(self).attempt + 1 < old(self).retry ==> old(self).sleep_time
                + old(self).sleep <= u64::MAX,
        ensures
            !challenged ==> (a is Done) && (*final(self) == *old(self)),
            challenged && old(self).attempt + 1 == old(self).retry ==> (a is GiveUp) && (
            *final(self) == *old(self)),
            challenged && old(self).attempt + 1 < old(self).retry ==> {
                &&& a == CfAction::Wait(old(self).sleep_time)
                &&& final(self).attempt == old(self).attempt + 1
                &&& final(self).sleep_time == old(self).sleep_time + old(self).sleep
                &&& final(self).retry == old(self).retry
                &&& final(self).sleep == old(self).sleep
            },
            final(self).wf(),
            final(self).attempt <= final(self).retry,
    {
        if !challenged {
            return CfAction::Done;
        }
        if self.attempt == self.retry - 1 {
            return CfAction::GiveUp;
        }
        let wait = self.sleep_time;
        let a0 = self.attempt;
        let s0 = self.sleep;
        self.sleep_time = self.sleep_time + self.sleep;
        self.attempt = self.attempt + 1;
        assert(s0 * (a0 + 1 + 1) == s0 * (a0 + 1) + s0) by (nonlinear_arith);
        CfAction::Wait(wait)
    }

    /// Whether waiting after the current try fits the clock's range.
    pub fn wait_fits(&self) -> (b: bool)
        ensures
            b == (self.sleep_time + self.sleep <= u64::MAX),
    {
        self.sleep_time <= u64::MAX - self.sleep
    }
}

/// What to do after a failed try.
pub enum RetryStep {
    /// Try again.
    Again,
    /// That was the last allowed try: give up.
    GiveUp,
}

/// The tries of one fetch that may be repeated a fixed number of times.
pub struct Attempts {
    /// Tries made, failed all.
    pub made: usize,
    /// Tries allowed.
    pub limit: usize,
}

impl Attempts {
    /// No more tries are made than allowed.
    pub open spec fn wf(&self) -> bool {
        self.made <= self.limit
    }

    /// No try made yet, `limit` allowed.
    pub fn new(limit: usize) -> (r: Attempts)
        ensures
            r.made == 0,
            r.limit == limit,
            r.wf(),
    {
        Attempts { made: 0, limit }
    }

    /// Whether a try is to be made: while fewer than `limit` were made.
    pub fn should_try(&self) -> (b: bool)
        ensures
            b == (self.made < self.limit),
    {
        self.made < self.limit
    }

    /// Counts a failed try; gives up when it was the last one allowed.
    pub fn on_failure(&mut self) -> (r: RetryStep)
        requires
            old(self).made < old(self).limit,
        ensures
            final(self).made == old(self).made + 1,
            final(self).limit == old(self).limit,
            final(self).wf(),
            r is GiveUp <==> final(self).made == final(self).limit,
    {
        self.made = self.made + 1;
        if self.made == self.limit {
            RetryStep::GiveUp
        } else {
            RetryStep::Again
        }
    }
}

/// Whether a page body is the challenge page's.
pub fn challenge_body(body: &str) -> (b: bool)
    ensures
        b == text::contains(body@, "Verifying you are human"@),
{
    contains_str(body, "Verifying you are human")
}

/// Whether a page title, trimmed, is the challenge page's.
pub fn challenge_title(title: &str) -> (b: bool)
    ensures
        b == (text::trim(title@) == "Just a moment..."@),
{
    let t = trim_str(title);
    str_eq(t.as_str(), "Just a moment...")
}

} // verus!
