//! The heartbeat schedule of one connection.
//!
//! A client asks for a heartbeat every `interval` tenths of a second; an
//! interval of 0 asks for none.  The schedule does not keep time itself: the
//! caller tells it what time it is, in milliseconds, and is told how many
//! heartbeat frames have come due since it last asked.

use vstd::prelude::*;

verus! {

/// Milliseconds between two heartbeats for an interval in tenths of a
/// second; 0 stands for no heartbeats.
pub open spec fn period_of(interval: u32) -> int {
    interval as int * 100
}

/// The mathematical content of a [`Heartbeat`].
pub struct HeartbeatView {
    /// Milliseconds between two heartbeats; 0 when there are none.
    pub period: int,
    /// When the next heartbeat comes due.
    pub next_due: int,
    /// Whether the schedule has ended.
    pub stopped: bool,
}

/// The schedule armed at `now` for `interval`.
pub open spec fn armed(interval: u32, now: u64) -> HeartbeatView {
    HeartbeatView {
        period: period_of(interval),
        next_due: now as int + period_of(interval),
        stopped: false,
    }
}

/// How many heartbeats have come due by `now` and were not yet sent.
pub open spec fn due_count(h: HeartbeatView, now: int) -> int {
    if h.stopped || h.period <= 0 || now < h.next_due {
        0
    } else {
        (now - h.next_due) / h.period + 1
    }
}

/// The schedule after the heartbeats due by `now` were sent.
pub open spec fn after_poll(h: HeartbeatView, now: int) -> HeartbeatView {
    HeartbeatView { next_due: h.next_due + due_count(h, now) * h.period, ..h }
}

/// The heartbeat schedule of one connection.
#[derive(Clone, Copy, Debug, PartialEq, Eq)]
pub struct Heartbeat {
    period: u64,
    next_due: u64,
    stopped: bool,
}

impl View for Heartbeat {
    type V = HeartbeatView;

    closed spec fn view(&self) -> HeartbeatView {
        HeartbeatView {
            period: self.period as int,
            next_due: self.next_due as int,
            stopped: self.stopped,
        }
    }
}

impl Heartbeat {
    /// The next heartbeat never lies within the first period of time.
    #[verifier::type_invariant]
    spec fn well_formed(self) -> bool {
        self.period > 0 ==> self.next_due >= self.period
    }

    /// Arms the schedule at `now` for `interval` tenths of a second.  The
    /// schedule is born stopped where its first heartbeat would lie beyond
    /// the end of time as `u64` counts it.
    pub fn arm(interval: u32, now: u64) -> (h: Heartbeat)
        ensures
            now + period_of(interval) <= u64::MAX ==> h@ == armed(interval, now),
            now + period_of(interval) > u64::MAX ==> h@.stopped,
            h@.period == period_of(interval),
    {
        let period: u64 = (interval as u64) * 100;
        match now.checked_add(period) {
            Some(next_due) => Heartbeat { period, next_due, stopped: false },
            None => Heartbeat { period, next_due: now, stopped: true },
        }
    }

    /// Whether heartbeats will still come.
    pub fn is_active(&self) -> (b: bool)
        ensures
            b == (!self@.stopped && self@.period > 0),
    {
        !self.stopped && self.period > 0
    }

    /// When the next heartbeat comes due, if any will.
    pub fn next_due(&self) -> (r: Option<u64>)
        ensures
            r == if !self@.stopped && self@.period > 0 {
                Some(self@.next_due as u64)
            } else {
                None
            },
            r matches Some(t) ==> t == self@.next_due,
    {
        if self.is_active() {
            Some(self.next_due)
        } else {
            None
        }
    }

    /// Ends the schedule: no heartbeat comes due any more.
    pub fn stop(&mut self)
        ensures
            final(self)@ == (HeartbeatView { stopped: true, ..old(self)@ }),
    {
        proof {
            use_type_invariant(&*self);
        }
        self.stopped = true;
    }

    /// The number of heartbeat frames to send at `now`: those that came due
    /// since the last call.  The schedule moves on behind them; it stops
    /// where its next heartbeat would lie beyond the end of time.
    pub fn poll(&mut self, now: u64) -> (count: u64)
        ensures
            count == due_count(old(self)@, now as int),
            after_poll(old(self)@, now as int).next_due <= u64::MAX ==> final(self)@ == after_poll(
                old(self)@,
                now as int,
            ),
            after_poll(old(self)@, now as int).next_due > u64::MAX ==> final(self)@.stopped,
            final(self)@.period == old(self)@.period,
    {
        proof {
            use_type_invariant(&*self);
        }
        if self.stopped || self.period == 0 || now < self.next_due {
            return 0;
        }
        let behind: u64 = (now - self.next_due) / self.period;
        proof {
            use_type_invariant(&*self);
            let p = self.period as int;
            let d = now as int - self.next_due as int;
            vstd::arithmetic::div_mod::lemma_fundamental_div_mod(d, p);
            vstd::arithmetic::div_mod::lemma_mod_bound(d, p);
            assert(behind as int * p == p * (d / p)) by (nonlinear_arith)
                requires
                    behind as int == d / p,
            ;
            assert(behind as int * p <= d);
            assert(behind as int <= behind as int * p) by (nonlinear_arith)
                requires
                    p >= 1,
                    behind as int >= 0,
            ;
        }
        let count: u64 = behind + 1;
        assert(count as int * (self.period as int) == behind as int * (self.period as int)
            + self.period as int) by (nonlinear_arith)
            requires
                count as int == behind as int + 1,
        ;
        let covered: u64 = behind * self.period;
        let caught_up: u64 = self.next_due + covered;
        match caught_up.checked_add(self.period) {
            Some(next_due) => {
                self.next_due = next_due;
            },
            None => {
                self.stopped = true;
            },
        }
        count
    }
}

/// With an interval of 0 no heartbeat ever comes due.
pub proof fn lemma_interval_zero_is_silent(armed_at: u64, now: int)
    ensures
        due_count(armed(0, armed_at), now) == 0,
        after_poll(armed(0, armed_at), now) == armed(0, armed_at),
{
}

/// A stopped schedule is silent for ever.
pub proof fn lemma_stopped_is_silent(h: HeartbeatView, now: int)
    requires
        h.stopped,
    ensures
        due_count(h, now) == 0,
        after_poll(h, now) == h,
{
}

/// With an interval above 0, one heartbeat comes due per period: by `now`
/// as many as whole periods have passed since the schedule was armed.
pub proof fn lemma_one_heartbeat_per_period(interval: u32, armed_at: u64, now: int)
    requires
        interval > 0,
        armed_at <= now,
    ensures
        due_count(armed(interval, armed_at), now) == (now - armed_at) / period_of(interval),
{
    let p = period_of(interval);
    let d = now - armed_at;
    if d >= p {
        vstd::arithmetic::div_mod::lemma_fundamental_div_mod(d, p);
        vstd::arithmetic::div_mod::lemma_fundamental_div_mod(d - p, p);
        vstd::arithmetic::div_mod::lemma_mod_bound(d, p);
        vstd::arithmetic::div_mod::lemma_mod_bound(d - p, p);
        let q = d / p;
        let r = (d - p) / p;
        assert(p * q + d % p == p * r + (d - p) % p + p);
        assert(q == r + 1) by (nonlinear_arith)
            requires
                p > 0,
                p * q + d % p == p * r + (d - p) % p + p,
                0 <= d % p < p,
                0 <= (d - p) % p < p,
        ;
    } else {
        vstd::arithmetic::div_mod::lemma_basic_div(d, p);
    }
}

/// Asking in between changes nothing: the heartbeats sent at an earlier and
/// at a later moment together are those that one call at the later moment
/// would have sent, and the schedule ends up the same.
pub proof fn lemma_polls_add_up(h: HeartbeatView, earlier: int, later: int)
    requires
        earlier <= later,
    ensures
        due_count(h, earlier) + due_count(after_poll(h, earlier), later) == due_count(h, later),
        after_poll(after_poll(h, earlier), later) == after_poll(h, later),
{
    if !(h.stopped || h.period <= 0 || earlier < h.next_due) {
        let p = h.period;
        let a = earlier - h.next_due;
        let b = later - h.next_due;
        let k = a / p + 1;
        vstd::arithmetic::div_mod::lemma_fundamental_div_mod(a, p);
        vstd::arithmetic::div_mod::lemma_mod_bound(a, p);
        vstd::arithmetic::div_mod::lemma_fundamental_div_mod(b, p);
        vstd::arithmetic::div_mod::lemma_mod_bound(b, p);
        assert(k * p == p * (a / p) + p) by (nonlinear_arith)
            requires
                k == a / p + 1,
        ;
        let mid = after_poll(h, earlier);
        assert(mid.next_due == h.next_due + k * p);
        assert(mid.next_due > earlier);
        if later >= mid.next_due {
            let c = later - mid.next_due;
            vstd::arithmetic::div_mod::lemma_fundamental_div_mod(c, p);
            vstd::arithmetic::div_mod::lemma_mod_bound(c, p);
            let qb = b / p;
            let qc = c / p;
            assert(qb == qc + k) by (nonlinear_arith)
                requires
                    p > 0,
                    b == p * qb + b % p,
                    c == p * qc + c % p,
                    b == c + k * p,
                    0 <= b % p < p,
                    0 <= c % p < p,
            ;
            assert((qc + 1) * p + k * p == (qb + 1) * p) by (nonlinear_arith)
                requires
                    qb == qc + k,
            ;
        } else {
            let qb = b / p;
            assert(qb + 1 == k) by (nonlinear_arith)
                requires
                    p > 0,
                    b == p * qb + b % p,
                    0 <= b % p < p,
                    a <= b,
                    b < k * p,
                    k * p == p * (a / p) + p,
                    a == p * (a / p) + a % p,
                    0 <= a % p < p,
            ;
        }
    }
}

} // verus!
