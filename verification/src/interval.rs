//! Timestamps and the `Interval` time span: the leaf unit of the tracker.

use vstd::prelude::*;

verus! {

/// Relies on chrono's `Local::now` and `DateTime::timestamp`: the current
/// wall-clock time as whole seconds since the Unix epoch. Chrono's calendar
/// spans roughly 262,000 years either way, which keeps the count well
/// inside the library's valid timestamp range.
#[verifier::external_body]
pub fn dt_now() -> (r: Dt)
    ensures
        valid_ts(r.0),
{
    Dt(chrono::Local::now().timestamp())
}

/// Largest magnitude, in seconds, of a timestamp the library accepts.
/// Roughly 557,000 years on either side of the epoch: far wider than any
/// calendar timestamp a caller can produce, and narrow enough that sums of
/// interval lengths over a day's blocks provably fit in `i64`.
pub const MAX_TIMESTAMP_SECS: i64 = 0x1000_0000_0000;

/// A timestamp is valid when its magnitude is within `MAX_TIMESTAMP_SECS`.
pub open spec fn valid_ts(t: i64) -> bool {
    -MAX_TIMESTAMP_SECS <= t && t <= MAX_TIMESTAMP_SECS
}

/// A point in time, counted in whole seconds relative to the Unix epoch.
/// The caller supplies every timestamp; the core never reads a clock.
#[derive(Clone, Copy, PartialEq, Eq, Structural, Debug)]
pub struct Dt(pub i64);

impl Dt {
    /// A timestamp is well formed when it lies in the accepted range.
    pub open spec fn wf(self) -> bool {
        valid_ts(self.0)
    }

    pub fn new(seconds: i64) -> (r: Dt)
        ensures
            r.0 == seconds,
    {
        Dt(seconds)
    }

    pub fn seconds(self) -> (r: i64)
        ensures
            r == self.0,
    {
        self.0
    }
}

/// Failure of an `Interval` operation: a span can be closed exactly once.
#[derive(Clone, Copy, PartialEq, Eq, Structural, Debug)]
pub enum IntervalError {
    AlreadyEnded,
}

/// A time span: a start, and an end that is set when the span is closed.
/// `end` earlier than `start` is accepted and yields a negative length;
/// rejecting it is deliberately not part of the design.
#[derive(Clone, Copy, Debug)]
pub struct Interval {
    pub start: Dt,
    pub end: Option<Dt>,
}

impl Interval {
    /// Both endpoints, where present, are valid timestamps.
    pub open spec fn wf(self) -> bool {
        &&& self.start.wf()
        &&& (self.end matches Some(e) ==> e.wf())
    }

    pub open spec fn spec_has_end(self) -> bool {
        self.end is Some
    }

    /// Length in seconds; meaningful only when the span has ended.
    pub open spec fn spec_len_secs(self) -> int
        recommends
            self.spec_has_end(),
    {
        (self.end->0).0 - self.start.0
    }

    pub fn new(start: Dt) -> (r: Interval)
        ensures
            r.start == start,
            r.end is None,
    {
        Interval { start, end: None }
    }

    /// A span starting at the current wall-clock time.
    pub fn new_now() -> (r: Interval)
        ensures
            r.end is None,
            valid_ts(r.start.0),
    {
        Interval::new(dt_now())
    }

    /// Closes the span at the current wall-clock time; closing an already
    /// closed span is an error and leaves it unchanged.
    pub fn end_now(&mut self) -> (r: Result<(), IntervalError>)
        ensures
            old(self).end is None ==> r is Ok && (final(self).end matches Some(e) && valid_ts(e.0))
                && final(self).start == old(self).start,
            old(self).end is Some ==> r is Err && *final(self) == *old(self),
    {
        let now = dt_now();
        self.end_at(now)
    }

    /// Closes the span at `end`; closing an already closed span is an error
    /// and leaves the span unchanged.
    pub fn end_at(&mut self, end: Dt) -> (r: Result<(), IntervalError>)
        ensures
            old(self).end is None ==> r is Ok && final(self).end == Some(end)
                && final(self).start == old(self).start,
            old(self).end is Some ==> r == Result::<(), IntervalError>::Err(
                IntervalError::AlreadyEnded,
            ) && *final(self) == *old(self),
    {
        match self.end {
            Some(_) => Err(IntervalError::AlreadyEnded),
            None => {
                self.end = Some(end);
                Ok(())
            },
        }
    }

    /// Sets the end unconditionally, overwriting any earlier end. The `Day`
    /// transitions use this to re-close a block they know the state of.
    pub(crate) fn close_at(&mut self, end: Dt)
        ensures
            final(self).start == old(self).start,
            final(self).end == Some(end),
    {
        self.end = Some(end);
    }

    /// Reopens the span; the one sanctioned path back from an ended state,
    /// used by `Day::restart_day`.
    pub fn unset_end(&mut self)
        ensures
            final(self).start == old(self).start,
            final(self).end is None,
    {
        self.end = None;
    }

    pub fn has_end(&self) -> (r: bool)
        ensures
            r == self.spec_has_end(),
    {
        match self.end {
            Some(_) => true,
            None => false,
        }
    }

    pub fn get_start(&self) -> (r: Dt)
        ensures
            r == self.start,
    {
        self.start
    }

    pub fn get_end(&self) -> (r: Option<Dt>)
        ensures
            r == self.end,
    {
        self.end
    }

    /// Length in whole seconds, `None` while the span is open.
    pub fn get_length_secs(&self) -> (r: Option<i64>)
        requires
            self.wf(),
        ensures
            self.spec_has_end() ==> r == Some(self.spec_len_secs() as i64)
                && r->0 == self.spec_len_secs(),
            !self.spec_has_end() ==> r is None,
    {
        match self.end {
            Some(end) => Some(end.0 - self.start.0),
            None => None,
        }
    }

    /// Length in whole minutes, truncated toward zero, `None` while open.
    pub fn get_length_mins(&self) -> (r: Option<i64>)
        requires
            self.wf(),
        ensures
            self.spec_has_end() ==> r == Some(div_trunc(self.spec_len_secs() as i64, 60)),
            !self.spec_has_end() ==> r is None,
    {
        match self.get_length_secs() {
            Some(secs) => Some(div_trunc_by_60(secs)),
            None => None,
        }
    }

    /// Length in whole minutes, truncated toward zero, `None` while open.
    /// Same as `get_length_mins`, under the name the earliest callers used.
    pub fn get_length(&self) -> (r: Option<i64>)
        requires
            self.wf(),
        ensures
            self.spec_has_end() ==> r == Some(div_trunc(self.spec_len_secs() as i64, 60)),
            !self.spec_has_end() ==> r is None,
    {
        self.get_length_mins()
    }
}

/// Signed division truncated toward zero, as the executable `/` of the
/// host language computes it.
pub open spec fn div_trunc(a: i64, b: i64) -> i64
    recommends
        b > 0,
{
    if a >= 0 {
        (a as int / b as int) as i64
    } else {
        (-((-(a as int)) / (b as int))) as i64
    }
}

/// Divides by 60, truncating toward zero.
pub(crate) fn div_trunc_by_60(a: i64) -> (r: i64)
    ensures
        r == div_trunc(a, 60),
{
    if a >= 0 {
        let q: i64 = (a as u64 / 60u64) as i64;
        proof {
            assert(0 <= a as int / 60 <= a);
        }
        q
    } else {
        let n: u64 = (-(a as i128)) as u64;
        let q: u64 = n / 60u64;
        proof {
            assert(n == -(a as int));
            assert(0 <= n as int / 60 <= n);
        }
        -(q as i64)
    }
}

} // verus!
