//! The configuration surface the core reads, and the time-behind ledger it
//! maintains: a signed running total of seconds behind target, stored as
//! whole minutes plus leftover seconds.

use vstd::prelude::*;
use vstd::string::StringExecFns;

verus! {

/// Cap on the ledger's minutes part, so converting to seconds fits `i64`.
pub const MAX_LEDGER_MINUTES: i64 = 60_000_000_000_000_000;

/// Cap on the ledger's extra-seconds part.
pub const MAX_LEDGER_EXTRA_SECS: i64 = 400_000_000_000_000_000;

/// Largest ledger value, in seconds, that an update may produce.
pub const MAX_LEDGER_SECS: i64 = 3_600_000_000_000_000_000;

/// The tracker's configuration: day-length default, default task names, the
/// time-behind ledger, and presentation preferences.
#[derive(Clone, Debug)]
pub struct Config {
    pub day_in_minutes: i64,
    pub default_punch_in_task: String,
    pub default_break_task: String,
    pub minutes_behind: i64,
    pub seconds_behind_in_addition: Option<i64>,
    pub minutes_behind_non_neg: u64,
    pub editor_path: Option<String>,
    pub show_times_in_hours: Option<bool>,
}

impl Config {
    /// The ledger value in seconds: minutes part times sixty plus the extra
    /// seconds.
    pub open spec fn spec_seconds_behind(self) -> int {
        self.minutes_behind * 60 + (match self.seconds_behind_in_addition {
            Some(e) => e as int,
            None => 0,
        })
    }

    /// The ledger parts lie within the caps, so its second count and every
    /// update stay within `i64`.
    pub open spec fn wf(self) -> bool {
        &&& -MAX_LEDGER_MINUTES <= self.minutes_behind <= MAX_LEDGER_MINUTES
        &&& (self.seconds_behind_in_addition matches Some(e) ==> -MAX_LEDGER_EXTRA_SECS <= e
            <= MAX_LEDGER_EXTRA_SECS)
    }

    pub fn new(
        day_length: i64,
        default_punch_in_task: String,
        default_break_task: String,
        minutes_behind: i64,
        seconds_behind_in_addition: Option<i64>,
        show_times_in_hours: Option<bool>,
    ) -> (r: Config)
        requires
            -MAX_LEDGER_MINUTES <= minutes_behind <= MAX_LEDGER_MINUTES,
            seconds_behind_in_addition matches Some(e) ==> -MAX_LEDGER_EXTRA_SECS <= e
                <= MAX_LEDGER_EXTRA_SECS,
        ensures
            r.wf(),
            r.day_in_minutes == day_length,
            r.default_punch_in_task == default_punch_in_task,
            r.default_break_task == default_break_task,
            r.minutes_behind == minutes_behind,
            r.seconds_behind_in_addition == seconds_behind_in_addition,
            r.minutes_behind_non_neg == (if minutes_behind < 0 {
                0int
            } else {
                minutes_behind as int
            }),
            r.editor_path matches Some(p) && p@ == "vim"@,
            r.show_times_in_hours == show_times_in_hours,
    {
        let non_neg: u64 = if minutes_behind < 0 {
            0
        } else {
            minutes_behind as u64
        };
        Config {
            day_in_minutes: day_length,
            default_punch_in_task,
            default_break_task,
            minutes_behind,
            seconds_behind_in_addition,
            minutes_behind_non_neg: non_neg,
            editor_path: Some(String::from_str("vim")),
            show_times_in_hours,
        }
    }

    pub fn day_in_minutes(&self) -> (r: i64)
        ensures
            r == self.day_in_minutes,
    {
        self.day_in_minutes
    }

    pub fn get_default_punch_in_task(&self) -> (r: &str)
        ensures
            r@ == self.default_punch_in_task@,
    {
        self.default_punch_in_task.as_str()
    }

    pub fn get_default_break_task(&self) -> (r: &str)
        ensures
            r@ == self.default_break_task@,
    {
        self.default_break_task.as_str()
    }

    pub fn minutes_behind(&self) -> (r: i64)
        ensures
            r == self.minutes_behind,
    {
        self.minutes_behind
    }

    pub fn editor_path(&self) -> (r: Option<&String>)
        ensures
            match r {
                Some(p) => self.editor_path matches Some(q) && p == q,
                None => self.editor_path is None,
            },
    {
        self.editor_path.as_ref()
    }

    /// The presentation preference, defaulting to showing hours.
    pub fn show_times_in_hours_or_default(&self) -> (r: bool)
        ensures
            r == (match self.show_times_in_hours {
                Some(b) => b,
                None => true,
            }),
    {
        match self.show_times_in_hours {
            Some(b) => b,
            None => true,
        }
    }

    /// The ledger value in seconds.
    pub fn get_seconds_behind(&self) -> (r: i64)
        requires
            self.wf(),
        ensures
            r == self.spec_seconds_behind(),
    {
        let seconds_in_addition: i64 = match self.seconds_behind_in_addition {
            Some(e) => e,
            None => 0,
        };
        self.minutes_behind * 60 + seconds_in_addition
    }

    /// Applies a signed delta to the ledger: the new value is exactly the
    /// old value plus `delta_secs`, stored re-normalized as whole minutes
    /// plus leftover seconds of the same sign.
    pub fn update_time_behind(&mut self, delta_secs: i64)
        requires
            old(self).wf(),
            -MAX_LEDGER_SECS <= old(self).spec_seconds_behind() + delta_secs <= MAX_LEDGER_SECS,
        ensures
            final(self).wf(),
            final(self).spec_seconds_behind() == old(self).spec_seconds_behind() + delta_secs,
            final(self).seconds_behind_in_addition matches Some(e) && -59 <= e <= 59,
            final(self).day_in_minutes == old(self).day_in_minutes,
            final(self).default_punch_in_task == old(self).default_punch_in_task,
            final(self).default_break_task == old(self).default_break_task,
            final(self).minutes_behind_non_neg == old(self).minutes_behind_non_neg,
            final(self).editor_path == old(self).editor_path,
            final(self).show_times_in_hours == old(self).show_times_in_hours,
    {
        let current: i64 = self.get_seconds_behind();
        let new_total: i64 = current + delta_secs;
        let abs: u64 = if new_total < 0 {
            (-new_total) as u64
        } else {
            new_total as u64
        };
        let mins: i64 = (abs / 60) as i64;
        let extra: i64 = (abs % 60) as i64;
        if new_total < 0 {
            self.minutes_behind = -mins;
            self.seconds_behind_in_addition = Some(-extra);
        } else {
            self.minutes_behind = mins;
            self.seconds_behind_in_addition = Some(extra);
        }
    }

    /// Applies a signed delta to the minutes part alone, zeroing the legacy
    /// nonnegative mirror field.
    pub fn update_minutes_behind(&mut self, delta: i64)
        requires
            old(self).wf(),
            -MAX_LEDGER_MINUTES <= old(self).minutes_behind + delta <= MAX_LEDGER_MINUTES,
        ensures
            final(self).wf(),
            final(self).minutes_behind == old(self).minutes_behind + delta,
            final(self).minutes_behind_non_neg == 0,
            final(self).seconds_behind_in_addition == old(self).seconds_behind_in_addition,
            final(self).day_in_minutes == old(self).day_in_minutes,
            final(self).default_punch_in_task == old(self).default_punch_in_task,
            final(self).default_break_task == old(self).default_break_task,
            final(self).editor_path == old(self).editor_path,
            final(self).show_times_in_hours == old(self).show_times_in_hours,
    {
        self.minutes_behind = self.minutes_behind + delta;
        self.minutes_behind_non_neg = 0;
    }
}

/// Law: applying a delta and then its negation returns the ledger to its
/// starting value in seconds.
pub proof fn lemma_ledger_reversal(c0: Config, c1: Config, c2: Config, delta: i64)
    requires
        c1.spec_seconds_behind() == c0.spec_seconds_behind() + delta,
        c2.spec_seconds_behind() == c1.spec_seconds_behind() - delta,
    ensures
        c2.spec_seconds_behind() == c0.spec_seconds_behind(),
{
}

} // verus!
