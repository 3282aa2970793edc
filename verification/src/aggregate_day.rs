//! The multi-day reducer: folds completed days into running totals for a
//! range summary, seeded with a starting "time behind" value.

use vstd::prelude::*;
use vstd::string::StringExecFns;

use crate::day::{Day, DayError, blocks_nonneg, count_sum, day_has_name, day_total_for, idx_sum,
    lemma_break_time_bounds, lemma_task_time_bounds, lemma_ascending_len_bound,
    lemma_day_len_is_block_sum};
use crate::misc::{render_seconds_human_readable, spec_render_seconds};
use crate::text::{render_u64, spec_dec_digits};

verus! {

/// Cap on every accumulated total, so sums and signed differences provably
/// fit their machine types.
pub const MAX_AGGREGATE_SECS: u64 = 4_000_000_000_000_000_000;

/// One task's accumulated time and block count across the added days.
#[derive(Clone, Debug)]
pub struct TaskTotal {
    pub name: String,
    pub secs: u64,
    pub blocks: u64,
}

/// Sum of the per-task block counts.
pub open spec fn blocks_total(s: Seq<TaskTotal>) -> int
    decreases s.len(),
{
    if s.len() == 0 {
        0
    } else {
        blocks_total(s.drop_last()) + s.last().blocks
    }
}

/// Whether some accumulated entry carries `name`.
pub open spec fn has_name(s: Seq<TaskTotal>, name: Seq<char>) -> bool {
    exists|e: int| 0 <= e < s.len() && (#[trigger] s[e]).name@ == name
}

/// The accumulated `(seconds, blocks)` pair for `name`, zero when absent.
pub open spec fn total_for(s: Seq<TaskTotal>, name: Seq<char>) -> (int, int) {
    if has_name(s, name) {
        let e = choose|e: int| 0 <= e < s.len() && (#[trigger] s[e]).name@ == name;
        (s[e].secs as int, s[e].blocks as int)
    } else {
        (0, 0)
    }
}

/// Successful `add_day`: every total accumulates the ended day's figures,
/// task by task.
pub open spec fn add_day_rel(pre: AggregateDay, post: AggregateDay, day: Day) -> bool {
    &&& post.total_time == pre.total_time + day.spec_day_len_secs()
    &&& post.total_break_time == pre.total_break_time + day.spec_break_secs()
    &&& post.num_breaks == pre.num_breaks + day.breaks@.len()
    &&& post.total_time_to_do == pre.total_time_to_do + day.spec_time_to_do_secs()
    &&& post.num_days == pre.num_days + 1
    &&& post.starting_time_behind == pre.starting_time_behind
    &&& blocks_total(post.task_totals@) == blocks_total(pre.task_totals@) + day.timeblocks@.len()
    &&& forall|name: Seq<char>|
        #[trigger] has_name(post.task_totals@, name) <==> (has_name(pre.task_totals@, name)
            || day_has_name(day, name))
    &&& forall|name: Seq<char>|
        #[trigger] total_for(post.task_totals@, name) == (
            (total_for(pre.task_totals@, name).0 + day_total_for(day, name).0),
            (total_for(pre.task_totals@, name).1 + day_total_for(day, name).1),
        )
}

/// One report line per accumulated task, in the order the tasks were first
/// seen.
pub open spec fn agg_task_lines(s: Seq<TaskTotal>, hours: bool) -> Seq<char>
    decreases s.len(),
{
    if s.len() == 0 {
        Seq::empty()
    } else {
        agg_task_lines(s.drop_last(), hours) + "\n\t"@ + s.last().name@ + ": "@
            + spec_render_seconds(s.last().secs as int, hours) + ", "@ + spec_dec_digits(
            s.last().blocks as int,
        ) + " blocks"@
    }
}

/// The full text of a range summary.
pub open spec fn agg_summary_text(a: AggregateDay, include_overall: bool, hours: bool) -> Seq<
    char,
> {
    "Num days summarised: "@ + spec_dec_digits(a.num_days as int)
        + "\nTotal work time (including breaks): "@ + spec_render_seconds(
        a.total_time as int,
        hours,
    ) + "\nTotal time working (excluding breaks): "@ + spec_render_seconds(
        a.total_time - a.total_break_time,
        hours,
    ) + "\nTotal time spent on break: "@ + spec_render_seconds(a.total_break_time as int, hours)
        + "\n"@ + "\nTotal task blocks (including breaks): "@ + spec_dec_digits(
        blocks_total(a.task_totals@),
    ) + "\nTotal task blocks (excluding breaks): "@ + spec_dec_digits(
        blocks_total(a.task_totals@) - a.num_breaks,
    ) + "\nTotal breaks: "@ + spec_dec_digits(a.num_breaks as int) + "\n"@
        + "\nTask times, blocks:"@ + agg_task_lines(a.task_totals@, hours) + "\n"@
        + "\nTime to do over period: "@ + spec_render_seconds(a.total_time_to_do as int, hours)
        + "\nTime behind over period: "@ + spec_render_seconds(
        a.total_time_to_do - (a.total_time - a.total_break_time),
        hours,
    ) + (if include_overall {
        "\nTime behind overall: "@ + spec_render_seconds(
            a.total_time_to_do - (a.total_time - a.total_break_time) + a.starting_time_behind,
            hours,
        )
    } else {
        Seq::empty()
    })
}

/// The reducer folding completed days into range totals.
#[derive(Clone, Debug)]
pub struct AggregateDay {
    pub total_time: u64,
    pub total_break_time: u64,
    pub num_breaks: u64,
    pub total_time_to_do: u64,
    pub num_days: u64,
    pub task_totals: Vec<TaskTotal>,
    pub starting_time_behind: i64,
}

impl AggregateDay {
    /// The structural invariant of the reducer: totals within the cap,
    /// break time within total time, uniquely named entries whose figures
    /// stay within the whole.
    pub open spec fn wf(self) -> bool {
        &&& self.total_time <= MAX_AGGREGATE_SECS
        &&& self.total_break_time <= self.total_time
        &&& self.total_time_to_do <= MAX_AGGREGATE_SECS
        &&& self.num_days <= MAX_AGGREGATE_SECS
        &&& self.num_breaks <= blocks_total(self.task_totals@)
        &&& blocks_total(self.task_totals@) <= MAX_AGGREGATE_SECS
        &&& -(MAX_AGGREGATE_SECS as int) <= self.starting_time_behind <= MAX_AGGREGATE_SECS
        &&& forall|e1: int, e2: int|
            0 <= e1 < e2 < self.task_totals@.len() ==> (#[trigger] self.task_totals@[e1]).name@
                != (#[trigger] self.task_totals@[e2]).name@
        &&& forall|e: int|
            0 <= e < self.task_totals@.len() ==> (#[trigger] self.task_totals@[e]).secs
                <= self.total_time
        &&& forall|e: int|
            0 <= e < self.task_totals@.len() ==> (#[trigger] self.task_totals@[e]).blocks
                <= blocks_total(self.task_totals@)
    }

    /// The added day's figures fit under the cap next to the current totals.
    pub open spec fn fits_day(self, day: Day) -> bool {
        &&& self.total_time + day.spec_day_len_secs() <= MAX_AGGREGATE_SECS
        &&& self.total_time_to_do + day.spec_time_to_do_secs() <= MAX_AGGREGATE_SECS
        &&& blocks_total(self.task_totals@) + day.timeblocks@.len() <= MAX_AGGREGATE_SECS
        &&& self.num_days + 1 <= MAX_AGGREGATE_SECS
    }

    /// A fresh reducer: all totals zero, seeded with the caller's running
    /// "time behind" value.
    pub fn new(starting_time_behind: i64) -> (r: AggregateDay)
        requires
            -(MAX_AGGREGATE_SECS as int) <= starting_time_behind <= MAX_AGGREGATE_SECS,
        ensures
            r.wf(),
            r.total_time == 0,
            r.total_break_time == 0,
            r.num_breaks == 0,
            r.total_time_to_do == 0,
            r.num_days == 0,
            r.task_totals@.len() == 0,
            r.starting_time_behind == starting_time_behind,
    {
        AggregateDay {
            total_time: 0,
            total_break_time: 0,
            num_breaks: 0,
            total_time_to_do: 0,
            num_days: 0,
            task_totals: Vec::new(),
            starting_time_behind,
        }
    }

    /// Total time worked over the period: total time minus break time.
    pub fn get_total_time_done(&self) -> (r: u64)
        requires
            self.wf(),
        ensures
            r == self.total_time - self.total_break_time,
    {
        self.total_time - self.total_break_time
    }

    /// How far the period fell short of its targets; negative when ahead.
    pub fn get_time_behind_over_period(&self) -> (r: i64)
        requires
            self.wf(),
        ensures
            r == self.total_time_to_do - (self.total_time - self.total_break_time),
    {
        (self.total_time_to_do as i64) - (self.get_total_time_done() as i64)
    }

    /// The running ledger after this period: the period's shortfall on top
    /// of the seed value.
    pub fn get_time_behind_overall(&self) -> (r: i64)
        requires
            self.wf(),
        ensures
            r == self.total_time_to_do - (self.total_time - self.total_break_time)
                + self.starting_time_behind,
    {
        self.get_time_behind_over_period() + self.starting_time_behind
    }

    /// Total number of blocks across the added days.
    pub fn get_total_blocks(&self) -> (r: u64)
        requires
            self.wf(),
        ensures
            r == blocks_total(self.task_totals@),
    {
        let n: usize = self.task_totals.len();
        let mut sum: u64 = 0;
        let mut k: usize = 0;
        while k < n
            invariant
                self.wf(),
                n == self.task_totals@.len(),
                0 <= k <= n,
                sum == blocks_total(self.task_totals@.take(k as int)),
                sum <= blocks_total(self.task_totals@),
            decreases n - k,
        {
            proof {
                assert(self.task_totals@.take(k + 1).drop_last() =~= self.task_totals@.take(
                    k as int,
                ));
                assert(self.task_totals@.take(k + 1).last() == self.task_totals@[k as int]);
                lemma_blocks_total_take_le(self.task_totals@, k + 1);
            }
            sum = sum + self.task_totals[k].blocks;
            k += 1;
        }
        proof {
            assert(self.task_totals@.take(n as int) =~= self.task_totals@);
        }
        sum
    }

    /// Total number of non-break blocks across the added days.
    pub fn get_total_non_break_blocks(&self) -> (r: u64)
        requires
            self.wf(),
        ensures
            r == blocks_total(self.task_totals@) - self.num_breaks,
    {
        self.get_total_blocks() - self.num_breaks
    }

    /// Folds one more day in. The day must have ended; a day still open is
    /// refused and nothing changes.
    pub fn add_day(&mut self, day: Day) -> (r: Result<(), DayError>)
        requires
            old(self).wf(),
            day.wf(),
            day.spec_has_ended() ==> blocks_nonneg(day.timeblocks@) && old(self).fits_day(day),
        ensures
            final(self).wf(),
            !day.spec_has_ended() ==> r == Result::<(), DayError>::Err(DayError::DayNotEnded)
                && *final(self) == *old(self),
            day.spec_has_ended() ==> r is Ok && add_day_rel(*old(self), *final(self), day),
    {
        if !day.has_ended() {
            Err(DayError::DayNotEnded)
        } else {
            proof {
                lemma_break_time_bounds(day);
                lemma_day_len_is_block_sum(day);
                lemma_ascending_len_bound(day.breaks@, day.timeblocks@.len() as int);
                lemma_blocks_total_nonneg(self.task_totals@);
            }
            let day_len: i64 = match day.get_day_length_secs() {
                Some(v) => v,
                None => 0,
            };
            let break_secs: i64 = match day.get_total_break_time_secs() {
                Some(v) => v,
                None => 0,
            };
            let nbreaks: u64 = match day.get_number_of_breaks() {
                Some(v) => v,
                None => 0,
            };
            self.total_time = self.total_time + (day_len as u64);
            self.total_break_time = self.total_break_time + (break_secs as u64);
            self.num_breaks = self.num_breaks + nbreaks;
            self.total_time_to_do = self.total_time_to_do + day.get_time_to_do_secs();
            self.num_days = self.num_days + 1;
            let ghost pre_totals = old(self).task_totals@;
            self.merge_task_totals(&day);
            proof {
                lemma_merged_entry_bounds(
                    pre_totals,
                    self.task_totals@,
                    day,
                    self.total_time as int,
                );
            }
            Ok(())
        }
    }

    /// The human-readable summary of the period: totals, block counts,
    /// per-task figures, and the time behind, with the seed ledger value
    /// folded in when asked for.
    #[verifier::rlimit(100)]
    pub fn render_human_readable_summary(
        &self,
        include_overall_time_behind: bool,
        show_times_in_hours: bool,
    ) -> (r: Result<String, String>)
        requires
            self.wf(),
        ensures
            r matches Ok(s) && s@ == agg_summary_text(
                *self,
                include_overall_time_behind,
                show_times_in_hours,
            ),
    {
        let mut out = String::from_str("Num days summarised: ");
        let p1 = render_u64(self.num_days);
        out.append(p1.as_str());
        out.append("\nTotal work time (including breaks): ");
        let p2 = render_seconds_human_readable(self.total_time as i64, show_times_in_hours);
        out.append(p2.as_str());
        out.append("\nTotal time working (excluding breaks): ");
        let p3 = render_seconds_human_readable(
            self.get_total_time_done() as i64,
            show_times_in_hours,
        );
        out.append(p3.as_str());
        out.append("\nTotal time spent on break: ");
        let p4 = render_seconds_human_readable(self.total_break_time as i64, show_times_in_hours);
        out.append(p4.as_str());
        out.append("\n");
        out.append("\nTotal task blocks (including breaks): ");
        let total_blocks: u64 = self.get_total_blocks();
        let p5 = render_u64(total_blocks);
        out.append(p5.as_str());
        out.append("\nTotal task blocks (excluding breaks): ");
        let p6 = render_u64(self.get_total_non_break_blocks());
        out.append(p6.as_str());
        out.append("\nTotal breaks: ");
        let p7 = render_u64(self.num_breaks);
        out.append(p7.as_str());
        out.append("\n");
        out.append("\nTask times, blocks:");
        let n: usize = self.task_totals.len();
        let mut e: usize = 0;
        while e < n
            invariant
                self.wf(),
                n == self.task_totals@.len(),
                0 <= e <= n,
                out@ == "Num days summarised: "@ + spec_dec_digits(self.num_days as int)
                    + "\nTotal work time (including breaks): "@ + spec_render_seconds(
                    self.total_time as int,
                    show_times_in_hours,
                ) + "\nTotal time working (excluding breaks): "@ + spec_render_seconds(
                    self.total_time - self.total_break_time,
                    show_times_in_hours,
                ) + "\nTotal time spent on break: "@ + spec_render_seconds(
                    self.total_break_time as int,
                    show_times_in_hours,
                ) + "\n"@ + "\nTotal task blocks (including breaks): "@ + spec_dec_digits(
                    blocks_total(self.task_totals@),
                ) + "\nTotal task blocks (excluding breaks): "@ + spec_dec_digits(
                    blocks_total(self.task_totals@) - self.num_breaks,
                ) + "\nTotal breaks: "@ + spec_dec_digits(self.num_breaks as int) + "\n"@
                    + "\nTask times, blocks:"@ + agg_task_lines(
                    self.task_totals@.take(e as int),
                    show_times_in_hours,
                ),
            decreases n - e,
        {
            proof {
                assert(self.task_totals@.take(e + 1).drop_last() =~= self.task_totals@.take(
                    e as int,
                ));
                assert(self.task_totals@.take(e + 1).last() == self.task_totals@[e as int]);
            }
            out.append("\n\t");
            out.append(self.task_totals[e].name.as_str());
            out.append(": ");
            let pt = render_seconds_human_readable(
                self.task_totals[e].secs as i64,
                show_times_in_hours,
            );
            out.append(pt.as_str());
            out.append(", ");
            let pb = render_u64(self.task_totals[e].blocks);
            out.append(pb.as_str());
            out.append(" blocks");
            e += 1;
        }
        proof {
            assert(self.task_totals@.take(n as int) =~= self.task_totals@);
        }
        out.append("\n");
        out.append("\nTime to do over period: ");
        let p8 = render_seconds_human_readable(self.total_time_to_do as i64, show_times_in_hours);
        out.append(p8.as_str());
        out.append("\nTime behind over period: ");
        let p9 = render_seconds_human_readable(
            self.get_time_behind_over_period(),
            show_times_in_hours,
        );
        out.append(p9.as_str());
        if include_overall_time_behind {
            out.append("\nTime behind overall: ");
            let p10 = render_seconds_human_readable(
                self.get_time_behind_overall(),
                show_times_in_hours,
            );
            out.append(p10.as_str());
        }
        Ok(out)
    }

    /// Merges the day's per-task figures into the accumulated entries; the
    /// caller has already folded the day's scalar totals in.
    fn merge_task_totals(&mut self, day: &Day)
        requires
            day.wf(),
            day.spec_has_ended(),
            blocks_nonneg(day.timeblocks@),
            forall|e1: int, e2: int|
                0 <= e1 < e2 < old(self).task_totals@.len() ==> (
                #[trigger] old(self).task_totals@[e1]).name@ != (
                #[trigger] old(self).task_totals@[e2]).name@,
            forall|e: int|
                0 <= e < old(self).task_totals@.len() ==> (
                #[trigger] old(self).task_totals@[e]).secs + day.spec_day_len_secs() <= old(
                    self,
                ).total_time,
            forall|e: int|
                0 <= e < old(self).task_totals@.len() ==> (
                #[trigger] old(self).task_totals@[e]).blocks <= blocks_total(
                    old(self).task_totals@,
                ),
            old(self).total_time <= MAX_AGGREGATE_SECS,
            day.spec_day_len_secs() >= 0,
            blocks_total(old(self).task_totals@) >= 0,
            blocks_total(old(self).task_totals@) + day.timeblocks@.len() <= MAX_AGGREGATE_SECS,
        ensures
            final(self).total_time == old(self).total_time,
            final(self).total_break_time == old(self).total_break_time,
            final(self).num_breaks == old(self).num_breaks,
            final(self).total_time_to_do == old(self).total_time_to_do,
            final(self).num_days == old(self).num_days,
            final(self).starting_time_behind == old(self).starting_time_behind,
            blocks_total(final(self).task_totals@) == blocks_total(old(self).task_totals@)
                + day.timeblocks@.len(),
            forall|e1: int, e2: int|
                0 <= e1 < e2 < final(self).task_totals@.len() ==> (
                #[trigger] final(self).task_totals@[e1]).name@ != (
                #[trigger] final(self).task_totals@[e2]).name@,
            forall|name: Seq<char>|
                #[trigger] has_name(final(self).task_totals@, name) <==> (has_name(
                    old(self).task_totals@,
                    name,
                ) || day_has_name(*day, name)),
            forall|name: Seq<char>|
                #[trigger] total_for(final(self).task_totals@, name) == (
                    (total_for(old(self).task_totals@, name).0 + day_total_for(*day, name).0),
                    (total_for(old(self).task_totals@, name).1 + day_total_for(*day, name).1),
                ),
    {
        let ghost pre = old(self).task_totals@;
        let summaries: Vec<(String, (i64, u64))> = day.get_task_times_secs_and_num_blocks();
        let m: usize = summaries.len();
        proof {
            crate::day::lemma_count_sum_nonneg(day.tasks@.take(0));
            assert(day.tasks@.take(0) =~= Seq::<crate::day::TaskEntry>::empty());
        }
        let mut k: usize = 0;
        while k < m
            invariant
                day.wf(),
                day.spec_has_ended(),
                blocks_nonneg(day.timeblocks@),
                m == day.tasks@.len(),
                m == summaries@.len(),
                forall|f: int|
                    0 <= f < m ==> (#[trigger] summaries@[f]).0@ == day.tasks@[f].name@
                        && summaries@[f].1.0 == idx_sum(day.timeblocks@, day.tasks@[f].blocks@)
                        && summaries@[f].1.1 == day.tasks@[f].blocks@.len(),
                0 <= k <= m,
                self.total_time == old(self).total_time,
                self.total_break_time == old(self).total_break_time,
                self.num_breaks == old(self).num_breaks,
                self.total_time_to_do == old(self).total_time_to_do,
                self.num_days == old(self).num_days,
                self.starting_time_behind == old(self).starting_time_behind,
                forall|e1: int, e2: int|
                    0 <= e1 < e2 < pre.len() ==> (#[trigger] pre[e1]).name@ != (
                    #[trigger] pre[e2]).name@,
                forall|e: int|
                    0 <= e < pre.len() ==> (#[trigger] pre[e]).secs + day.spec_day_len_secs()
                        <= old(self).total_time,
                forall|e: int|
                    0 <= e < pre.len() ==> (#[trigger] pre[e]).blocks <= blocks_total(pre),
                old(self).total_time <= MAX_AGGREGATE_SECS,
                day.spec_day_len_secs() >= 0,
                blocks_total(pre) >= 0,
                blocks_total(pre) + day.timeblocks@.len() <= MAX_AGGREGATE_SECS,
                forall|e1: int, e2: int|
                    0 <= e1 < e2 < self.task_totals@.len() ==> (
                    #[trigger] self.task_totals@[e1]).name@ != (
                    #[trigger] self.task_totals@[e2]).name@,
                blocks_total(self.task_totals@) == blocks_total(pre) + count_sum(
                    day.tasks@.take(k as int),
                ),
                forall|name: Seq<char>|
                    #[trigger] has_name(self.task_totals@, name) <==> (has_name(pre, name)
                        || day_prefix_has(*day, k as int, name)),
                forall|name: Seq<char>|
                    #[trigger] total_for(self.task_totals@, name) == (
                        (total_for(pre, name).0 + day_prefix_for(*day, k as int, name).0),
                        (total_for(pre, name).1 + day_prefix_for(*day, k as int, name).1),
                    ),
            decreases m - k,
        {
            let name: String = summaries[k].0.clone();
            let dsecs: i64 = summaries[k].1.0;
            let dblocks: u64 = summaries[k].1.1;
            proof {
                lemma_task_time_bounds(*day, k as int);
                crate::day::lemma_entry_count_le(day.tasks@, k as int);
                crate::day::lemma_count_sum_take_le(day.tasks@, k as int);
                crate::day::lemma_count_sum_take_le(day.tasks@, k + 1);
                assert(day.tasks@.take(k + 1).drop_last() =~= day.tasks@.take(k as int));
                assert(day.tasks@.take(k + 1).last() == day.tasks@[k as int]);
                assert(!day_prefix_has(*day, k as int, name@)) by {
                    if day_prefix_has(*day, k as int, name@) {
                        let e = choose|e: int|
                            0 <= e < k && e < day.tasks@.len() && (#[trigger] day.tasks@[e]).name@
                                == name@;
                        assert(day.tasks@[e].name@ == day.tasks@[k as int].name@);
                    }
                };
            }
            let found = find_total(&self.task_totals, &name);
            let ghost cur = self.task_totals@;
            match found {
                Some(e) => {
                    proof {
                        assert(has_name(cur, name@));
                        let w = choose|w: int|
                            0 <= w < cur.len() && (#[trigger] cur[w]).name@ == name@;
                        assert(w == e);
                        assert(total_for(cur, name@) == (cur[e as int].secs as int, cur[
                            e as int].blocks as int));
                        assert(day_prefix_for(*day, k as int, name@) == (0int, 0int));
                        assert(has_name(pre, name@));
                        let p = choose|p: int|
                            0 <= p < pre.len() && (#[trigger] pre[p]).name@ == name@;
                        assert(total_for(pre, name@) == (pre[p].secs as int, pre[p].blocks as int));
                        assert(cur[e as int].secs + dsecs <= old(self).total_time);
                        assert(cur[e as int].blocks + dblocks <= blocks_total(pre)
                            + day.timeblocks@.len());
                    }
                    self.task_totals[e].secs = self.task_totals[e].secs + (dsecs as u64);
                    self.task_totals[e].blocks = self.task_totals[e].blocks + dblocks;
                    proof {
                        lemma_merge_step_update(
                            pre,
                            cur,
                            self.task_totals@,
                            *day,
                            k as int,
                            e as int,
                            dsecs as int,
                            dblocks as int,
                        );
                    }
                },
                None => {
                    proof {
                        assert(!has_name(cur, name@));
                        assert(day_prefix_for(*day, k as int, name@) == (0int, 0int));
                        assert(!has_name(pre, name@));
                        assert(total_for(pre, name@) == (0int, 0int));
                    }
                    self.task_totals.push(TaskTotal { name, secs: dsecs as u64, blocks: dblocks });
                    proof {
                        assert(self.task_totals@ == cur.push(self.task_totals@.last()));
                        lemma_merge_step_push(
                            pre,
                            cur,
                            self.task_totals@,
                            *day,
                            k as int,
                            dsecs as int,
                            dblocks as int,
                        );
                    }
                },
            }
            k += 1;
        }
        proof {
            assert(day.tasks@.take(m as int) =~= day.tasks@);
            assert forall|name: Seq<char>|
                #[trigger] day_prefix_has(*day, m as int, name) == day_has_name(*day, name)
                    && day_prefix_for(*day, m as int, name) == day_total_for(*day, name) by {
                if day_prefix_has(*day, m as int, name) {
                    assert(day_has_name(*day, name));
                    let e1 = choose|e: int|
                        0 <= e < m && e < day.tasks@.len() && (#[trigger] day.tasks@[e]).name@
                            == name;
                    let e2 = choose|e: int|
                        0 <= e < day.tasks@.len() && (#[trigger] day.tasks@[e]).name@ == name;
                    assert(e1 == e2);
                } else if day_has_name(*day, name) {
                    let e2 = choose|e: int|
                        0 <= e < day.tasks@.len() && (#[trigger] day.tasks@[e]).name@ == name;
                    assert(day_prefix_has(*day, m as int, name));
                }
            }
        }
    }
}

/// Law: folding the same two ended days in either order yields identical
/// totals: every scalar field, the block total, and the per-task figures
/// for every task name agree.
pub proof fn lemma_add_day_commutes(
    a0: AggregateDay,
    a1: AggregateDay,
    a2: AggregateDay,
    b1: AggregateDay,
    b2: AggregateDay,
    d1: Day,
    d2: Day,
)
    requires
        add_day_rel(a0, a1, d1),
        add_day_rel(a1, a2, d2),
        add_day_rel(a0, b1, d2),
        add_day_rel(b1, b2, d1),
    ensures
        a2.total_time == b2.total_time,
        a2.total_break_time == b2.total_break_time,
        a2.num_breaks == b2.num_breaks,
        a2.total_time_to_do == b2.total_time_to_do,
        a2.num_days == b2.num_days,
        a2.starting_time_behind == b2.starting_time_behind,
        blocks_total(a2.task_totals@) == blocks_total(b2.task_totals@),
        forall|name: Seq<char>|
            #[trigger] has_name(a2.task_totals@, name) <==> #[trigger] has_name(
                b2.task_totals@,
                name,
            ),
        forall|name: Seq<char>|
            #[trigger] total_for(a2.task_totals@, name) == #[trigger] total_for(
                b2.task_totals@,
                name,
            ),
{
    assert forall|name: Seq<char>|
        (#[trigger] has_name(a2.task_totals@, name) <==> has_name(b2.task_totals@, name)) && (
        #[trigger] total_for(a2.task_totals@, name) == total_for(b2.task_totals@, name)) by {
        assert(has_name(a1.task_totals@, name) <==> (has_name(a0.task_totals@, name)
            || day_has_name(d1, name)));
        assert(has_name(b1.task_totals@, name) <==> (has_name(a0.task_totals@, name)
            || day_has_name(d2, name)));
        assert(total_for(a1.task_totals@, name) == (
            (total_for(a0.task_totals@, name).0 + day_total_for(d1, name).0),
            (total_for(a0.task_totals@, name).1 + day_total_for(d1, name).1),
        ));
        assert(total_for(b1.task_totals@, name) == (
            (total_for(a0.task_totals@, name).0 + day_total_for(d2, name).0),
            (total_for(a0.task_totals@, name).1 + day_total_for(d2, name).1),
        ));
    };
}

/// Whether one of the first `k` task-index entries of the day carries `name`.
pub open spec fn day_prefix_has(d: Day, k: int, name: Seq<char>) -> bool {
    exists|e: int| 0 <= e < k && e < d.tasks@.len() && (#[trigger] d.tasks@[e]).name@ == name
}

/// The `(seconds, blocks)` pair `name` accumulates from the first `k`
/// task-index entries of the day, zero when none of them carries it.
pub open spec fn day_prefix_for(d: Day, k: int, name: Seq<char>) -> (int, int) {
    if day_prefix_has(d, k, name) {
        let e = choose|e: int|
            0 <= e < k && e < d.tasks@.len() && (#[trigger] d.tasks@[e]).name@ == name;
        (idx_sum(d.timeblocks@, d.tasks@[e].blocks@), d.tasks@[e].blocks@.len() as int)
    } else {
        (0, 0)
    }
}

/// Finds the accumulated entry carrying `name`, if any.
fn find_total(totals: &Vec<TaskTotal>, name: &String) -> (r: Option<usize>)
    ensures
        match r {
            Some(e) => e < totals@.len() && totals@[e as int].name@ == name@,
            None => forall|f: int|
                0 <= f < totals@.len() ==> (#[trigger] totals@[f]).name@ != name@,
        },
{
    let n: usize = totals.len();
    let mut e: usize = 0;
    while e < n
        invariant
            n == totals@.len(),
            0 <= e <= n,
            forall|f: int| 0 <= f < e ==> (#[trigger] totals@[f]).name@ != name@,
        decreases n - e,
    {
        if totals[e].name == *name {
            return Some(e);
        }
        e += 1;
    }
    None
}

proof fn lemma_blocks_total_nonneg(s: Seq<TaskTotal>)
    ensures
        blocks_total(s) >= 0,
    decreases s.len(),
{
    if s.len() > 0 {
        lemma_blocks_total_nonneg(s.drop_last());
    }
}

proof fn lemma_blocks_total_update(pre: Seq<TaskTotal>, post: Seq<TaskTotal>, e: int, delta: int)
    requires
        post.len() == pre.len(),
        0 <= e < pre.len(),
        forall|f: int| 0 <= f < pre.len() && f != e ==> post[f] == pre[f],
        post[e].blocks == pre[e].blocks + delta,
    ensures
        blocks_total(post) == blocks_total(pre) + delta,
    decreases pre.len(),
{
    if e == pre.len() - 1 {
        assert(post.drop_last() =~= pre.drop_last());
    } else {
        assert(forall|f: int|
            0 <= f < pre.len() - 1 && f != e ==> post.drop_last()[f] == pre.drop_last()[f]);
        lemma_blocks_total_update(pre.drop_last(), post.drop_last(), e, delta);
    }
}

proof fn lemma_blocks_total_push(s: Seq<TaskTotal>, t: TaskTotal)
    ensures
        blocks_total(s.push(t)) == blocks_total(s) + t.blocks,
{
    assert(s.push(t).drop_last() =~= s);
}

/// One merge step on an entry already present: the pointwise totals move by
/// exactly the day's figures for that one name.
proof fn lemma_merge_step_update(
    pre: Seq<TaskTotal>,
    cur: Seq<TaskTotal>,
    post: Seq<TaskTotal>,
    day: Day,
    k: int,
    e: int,
    dsecs: int,
    dblocks: int,
)
    requires
        day.wf(),
        0 <= k < day.tasks@.len(),
        0 <= e < cur.len(),
        cur[e].name@ == day.tasks@[k].name@,
        post.len() == cur.len(),
        forall|f: int| 0 <= f < cur.len() && f != e ==> post[f] == cur[f],
        post[e].name == cur[e].name,
        post[e].secs == cur[e].secs + dsecs,
        post[e].blocks == cur[e].blocks + dblocks,
        dsecs == idx_sum(day.timeblocks@, day.tasks@[k].blocks@),
        dblocks == day.tasks@[k].blocks@.len(),
        forall|e1: int, e2: int|
            0 <= e1 < e2 < cur.len() ==> (#[trigger] cur[e1]).name@ != (#[trigger] cur[e2]).name@,
        forall|name: Seq<char>|
            #[trigger] has_name(cur, name) <==> (has_name(pre, name) || day_prefix_has(
                day,
                k,
                name,
            )),
        forall|name: Seq<char>|
            #[trigger] total_for(cur, name) == (
                (total_for(pre, name).0 + day_prefix_for(day, k, name).0),
                (total_for(pre, name).1 + day_prefix_for(day, k, name).1),
            ),
        blocks_total(cur) == blocks_total(pre) + crate::day::count_sum(day.tasks@.take(k)),
    ensures
        forall|e1: int, e2: int|
            0 <= e1 < e2 < post.len() ==> (#[trigger] post[e1]).name@ != (
            #[trigger] post[e2]).name@,
        blocks_total(post) == blocks_total(pre) + crate::day::count_sum(day.tasks@.take(k + 1)),
        forall|name: Seq<char>|
            #[trigger] has_name(post, name) <==> (has_name(pre, name) || day_prefix_has(
                day,
                k + 1,
                name,
            )),
        forall|name: Seq<char>|
            #[trigger] total_for(post, name) == (
                (total_for(pre, name).0 + day_prefix_for(day, k + 1, name).0),
                (total_for(pre, name).1 + day_prefix_for(day, k + 1, name).1),
            ),
{
    let kname = day.tasks@[k].name@;
    assert(forall|f: int| 0 <= f < cur.len() ==> (#[trigger] post[f]).name@ == cur[f].name@);
    lemma_blocks_total_update(cur, post, e, dblocks);
    assert(day.tasks@.take(k + 1).drop_last() =~= day.tasks@.take(k));
    assert(day.tasks@.take(k + 1).last() == day.tasks@[k]);
    // The day's entry names are pairwise distinct.
    assert(forall|e1: int, e2: int|
        0 <= e1 < e2 < day.tasks@.len() ==> (#[trigger] day.tasks@[e1]).name@ != (
        #[trigger] day.tasks@[e2]).name@);
    assert(!day_prefix_has(day, k, kname)) by {
        if day_prefix_has(day, k, kname) {
            let w = choose|w: int|
                0 <= w < k && w < day.tasks@.len() && (#[trigger] day.tasks@[w]).name@ == kname;
            assert(day.tasks@[w].name@ == day.tasks@[k].name@);
        }
    };
    assert forall|name: Seq<char>|
        #[trigger] has_name(post, name) <==> (has_name(pre, name) || day_prefix_has(
            day,
            k + 1,
            name,
        )) by {
        lemma_prefix_has_step(day, k, name);
        assert(has_name(post, name) <==> has_name(cur, name)) by {
            if has_name(post, name) {
                let w = choose|w: int| 0 <= w < post.len() && (#[trigger] post[w]).name@ == name;
                assert(cur[w].name@ == name);
            }
            if has_name(cur, name) {
                let w = choose|w: int| 0 <= w < cur.len() && (#[trigger] cur[w]).name@ == name;
                assert(post[w].name@ == name);
            }
        };
        if name == kname {
            assert(has_name(post, name)) by {
                assert(post[e].name@ == name);
            };
        }
    };
    assert forall|name: Seq<char>|
        #[trigger] total_for(post, name) == (
            (total_for(pre, name).0 + day_prefix_for(day, k + 1, name).0),
            (total_for(pre, name).1 + day_prefix_for(day, k + 1, name).1),
        ) by {
        lemma_prefix_has_step(day, k, name);
        lemma_prefix_for_step(day, k, name);
        assert(total_for(cur, name) == (
            (total_for(pre, name).0 + day_prefix_for(day, k, name).0),
            (total_for(pre, name).1 + day_prefix_for(day, k, name).1),
        ));
        if name == kname {
            assert(has_name(cur, name)) by {
                assert(cur[e].name@ == name);
            };
            let w = choose|w: int| 0 <= w < cur.len() && (#[trigger] cur[w]).name@ == name;
            assert(w == e);
            assert(has_name(post, name)) by {
                assert(post[e].name@ == name);
            };
            let w2 = choose|w: int| 0 <= w < post.len() && (#[trigger] post[w]).name@ == name;
            assert(w2 == e) by {
                assert(forall|f: int|
                    0 <= f < cur.len() ==> (#[trigger] post[f]).name@ == cur[f].name@);
            };
            assert(total_for(post, name) == (post[e].secs as int, post[e].blocks as int));
            assert(day_prefix_for(day, k, name) == (0int, 0int));
        } else {
            assert(has_name(post, name) <==> has_name(cur, name)) by {
                if has_name(post, name) {
                    let w = choose|w: int|
                        0 <= w < post.len() && (#[trigger] post[w]).name@ == name;
                    assert(cur[w].name@ == name);
                }
                if has_name(cur, name) {
                    let w = choose|w: int| 0 <= w < cur.len() && (#[trigger] cur[w]).name@ == name;
                    assert(post[w].name@ == name);
                }
            };
            if has_name(cur, name) {
                let w = choose|w: int| 0 <= w < cur.len() && (#[trigger] cur[w]).name@ == name;
                assert(w != e);
                let w2 = choose|w: int| 0 <= w < post.len() && (#[trigger] post[w]).name@ == name;
                assert(w2 == w) by {
                    assert(post[w2].name@ == cur[w2].name@);
                    assert(cur[w2].name@ == cur[w].name@);
                };
                assert(post[w2] == cur[w]);
            }
        }
    };
}

/// One merge step on a name not yet present: the pushed entry carries
/// exactly the day's figures for that one name.
proof fn lemma_merge_step_push(
    pre: Seq<TaskTotal>,
    cur: Seq<TaskTotal>,
    post: Seq<TaskTotal>,
    day: Day,
    k: int,
    dsecs: int,
    dblocks: int,
)
    requires
        day.wf(),
        0 <= k < day.tasks@.len(),
        !has_name(cur, day.tasks@[k].name@),
        post == cur.push(post.last()),
        post.len() == cur.len() + 1,
        post.last().name@ == day.tasks@[k].name@,
        post.last().secs == dsecs,
        post.last().blocks == dblocks,
        dsecs == idx_sum(day.timeblocks@, day.tasks@[k].blocks@),
        dblocks == day.tasks@[k].blocks@.len(),
        forall|e1: int, e2: int|
            0 <= e1 < e2 < cur.len() ==> (#[trigger] cur[e1]).name@ != (#[trigger] cur[e2]).name@,
        forall|name: Seq<char>|
            #[trigger] has_name(cur, name) <==> (has_name(pre, name) || day_prefix_has(
                day,
                k,
                name,
            )),
        forall|name: Seq<char>|
            #[trigger] total_for(cur, name) == (
                (total_for(pre, name).0 + day_prefix_for(day, k, name).0),
                (total_for(pre, name).1 + day_prefix_for(day, k, name).1),
            ),
        blocks_total(cur) == blocks_total(pre) + crate::day::count_sum(day.tasks@.take(k)),
    ensures
        forall|e1: int, e2: int|
            0 <= e1 < e2 < post.len() ==> (#[trigger] post[e1]).name@ != (
            #[trigger] post[e2]).name@,
        blocks_total(post) == blocks_total(pre) + crate::day::count_sum(day.tasks@.take(k + 1)),
        forall|name: Seq<char>|
            #[trigger] has_name(post, name) <==> (has_name(pre, name) || day_prefix_has(
                day,
                k + 1,
                name,
            )),
        forall|name: Seq<char>|
            #[trigger] total_for(post, name) == (
                (total_for(pre, name).0 + day_prefix_for(day, k + 1, name).0),
                (total_for(pre, name).1 + day_prefix_for(day, k + 1, name).1),
            ),
{
    let kname = day.tasks@[k].name@;
    let last = post.len() - 1;
    assert(forall|f: int| 0 <= f < cur.len() ==> post[f] == cur[f]);
    lemma_blocks_total_push(cur, post.last());
    assert(day.tasks@.take(k + 1).drop_last() =~= day.tasks@.take(k));
    assert(day.tasks@.take(k + 1).last() == day.tasks@[k]);
    assert(forall|e1: int, e2: int|
        0 <= e1 < e2 < day.tasks@.len() ==> (#[trigger] day.tasks@[e1]).name@ != (
        #[trigger] day.tasks@[e2]).name@);
    assert(!day_prefix_has(day, k, kname)) by {
        if day_prefix_has(day, k, kname) {
            let w = choose|w: int|
                0 <= w < k && w < day.tasks@.len() && (#[trigger] day.tasks@[w]).name@ == kname;
            assert(day.tasks@[w].name@ == day.tasks@[k].name@);
        }
    };
    assert(total_for(pre, kname) == (0int, 0int)) by {
        assert(!has_name(pre, kname)) by {
            if has_name(pre, kname) {
                assert(has_name(cur, kname));
            }
        };
    };
    assert forall|e1: int, e2: int|
        0 <= e1 < e2 < post.len() implies (#[trigger] post[e1]).name@ != (
    #[trigger] post[e2]).name@ by {
        if e2 == last {
            assert(post[e1] == cur[e1]);
            if post[e1].name@ == kname {
                assert(has_name(cur, kname)) by {
                    assert(cur[e1].name@ == kname);
                };
            }
        }
    };
    assert forall|name: Seq<char>|
        #[trigger] has_name(post, name) <==> (has_name(pre, name) || day_prefix_has(
            day,
            k + 1,
            name,
        )) by {
        lemma_prefix_has_step(day, k, name);
        if name == kname {
            assert(has_name(post, name)) by {
                assert(post[last].name@ == name);
            };
        } else {
            assert(has_name(post, name) <==> has_name(cur, name)) by {
                if has_name(post, name) {
                    let w = choose|w: int|
                        0 <= w < post.len() && (#[trigger] post[w]).name@ == name;
                    assert(w != last);
                    assert(cur[w].name@ == name);
                }
                if has_name(cur, name) {
                    let w = choose|w: int| 0 <= w < cur.len() && (#[trigger] cur[w]).name@ == name;
                    assert(post[w].name@ == name);
                }
            };
        }
    };
    assert forall|name: Seq<char>|
        #[trigger] total_for(post, name) == (
            (total_for(pre, name).0 + day_prefix_for(day, k + 1, name).0),
            (total_for(pre, name).1 + day_prefix_for(day, k + 1, name).1),
        ) by {
        lemma_prefix_has_step(day, k, name);
        lemma_prefix_for_step(day, k, name);
        if name == kname {
            assert(has_name(post, name)) by {
                assert(post[last].name@ == name);
            };
            let w = choose|w: int| 0 <= w < post.len() && (#[trigger] post[w]).name@ == name;
            assert(w == last) by {
                if w != last {
                    assert(cur[w].name@ == name);
                    assert(has_name(cur, kname));
                }
            };
            assert(total_for(post, name) == (dsecs, dblocks));
        } else {
            assert(total_for(cur, name) == (
                (total_for(pre, name).0 + day_prefix_for(day, k, name).0),
                (total_for(pre, name).1 + day_prefix_for(day, k, name).1),
            ));
            assert(has_name(post, name) <==> has_name(cur, name)) by {
                if has_name(post, name) {
                    let w = choose|w: int|
                        0 <= w < post.len() && (#[trigger] post[w]).name@ == name;
                    assert(w != last);
                    assert(cur[w].name@ == name);
                }
                if has_name(cur, name) {
                    let w = choose|w: int| 0 <= w < cur.len() && (#[trigger] cur[w]).name@ == name;
                    assert(post[w].name@ == name);
                }
            };
            if has_name(cur, name) {
                let w = choose|w: int| 0 <= w < cur.len() && (#[trigger] cur[w]).name@ == name;
                let w2 = choose|w: int| 0 <= w < post.len() && (#[trigger] post[w]).name@ == name;
                assert(w2 != last);
                assert(cur[w2].name@ == name);
                assert(w2 == w);
                assert(post[w2] == cur[w]);
            }
        }
    };
}

/// After a merge, every entry's time stays within the grown total time and
/// every entry's block count within the grown block total.
proof fn lemma_merged_entry_bounds(
    pre: Seq<TaskTotal>,
    post: Seq<TaskTotal>,
    day: Day,
    total_time: int,
)
    requires
        day.wf(),
        day.spec_has_ended(),
        blocks_nonneg(day.timeblocks@),
        0 <= day.spec_day_len_secs() <= total_time,
        forall|e: int|
            0 <= e < pre.len() ==> (#[trigger] pre[e]).secs + day.spec_day_len_secs()
                <= total_time,
        forall|e: int| 0 <= e < pre.len() ==> (#[trigger] pre[e]).blocks <= blocks_total(pre),
        forall|e1: int, e2: int|
            0 <= e1 < e2 < pre.len() ==> (#[trigger] pre[e1]).name@ != (#[trigger] pre[e2]).name@,
        blocks_total(pre) >= 0,
        blocks_total(post) == blocks_total(pre) + day.timeblocks@.len(),
        forall|e1: int, e2: int|
            0 <= e1 < e2 < post.len() ==> (#[trigger] post[e1]).name@ != (
            #[trigger] post[e2]).name@,
        forall|name: Seq<char>|
            #[trigger] has_name(post, name) <==> (has_name(pre, name) || day_has_name(day, name)),
        forall|name: Seq<char>|
            #[trigger] total_for(post, name) == (
                (total_for(pre, name).0 + day_total_for(day, name).0),
                (total_for(pre, name).1 + day_total_for(day, name).1),
            ),
    ensures
        forall|e: int| 0 <= e < post.len() ==> (#[trigger] post[e]).secs <= total_time,
        forall|e: int| 0 <= e < post.len() ==> (#[trigger] post[e]).blocks <= blocks_total(post),
{
    assert forall|e: int| 0 <= e < post.len() implies (#[trigger] post[e]).secs <= total_time
        && post[e].blocks <= blocks_total(post) by {
        let name = post[e].name@;
        assert(has_name(post, name));
        let w = choose|w: int| 0 <= w < post.len() && (#[trigger] post[w]).name@ == name;
        assert(w == e);
        assert(total_for(post, name) == (post[e].secs as int, post[e].blocks as int));
        let pre_pair = total_for(pre, name);
        assert(0 <= pre_pair.0 && pre_pair.0 + day.spec_day_len_secs() <= total_time && 0
            <= pre_pair.1 <= blocks_total(pre)) by {
            if has_name(pre, name) {
                let p = choose|e: int| 0 <= e < pre.len() && (#[trigger] pre[e]).name@ == name;
                assert(0 <= p < pre.len() && pre[p].name@ == name);
                assert(total_for(pre, name) == (pre[p].secs as int, pre[p].blocks as int));
            }
        };
        let day_pair = day_total_for(day, name);
        assert(0 <= day_pair.0 <= day.spec_day_len_secs() && 0 <= day_pair.1
            <= day.timeblocks@.len()) by {
            if day_has_name(day, name) {
                let de = choose|de: int|
                    0 <= de < day.tasks@.len() && (#[trigger] day.tasks@[de]).name@ == name;
                lemma_task_time_bounds(day, de);
                crate::day::lemma_entry_count_le(day.tasks@, de);
            }
        };
    };
}

/// Stepping the considered prefix of day entries from `k` to `k + 1` adds
/// exactly the name of entry `k`.
proof fn lemma_prefix_has_step(day: Day, k: int, name: Seq<char>)
    requires
        day.wf(),
        0 <= k < day.tasks@.len(),
    ensures
        day_prefix_has(day, k + 1, name) <==> (day_prefix_has(day, k, name) || name
            == day.tasks@[k].name@),
{
    if day_prefix_has(day, k + 1, name) {
        let w = choose|w: int|
            0 <= w < k + 1 && w < day.tasks@.len() && (#[trigger] day.tasks@[w]).name@ == name;
        if w < k {
            assert(day_prefix_has(day, k, name));
        }
    }
    if day_prefix_has(day, k, name) {
        let w = choose|w: int|
            0 <= w < k && w < day.tasks@.len() && (#[trigger] day.tasks@[w]).name@ == name;
        assert(0 <= w < k + 1 && day.tasks@[w].name@ == name);
        assert(day_prefix_has(day, k + 1, name));
    }
    if name == day.tasks@[k].name@ {
        assert(0 <= k < k + 1 && day.tasks@[k].name@ == name);
        assert(day_prefix_has(day, k + 1, name));
    }
}

/// Stepping the considered prefix changes the accumulated pair only at the
/// name of entry `k`, where it becomes that entry's figures.
proof fn lemma_prefix_for_step(day: Day, k: int, name: Seq<char>)
    requires
        day.wf(),
        0 <= k < day.tasks@.len(),
    ensures
        name == day.tasks@[k].name@ ==> day_prefix_for(day, k + 1, name) == (
            idx_sum(day.timeblocks@, day.tasks@[k].blocks@),
            day.tasks@[k].blocks@.len() as int,
        ),
        name != day.tasks@[k].name@ ==> day_prefix_for(day, k + 1, name) == day_prefix_for(
            day,
            k,
            name,
        ),
{
    assert(forall|e1: int, e2: int|
        0 <= e1 < e2 < day.tasks@.len() ==> (#[trigger] day.tasks@[e1]).name@ != (
        #[trigger] day.tasks@[e2]).name@);
    lemma_prefix_has_step(day, k, name);
    if name == day.tasks@[k].name@ {
        assert(day_prefix_has(day, k + 1, name));
        let w = choose|w: int|
            0 <= w < k + 1 && w < day.tasks@.len() && (#[trigger] day.tasks@[w]).name@ == name;
        assert(w == k);
    } else {
        if day_prefix_has(day, k + 1, name) {
            let w1 = choose|w: int|
                0 <= w < k + 1 && w < day.tasks@.len() && (#[trigger] day.tasks@[w]).name@ == name;
            assert(w1 != k);
            assert(day_prefix_has(day, k, name));
            let w2 = choose|w: int|
                0 <= w < k && w < day.tasks@.len() && (#[trigger] day.tasks@[w]).name@ == name;
            assert(w1 == w2);
        }
    }
}

/// A prefix of the block-count totals never exceeds the whole.
proof fn lemma_blocks_total_take_le(s: Seq<TaskTotal>, k: int)
    requires
        0 <= k <= s.len(),
    ensures
        blocks_total(s.take(k)) <= blocks_total(s),
    decreases s.len(),
{
    if k < s.len() {
        assert(s.drop_last().take(k) =~= s.take(k));
        lemma_blocks_total_take_le(s.drop_last(), k);
    } else {
        assert(s.take(k) =~= s);
    }
}

} // verus!
