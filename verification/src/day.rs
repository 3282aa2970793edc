//! The `Day` aggregate: one punch-in-to-punch-out session made of ordered
//! task blocks and break markers, with its state machine and time arithmetic.

use vstd::prelude::*;
use vstd::string::StringExecFns;

use crate::components::{Note, TimeBlock};
use crate::interval::{Dt, Interval, MAX_TIMESTAMP_SECS, valid_ts};
use crate::misc::{render_seconds_human_readable, spec_render_seconds};
use crate::text::{render_u64, spec_dec_digits};
use crate::work_summary::WorkSummary;

verus! {

/// Cap on the number of blocks in one day. Generous for any real use, and
/// small enough that every sum of block lengths provably fits in `i64`.
pub const MAX_BLOCKS: usize = 100_000;

/// Cap on a day's target time in seconds (minutes part times sixty plus the
/// extra seconds), so the `time left` subtraction provably fits in `i64`.
pub const MAX_TIME_TO_DO_SECS: u64 = 4_000_000_000_000_000_000;

/// Why a `Day` transition was refused; the day is left unchanged.
#[derive(Clone, Copy, PartialEq, Eq, Structural, Debug)]
pub enum DayError {
    /// A transition that needs an open day was called after punch-out.
    DayAlreadyEnded,
    /// A transition that needs an ended day was called before punch-out.
    DayNotEnded,
    /// A break was started while already on break.
    AlreadyOnBreak,
    /// The current task was renamed while on break.
    OnBreak,
}

/// One entry of the derived task index: a task name and the indices of the
/// blocks carrying that name, in ascending order.
#[derive(Clone, Debug)]
pub struct TaskEntry {
    pub name: String,
    pub blocks: Vec<usize>,
}

/// Sum of the lengths of the blocks picked out by `idxs`, an open block
/// counting as zero.
pub open spec fn idx_sum(blocks: Seq<TimeBlock>, idxs: Seq<usize>) -> int
    decreases idxs.len(),
{
    if idxs.len() == 0 {
        0
    } else {
        idx_sum(blocks, idxs.drop_last()) + blocks[idxs.last() as int].spec_len_or_zero()
    }
}

/// Sum of the lengths of the first `k` blocks, an open block counting as zero.
pub open spec fn prefix_sum(blocks: Seq<TimeBlock>, k: int) -> int
    decreases k,
{
    if k <= 0 {
        0
    } else {
        prefix_sum(blocks, k - 1) + blocks[k - 1].spec_len_or_zero()
    }
}

/// Total number of block indices held by the task index.
pub open spec fn count_sum(tasks: Seq<TaskEntry>) -> int
    decreases tasks.len(),
{
    if tasks.len() == 0 {
        0
    } else {
        count_sum(tasks.drop_last()) + tasks.last().blocks@.len()
    }
}

/// The index `idx` is in range and names a block called `name`.
pub open spec fn names_block(blocks: Seq<TimeBlock>, idx: usize, name: Seq<char>) -> bool {
    idx < blocks.len() && blocks[idx as int].task_name@ == name
}

/// One task-index entry is well formed against the block list.
pub open spec fn entry_wf(entry: TaskEntry, blocks: Seq<TimeBlock>) -> bool {
    &&& entry.blocks@.len() > 0
    &&& forall|j: int|
        0 <= j < entry.blocks@.len() ==> names_block(
            blocks,
            #[trigger] entry.blocks@[j],
            entry.name@,
        )
    &&& forall|j: int, k: int|
        0 <= j < k < entry.blocks@.len() ==> entry.blocks@[j] < entry.blocks@[k]
}

/// Some entry of the task index lists block index `i`.
pub open spec fn covered(tasks: Seq<TaskEntry>, i: usize) -> bool {
    exists|e: int| 0 <= e < tasks.len() && (#[trigger] tasks[e]).blocks@.contains(i)
}

/// The task index is consistent with the block list: entries are well formed
/// and uniquely named, every block index is listed somewhere, and the listed
/// indices number exactly the blocks. Together these make the index a
/// partition of the block indices, keyed by task name.
pub open spec fn tasks_wf(tasks: Seq<TaskEntry>, blocks: Seq<TimeBlock>) -> bool {
    &&& forall|e: int| 0 <= e < tasks.len() ==> entry_wf(#[trigger] tasks[e], blocks)
    &&& forall|e1: int, e2: int|
        0 <= e1 < e2 < tasks.len() ==> (#[trigger] tasks[e1]).name@ != (
        #[trigger] tasks[e2]).name@
    &&& forall|i: usize| i < blocks.len() ==> #[trigger] covered(tasks, i)
    &&& count_sum(tasks) == blocks.len()
}

/// How the task index changes when block `idx`, named `name`, is recorded:
/// the entry already carrying `name` gains `idx` at its tail, or a fresh
/// entry is appended.
pub open spec fn tasks_after_add(
    pre: Seq<TaskEntry>,
    post: Seq<TaskEntry>,
    name: Seq<char>,
    idx: usize,
) -> bool {
    if exists|e: int| 0 <= e < pre.len() && (#[trigger] pre[e]).name@ == name {
        let e = choose|e: int| 0 <= e < pre.len() && (#[trigger] pre[e]).name@ == name;
        &&& post.len() == pre.len()
        &&& forall|f: int| 0 <= f < pre.len() && f != e ==> post[f] == pre[f]
        &&& post[e].name == pre[e].name
        &&& post[e].blocks@ == pre[e].blocks@.push(idx)
    } else {
        &&& post.len() == pre.len() + 1
        &&& forall|f: int| 0 <= f < pre.len() ==> post[f] == pre[f]
        &&& post.last().name@ == name
        &&& post.last().blocks@ == seq![idx]
    }
}

/// How the task index changes when the block at the tail of the entry
/// carrying `name` is taken back out: the entry shrinks by its last index,
/// or disappears when that was its only one.
pub open spec fn tasks_after_remove(pre: Seq<TaskEntry>, post: Seq<TaskEntry>, name: Seq<char>) -> bool {
    &&& exists|e: int| 0 <= e < pre.len() && (#[trigger] pre[e]).name@ == name
    &&& {
        let e = choose|e: int| 0 <= e < pre.len() && (#[trigger] pre[e]).name@ == name;
        if pre[e].blocks@.len() == 1 {
            post == pre.remove(e)
        } else {
            &&& post.len() == pre.len()
            &&& forall|f: int| 0 <= f < pre.len() && f != e ==> post[f] == pre[f]
            &&& post[e].name == pre[e].name
            &&& post[e].blocks@ == pre[e].blocks@.drop_last()
        }
    }
}

/// What `start_new_block` and `start_break_at` share: the open block is
/// closed at `at`, one fresh open block for `name` is appended, and the
/// day's frame is untouched.
pub open spec fn start_block_core(pre: Day, post: Day, name: Seq<char>, at: Dt) -> bool {
    let n = pre.timeblocks@.len() as int;
    &&& post.timeblocks@.len() == n + 1
    &&& forall|i: int| 0 <= i < n - 1 ==> post.timeblocks@[i] == pre.timeblocks@[i]
    &&& post.timeblocks@[n - 1].task_name == pre.timeblocks@[n - 1].task_name
    &&& post.timeblocks@[n - 1].notes == pre.timeblocks@[n - 1].notes
    &&& post.timeblocks@[n - 1].interval.start == pre.timeblocks@[n - 1].interval.start
    &&& post.timeblocks@[n - 1].interval.end == Some(at)
    &&& post.timeblocks@[n].task_name@ == name
    &&& post.timeblocks@[n].interval.start == at
    &&& !post.timeblocks@[n].interval.spec_has_end()
    &&& post.timeblocks@[n].notes@ == Seq::<Note>::empty()
    &&& post.overall_interval == pre.overall_interval
    &&& post.time_to_do == pre.time_to_do
    &&& post.time_to_do_seconds_in_addition == pre.time_to_do_seconds_in_addition
    &&& post.summaries == pre.summaries
}

/// Successful `start_new_block`: the shared core, breaks untouched, and the
/// day no longer on break.
pub open spec fn start_block_rel(pre: Day, post: Day, name: Seq<char>, at: Dt) -> bool {
    &&& start_block_core(pre, post, name, at)
    &&& post.breaks@ == pre.breaks@
    &&& !post.on_break
}

/// Successful `start_break_at`: the shared core, the new block recorded as
/// a break, and the day on break.
pub open spec fn start_break_rel(pre: Day, post: Day, name: Seq<char>, at: Dt) -> bool {
    &&& start_block_core(pre, post, name, at)
    &&& post.breaks@ == pre.breaks@.push(pre.timeblocks@.len() as usize)
    &&& post.on_break
}

/// The block as it stands once closed at `at`.
pub open spec fn close_block_at(b: TimeBlock, at: Dt) -> TimeBlock {
    TimeBlock {
        task_name: b.task_name,
        interval: Interval { start: b.interval.start, end: Some(at) },
        notes: b.notes,
    }
}

/// Time worked if the day ends at `at`: the elapsed span minus the break
/// time as it stands once the open block — an open break included — has
/// been closed at `at`.
pub open spec fn spec_worked_at(pre: Day, at: Dt) -> int {
    let closed = pre.timeblocks@.update(
        pre.timeblocks@.len() - 1,
        close_block_at(pre.timeblocks@.last(), at),
    );
    at.0 - pre.overall_interval.start.0 - idx_sum(closed, pre.breaks@)
}

/// Successful `end_day_at`: the open block and the day's own interval are
/// both closed at `at`, the day is forced off break, and with `lock` the
/// target is overwritten with the time actually worked.
pub open spec fn end_day_rel(pre: Day, post: Day, at: Dt, lock: bool) -> bool {
    let n = pre.timeblocks@.len() as int;
    &&& post.timeblocks@.len() == n
    &&& forall|i: int| 0 <= i < n - 1 ==> post.timeblocks@[i] == pre.timeblocks@[i]
    &&& post.timeblocks@[n - 1].task_name == pre.timeblocks@[n - 1].task_name
    &&& post.timeblocks@[n - 1].notes == pre.timeblocks@[n - 1].notes
    &&& post.timeblocks@[n - 1].interval.start == pre.timeblocks@[n - 1].interval.start
    &&& post.timeblocks@[n - 1].interval.end == Some(at)
    &&& post.overall_interval.start == pre.overall_interval.start
    &&& post.overall_interval.end == Some(at)
    &&& !post.on_break
    &&& post.breaks == pre.breaks
    &&& post.tasks == pre.tasks
    &&& post.summaries == pre.summaries
    &&& if lock {
        post.time_to_do == spec_worked_at(pre, at) / 60
            && post.time_to_do_seconds_in_addition == Some((spec_worked_at(pre, at) % 60) as u64)
    } else {
        post.time_to_do == pre.time_to_do && post.time_to_do_seconds_in_addition
            == pre.time_to_do_seconds_in_addition
    }
}

/// Successful `restart_day`: the day's end is lifted, a closed break block
/// spanning the gap from the old punch-out to `at` is appended, and a fresh
/// open block for `task_name` starts at `at`.
pub open spec fn restart_rel(
    pre: Day,
    post: Day,
    break_name: Seq<char>,
    task_name: Seq<char>,
    at: Dt,
) -> bool {
    let n = pre.timeblocks@.len() as int;
    let old_end = pre.overall_interval.end->0;
    &&& post.timeblocks@.len() == n + 2
    &&& forall|i: int| 0 <= i < n ==> post.timeblocks@[i] == pre.timeblocks@[i]
    &&& post.timeblocks@[n].task_name@ == break_name
    &&& post.timeblocks@[n].interval.start == old_end
    &&& post.timeblocks@[n].interval.end == Some(at)
    &&& post.timeblocks@[n].notes@ == Seq::<Note>::empty()
    &&& post.timeblocks@[n + 1].task_name@ == task_name
    &&& post.timeblocks@[n + 1].interval.start == at
    &&& !post.timeblocks@[n + 1].interval.spec_has_end()
    &&& post.timeblocks@[n + 1].notes@ == Seq::<Note>::empty()
    &&& post.overall_interval.start == pre.overall_interval.start
    &&& post.overall_interval.end is None
    &&& post.breaks@ == pre.breaks@.push(n as usize)
    &&& !post.on_break
    &&& post.time_to_do == pre.time_to_do
    &&& post.time_to_do_seconds_in_addition == pre.time_to_do_seconds_in_addition
    &&& post.summaries == pre.summaries
}

/// Successful `update_current_task_name`: the open block is renamed and the
/// task index moves its index from the old name to the new one; nothing
/// else changes.
pub open spec fn rename_rel(pre: Day, post: Day, new_name: Seq<char>) -> bool {
    let n = pre.timeblocks@.len() as int;
    &&& post.timeblocks@.len() == n
    &&& forall|i: int| 0 <= i < n - 1 ==> post.timeblocks@[i] == pre.timeblocks@[i]
    &&& post.timeblocks@[n - 1].task_name@ == new_name
    &&& post.timeblocks@[n - 1].notes == pre.timeblocks@[n - 1].notes
    &&& post.timeblocks@[n - 1].interval == pre.timeblocks@[n - 1].interval
    &&& post.overall_interval == pre.overall_interval
    &&& post.breaks == pre.breaks
    &&& post.on_break == pre.on_break
    &&& post.time_to_do == pre.time_to_do
    &&& post.time_to_do_seconds_in_addition == pre.time_to_do_seconds_in_addition
    &&& post.summaries == pre.summaries
}

/// Whether some task-index entry of the day carries `name`.
pub open spec fn day_has_name(d: Day, name: Seq<char>) -> bool {
    exists|e: int| 0 <= e < d.tasks@.len() && (#[trigger] d.tasks@[e]).name@ == name
}

/// The day's `(seconds, blocks)` pair for `name`, zero when absent.
pub open spec fn day_total_for(d: Day, name: Seq<char>) -> (int, int) {
    if day_has_name(d, name) {
        let e = choose|e: int| 0 <= e < d.tasks@.len() && (#[trigger] d.tasks@[e]).name@ == name;
        (idx_sum(d.timeblocks@, d.tasks@[e].blocks@), d.tasks@[e].blocks@.len() as int)
    } else {
        (0, 0)
    }
}

/// The day's task names in first-occurrence order, without duplicates.
pub open spec fn chrono_tasks(blocks: Seq<TimeBlock>) -> Seq<Seq<char>>
    decreases blocks.len(),
{
    if blocks.len() == 0 {
        Seq::empty()
    } else {
        let prev = chrono_tasks(blocks.drop_last());
        if prev.contains(blocks.last().task_name@) {
            prev
        } else {
            prev.push(blocks.last().task_name@)
        }
    }
}

/// One line per task of the day summary: name, rendered time, block count.
pub open spec fn task_report_lines(d: Day, names: Seq<Seq<char>>, hours: bool) -> Seq<char>
    decreases names.len(),
{
    if names.len() == 0 {
        Seq::empty()
    } else {
        task_report_lines(d, names.drop_last(), hours) + "\n\t"@ + names.last() + ": "@
            + spec_render_seconds(day_total_for(d, names.last()).0, hours) + ", "@
            + spec_dec_digits(day_total_for(d, names.last()).1) + " blocks"@
    }
}

/// The full text of an ended day's summary.
pub open spec fn day_summary_text(d: Day, time_behind: Option<i64>, hours: bool) -> Seq<char> {
    "Total time (from punch in to punch out): "@ + spec_render_seconds(
        d.spec_day_len_secs(),
        hours,
    ) + "\nTime done today: "@ + spec_render_seconds(d.spec_time_done_secs(), hours)
        + "\nTime spent on break: "@ + spec_render_seconds(d.spec_break_secs(), hours) + "\n"@
        + "\nTotal task blocks (including breaks): "@ + spec_dec_digits(
        d.timeblocks@.len() as int,
    ) + "\nTotal task blocks (excluding breaks): "@ + spec_dec_digits(
        d.timeblocks@.len() - d.breaks@.len(),
    ) + "\nNumber of breaks: "@ + spec_dec_digits(d.breaks@.len() as int) + "\n"@
        + "\nLatest task: '"@ + d.timeblocks@.last().task_name@ + "'"@ + "\nTask times, blocks:"@
        + task_report_lines(d, chrono_tasks(d.timeblocks@), hours) + "\n"@
        + "\nTime to do today: "@ + spec_render_seconds(d.spec_time_to_do_secs(), hours)
        + "\nTime left to do today: "@ + spec_render_seconds(d.spec_time_left_secs(), hours) + (
    match time_behind {
        Some(itb) => "\nTime behind overall: "@ + spec_render_seconds(
            itb + d.spec_time_left_secs(),
            hours,
        ),
        None => Seq::empty(),
    })
}

/// The aggregate tracking one work session, from punch-in to punch-out.
#[derive(Clone, Debug)]
pub struct Day {
    pub overall_interval: Interval,
    pub timeblocks: Vec<TimeBlock>,
    pub tasks: Vec<TaskEntry>,
    pub breaks: Vec<usize>,
    pub on_break: bool,
    pub time_to_do: u64,
    pub time_to_do_seconds_in_addition: Option<u64>,
    pub summaries: Vec<WorkSummary>,
}

impl Day {
    pub open spec fn num_blocks(self) -> int {
        self.timeblocks@.len() as int
    }

    pub open spec fn last_block(self) -> TimeBlock {
        self.timeblocks@.last()
    }

    pub open spec fn spec_has_ended(self) -> bool {
        self.overall_interval.spec_has_end()
    }

    /// Break time in seconds: the summed lengths of the break blocks.
    pub open spec fn spec_break_secs(self) -> int {
        idx_sum(self.timeblocks@, self.breaks@)
    }

    /// Day length in seconds; meaningful only once the day has ended.
    pub open spec fn spec_day_len_secs(self) -> int {
        self.overall_interval.spec_len_secs()
    }

    /// The day's target in seconds.
    pub open spec fn spec_time_to_do_secs(self) -> int {
        self.time_to_do * 60 + (match self.time_to_do_seconds_in_addition {
            Some(e) => e as int,
            None => 0,
        })
    }

    /// Time worked: day length minus break time; meaningful once ended.
    pub open spec fn spec_time_done_secs(self) -> int {
        self.spec_day_len_secs() - self.spec_break_secs()
    }

    /// Time still owed: the target minus time worked; negative when ahead.
    pub open spec fn spec_time_left_secs(self) -> int {
        self.spec_time_to_do_secs() - self.spec_time_done_secs()
    }

    /// The structural invariant of a day. Every public constructor
    /// establishes it and every transition preserves it.
    pub open spec fn wf(self) -> bool {
        let blocks = self.timeblocks@;
        let n = blocks.len() as int;
        &&& self.overall_interval.wf()
        &&& 1 <= n <= MAX_BLOCKS
        &&& forall|i: int| 0 <= i < n ==> (#[trigger] blocks[i]).wf()
        // All blocks but the last are closed.
        &&& forall|i: int| 0 <= i < n - 1 ==> (#[trigger] blocks[i]).interval.spec_has_end()
        // The day has ended only with its last block closed, at the same instant.
        &&& self.spec_has_ended() ==> blocks[n - 1].interval.end == self.overall_interval.end
        // Blocks tile the day: the first starts at punch-in and each next
        // block starts where the previous one ended.
        &&& blocks[0].interval.start == self.overall_interval.start
        &&& forall|i: int|
            0 <= i < n - 1 ==> (#[trigger] blocks[i]).interval.end == Some(
                blocks[i + 1].interval.start,
            )
        // Break indices are ascending block indices.
        &&& forall|j: int, k: int| 0 <= j < k < self.breaks@.len() ==> self.breaks@[j] < self.breaks@[k]
        &&& forall|j: int| 0 <= j < self.breaks@.len() ==> (#[trigger] self.breaks@[j]) < n
        // On break exactly when the most recently opened block is a
        // still-open break.
        &&& self.on_break <==> (!blocks[n - 1].interval.spec_has_end() && self.breaks@.len() > 0
            && self.breaks@.last() == n - 1)
        &&& tasks_wf(self.tasks@, blocks)
        // The last block's index sits at the tail of its index entry.
        &&& exists|e: int|
            0 <= e < self.tasks@.len() && (#[trigger] self.tasks@[e]).name@ == blocks[n
                - 1].task_name@ && self.tasks@[e].blocks@.last() == n - 1
        // The target fits the arithmetic the derived queries perform.
        &&& self.spec_time_to_do_secs() <= MAX_TIME_TO_DO_SECS
    }

    /// Creates a day at `start`, seeded with one open block for
    /// `initial_task` and the given target.
    pub fn new(
        start: Dt,
        initial_task: String,
        time_to_do: u64,
        time_to_do_seconds_in_addition: Option<u64>,
    ) -> (r: Day)
        requires
            valid_ts(start.0),
            time_to_do * 60 + (match time_to_do_seconds_in_addition {
                Some(e) => e as int,
                None => 0,
            }) <= MAX_TIME_TO_DO_SECS,
        ensures
            r.wf(),
            r.overall_interval.start == start,
            !r.spec_has_ended(),
            r.timeblocks@.len() == 1,
            r.timeblocks@[0].task_name@ == initial_task@,
            r.timeblocks@[0].interval.start == start,
            !r.timeblocks@[0].interval.spec_has_end(),
            r.breaks@.len() == 0,
            !r.on_break,
            r.time_to_do == time_to_do,
            r.time_to_do_seconds_in_addition == time_to_do_seconds_in_addition,
            r.summaries@.len() == 0,
    {
        let initial_block = TimeBlock::new(initial_task.clone(), start);
        let mut timeblocks: Vec<TimeBlock> = Vec::new();
        timeblocks.push(initial_block);
        let mut first_indices: Vec<usize> = Vec::new();
        first_indices.push(0);
        let mut tasks: Vec<TaskEntry> = Vec::new();
        tasks.push(TaskEntry { name: initial_task, blocks: first_indices });
        let day = Day {
            overall_interval: Interval::new(start),
            timeblocks,
            tasks,
            breaks: Vec::new(),
            on_break: false,
            time_to_do,
            time_to_do_seconds_in_addition,
            summaries: Vec::new(),
        };
        proof {
            assert(day.tasks@.drop_last() =~= Seq::<TaskEntry>::empty());
            assert(count_sum(Seq::<TaskEntry>::empty()) == 0);
            assert(day.tasks@[0].blocks@.len() == 1);
            assert(count_sum(day.tasks@) == 1);
            assert(day.tasks@[0].blocks@[0] == 0usize);
            assert(day.tasks@[0].blocks@.contains(0usize));
            assert(forall|i: usize| i < day.timeblocks@.len() ==> #[trigger] covered(
                day.tasks@,
                i,
            )) by {
                assert(covered(day.tasks@, 0usize));
            };
        }
        day
    }

    pub fn has_ended(&self) -> (r: bool)
        ensures
            r == self.spec_has_ended(),
    {
        self.overall_interval.has_end()
    }

    pub fn get_day_start(&self) -> (r: Dt)
        ensures
            r == self.overall_interval.start,
    {
        self.overall_interval.get_start()
    }

    pub fn get_day_end(&self) -> (r: Option<Dt>)
        ensures
            r == self.overall_interval.end,
    {
        self.overall_interval.get_end()
    }

    pub fn get_total_timeblocks(&self) -> (r: u64)
        requires
            self.wf(),
        ensures
            r == self.timeblocks@.len(),
    {
        self.timeblocks.len() as u64
    }

    pub fn get_total_break_timeblocks(&self) -> (r: u64)
        requires
            self.wf(),
        ensures
            r == self.breaks@.len(),
    {
        proof {
            if self.breaks@.len() > 0 {
                assert(forall|j: int|
                    0 < j < self.breaks@.len() ==> self.breaks@[0] < #[trigger] self.breaks@[j]);
                assert(self.breaks@.len() <= MAX_BLOCKS) by {
                    if self.breaks@.len() > MAX_BLOCKS {
                        lemma_ascending_len_bound(self.breaks@, self.timeblocks@.len() as int);
                    }
                };
            }
        }
        self.breaks.len() as u64
    }

    pub fn get_total_timeblocks_without_breaks(&self) -> (r: u64)
        requires
            self.wf(),
        ensures
            r == self.timeblocks@.len() - self.breaks@.len(),
    {
        proof {
            lemma_ascending_len_bound(self.breaks@, self.timeblocks@.len() as int);
        }
        self.get_total_timeblocks() - self.get_total_break_timeblocks()
    }

    /// Sum of the break blocks' lengths, an open break counting as zero.
    fn sum_break_secs(&self) -> (r: i64)
        requires
            self.wf(),
        ensures
            r == self.spec_break_secs(),
    {
        sum_indexed_secs(&self.timeblocks, &self.breaks)
    }

    /// Day length in seconds, `None` while the day is open.
    pub fn get_day_length_secs(&self) -> (r: Option<i64>)
        requires
            self.wf(),
        ensures
            self.spec_has_ended() ==> r == Some(self.spec_day_len_secs() as i64) && r->0
                == self.spec_day_len_secs(),
            !self.spec_has_ended() ==> r is None,
    {
        self.overall_interval.get_length_secs()
    }

    /// Day length in whole minutes, truncated toward zero, `None` while open.
    pub fn get_day_length_mins(&self) -> (r: Option<i64>)
        requires
            self.wf(),
        ensures
            self.spec_has_ended() ==> r == Some(
                crate::interval::div_trunc(self.spec_day_len_secs() as i64, 60),
            ),
            !self.spec_has_ended() ==> r is None,
    {
        self.overall_interval.get_length_mins()
    }

    /// Total break time, `None` while on break: an open break has no
    /// determinate length, so day totals cannot be computed mid-break.
    pub fn get_total_break_time_secs(&self) -> (r: Option<i64>)
        requires
            self.wf(),
        ensures
            self.on_break ==> r is None,
            !self.on_break ==> r == Some(self.spec_break_secs() as i64) && r->0
                == self.spec_break_secs(),
    {
        if self.on_break {
            None
        } else {
            Some(self.sum_break_secs())
        }
    }

    /// Number of breaks taken, `None` while on break.
    pub fn get_number_of_breaks(&self) -> (r: Option<u64>)
        requires
            self.wf(),
        ensures
            self.on_break ==> r is None,
            !self.on_break ==> r == Some(self.breaks@.len() as u64) && r->0 == self.breaks@.len(),
    {
        proof {
            lemma_ascending_len_bound(self.breaks@, self.timeblocks@.len() as int);
        }
        if self.on_break {
            None
        } else {
            Some(self.breaks.len() as u64)
        }
    }

    /// Time worked: day length minus break time. `None` until the day has
    /// ended (an open day has no length; an open break has no total).
    pub fn get_time_done_secs(&self) -> (r: Option<i64>)
        requires
            self.wf(),
        ensures
            self.spec_has_ended() ==> r == Some(self.spec_time_done_secs() as i64) && r->0
                == self.spec_time_done_secs(),
            !self.spec_has_ended() ==> r is None,
    {
        proof {
            lemma_ascending_len_bound(self.breaks@, self.timeblocks@.len() as int);
            lemma_idx_sum_bound(self.timeblocks@, self.breaks@);
        }
        match (self.get_day_length_secs(), self.get_total_break_time_secs()) {
            (Some(day), Some(breaks)) => Some(day - breaks),
            _ => None,
        }
    }

    /// The day's target in seconds.
    pub fn get_time_to_do_secs(&self) -> (r: u64)
        requires
            self.wf(),
        ensures
            r == self.spec_time_to_do_secs(),
    {
        let extra: u64 = match self.time_to_do_seconds_in_addition {
            Some(e) => e,
            None => 0,
        };
        self.time_to_do * 60 + extra
    }

    /// Time still owed against the target; negative when ahead of schedule.
    /// `None` until the day has ended.
    pub fn get_time_left_secs(&self) -> (r: Option<i64>)
        requires
            self.wf(),
        ensures
            self.spec_has_ended() ==> r == Some(self.spec_time_left_secs() as i64) && r->0
                == self.spec_time_left_secs(),
            !self.spec_has_ended() ==> r is None,
    {
        proof {
            lemma_ascending_len_bound(self.breaks@, self.timeblocks@.len() as int);
            lemma_idx_sum_bound(self.timeblocks@, self.breaks@);
        }
        match self.get_time_done_secs() {
            Some(td) => Some(self.get_time_to_do_secs() as i64 - td),
            None => None,
        }
    }

    /// The name of the block at `ind`, counting from the back when negative.
    pub fn get_task_name(&self, ind: isize) -> (r: String)
        requires
            self.wf(),
            -(self.timeblocks@.len() as int) <= ind < self.timeblocks@.len(),
        ensures
            r@ == self.timeblocks@[
                if ind < 0 {
                    self.timeblocks@.len() + ind
                } else {
                    ind as int
                }
            ].task_name@,
    {
        let out_ind: usize = if ind < 0 {
            ((self.timeblocks.len() as isize) + ind) as usize
        } else {
            ind as usize
        };
        self.timeblocks[out_ind].get_task_name()
    }

    /// The name of the most recently opened block.
    pub fn get_latest_task_name(&self) -> (r: String)
        requires
            self.wf(),
        ensures
            r@ == self.last_block().task_name@,
    {
        self.get_task_name(-1)
    }

    /// Per-task totals: for each task index entry, the task name, its summed
    /// block time (open blocks counting as zero) and its block count, in the
    /// index's order.
    pub fn get_task_times_secs_and_num_blocks(&self) -> (r: Vec<(String, (i64, u64))>)
        requires
            self.wf(),
        ensures
            r@.len() == self.tasks@.len(),
            forall|e: int|
                0 <= e < r@.len() ==> (#[trigger] r@[e]).0@ == self.tasks@[e].name@ && r@[e].1.0
                    == idx_sum(self.timeblocks@, self.tasks@[e].blocks@) && r@[e].1.1
                    == self.tasks@[e].blocks@.len(),
    {
        let ne: usize = self.tasks.len();
        let mut out: Vec<(String, (i64, u64))> = Vec::new();
        let mut e: usize = 0;
        while e < ne
            invariant
                self.wf(),
                ne == self.tasks@.len(),
                0 <= e <= ne,
                out@.len() == e,
                forall|f: int|
                    0 <= f < e ==> (#[trigger] out@[f]).0@ == self.tasks@[f].name@ && out@[f].1.0
                        == idx_sum(self.timeblocks@, self.tasks@[f].blocks@) && out@[f].1.1
                        == self.tasks@[f].blocks@.len(),
            decreases ne - e,
        {
            proof {
                assert(entry_wf(self.tasks@[e as int], self.timeblocks@));
                assert(forall|j: int|
                    0 <= j < self.tasks@[e as int].blocks@.len() ==> names_block(
                        self.timeblocks@,
                        #[trigger] self.tasks@[e as int].blocks@[j],
                        self.tasks@[e as int].name@,
                    ));
                lemma_ascending_len_bound(
                    self.tasks@[e as int].blocks@,
                    self.timeblocks@.len() as int,
                );
            }
            let secs: i64 = sum_indexed_secs(&self.timeblocks, &self.tasks[e].blocks);
            let cnt: u64 = self.tasks[e].blocks.len() as u64;
            let name: String = self.tasks[e].name.clone();
            out.push((name, (secs, cnt)));
            e += 1;
        }
        out
    }

    /// Per-task summed block time alone, in the index's order.
    pub fn get_task_times_secs(&self) -> (r: Vec<(String, i64)>)
        requires
            self.wf(),
        ensures
            r@.len() == self.tasks@.len(),
            forall|e: int|
                0 <= e < r@.len() ==> (#[trigger] r@[e]).0@ == self.tasks@[e].name@ && r@[e].1
                    == idx_sum(self.timeblocks@, self.tasks@[e].blocks@),
    {
        let full = self.get_task_times_secs_and_num_blocks();
        let ne: usize = full.len();
        let mut out: Vec<(String, i64)> = Vec::new();
        let mut e: usize = 0;
        while e < ne
            invariant
                ne == full@.len(),
                full@.len() == self.tasks@.len(),
                forall|f: int|
                    0 <= f < full@.len() ==> (#[trigger] full@[f]).0@ == self.tasks@[f].name@
                        && full@[f].1.0 == idx_sum(self.timeblocks@, self.tasks@[f].blocks@),
                0 <= e <= ne,
                out@.len() == e,
                forall|f: int|
                    0 <= f < e ==> (#[trigger] out@[f]).0@ == self.tasks@[f].name@ && out@[f].1
                        == idx_sum(self.timeblocks@, self.tasks@[f].blocks@),
            decreases ne - e,
        {
            let name: String = full[e].0.clone();
            let secs: i64 = full[e].1.0;
            out.push((name, secs));
            e += 1;
        }
        out
    }

    /// The task names in first-occurrence order, without duplicates: the
    /// stable order reports present per-task totals in.
    pub fn get_tasks_in_chronological_order(&self) -> (r: Vec<String>)
        requires
            self.wf(),
        ensures
            r@.map_values(|s: String| s@) == chrono_tasks(self.timeblocks@),
    {
        let n: usize = self.timeblocks.len();
        let mut out: Vec<String> = Vec::new();
        let mut i: usize = 0;
        while i < n
            invariant
                self.wf(),
                n == self.timeblocks@.len(),
                0 <= i <= n,
                out@.map_values(|s: String| s@) == chrono_tasks(self.timeblocks@.take(i as int)),
            decreases n - i,
        {
            let name: String = self.timeblocks[i].get_task_name();
            let seen: bool = vec_contains_string(&out, &name);
            proof {
                assert(self.timeblocks@.take(i + 1).drop_last() =~= self.timeblocks@.take(i as int));
                assert(self.timeblocks@.take(i + 1).last() == self.timeblocks@[i as int]);
            }
            if !seen {
                let ghost prev = out@;
                out.push(name);
                proof {
                    assert(out@.map_values(|s: String| s@) =~= prev.map_values(|s: String| s@).push(
                        self.timeblocks@[i as int].task_name@,
                    ));
                }
            }
            i += 1;
        }
        proof {
            assert(self.timeblocks@.take(n as int) =~= self.timeblocks@);
        }
        out
    }

    /// Appends a note to the most recently opened block.
    pub fn add_note(&mut self, time: Dt, msg: &String)
        requires
            old(self).wf(),
        ensures
            final(self).wf(),
            final(self).timeblocks@.len() == old(self).timeblocks@.len(),
            forall|i: int|
                0 <= i < old(self).timeblocks@.len() - 1 ==> final(self).timeblocks@[i] == old(
                    self,
                ).timeblocks@[i],
            final(self).last_block().task_name == old(self).last_block().task_name,
            final(self).last_block().interval == old(self).last_block().interval,
            final(self).last_block().notes@.len() == old(self).last_block().notes@.len() + 1,
            final(self).last_block().notes@.last().time == time,
            final(self).last_block().notes@.last().msg@ == msg@,
            final(self).last_block().notes@.subrange(
                0,
                old(self).last_block().notes@.len() as int,
            ) =~= old(self).last_block().notes@,
            final(self).overall_interval == old(self).overall_interval,
            final(self).tasks == old(self).tasks,
            final(self).breaks == old(self).breaks,
            final(self).on_break == old(self).on_break,
            final(self).time_to_do == old(self).time_to_do,
            final(self).time_to_do_seconds_in_addition == old(self).time_to_do_seconds_in_addition,
            final(self).summaries == old(self).summaries,
    {
        let n: usize = self.timeblocks.len();
        self.timeblocks[n - 1].add_note(time, msg);
        proof {
            lemma_tasks_wf_names_stable(self.tasks@, old(self).timeblocks@, self.timeblocks@);
        }
    }

    /// Records a free-text summary of a piece of work done today.
    pub fn add_summary(&mut self, category: String, project: String, task: String, summary: String)
        requires
            old(self).wf(),
        ensures
            final(self).wf(),
            final(self).summaries@.len() == old(self).summaries@.len() + 1,
            final(self).summaries@.last().category == category,
            final(self).summaries@.last().project == project,
            final(self).summaries@.last().task == task,
            final(self).summaries@.last().summary == summary,
            final(self).summaries@.subrange(0, old(self).summaries@.len() as int) =~= old(
                self,
            ).summaries@,
            final(self).timeblocks == old(self).timeblocks,
            final(self).overall_interval == old(self).overall_interval,
            final(self).tasks == old(self).tasks,
            final(self).breaks == old(self).breaks,
            final(self).on_break == old(self).on_break,
            final(self).time_to_do == old(self).time_to_do,
            final(self).time_to_do_seconds_in_addition == old(self).time_to_do_seconds_in_addition,
    {
        let s = WorkSummary::new(category, project, task, summary);
        self.summaries.push(s);
    }

    /// One report line per task name, in the given order.
    #[verifier::rlimit(100)]
    fn render_task_lines(
        &self,
        names: &Vec<String>,
        summaries: &Vec<(String, (i64, u64))>,
        hours: bool,
    ) -> (r: String)
        requires
            self.wf(),
            summaries@.len() == self.tasks@.len(),
            forall|f: int|
                0 <= f < summaries@.len() ==> (#[trigger] summaries@[f]).0@
                    == self.tasks@[f].name@ && summaries@[f].1.0 == idx_sum(
                    self.timeblocks@,
                    self.tasks@[f].blocks@,
                ) && summaries@[f].1.1 == self.tasks@[f].blocks@.len(),
            forall|j: int| 0 <= j < names@.len() ==> day_has_name(*self, (#[trigger] names@[j])@),
        ensures
            r@ == task_report_lines(*self, names@.map_values(|s: String| s@), hours),
    {
        let ghost mapped = names@.map_values(|s: String| s@);
        let mut out = String::new();
        let n: usize = names.len();
        let mut j: usize = 0;
        while j < n
            invariant
                self.wf(),
                summaries@.len() == self.tasks@.len(),
                forall|f: int|
                    0 <= f < summaries@.len() ==> (#[trigger] summaries@[f]).0@
                        == self.tasks@[f].name@ && summaries@[f].1.0 == idx_sum(
                        self.timeblocks@,
                        self.tasks@[f].blocks@,
                    ) && summaries@[f].1.1 == self.tasks@[f].blocks@.len(),
                forall|jj: int|
                    0 <= jj < names@.len() ==> day_has_name(*self, (#[trigger] names@[jj])@),
                mapped == names@.map_values(|s: String| s@),
                n == names@.len(),
                0 <= j <= n,
                out@ == task_report_lines(*self, mapped.take(j as int), hours),
            decreases n - j,
        {
            let name: &String = &names[j];
            let fo = find_summary(summaries, name);
            let (secs, cnt): (i64, u64) = match fo {
                Some(f) => (summaries[f].1.0, summaries[f].1.1),
                None => (0, 0),
            };
            proof {
                assert(day_has_name(*self, name@));
                let e2 = choose|e: int|
                    0 <= e < self.tasks@.len() && (#[trigger] self.tasks@[e]).name@ == name@;
                match fo {
                    None => {
                        assert(summaries@[e2].0@ == name@);
                        assert(false);
                    },
                    Some(f) => {
                        assert(self.tasks@[f as int].name@ == name@);
                        assert(e2 == f as int);
                        assert(day_total_for(*self, name@) == (secs as int, cnt as int));
                        assert(entry_wf(self.tasks@[f as int], self.timeblocks@));
                        assert(forall|jj: int|
                            0 <= jj < self.tasks@[f as int].blocks@.len() ==> names_block(
                                self.timeblocks@,
                                #[trigger] self.tasks@[f as int].blocks@[jj],
                                name@,
                            ));
                        lemma_idx_sum_bound(self.timeblocks@, self.tasks@[f as int].blocks@);
                        lemma_ascending_len_bound(
                            self.tasks@[f as int].blocks@,
                            self.timeblocks@.len() as int,
                        );
                        let c: int = 2 * MAX_TIMESTAMP_SECS;
                        let len: int = self.tasks@[f as int].blocks@.len() as int;
                        assert(len * c <= 100_000 * c) by (nonlinear_arith)
                            requires
                                0 <= len <= 100_000,
                                c >= 0,
                        ;
                        assert(100_000 * c < 0x7fff_ffff_ffff_ffff);
                        assert(secs > i64::MIN);
                    },
                }
                assert(mapped.take(j + 1).drop_last() =~= mapped.take(j as int));
                assert(mapped.take(j + 1).last() == mapped[j as int]);
                assert(mapped[j as int] == name@);
            }
            out.append("\n\t");
            out.append(name.as_str());
            out.append(": ");
            let rendered = render_seconds_human_readable(secs, hours);
            out.append(rendered.as_str());
            out.append(", ");
            let cnts = render_u64(cnt);
            out.append(cnts.as_str());
            out.append(" blocks");
            j += 1;
        }
        proof {
            assert(mapped.take(n as int) =~= mapped);
        }
        out
    }

    /// The human-readable summary of an ended day: totals, block counts,
    /// per-task figures in first-occurrence order, and the time owed, with
    /// the running ledger folded in when given. A day still open is refused.
    #[verifier::rlimit(100)]
    pub fn render_human_readable_summary(
        &self,
        initial_time_behind_opt: Option<i64>,
        show_times_in_hours: bool,
    ) -> (r: Result<String, String>)
        requires
            self.wf(),
            initial_time_behind_opt matches Some(itb) ==> i64::MIN < itb
                + self.spec_time_left_secs() <= i64::MAX,
        ensures
            self.spec_has_ended() ==> (r matches Ok(s) && s@ == day_summary_text(
                *self,
                initial_time_behind_opt,
                show_times_in_hours,
            )),
            !self.spec_has_ended() ==> (r matches Err(m) && m@
                == "Can't summarise a day before it has ended!"@),
    {
        if !self.has_ended() {
            return Err(String::from_str("Can't summarise a day before it has ended!"));
        }
        proof {
            lemma_ascending_len_bound(self.breaks@, self.timeblocks@.len() as int);
            lemma_idx_sum_bound(self.timeblocks@, self.breaks@);
        }
        let day_length: i64 = match self.get_day_length_secs() {
            Some(v) => v,
            None => 0,
        };
        let time_done: i64 = match self.get_time_done_secs() {
            Some(v) => v,
            None => 0,
        };
        let break_time: i64 = match self.get_total_break_time_secs() {
            Some(v) => v,
            None => 0,
        };
        let time_left: i64 = match self.get_time_left_secs() {
            Some(v) => v,
            None => 0,
        };
        let num_breaks: u64 = match self.get_number_of_breaks() {
            Some(v) => v,
            None => 0,
        };
        let total_blocks: u64 = self.get_total_timeblocks();
        let without_breaks: u64 = self.get_total_timeblocks_without_breaks();
        let latest: String = self.get_latest_task_name();
        let summaries = self.get_task_times_secs_and_num_blocks();
        let names = self.get_tasks_in_chronological_order();
        proof {
            lemma_chrono_are_block_names(self.timeblocks@);
            assert forall|j: int|
                0 <= j < names@.len() implies day_has_name(*self, (#[trigger] names@[j])@) by {
                assert(names@.map_values(|s: String| s@)[j] == names@[j]@);
                assert(block_named(self.timeblocks@, names@[j]@));
                let i = choose|i: int|
                    0 <= i < self.timeblocks@.len() && (#[trigger] self.timeblocks@[i]).task_name@
                        == names@[j]@;
                assert(covered(self.tasks@, i as usize));
                let e = choose|e: int|
                    0 <= e < self.tasks@.len() && (#[trigger] self.tasks@[e]).blocks@.contains(
                        i as usize,
                    );
                assert(self.tasks@[e].blocks@.contains(i as usize));
                let jj = choose|jj: int|
                    0 <= jj < self.tasks@[e].blocks@.len() && self.tasks@[e].blocks@[jj] == (
                    i as usize);
                assert(entry_wf(self.tasks@[e], self.timeblocks@));
                assert(names_block(
                    self.timeblocks@,
                    self.tasks@[e].blocks@[jj],
                    self.tasks@[e].name@,
                ));
                assert(self.tasks@[e].name@ == names@[j]@);
            };
        }
        let task_lines = self.render_task_lines(&names, &summaries, show_times_in_hours);
        let mut out = String::from_str("Total time (from punch in to punch out): ");
        let p1 = render_seconds_human_readable(day_length, show_times_in_hours);
        out.append(p1.as_str());
        out.append("\nTime done today: ");
        let p2 = render_seconds_human_readable(time_done, show_times_in_hours);
        out.append(p2.as_str());
        out.append("\nTime spent on break: ");
        let p3 = render_seconds_human_readable(break_time, show_times_in_hours);
        out.append(p3.as_str());
        out.append("\n");
        out.append("\nTotal task blocks (including breaks): ");
        let p4 = render_u64(total_blocks);
        out.append(p4.as_str());
        out.append("\nTotal task blocks (excluding breaks): ");
        let p5 = render_u64(without_breaks);
        out.append(p5.as_str());
        out.append("\nNumber of breaks: ");
        let p6 = render_u64(num_breaks);
        out.append(p6.as_str());
        out.append("\n");
        out.append("\nLatest task: '");
        out.append(latest.as_str());
        out.append("'");
        out.append("\nTask times, blocks:");
        out.append(task_lines.as_str());
        out.append("\n");
        out.append("\nTime to do today: ");
        let time_to_do: u64 = self.get_time_to_do_secs();
        let p7 = render_seconds_human_readable(time_to_do as i64, show_times_in_hours);
        out.append(p7.as_str());
        out.append("\nTime left to do today: ");
        let p8 = render_seconds_human_readable(time_left, show_times_in_hours);
        out.append(p8.as_str());
        if let Some(initial_time_behind) = initial_time_behind_opt {
            let total_time_behind: i64 = initial_time_behind + time_left;
            out.append("\nTime behind overall: ");
            let p9 = render_seconds_human_readable(total_time_behind, show_times_in_hours);
            out.append(p9.as_str());
        }
        Ok(out)
    }

    /// Closes the most recently opened block at `at` and forces the day off
    /// break. The other transitions use this as their closing step.
    pub fn end_current_block_at(&mut self, at: Dt) -> (r: Result<(), DayError>)
        requires
            old(self).wf(),
            valid_ts(at.0),
            !old(self).spec_has_ended(),
        ensures
            r is Ok,
            final(self).wf(),
            final(self).timeblocks@.len() == old(self).timeblocks@.len(),
            forall|i: int|
                0 <= i < old(self).timeblocks@.len() - 1 ==> final(self).timeblocks@[i] == old(
                    self,
                ).timeblocks@[i],
            final(self).last_block().task_name == old(self).last_block().task_name,
            final(self).last_block().notes == old(self).last_block().notes,
            final(self).last_block().interval.start == old(self).last_block().interval.start,
            final(self).last_block().interval.end == Some(at),
            !final(self).on_break,
            final(self).overall_interval == old(self).overall_interval,
            final(self).breaks == old(self).breaks,
            final(self).tasks == old(self).tasks,
            final(self).time_to_do == old(self).time_to_do,
            final(self).time_to_do_seconds_in_addition == old(self).time_to_do_seconds_in_addition,
            final(self).summaries == old(self).summaries,
    {
        let n: usize = self.timeblocks.len();
        self.timeblocks[n - 1].close_at(at);
        self.on_break = false;
        proof {
            lemma_tasks_wf_names_stable(self.tasks@, old(self).timeblocks@, self.timeblocks@);
        }
        Ok(())
    }

    /// Punch-out: closes the open block and the day itself at `at`. With
    /// `time_to_do_done` the target is overwritten with the time actually
    /// worked; an open break closes at `at` first, so it does not count.
    #[verifier::rlimit(100)]
    pub fn end_day_at(&mut self, at: Dt, time_to_do_done: bool) -> (r: Result<(), DayError>)
        requires
            old(self).wf(),
            valid_ts(at.0),
            time_to_do_done && !old(self).spec_has_ended() ==> spec_worked_at(*old(self), at) >= 0,
        ensures
            final(self).wf(),
            !old(self).spec_has_ended() ==> r is Ok && final(self).spec_has_ended()
                && end_day_rel(*old(self), *final(self), at, time_to_do_done),
            old(self).spec_has_ended() ==> r == Result::<(), DayError>::Err(
                DayError::DayAlreadyEnded,
            ) && *final(self) == *old(self),
    {
        if self.has_ended() {
            Err(DayError::DayAlreadyEnded)
        } else {
            self.overall_interval.close_at(at);
            let n: usize = self.timeblocks.len();
            self.timeblocks[n - 1].close_at(at);
            self.on_break = false;
            proof {
                lemma_tasks_wf_names_stable(self.tasks@, old(self).timeblocks@, self.timeblocks@);
                assert(self.wf());
            }
            if time_to_do_done {
                proof {
                    lemma_ascending_len_bound(self.breaks@, self.timeblocks@.len() as int);
                    lemma_idx_sum_bound(self.timeblocks@, self.breaks@);
                    let c: int = 2 * MAX_TIMESTAMP_SECS;
                    assert((self.breaks@.len() as int) * c <= 100_000 * c) by (nonlinear_arith)
                        requires
                            0 <= self.breaks@.len() <= 100_000,
                            c >= 0,
                    ;
                    assert(100_000 * c < 0x7fff_ffff_ffff_ffff);
                }
                let total: i64 = match self.get_time_done_secs() {
                    Some(v) => v,
                    None => 0,
                };
                proof {
                    let pre = *old(self);
                    let closed = pre.timeblocks@.update(
                        pre.timeblocks@.len() - 1,
                        close_block_at(pre.timeblocks@.last(), at),
                    );
                    assert(self.timeblocks@ =~= closed);
                    assert(total == spec_worked_at(pre, at));
                    assert(total <= (100_000 + 1) * (2 * MAX_TIMESTAMP_SECS));
                }
                let t: u64 = total as u64;
                self.time_to_do = t / 60;
                self.time_to_do_seconds_in_addition = Some(t % 60);
                proof {
                    assert(self.spec_time_to_do_secs() == t);
                    assert(self.wf());
                }
            }
            proof {
                assert(self.wf());
                assert(end_day_rel(*old(self), *self, at, time_to_do_done));
            }
            Ok(())
        }
    }

    /// Task switch: closes the open block at `at` and opens a fresh block
    /// for `task_name`, clearing the break state.
    pub fn start_new_block(&mut self, task_name: String, at: Dt) -> (r: Result<(), DayError>)
        requires
            old(self).wf(),
            valid_ts(at.0),
            !old(self).spec_has_ended() ==> old(self).timeblocks@.len() + 1 <= MAX_BLOCKS,
        ensures
            final(self).wf(),
            !old(self).spec_has_ended() ==> r is Ok && start_block_rel(
                *old(self),
                *final(self),
                task_name@,
                at,
            ),
            old(self).spec_has_ended() ==> r == Result::<(), DayError>::Err(
                DayError::DayAlreadyEnded,
            ) && *final(self) == *old(self),
    {
        if self.has_ended() {
            Err(DayError::DayAlreadyEnded)
        } else {
            let n: usize = self.timeblocks.len();
            self.timeblocks[n - 1].close_at(at);
            self.timeblocks.push(TimeBlock::new(task_name.clone(), at));
            let ghost mid_tasks = self.tasks@;
            push_task_index(&mut self.tasks, &task_name, n);
            self.on_break = false;
            proof {
                let pre = *old(self);
                let nb = self.timeblocks@;
                assert(mid_tasks == pre.tasks@);
                assert(forall|i: int|
                    0 <= i < n ==> (#[trigger] nb[i]).task_name@ == pre.timeblocks@[i].task_name@);
                assert(forall|e: int|
                    0 <= e < pre.tasks@.len() ==> entry_wf(#[trigger] pre.tasks@[e], nb)) by {
                    assert forall|e: int|
                        0 <= e < pre.tasks@.len() implies entry_wf(#[trigger] pre.tasks@[e], nb) by {
                        assert(entry_wf(pre.tasks@[e], pre.timeblocks@));
                        assert(forall|j: int|
                            0 <= j < pre.tasks@[e].blocks@.len() ==> names_block(
                                nb,
                                #[trigger] pre.tasks@[e].blocks@[j],
                                pre.tasks@[e].name@,
                            ));
                    };
                };
                assert(forall|i: usize| i < nb.len() && i != n ==> #[trigger] covered(
                    pre.tasks@,
                    i,
                ));
                lemma_tasks_wf_indices_in_range(pre.tasks@, pre.timeblocks@);
                assert(names_block(nb, n as usize, task_name@));
                lemma_tasks_add_wf(pre.tasks@, self.tasks@, nb, task_name@, n);
                assert(start_block_rel(pre, *self, task_name@, at));
            }
            Ok(())
        }
    }

    /// Break start: switches to a block named for the break and records it
    /// in the break-index set.
    #[verifier::rlimit(100)]
    pub fn start_break_at(&mut self, break_name: String, at: Dt) -> (r: Result<(), DayError>)
        requires
            old(self).wf(),
            valid_ts(at.0),
            !old(self).on_break && !old(self).spec_has_ended() ==> old(self).timeblocks@.len() + 1
                <= MAX_BLOCKS,
        ensures
            final(self).wf(),
            old(self).on_break ==> r == Result::<(), DayError>::Err(DayError::AlreadyOnBreak)
                && *final(self) == *old(self),
            !old(self).on_break && old(self).spec_has_ended() ==> r == Result::<(), DayError>::Err(
                DayError::DayAlreadyEnded,
            ) && *final(self) == *old(self),
            !old(self).on_break && !old(self).spec_has_ended() ==> r is Ok && start_break_rel(
                *old(self),
                *final(self),
                break_name@,
                at,
            ),
    {
        if self.on_break {
            Err(DayError::AlreadyOnBreak)
        } else {
            match self.start_new_block(break_name, at) {
                Err(e) => Err(e),
                Ok(_) => {
                    let ghost mid = *self;
                    let n: usize = self.timeblocks.len();
                    self.breaks.push(n - 1);
                    self.on_break = true;
                    proof {
                        let pre = *old(self);
                        assert(mid.wf());
                        assert(self.timeblocks == mid.timeblocks);
                        assert(self.tasks == mid.tasks);
                        assert(self.overall_interval == mid.overall_interval);
                        assert(tasks_wf(self.tasks@, self.timeblocks@));
                        assert(1 <= self.timeblocks@.len() <= MAX_BLOCKS);
                        assert(forall|i: int|
                            0 <= i < self.timeblocks@.len() ==> (
                            #[trigger] self.timeblocks@[i]).wf());
                        assert(forall|j: int|
                            0 <= j < pre.breaks@.len() ==> self.breaks@[j] == #[trigger] pre.breaks@[j]);
                        assert(forall|j: int|
                            0 <= j < pre.breaks@.len() ==> (#[trigger] pre.breaks@[j]) < n - 1);
                        assert(self.breaks@.last() == (n - 1) as usize);
                        assert(forall|j: int, k: int|
                            0 <= j < k < self.breaks@.len() ==> self.breaks@[j]
                                < self.breaks@[k]) by {
                            assert forall|j: int, k: int|
                                0 <= j < k < self.breaks@.len() implies self.breaks@[j]
                                < self.breaks@[k] by {
                                if k < self.breaks@.len() - 1 {
                                    assert(self.breaks@[j] == pre.breaks@[j]);
                                    assert(self.breaks@[k] == pre.breaks@[k]);
                                } else {
                                    assert(self.breaks@[j] == pre.breaks@[j]);
                                    assert(self.breaks@[k] == (n - 1) as usize);
                                }
                            };
                        };
                        assert(!self.last_block().interval.spec_has_end());
                        assert(self.on_break <==> (!self.last_block().interval.spec_has_end()
                            && self.breaks@.len() > 0 && self.breaks@.last()
                            == self.timeblocks@.len() - 1));
                        assert(self.wf());
                        assert(start_break_rel(pre, *self, break_name@, at));
                    }
                    Ok(())
                },
            }
        }
    }

    /// Renames the task the open block is attributed to, moving its index
    /// from the old name's entry to the new name's. Refused while on break,
    /// and refused once the day has ended.
    #[verifier::rlimit(100)]
    pub fn update_current_task_name(&mut self, new_task: String) -> (r: Result<(), DayError>)
        requires
            old(self).wf(),
        ensures
            final(self).wf(),
            old(self).on_break ==> r == Result::<(), DayError>::Err(DayError::OnBreak)
                && *final(self) == *old(self),
            !old(self).on_break && old(self).spec_has_ended() ==> r == Result::<(), DayError>::Err(
                DayError::DayAlreadyEnded,
            ) && *final(self) == *old(self),
            !old(self).on_break && !old(self).spec_has_ended() ==> r is Ok && rename_rel(
                *old(self),
                *final(self),
                new_task@,
            ),
    {
        if self.on_break {
            Err(DayError::OnBreak)
        } else if self.has_ended() {
            Err(DayError::DayAlreadyEnded)
        } else {
            let n: usize = self.timeblocks.len();
            let current_name: String = self.timeblocks[n - 1].get_task_name();
            proof {
                let pre = *old(self);
                let e = choose|e: int|
                    0 <= e < pre.tasks@.len() && (#[trigger] pre.tasks@[e]).name@
                        == pre.timeblocks@[n - 1].task_name@ && pre.tasks@[e].blocks@.last() == n
                        - 1;
                assert(pre.tasks@[e].name@ == current_name@);
                assert(forall|f: int|
                    0 <= f < pre.tasks@.len() ==> (#[trigger] pre.tasks@[f]).blocks@.len() > 0)
                    by {
                    assert(forall|f: int|
                        0 <= f < pre.tasks@.len() ==> entry_wf(#[trigger] pre.tasks@[f],
                        pre.timeblocks@));
                };
            }
            remove_last_index(&mut self.tasks, &current_name);
            let ghost mid_tasks = self.tasks@;
            proof {
                lemma_tasks_remove_wf(
                    old(self).tasks@,
                    mid_tasks,
                    old(self).timeblocks@,
                    current_name@,
                );
            }
            push_task_index(&mut self.tasks, &new_task, n - 1);
            self.timeblocks[n - 1].update_task_name(new_task);
            proof {
                let pre = *old(self);
                let nb = self.timeblocks@;
                assert(forall|i: int|
                    0 <= i < n - 1 ==> (#[trigger] nb[i]).task_name@
                        == pre.timeblocks@[i].task_name@);
                assert(forall|e: int| 0 <= e < mid_tasks.len() ==> entry_wf(
                    #[trigger] mid_tasks[e],
                    nb,
                )) by {
                    assert forall|e: int| 0 <= e < mid_tasks.len() implies entry_wf(
                        #[trigger] mid_tasks[e],
                        nb,
                    ) by {
                        assert(entry_wf(mid_tasks[e], pre.timeblocks@));
                        assert(forall|j: int|
                            0 <= j < mid_tasks[e].blocks@.len() ==> names_block(
                                nb,
                                #[trigger] mid_tasks[e].blocks@[j],
                                mid_tasks[e].name@,
                            )) by {
                            assert(forall|j: int|
                                0 <= j < mid_tasks[e].blocks@.len() ==> (
                                #[trigger] mid_tasks[e].blocks@[j]) < n - 1);
                        };
                    };
                };
                assert(names_block(nb, (n - 1) as usize, new_task@));
                lemma_tasks_add_wf(mid_tasks, self.tasks@, nb, new_task@, (n - 1) as usize);
                assert(self.wf());
                assert(rename_rel(pre, *self, new_task@));
            }
            Ok(())
        }
    }

    /// Punch back in: reopens an ended day, records the gap since the old
    /// punch-out as a break named `break_name`, and resumes on `task_name`
    /// at `at`. Returns the `time left` the day had when it ended, so the
    /// caller can reverse that contribution in the time-behind ledger.
    pub fn restart_day(&mut self, break_name: String, task_name: String, at: Dt) -> (r: Result<
        i64,
        DayError,
    >)
        requires
            old(self).wf(),
            valid_ts(at.0),
            old(self).spec_has_ended() ==> old(self).timeblocks@.len() + 2 <= MAX_BLOCKS,
        ensures
            final(self).wf(),
            !old(self).spec_has_ended() ==> r == Result::<i64, DayError>::Err(DayError::DayNotEnded)
                && *final(self) == *old(self),
            old(self).spec_has_ended() ==> {
                &&& r matches Ok(v) && v == old(self).spec_time_left_secs()
                &&& !final(self).spec_has_ended()
                &&& restart_rel(*old(self), *final(self), break_name@, task_name@, at)
            },
    {
        if !self.has_ended() {
            Err(DayError::DayNotEnded)
        } else {
            let time_left_before: i64 = match self.get_time_left_secs() {
                Some(v) => v,
                None => 0,
            };
            let day_end: Dt = match self.get_day_end() {
                Some(d) => d,
                None => Dt(0),
            };
            self.overall_interval.unset_end();
            let ghost mid1 = *self;
            proof {
                assert(mid1.wf());
            }
            let res_break = self.start_break_at(break_name, day_end);
            let ghost mid2 = *self;
            proof {
                assert(!mid1.on_break && !mid1.spec_has_ended());
                assert(res_break is Ok);
                assert(start_break_rel(mid1, mid2, break_name@, day_end));
            }
            let res_task = self.start_new_block(task_name, at);
            proof {
                let pre = *old(self);
                assert(res_task is Ok);
                assert(start_block_rel(mid2, *self, task_name@, at));
                let n = pre.timeblocks@.len() as int;
                assert(mid2.timeblocks@.len() == n + 1);
                assert(forall|i: int| 0 <= i < n ==> self.timeblocks@[i] == mid2.timeblocks@[i]);
                assert(mid2.timeblocks@[n - 1] == pre.timeblocks@[n - 1]) by {
                    assert(mid2.timeblocks@[n - 1].interval.end == Some(day_end));
                    assert(pre.timeblocks@[n - 1].interval.end == Some(day_end));
                    assert(mid2.timeblocks@[n - 1].interval.start == pre.timeblocks@[n
                        - 1].interval.start);
                };
                assert(forall|i: int| 0 <= i < n ==> self.timeblocks@[i] == pre.timeblocks@[i]);
                assert(self.timeblocks@[n].notes == mid2.timeblocks@[n].notes);
                assert(restart_rel(pre, *self, break_name@, task_name@, at));
            }
            Ok(time_left_before)
        }
    }
}

/// Any sum of block lengths picked out by `idxs` is bounded by the number
/// of picks times the widest possible block.
proof fn lemma_idx_sum_bound(blocks: Seq<TimeBlock>, idxs: Seq<usize>)
    requires
        forall|j: int| 0 <= j < idxs.len() ==> (#[trigger] idxs[j]) < blocks.len(),
        forall|i: int| 0 <= i < blocks.len() ==> (#[trigger] blocks[i]).wf(),
    ensures
        -((idxs.len() as int) * (2 * MAX_TIMESTAMP_SECS)) <= idx_sum(blocks, idxs),
        idx_sum(blocks, idxs) <= (idxs.len() as int) * (2 * MAX_TIMESTAMP_SECS),
    decreases idxs.len(),
{
    if idxs.len() > 0 {
        lemma_idx_sum_bound(blocks, idxs.drop_last());
        assert(blocks[idxs.last() as int].wf());
        assert((idxs.len() as int) * (2 * MAX_TIMESTAMP_SECS) == (idxs.len() - 1) * (2
            * MAX_TIMESTAMP_SECS) + 2 * MAX_TIMESTAMP_SECS) by (nonlinear_arith);
    }
}

/// Changing one entry's index count by `delta` changes the total count by
/// `delta`.
proof fn lemma_count_sum_update(pre: Seq<TaskEntry>, post: Seq<TaskEntry>, e: int, delta: int)
    requires
        post.len() == pre.len(),
        0 <= e < pre.len(),
        forall|f: int| 0 <= f < pre.len() && f != e ==> post[f] == pre[f],
        post[e].blocks@.len() == pre[e].blocks@.len() + delta,
    ensures
        count_sum(post) == count_sum(pre) + delta,
    decreases pre.len(),
{
    if e == pre.len() - 1 {
        assert(post.drop_last() =~= pre.drop_last());
    } else {
        assert(forall|f: int|
            0 <= f < pre.len() - 1 && f != e ==> post.drop_last()[f] == pre.drop_last()[f]);
        lemma_count_sum_update(pre.drop_last(), post.drop_last(), e, delta);
    }
}

/// Removing an entry removes its index count from the total.
proof fn lemma_count_sum_remove(s: Seq<TaskEntry>, e: int)
    requires
        0 <= e < s.len(),
    ensures
        count_sum(s.remove(e)) == count_sum(s) - s[e].blocks@.len(),
    decreases s.len(),
{
    if e == s.len() - 1 {
        assert(s.remove(e) =~= s.drop_last());
    } else {
        assert(s.remove(e).drop_last() =~= s.drop_last().remove(e));
        assert(s.remove(e).last() == s.last());
        lemma_count_sum_remove(s.drop_last(), e);
    }
}

/// Appending an entry adds its index count to the total.
proof fn lemma_count_sum_push(s: Seq<TaskEntry>, entry: TaskEntry)
    ensures
        count_sum(s.push(entry)) == count_sum(s) + entry.blocks@.len(),
{
    assert(s.push(entry).drop_last() =~= s);
}

/// After recording block `idx` named `name` in an index that was consistent
/// but for `idx`, the index is consistent with the block list, and the entry
/// for `name` ends with `idx`.
proof fn lemma_tasks_add_wf(
    pre: Seq<TaskEntry>,
    post: Seq<TaskEntry>,
    blocks: Seq<TimeBlock>,
    name: Seq<char>,
    idx: usize,
)
    requires
        tasks_after_add(pre, post, name, idx),
        forall|e: int| 0 <= e < pre.len() ==> entry_wf(#[trigger] pre[e], blocks),
        forall|e1: int, e2: int|
            0 <= e1 < e2 < pre.len() ==> (#[trigger] pre[e1]).name@ != (#[trigger] pre[e2]).name@,
        forall|i: usize| i < blocks.len() && i != idx ==> #[trigger] covered(pre, i),
        count_sum(pre) == blocks.len() - 1,
        forall|e: int, j: int|
            0 <= e < pre.len() && 0 <= j < pre[e].blocks@.len() ==> (#[trigger] pre[e].blocks@[j])
                < idx,
        names_block(blocks, idx, name),
        idx < blocks.len(),
    ensures
        tasks_wf(post, blocks),
        exists|e: int|
            0 <= e < post.len() && (#[trigger] post[e]).name@ == name && post[e].blocks@.last()
                == idx,
{
    if exists|e: int| 0 <= e < pre.len() && (#[trigger] pre[e]).name@ == name {
        let e = choose|e: int| 0 <= e < pre.len() && (#[trigger] pre[e]).name@ == name;
        assert(post[e].blocks@.last() == idx);
        assert(entry_wf(post[e], blocks)) by {
            assert(forall|j: int|
                0 <= j < pre[e].blocks@.len() ==> post[e].blocks@[j] == #[trigger] pre[e].blocks@[j]);
        };
        assert forall|i: usize| i < blocks.len() implies #[trigger] covered(post, i) by {
            if i == idx {
                assert(post[e].blocks@[post[e].blocks@.len() - 1] == idx);
                assert(post[e].blocks@.contains(i));
            } else {
                assert(covered(pre, i));
                let f = choose|f: int|
                    0 <= f < pre.len() && (#[trigger] pre[f]).blocks@.contains(i);
                if f == e {
                    assert(pre[e].blocks@.contains(i));
                    let j = choose|j: int| 0 <= j < pre[e].blocks@.len() && pre[e].blocks@[j] == i;
                    assert(post[e].blocks@[j] == i);
                    assert(post[e].blocks@.contains(i));
                } else {
                    assert(post[f] == pre[f]);
                    assert(post[f].blocks@.contains(i));
                }
            }
        };
        lemma_count_sum_update(pre, post, e, 1);
    } else {
        let e = pre.len() as int;
        assert(post[e].blocks@.last() == idx);
        assert(post.last().blocks@ == seq![idx]);
        assert(entry_wf(post[e], blocks)) by {
            assert(post[e].blocks@[0] == idx);
        };
        assert forall|i: usize| i < blocks.len() implies #[trigger] covered(post, i) by {
            if i == idx {
                assert(post[e].blocks@[0] == i);
                assert(post[e].blocks@.contains(i));
            } else {
                assert(covered(pre, i));
                let f = choose|f: int|
                    0 <= f < pre.len() && (#[trigger] pre[f]).blocks@.contains(i);
                assert(post[f] == pre[f]);
                assert(post[f].blocks@.contains(i));
            }
        };
        assert(post =~= pre.push(post.last()));
        lemma_count_sum_push(pre, post.last());
    }
}

/// After taking the last index out of the entry carrying `name`, where that
/// index is the final block `n - 1`: the remaining index is consistent with
/// the first `n - 1` blocks, and no remaining entry mentions `n - 1`.
proof fn lemma_tasks_remove_wf(
    pre: Seq<TaskEntry>,
    post: Seq<TaskEntry>,
    blocks: Seq<TimeBlock>,
    name: Seq<char>,
)
    requires
        tasks_wf(pre, blocks),
        tasks_after_remove(pre, post, name),
        blocks.len() > 0,
        blocks[blocks.len() - 1].task_name@ == name,
        exists|e: int|
            0 <= e < pre.len() && (#[trigger] pre[e]).name@ == name && pre[e].blocks@.last()
                == blocks.len() - 1,
    ensures
        forall|e: int| 0 <= e < post.len() ==> entry_wf(#[trigger] post[e], blocks),
        forall|e1: int, e2: int|
            0 <= e1 < e2 < post.len() ==> (#[trigger] post[e1]).name@ != (
            #[trigger] post[e2]).name@,
        forall|i: usize|
            i < blocks.len() && i != (blocks.len() - 1) as usize ==> #[trigger] covered(post, i),
        count_sum(post) == blocks.len() - 1,
        forall|e: int, j: int|
            0 <= e < post.len() && 0 <= j < post[e].blocks@.len() ==> (#[trigger] post[e].blocks@[j])
                < blocks.len() - 1,
{
    let last_idx = (blocks.len() - 1) as usize;
    let e = choose|e: int| 0 <= e < pre.len() && (#[trigger] pre[e]).name@ == name;
    let et = choose|e: int|
        0 <= e < pre.len() && (#[trigger] pre[e]).name@ == name && pre[e].blocks@.last()
            == blocks.len() - 1;
    assert(e == et || pre[e].name@ == pre[et].name@);
    assert(e == et);
    // The final block's index appears nowhere but at the tail of entry `e`.
    assert(forall|f: int, j: int|
        0 <= f < pre.len() && 0 <= j < pre[f].blocks@.len() && (f != e || j != pre[f].blocks@.len()
            - 1) ==> (#[trigger] pre[f].blocks@[j]) != last_idx) by {
        assert forall|f: int, j: int|
            0 <= f < pre.len() && 0 <= j < pre[f].blocks@.len() && (f != e || j
                != pre[f].blocks@.len() - 1) implies (#[trigger] pre[f].blocks@[j]) != last_idx by {
            if pre[f].blocks@[j] == last_idx {
                assert(names_block(blocks, pre[f].blocks@[j], pre[f].name@));
                assert(pre[f].name@ == name);
                assert(f == e);
                assert(pre[e].blocks@[j] < pre[e].blocks@[pre[e].blocks@.len() - 1]);
            }
        };
    };
    if pre[e].blocks@.len() == 1 {
        assert(post == pre.remove(e));
        assert(forall|f: int|
            0 <= f < post.len() ==> #[trigger] post[f] == (if f < e {
                pre[f]
            } else {
                pre[f + 1]
            }));
        lemma_count_sum_remove(pre, e);
        assert forall|i: usize| i < blocks.len() && i != last_idx implies #[trigger] covered(
            post,
            i,
        ) by {
            assert(covered(pre, i));
            let f = choose|f: int| 0 <= f < pre.len() && (#[trigger] pre[f]).blocks@.contains(i);
            assert(f != e) by {
                if f == e {
                    assert(pre[e].blocks@.contains(i));
                    let j = choose|j: int|
                        0 <= j < pre[e].blocks@.len() && pre[e].blocks@[j] == i;
                    assert(j == 0);
                    assert(pre[e].blocks@.last() == i);
                }
            };
            if f < e {
                assert(post[f] == pre[f]);
                assert(post[f].blocks@.contains(i));
            } else {
                assert(post[f - 1] == pre[f]);
                assert(post[f - 1].blocks@.contains(i));
            }
        };
    } else {
        assert(post[e].blocks@.len() == pre[e].blocks@.len() - 1);
        lemma_count_sum_update(pre, post, e, -1);
        assert(entry_wf(post[e], blocks)) by {
            assert(forall|j: int|
                0 <= j < post[e].blocks@.len() ==> #[trigger] post[e].blocks@[j]
                    == pre[e].blocks@[j]);
        };
        assert forall|i: usize| i < blocks.len() && i != last_idx implies #[trigger] covered(
            post,
            i,
        ) by {
            assert(covered(pre, i));
            let f = choose|f: int| 0 <= f < pre.len() && (#[trigger] pre[f]).blocks@.contains(i);
            if f == e {
                assert(pre[e].blocks@.contains(i));
                let j = choose|j: int| 0 <= j < pre[e].blocks@.len() && pre[e].blocks@[j] == i;
                assert(j < pre[e].blocks@.len() - 1);
                assert(post[e].blocks@[j] == i);
                assert(post[e].blocks@.contains(i));
            } else {
                assert(post[f] == pre[f]);
                assert(post[f].blocks@.contains(i));
            }
        };
    }
}

/// Consistency of the task index does not depend on the blocks' intervals
/// or notes: renaming nothing, it survives any change that keeps the block
/// count and every task name.
proof fn lemma_tasks_wf_names_stable(
    tasks: Seq<TaskEntry>,
    blocks1: Seq<TimeBlock>,
    blocks2: Seq<TimeBlock>,
)
    requires
        blocks1.len() == blocks2.len(),
        forall|i: int|
            0 <= i < blocks1.len() ==> (#[trigger] blocks2[i]).task_name@
                == blocks1[i].task_name@,
        tasks_wf(tasks, blocks1),
    ensures
        tasks_wf(tasks, blocks2),
{
    assert(forall|e: int| 0 <= e < tasks.len() ==> entry_wf(#[trigger] tasks[e], blocks2)) by {
        assert forall|e: int| 0 <= e < tasks.len() implies entry_wf(#[trigger] tasks[e], blocks2) by {
            assert(entry_wf(tasks[e], blocks1));
            assert(forall|j: int|
                0 <= j < tasks[e].blocks@.len() ==> names_block(
                    blocks2,
                    #[trigger] tasks[e].blocks@[j],
                    tasks[e].name@,
                ));
        };
    };
}

/// Every index listed by a consistent task index is below the block count.
proof fn lemma_tasks_wf_indices_in_range(tasks: Seq<TaskEntry>, blocks: Seq<TimeBlock>)
    requires
        tasks_wf(tasks, blocks),
    ensures
        forall|e: int, j: int|
            0 <= e < tasks.len() && 0 <= j < tasks[e].blocks@.len() ==> (
            #[trigger] tasks[e].blocks@[j]) < blocks.len(),
{
    assert forall|e: int, j: int|
        0 <= e < tasks.len() && 0 <= j < tasks[e].blocks@.len() implies (
    #[trigger] tasks[e].blocks@[j]) < blocks.len() by {
        assert(entry_wf(tasks[e], blocks));
        assert(names_block(blocks, tasks[e].blocks@[j], tasks[e].name@));
    };
}

/// Sum of the lengths of the blocks picked out by `idxs`, an open block
/// counting as zero. The picks must be strictly ascending block indices,
/// which bounds the sum within `i64`.
#[verifier::rlimit(60)]
fn sum_indexed_secs(blocks: &Vec<TimeBlock>, idxs: &Vec<usize>) -> (r: i64)
    requires
        blocks@.len() <= MAX_BLOCKS,
        forall|i: int| 0 <= i < blocks@.len() ==> (#[trigger] blocks@[i]).wf(),
        forall|j: int| 0 <= j < idxs@.len() ==> (#[trigger] idxs@[j]) < blocks@.len(),
        forall|j: int, k: int| 0 <= j < k < idxs@.len() ==> idxs@[j] < idxs@[k],
    ensures
        r == idx_sum(blocks@, idxs@),
{
    proof {
        lemma_ascending_len_bound(idxs@, blocks@.len() as int);
    }
    let n: usize = idxs.len();
    let mut sum: i64 = 0;
    let mut k: usize = 0;
    while k < n
        invariant
            n == idxs@.len(),
            n <= MAX_BLOCKS,
            forall|i: int| 0 <= i < blocks@.len() ==> (#[trigger] blocks@[i]).wf(),
            forall|j: int| 0 <= j < idxs@.len() ==> (#[trigger] idxs@[j]) < blocks@.len(),
            0 <= k <= n,
            sum == idx_sum(blocks@, idxs@.take(k as int)),
            -((k as int) * (2 * MAX_TIMESTAMP_SECS)) <= sum <= (k as int) * (2
                * MAX_TIMESTAMP_SECS),
        decreases n - k,
    {
        let idx: usize = idxs[k];
        let l: i64 = match blocks[idx].get_length_secs() {
            Some(l) => l,
            None => 0,
        };
        proof {
            assert(blocks@[idx as int].wf());
            assert(l == blocks@[idx as int].spec_len_or_zero());
            assert(-(2 * MAX_TIMESTAMP_SECS) <= l <= 2 * MAX_TIMESTAMP_SECS);
            assert(idxs@.take(k + 1).drop_last() =~= idxs@.take(k as int));
            assert(idxs@.take(k + 1).last() == idxs@[k as int]);
            let c: int = 2 * MAX_TIMESTAMP_SECS;
            let ki: int = k as int;
            assert((ki + 1) * c == ki * c + c) by (nonlinear_arith);
            assert((ki + 1) * c <= 100_000 * c) by (nonlinear_arith)
                requires
                    0 <= ki,
                    ki + 1 <= 100_000,
                    c >= 0,
            ;
            assert(100_000 * c < 0x7fff_ffff_ffff_ffff);
        }
        sum = sum + l;
        k += 1;
    }
    proof {
        assert(idxs@.take(n as int) =~= idxs@);
    }
    sum
}

/// Some block carries the task name `name`.
pub open spec fn block_named(blocks: Seq<TimeBlock>, name: Seq<char>) -> bool {
    exists|i: int| 0 <= i < blocks.len() && (#[trigger] blocks[i]).task_name@ == name
}

/// Every name in the first-occurrence task list names some block.
proof fn lemma_chrono_are_block_names(blocks: Seq<TimeBlock>)
    ensures
        forall|j: int|
            0 <= j < chrono_tasks(blocks).len() ==> block_named(
                blocks,
                #[trigger] chrono_tasks(blocks)[j],
            ),
    decreases blocks.len(),
{
    if blocks.len() > 0 {
        let prev = chrono_tasks(blocks.drop_last());
        lemma_chrono_are_block_names(blocks.drop_last());
        assert forall|j: int|
            0 <= j < chrono_tasks(blocks).len() implies block_named(
            blocks,
            #[trigger] chrono_tasks(blocks)[j],
        ) by {
            if j < prev.len() {
                assert(block_named(blocks.drop_last(), prev[j]));
                let i = choose|i: int|
                    0 <= i < blocks.drop_last().len() && (
                    #[trigger] blocks.drop_last()[i]).task_name@ == prev[j];
                assert(blocks[i].task_name@ == prev[j]);
            } else {
                assert(chrono_tasks(blocks)[j] == blocks.last().task_name@);
                assert(blocks[blocks.len() - 1].task_name@ == chrono_tasks(blocks)[j]);
            }
        };
    }
}

/// Finds the per-task totals entry carrying `name`, if any.
fn find_summary(summaries: &Vec<(String, (i64, u64))>, name: &String) -> (r: Option<usize>)
    ensures
        match r {
            Some(f) => f < summaries@.len() && summaries@[f as int].0@ == name@,
            None => forall|f: int|
                0 <= f < summaries@.len() ==> (#[trigger] summaries@[f]).0@ != name@,
        },
{
    let n: usize = summaries.len();
    let mut f: usize = 0;
    while f < n
        invariant
            n == summaries@.len(),
            0 <= f <= n,
            forall|g: int| 0 <= g < f ==> (#[trigger] summaries@[g]).0@ != name@,
        decreases n - f,
    {
        if summaries[f].0 == *name {
            return Some(f);
        }
        f += 1;
    }
    None
}

/// Whether some element of `v` has the same characters as `name`.
fn vec_contains_string(v: &Vec<String>, name: &String) -> (b: bool)
    ensures
        b == v@.map_values(|s: String| s@).contains(name@),
{
    let n: usize = v.len();
    let mut j: usize = 0;
    while j < n
        invariant
            n == v@.len(),
            0 <= j <= n,
            forall|k: int| 0 <= k < j ==> (#[trigger] v@[k])@ != name@,
        decreases n - j,
    {
        if v[j] == *name {
            proof {
                assert(v@.map_values(|s: String| s@)[j as int] == name@);
            }
            return true;
        }
        j += 1;
    }
    proof {
        assert(forall|k: int|
            0 <= k < v@.len() ==> v@.map_values(|s: String| s@)[k] == (#[trigger] v@[k])@);
    }
    false
}

/// Finds the entry carrying `name`, if any.
fn find_entry(tasks: &Vec<TaskEntry>, name: &String) -> (r: Option<usize>)
    ensures
        match r {
            Some(e) => e < tasks@.len() && tasks@[e as int].name@ == name@,
            None => forall|f: int| 0 <= f < tasks@.len() ==> (#[trigger] tasks@[f]).name@ != name@,
        },
{
    let n: usize = tasks.len();
    let mut e: usize = 0;
    while e < n
        invariant
            n == tasks@.len(),
            0 <= e <= n,
            forall|f: int| 0 <= f < e ==> (#[trigger] tasks@[f]).name@ != name@,
        decreases n - e,
    {
        if tasks[e].name == *name {
            return Some(e);
        }
        e += 1;
    }
    None
}

/// Records block `idx` named `name` in the index: the entry already carrying
/// `name` gains `idx`, or a fresh entry is appended.
fn push_task_index(tasks: &mut Vec<TaskEntry>, name: &String, idx: usize)
    requires
        forall|e1: int, e2: int|
            0 <= e1 < e2 < old(tasks)@.len() ==> (#[trigger] old(tasks)@[e1]).name@ != (
            #[trigger] old(tasks)@[e2]).name@,
    ensures
        tasks_after_add(old(tasks)@, final(tasks)@, name@, idx),
{
    let ghost pre = tasks@;
    match find_entry(tasks, name) {
        Some(e) => {
            tasks[e].blocks.push(idx);
            proof {
                assert(pre[e as int].name@ == name@);
                let w = choose|w: int| 0 <= w < pre.len() && (#[trigger] pre[w]).name@ == name@;
                assert(w == e);
                assert(tasks@[e as int].name == pre[e as int].name);
                assert(tasks@[e as int].blocks@ == pre[e as int].blocks@.push(idx));
                assert(forall|f: int|
                    0 <= f < pre.len() && f != e ==> tasks@[f] == #[trigger] pre[f]);
            }
        },
        None => {
            let mut first: Vec<usize> = Vec::new();
            first.push(idx);
            tasks.push(TaskEntry { name: name.clone(), blocks: first });
            proof {
                assert(!(exists|w: int| 0 <= w < pre.len() && (#[trigger] pre[w]).name@ == name@));
                assert(tasks@.last().blocks@ =~= seq![idx]);
            }
        },
    }
}

/// Takes the index at the tail of the entry carrying `name` back out,
/// dropping the entry when it held only that one.
fn remove_last_index(tasks: &mut Vec<TaskEntry>, name: &String)
    requires
        forall|e1: int, e2: int|
            0 <= e1 < e2 < old(tasks)@.len() ==> (#[trigger] old(tasks)@[e1]).name@ != (
            #[trigger] old(tasks)@[e2]).name@,
        exists|e: int| 0 <= e < old(tasks)@.len() && (#[trigger] old(tasks)@[e]).name@ == name@,
        forall|e: int| 0 <= e < old(tasks)@.len() ==> (#[trigger] old(tasks)@[e]).blocks@.len() > 0,
    ensures
        tasks_after_remove(old(tasks)@, final(tasks)@, name@),
{
    let ghost pre = tasks@;
    match find_entry(tasks, name) {
        Some(e) => {
            proof {
                assert(pre[e as int].name@ == name@);
                let w = choose|w: int| 0 <= w < pre.len() && (#[trigger] pre[w]).name@ == name@;
                assert(w == e);
            }
            if tasks[e].blocks.len() == 1 {
                tasks.remove(e);
                proof {
                    assert(tasks@ == pre.remove(e as int));
                }
            } else {
                tasks[e].blocks.pop();
                proof {
                    assert(tasks@[e as int].blocks@ =~= pre[e as int].blocks@.drop_last());
                    assert(tasks@[e as int].name == pre[e as int].name);
                    assert(forall|f: int|
                        0 <= f < pre.len() && f != e ==> tasks@[f] == #[trigger] pre[f]);
                }
            }
        },
        None => {
            proof {
                let w = choose|w: int| 0 <= w < pre.len() && (#[trigger] pre[w]).name@ == name@;
                assert(pre[w].name@ == name@);
                assert(false);
            }
        },
    }
}

/// The index count is never negative.
pub proof fn lemma_count_sum_nonneg(tasks: Seq<TaskEntry>)
    ensures
        count_sum(tasks) >= 0,
    decreases tasks.len(),
{
    if tasks.len() > 0 {
        lemma_count_sum_nonneg(tasks.drop_last());
    }
}

/// Each task-index entry's block count is at most the total index count.
pub proof fn lemma_entry_count_le(tasks: Seq<TaskEntry>, e: int)
    requires
        0 <= e < tasks.len(),
    ensures
        tasks[e].blocks@.len() <= count_sum(tasks),
    decreases tasks.len(),
{
    if e == tasks.len() - 1 {
        lemma_count_sum_nonneg(tasks.drop_last());
    } else {
        lemma_entry_count_le(tasks.drop_last(), e);
    }
}

/// A prefix of the index counts never exceeds the whole.
pub proof fn lemma_count_sum_take_le(tasks: Seq<TaskEntry>, k: int)
    requires
        0 <= k <= tasks.len(),
    ensures
        0 <= count_sum(tasks.take(k)) <= count_sum(tasks),
    decreases tasks.len(),
{
    lemma_count_sum_nonneg(tasks.take(k));
    if k < tasks.len() {
        assert(tasks.drop_last().take(k) =~= tasks.take(k));
        lemma_count_sum_take_le(tasks.drop_last(), k);
    } else {
        assert(tasks.take(k) =~= tasks);
    }
}

/// Every block has a nonnegative length (no end precedes its start).
pub open spec fn blocks_nonneg(blocks: Seq<TimeBlock>) -> bool {
    forall|i: int| 0 <= i < blocks.len() ==> (#[trigger] blocks[i]).spec_len_or_zero() >= 0
}

proof fn lemma_prefix_telescopes(d: Day, k: int)
    requires
        d.wf(),
        1 <= k <= d.timeblocks@.len(),
        k == d.timeblocks@.len() ==> d.last_block().interval.spec_has_end(),
    ensures
        prefix_sum(d.timeblocks@, k) == (d.timeblocks@[k - 1].interval.end->0).0
            - d.overall_interval.start.0,
    decreases k,
{
    assert(d.timeblocks@[k - 1].interval.spec_has_end()) by {
        if k < d.timeblocks@.len() {
            assert(d.timeblocks@[k - 1].interval.end is Some);
        }
    };
    if k == 1 {
        assert(prefix_sum(d.timeblocks@, 0) == 0);
        assert(d.timeblocks@[0].interval.start == d.overall_interval.start);
    } else {
        lemma_prefix_telescopes(d, k - 1);
        assert(d.timeblocks@[k - 2].interval.end == Some(d.timeblocks@[k - 1].interval.start));
    }
}

/// Law: an ended day's blocks tile it, so the day's length is the sum of
/// all its block lengths.
pub proof fn lemma_day_len_is_block_sum(d: Day)
    requires
        d.wf(),
        d.spec_has_ended(),
    ensures
        d.spec_day_len_secs() == prefix_sum(d.timeblocks@, d.timeblocks@.len() as int),
{
    lemma_prefix_telescopes(d, d.timeblocks@.len() as int);
}

proof fn lemma_prefix_sum_mono(blocks: Seq<TimeBlock>, k1: int, k2: int)
    requires
        blocks_nonneg(blocks),
        0 <= k1 <= k2 <= blocks.len(),
    ensures
        prefix_sum(blocks, k1) <= prefix_sum(blocks, k2),
    decreases k2 - k1,
{
    if k1 < k2 {
        lemma_prefix_sum_mono(blocks, k1, k2 - 1);
    }
}

proof fn lemma_idx_sum_le_prefix(blocks: Seq<TimeBlock>, idxs: Seq<usize>, k: int)
    requires
        blocks_nonneg(blocks),
        forall|j: int, l: int| 0 <= j < l < idxs.len() ==> idxs[j] < idxs[l],
        forall|j: int| 0 <= j < idxs.len() ==> (#[trigger] idxs[j]) < k,
        0 <= k <= blocks.len(),
    ensures
        0 <= idx_sum(blocks, idxs) <= prefix_sum(blocks, k),
    decreases idxs.len(),
{
    if idxs.len() == 0 {
        lemma_prefix_sum_mono(blocks, 0, k);
    } else {
        let j = idxs.last() as int;
        let prefix = idxs.drop_last();
        assert(forall|l: int| 0 <= l < prefix.len() ==> (#[trigger] prefix[l]) == idxs[l]);
        assert(forall|l: int| 0 <= l < prefix.len() ==> (#[trigger] prefix[l]) < j);
        lemma_idx_sum_le_prefix(blocks, prefix, j);
        assert(prefix_sum(blocks, j + 1) == prefix_sum(blocks, j) + blocks[j].spec_len_or_zero());
        lemma_prefix_sum_mono(blocks, j + 1, k);
    }
}

/// Law: on an ended day whose blocks all have nonnegative lengths, break
/// time lies between zero and the day's length, so the time worked does too.
pub proof fn lemma_break_time_bounds(d: Day)
    requires
        d.wf(),
        d.spec_has_ended(),
        blocks_nonneg(d.timeblocks@),
    ensures
        0 <= d.spec_break_secs() <= d.spec_day_len_secs(),
        0 <= d.spec_time_done_secs() <= d.spec_day_len_secs(),
{
    lemma_day_len_is_block_sum(d);
    lemma_idx_sum_le_prefix(d.timeblocks@, d.breaks@, d.timeblocks@.len() as int);
}

/// On an ended day whose blocks all have nonnegative lengths, each task's
/// total time lies between zero and the day's length.
pub proof fn lemma_task_time_bounds(d: Day, e: int)
    requires
        d.wf(),
        d.spec_has_ended(),
        blocks_nonneg(d.timeblocks@),
        0 <= e < d.tasks@.len(),
    ensures
        0 <= idx_sum(d.timeblocks@, d.tasks@[e].blocks@) <= d.spec_day_len_secs(),
{
    lemma_day_len_is_block_sum(d);
    assert(entry_wf(d.tasks@[e], d.timeblocks@));
    assert(forall|j: int|
        0 <= j < d.tasks@[e].blocks@.len() ==> names_block(
            d.timeblocks@,
            #[trigger] d.tasks@[e].blocks@[j],
            d.tasks@[e].name@,
        ));
    lemma_idx_sum_le_prefix(d.timeblocks@, d.tasks@[e].blocks@, d.timeblocks@.len() as int);
}

/// Sum of the per-task block counts in a per-task totals report.
pub open spec fn block_counts_total(r: Seq<(String, (i64, u64))>) -> int
    decreases r.len(),
{
    if r.len() == 0 {
        0
    } else {
        block_counts_total(r.drop_last()) + r.last().1.1
    }
}

proof fn lemma_counts_match(r: Seq<(String, (i64, u64))>, tasks: Seq<TaskEntry>)
    requires
        r.len() == tasks.len(),
        forall|e: int| 0 <= e < r.len() ==> (#[trigger] r[e]).1.1 == tasks[e].blocks@.len(),
    ensures
        block_counts_total(r) == count_sum(tasks),
    decreases r.len(),
{
    if r.len() > 0 {
        lemma_counts_match(r.drop_last(), tasks.drop_last());
    }
}

/// Law: once a day has ended, the time worked is exactly the day's total
/// length minus its total break time.
pub proof fn lemma_time_worked_decomposition(d: Day)
    requires
        d.wf(),
        d.spec_has_ended(),
    ensures
        d.spec_time_done_secs() == d.spec_day_len_secs() - d.spec_break_secs(),
{
}

/// Law: starting a break and then immediately ending the day leaves the day
/// off break, with the break block closed at the very instant the day ends.
pub proof fn lemma_break_then_end(
    d0: Day,
    d1: Day,
    d2: Day,
    break_name: Seq<char>,
    at1: Dt,
    at2: Dt,
    lock: bool,
)
    requires
        d0.wf(),
        !d0.on_break,
        !d0.spec_has_ended(),
        start_break_rel(d0, d1, break_name, at1),
        end_day_rel(d1, d2, at2, lock),
    ensures
        !d2.on_break,
        d2.overall_interval.end == Some(at2),
        d2.breaks@.len() > 0,
        d2.breaks@.last() == d2.timeblocks@.len() - 1,
        d2.timeblocks@[d2.breaks@.last() as int].task_name@ == break_name,
        d2.timeblocks@[d2.breaks@.last() as int].interval.end == d2.overall_interval.end,
{
    let n0 = d0.timeblocks@.len() as int;
    assert(d1.timeblocks@.len() == n0 + 1);
    assert(d1.breaks@.last() == n0 as usize);
    assert(d2.breaks@ == d1.breaks@);
    assert(d2.timeblocks@[n0].task_name == d1.timeblocks@[n0].task_name);
    assert(d2.timeblocks@[n0].interval.end == Some(at2));
}

/// Law: ending a day with the lock flag locks the target to the time
/// actually worked, so the re-read `time left` of the ended day is zero.
pub proof fn lemma_locked_end_leaves_nothing_owed(pre: Day, post: Day, at: Dt)
    requires
        pre.wf(),
        !pre.spec_has_ended(),
        valid_ts(at.0),
        spec_worked_at(pre, at) >= 0,
        end_day_rel(pre, post, at, true),
    ensures
        post.spec_time_to_do_secs() == post.spec_time_done_secs(),
        post.spec_time_left_secs() == 0,
{
    let n = pre.timeblocks@.len() as int;
    let closed = pre.timeblocks@.update(n - 1, close_block_at(pre.timeblocks@.last(), at));
    assert(post.timeblocks@[n - 1] == close_block_at(pre.timeblocks@.last(), at));
    assert(post.timeblocks@ =~= closed);
    assert(post.spec_time_done_secs() == spec_worked_at(pre, at));
}

/// Law: the block counts reported by `get_task_times_secs_and_num_blocks`
/// sum to the total number of blocks; leaving the break blocks out, they sum
/// to the total number of blocks less the number of break blocks.
pub proof fn lemma_per_task_counts(d: Day, r: Seq<(String, (i64, u64))>)
    requires
        d.wf(),
        r.len() == d.tasks@.len(),
        forall|e: int| 0 <= e < r.len() ==> (#[trigger] r[e]).1.1 == d.tasks@[e].blocks@.len(),
    ensures
        block_counts_total(r) == d.timeblocks@.len(),
        block_counts_total(r) - d.breaks@.len() == d.timeblocks@.len() - d.breaks@.len(),
{
    lemma_counts_match(r, d.tasks@);
}

/// A strictly ascending sequence of indices below `n` has at most `n`
/// elements.
pub proof fn lemma_ascending_len_bound(idxs: Seq<usize>, n: int)
    requires
        forall|j: int, k: int| 0 <= j < k < idxs.len() ==> idxs[j] < idxs[k],
        forall|j: int| 0 <= j < idxs.len() ==> (#[trigger] idxs[j]) < n,
        n >= 0,
    ensures
        idxs.len() <= n,
    decreases idxs.len(),
{
    if idxs.len() > 0 {
        let prefix = idxs.drop_last();
        assert(forall|j: int| 0 <= j < prefix.len() ==> (#[trigger] prefix[j]) == idxs[j]);
        assert(forall|j: int|
            0 <= j < prefix.len() ==> (#[trigger] prefix[j]) < idxs[idxs.len() - 1]);
        lemma_ascending_len_bound(prefix, idxs.last() as int);
    }
}

} // verus!
