//! Building blocks of a `Day`: timestamped notes and named task blocks.

use vstd::prelude::*;

use crate::interval::{Dt, Interval, IntervalError, div_trunc};

verus! {

/// A freeform message attached to the block that was open when it was taken.
#[derive(Clone, Debug)]
pub struct Note {
    pub time: Dt,
    pub msg: String,
}

impl Note {
    pub fn new(time: Dt, msg: &String) -> (r: Note)
        ensures
            r.time == time,
            r.msg@ == msg@,
    {
        Note { time, msg: msg.clone() }
    }
}

/// A contiguous span of time attributed to one named task. Breaks are
/// blocks too, flagged by the owning `Day`'s break-index set.
#[derive(Clone, Debug)]
pub struct TimeBlock {
    pub task_name: String,
    pub interval: Interval,
    pub notes: Vec<Note>,
}

impl TimeBlock {
    /// The block's endpoints are valid timestamps.
    pub open spec fn wf(self) -> bool {
        self.interval.wf()
    }

    /// A block is open while its interval has no end.
    pub open spec fn spec_is_open(self) -> bool {
        !self.interval.spec_has_end()
    }

    /// Length in seconds when closed, and zero while still open: the
    /// floor the per-task totals rely on.
    pub open spec fn spec_len_or_zero(self) -> int {
        if self.interval.spec_has_end() {
            self.interval.spec_len_secs()
        } else {
            0
        }
    }

    pub fn new(task_name: String, start: Dt) -> (r: TimeBlock)
        ensures
            r.task_name == task_name,
            r.interval.start == start,
            r.interval.end is None,
            r.notes@ =~= Seq::<Note>::empty(),
    {
        TimeBlock { task_name, interval: Interval::new(start), notes: Vec::new() }
    }

    pub fn get_task_name(&self) -> (r: String)
        ensures
            r@ == self.task_name@,
    {
        self.task_name.clone()
    }

    /// Closes the block at `end`; an already closed block stays unchanged.
    pub fn end_at(&mut self, end: Dt) -> (r: Result<(), IntervalError>)
        ensures
            old(self).interval.end is None ==> r is Ok
                && final(self).interval.end == Some(end),
            old(self).interval.end is Some ==> r is Err && *final(self) == *old(self),
            final(self).interval.start == old(self).interval.start,
            final(self).task_name == old(self).task_name,
            final(self).notes == old(self).notes,
    {
        self.interval.end_at(end)
    }

    /// Sets the block's end unconditionally; the `Day` transitions use this
    /// where re-closing at the same instant is part of the protocol.
    pub(crate) fn close_at(&mut self, end: Dt)
        ensures
            final(self).interval.start == old(self).interval.start,
            final(self).interval.end == Some(end),
            final(self).task_name == old(self).task_name,
            final(self).notes == old(self).notes,
    {
        self.interval.close_at(end);
    }

    /// Renames the block.
    pub fn update_task_name(&mut self, new_task: String)
        ensures
            final(self).task_name == new_task,
            final(self).interval == old(self).interval,
            final(self).notes == old(self).notes,
    {
        self.task_name = new_task;
    }

    pub fn has_end(&self) -> (r: bool)
        ensures
            r == self.interval.spec_has_end(),
    {
        self.interval.has_end()
    }

    pub fn get_start(&self) -> (r: Dt)
        ensures
            r == self.interval.start,
    {
        self.interval.get_start()
    }

    pub fn get_end(&self) -> (r: Option<Dt>)
        ensures
            r == self.interval.end,
    {
        self.interval.get_end()
    }

    pub fn get_length_secs(&self) -> (r: Option<i64>)
        requires
            self.wf(),
        ensures
            self.interval.spec_has_end() ==> r == Some(self.interval.spec_len_secs() as i64)
                && r->0 == self.spec_len_or_zero(),
            !self.interval.spec_has_end() ==> r is None,
    {
        self.interval.get_length_secs()
    }

    pub fn get_length_mins(&self) -> (r: Option<i64>)
        requires
            self.wf(),
        ensures
            self.interval.spec_has_end() ==> r == Some(
                div_trunc(self.interval.spec_len_secs() as i64, 60),
            ),
            !self.interval.spec_has_end() ==> r is None,
    {
        self.interval.get_length_mins()
    }

    /// Appends a note; notes are append-only.
    pub fn add_note(&mut self, time: Dt, msg: &String)
        ensures
            final(self).notes@.len() == old(self).notes@.len() + 1,
            final(self).notes@.last().time == time,
            final(self).notes@.last().msg@ == msg@,
            final(self).notes@.subrange(0, old(self).notes@.len() as int) =~= old(self).notes@,
            final(self).task_name == old(self).task_name,
            final(self).interval == old(self).interval,
    {
        self.notes.push(Note::new(time, msg));
    }
}

} // verus!
