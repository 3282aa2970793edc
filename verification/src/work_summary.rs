//! Free-text summaries of a piece of work, attached to a `Day`.

use vstd::prelude::*;

verus! {

/// One recorded piece of work: where it happened and what was done.
#[derive(Clone, Debug)]
pub struct WorkSummary {
    pub category: String,
    pub project: String,
    pub task: String,
    pub summary: String,
}

impl WorkSummary {
    pub fn new(category: String, project: String, task: String, summary: String) -> (r:
        WorkSummary)
        ensures
            r.category == category,
            r.project == project,
            r.task == task,
            r.summary == summary,
    {
        WorkSummary { category, project, task, summary }
    }
}

} // verus!
