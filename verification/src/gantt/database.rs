//! Gantt chart database.
use vstd::prelude::*;

use crate::diagram::DiagramError;

verus! {

/// Placeholder node type of the Gantt database.
#[derive(Debug)]
pub struct GtNode {
    pub id: String,
    pub label: String,
}

/// Placeholder edge type of the Gantt database.
#[derive(Debug)]
pub struct GtEdge {
    pub from: String,
    pub to: String,
}

/// Task status.
#[derive(Debug, Clone, Copy, PartialEq, Eq)]
pub enum TaskStatus {
    Active,
    Done,
    Crit,
    Normal,
    Milestone,
}

/// A single Gantt task.
#[derive(Debug)]
pub struct GanttTask {
    pub label: String,
    pub id: String,
    pub status: TaskStatus,
    /// Start day offset from 2020-01-01.
    pub start_day: i64,
    /// Duration in days.
    pub duration_days: i64,
}

/// A section containing tasks.
#[derive(Debug)]
pub struct GanttSection {
    pub name: String,
    pub tasks: Vec<GanttTask>,
}

/// Gantt chart database.
#[derive(Debug)]
pub struct GanttDatabase {
    pub title: Option<String>,
    pub date_format: String,
    pub sections: Vec<GanttSection>,
    /// Overall time range: min/max day offsets.
    pub min_day: i64,
    pub max_day: i64,
}

/// `(i, j)` names task `j` of section `i`.
pub open spec fn is_task(secs: Seq<GanttSection>, i: int, j: int) -> bool {
    0 <= i < secs.len() && 0 <= j < secs[i].tasks@.len()
}

pub open spec fn task_at(secs: Seq<GanttSection>, i: int, j: int) -> GanttTask {
    secs[i].tasks@[j]
}

/// Day after the last day of a task.
pub open spec fn task_end(t: GanttTask) -> int {
    t.start_day + t.duration_days
}

/// Every task ends on a day an `i64` can hold.
pub open spec fn ends_fit(secs: Seq<GanttSection>) -> bool {
    forall|i: int, j: int|
        is_task(secs, i, j) ==> i64::MIN <= #[trigger] task_end(task_at(secs, i, j)) <= i64::MAX
}

/// Some task starts before the last day an `i64` can hold.
pub open spec fn has_early_task(secs: Seq<GanttSection>) -> bool {
    exists|i: int, j: int| is_task(secs, i, j) && task_at(secs, i, j).start_day < i64::MAX
}

/// `lo` and `hi` are the first start and the last end of the tasks, or 0 and
/// 30 when no task starts before `i64::MAX` (in particular, when there is no
/// task).
pub open spec fn is_range_of(secs: Seq<GanttSection>, lo: int, hi: int) -> bool {
    if has_early_task(secs) {
        &&& forall|i: int, j: int|
            is_task(secs, i, j) ==> lo <= #[trigger] task_at(secs, i, j).start_day
        &&& forall|i: int, j: int|
            is_task(secs, i, j) ==> #[trigger] task_end(task_at(secs, i, j)) <= hi
        &&& exists|i: int, j: int| is_task(secs, i, j) && task_at(secs, i, j).start_day == lo
        &&& exists|i: int, j: int| is_task(secs, i, j) && task_end(task_at(secs, i, j)) == hi
    } else {
        lo == 0 && hi == 30
    }
}

impl GanttDatabase {
    /// An empty chart: no title, no date format, no sections, range 0..0.
    pub fn new() -> (db: GanttDatabase)
        ensures
            db.title is None,
            db.date_format@.len() == 0,
            db.sections@.len() == 0,
            db.min_day == 0,
            db.max_day == 0,
    {
        GanttDatabase {
            title: None,
            date_format: String::new(),
            sections: Vec::new(),
            min_day: 0,
            max_day: 0,
        }
    }

    /// Recomputes `min_day` and `max_day` from all tasks: the first start and
    /// the last end, or 0 and 30 when there are no tasks (or all start on
    /// `i64::MAX`).
    pub fn recompute_range(&mut self)
        requires
            ends_fit(old(self).sections@),
        ensures
            final(self).title == old(self).title,
            final(self).date_format == old(self).date_format,
            final(self).sections == old(self).sections,
            is_range_of(final(self).sections@, final(self).min_day as int, final(self).max_day as int),
    {
        let ghost secs = self.sections@;
        let mut lo: i64 = i64::MAX;
        let mut hi: i64 = i64::MIN;
        let mut seen = false;
        let mut i: usize = 0;
        while i < self.sections.len()
            invariant
                secs == self.sections@,
                ends_fit(secs),
                i <= secs.len(),
                seen <==> exists|a: int, b: int| 0 <= a < i && is_task(secs, a, b),
                forall|a: int, b: int|
                    0 <= a < i && is_task(secs, a, b) ==> lo <= #[trigger] task_at(secs, a, b).start_day,
                forall|a: int, b: int|
                    0 <= a < i && is_task(secs, a, b) ==> #[trigger] task_end(task_at(secs, a, b)) <= hi,
                seen ==> exists|a: int, b: int|
                    0 <= a < i && is_task(secs, a, b) && task_at(secs, a, b).start_day == lo,
                seen ==> exists|a: int, b: int|
                    0 <= a < i && is_task(secs, a, b) && task_end(task_at(secs, a, b)) == hi,
            decreases secs.len() - i,
        {
            let tasks = &self.sections[i].tasks;
            let mut j: usize = 0;
            while j < tasks.len()
                invariant
                    secs == self.sections@,
                    ends_fit(secs),
                    i < secs.len(),
                    tasks@ == secs[i as int].tasks@,
                    j <= tasks.len(),
                    seen <==> exists|a: int, b: int|
                        (0 <= a < i || (a == i && 0 <= b < j)) && is_task(secs, a, b),
                    forall|a: int, b: int|
                        (0 <= a < i || (a == i && 0 <= b < j)) && is_task(secs, a, b) ==> lo
                            <= #[trigger] task_at(secs, a, b).start_day,
                    forall|a: int, b: int|
                        (0 <= a < i || (a == i && 0 <= b < j)) && is_task(secs, a, b)
                            ==> #[trigger] task_end(task_at(secs, a, b)) <= hi,
                    seen ==> exists|a: int, b: int|
                        (0 <= a < i || (a == i && 0 <= b < j)) && is_task(secs, a, b) && task_at(
                            secs,
                            a,
                            b,
                        ).start_day == lo,
                    seen ==> exists|a: int, b: int|
                        (0 <= a < i || (a == i && 0 <= b < j)) && is_task(secs, a, b) && task_end(
                            task_at(secs, a, b),
                        ) == hi,
                decreases tasks.len() - j,
            {
                let t = &tasks[j];
                assert(task_at(secs, i as int, j as int) == *t);
                assert(i64::MIN <= task_end(task_at(secs, i as int, j as int)) <= i64::MAX);
                let end = t.start_day + t.duration_days;
                if !seen || t.start_day < lo {
                    lo = t.start_day;
                }
                if !seen || end > hi {
                    hi = end;
                }
                proof {
                    assert(is_task(secs, i as int, j as int));
                    assert((0 <= i < i || (i == i && 0 <= j < j + 1)) && is_task(
                        secs,
                        i as int,
                        j as int,
                    ));
                }
                seen = true;
                j = j + 1;
            }
            i = i + 1;
        }
        if !seen || lo == i64::MAX {
            lo = 0;
            hi = 30;
        }
        self.min_day = lo;
        self.max_day = hi;
    }

    /// Placeholder: the Gantt database keeps no nodes.
    pub fn add_node(&mut self, _n: GtNode) -> (r: Result<(), DiagramError>)
        ensures
            r is Ok,
            *final(self) == *old(self),
    {
        Ok(())
    }

    /// Placeholder: the Gantt database keeps no edges.
    pub fn add_edge(&mut self, _e: GtEdge) -> (r: Result<(), DiagramError>)
        ensures
            r is Ok,
            *final(self) == *old(self),
    {
        Ok(())
    }

    /// Placeholder: the Gantt database keeps no nodes.
    pub fn get_node(&self, _id: &str) -> (r: Option<&GtNode>)
        ensures
            r is None,
    {
        None
    }

    /// Placeholder: the Gantt database keeps no nodes.
    pub fn node_count(&self) -> (r: usize)
        ensures
            r == 0,
    {
        0
    }

    /// Placeholder: the Gantt database keeps no edges.
    pub fn edge_count(&self) -> (r: usize)
        ensures
            r == 0,
    {
        0
    }

    /// Placeholder: the Gantt database keeps no nodes.
    pub fn nodes(&self) -> (r: Vec<&GtNode>)
        ensures
            r@.len() == 0,
    {
        Vec::new()
    }

    /// Placeholder: the Gantt database keeps no edges.
    pub fn edges(&self) -> (r: Vec<&GtEdge>)
        ensures
            r@.len() == 0,
    {
        Vec::new()
    }

    /// Removes the title and every section and resets the range to 0..0; the
    /// date format stays.
    pub fn clear(&mut self)
        ensures
            final(self).title is None,
            final(self).date_format == old(self).date_format,
            final(self).sections@.len() == 0,
            final(self).min_day == 0,
            final(self).max_day == 0,
    {
        self.title = None;
        self.sections.clear();
        self.min_day = 0;
        self.max_day = 0;
    }
}

impl Default for GanttDatabase {
    fn default() -> (db: GanttDatabase)
        ensures
            db.title is None,
            db.date_format@.len() == 0,
            db.sections@.len() == 0,
            db.min_day == 0,
            db.max_day == 0,
    {
        GanttDatabase::new()
    }
}

} // verus!
