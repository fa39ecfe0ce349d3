//! Progress of a set of tasks, each known by a unique identifier.

use vstd::prelude::*;
use crate::support::{current_time_millis, same_text};

verus! {

/// Where a task stands.
#[derive(Debug, Clone, Copy, PartialEq, Eq, Structural)]
pub enum TaskStatus {
    Queued,
    Running,
    Completed,
    Failed,
    Cancelled,
}

/// A task: identifier, name, status, progress in percent, start and end times in
/// milliseconds since the epoch, details and priority.
#[derive(Debug)]
pub struct TaskInfo {
    pub id: String,
    pub name: String,
    pub status: TaskStatus,
    pub progress_percentage: u8,
    pub start_time: Option<u64>,
    pub end_time: Option<u64>,
    pub details: Option<String>,
    pub priority: u8,
}

/// A finished status: completed, failed or cancelled.
pub open spec fn is_final_status(s: TaskStatus) -> bool {
    s == TaskStatus::Completed || s == TaskStatus::Failed || s == TaskStatus::Cancelled
}

impl TaskInfo {
    /// A queued task with no progress, times, details or priority.
    pub fn new(id: String, name: String) -> (t: TaskInfo)
        ensures
            t.id == id,
            t.name == name,
            t.status == TaskStatus::Queued,
            t.progress_percentage == 0,
            t.start_time is None,
            t.end_time is None,
            t.details is None,
            t.priority == 0,
    {
        TaskInfo {
            id,
            name,
            status: TaskStatus::Queued,
            progress_percentage: 0,
            start_time: None,
            end_time: None,
            details: None,
            priority: 0,
        }
    }

    /// A field-by-field copy.
    pub fn duplicate(&self) -> (t: TaskInfo)
        ensures
            t == *self,
    {
        TaskInfo {
            id: self.id.clone(),
            name: self.name.clone(),
            status: self.status,
            progress_percentage: self.progress_percentage,
            start_time: self.start_time,
            end_time: self.end_time,
            details: match &self.details {
                Some(d) => Some(d.clone()),
                None => None,
            },
            priority: self.priority,
        }
    }

    /// How long the task ran, in milliseconds: from start to end when both are known,
    /// from start until now (read from the clock) when it has not ended; `None` before it
    /// starts.
    pub fn get_duration(&self) -> (r: Option<u64>)
        ensures
            self.start_time is None ==> r is None,
            match (self.start_time, self.end_time) {
                (Some(s), Some(e)) => r == Some(if e >= s { (e - s) as u64 } else { 0u64 }),
                _ => true,
            },
            self.start_time is Some ==> r is Some,
    {
        match (self.start_time, self.end_time) {
            (Some(start), Some(end)) => Some(if end >= start { end - start } else { 0 }),
            (Some(start), None) => {
                let now = current_time_millis();
                Some(if now >= start { now - start } else { 0 })
            },
            _ => None,
        }
    }

    /// How long the task ran, in milliseconds (0 before it starts).
    pub fn get_duration_millis(&self) -> (r: u64)
        ensures
            self.start_time is None ==> r == 0,
            match (self.start_time, self.end_time) {
                (Some(s), Some(e)) => r == if e >= s { (e - s) as u64 } else { 0u64 },
                _ => true,
            },
    {
        match self.get_duration() {
            Some(d) => d,
            None => 0,
        }
    }

    pub fn is_finished(&self) -> (b: bool)
        ensures
            b == is_final_status(self.status),
    {
        matches!(self.status, TaskStatus::Completed | TaskStatus::Failed | TaskStatus::Cancelled)
    }

    pub fn is_running(&self) -> (b: bool)
        ensures
            b == (self.status == TaskStatus::Running),
    {
        self.status == TaskStatus::Running
    }
}

/// Tasks by identifier, with the time of the last report and whether tracking is on.
#[derive(Debug)]
pub struct ProgressTracker {
    pub tasks: Vec<TaskInfo>,
    pub start_time: u64,
    pub update_interval_ms: u64,
    pub last_update: u64,
    pub active: bool,
}

/// No two tasks have the same identifier.
pub open spec fn ids_unique(tasks: Seq<TaskInfo>) -> bool {
    forall|i: int, j: int| 0 <= i < j < tasks.len() ==> (#[trigger] tasks[i]).id@ != (#[trigger] tasks[j]).id@
}

/// The position of the task with identifier `id`, if any.
pub open spec fn task_position(tasks: Seq<TaskInfo>, id: Seq<char>) -> Option<int> {
    if exists|k: int| 0 <= k < tasks.len() && (#[trigger] tasks[k]).id@ == id {
        Some(choose|k: int| 0 <= k < tasks.len() && (#[trigger] tasks[k]).id@ == id)
    } else {
        None
    }
}

/// The tasks with status `s`.
pub open spec fn with_status(tasks: Seq<TaskInfo>, s: TaskStatus) -> Seq<TaskInfo> {
    tasks.filter(|t: TaskInfo| t.status == s)
}

/// The progress percentages of tasks, added up.
pub open spec fn progress_sum(tasks: Seq<TaskInfo>) -> int
    decreases tasks.len(),
{
    if tasks.len() == 0 { 0 } else { progress_sum(tasks.drop_last()) + tasks.last().progress_percentage }
}

/// The tasks that have a start time.
pub open spec fn started(tasks: Seq<TaskInfo>) -> Seq<TaskInfo> {
    tasks.filter(|t: TaskInfo| t.start_time is Some)
}

/// A task's duration from its start and end times, 0 when it ended before it started.
pub open spec fn span(t: TaskInfo) -> u64 {
    if t.end_time.unwrap() >= t.start_time.unwrap() { (t.end_time.unwrap() - t.start_time.unwrap()) as u64 } else { 0 }
}

/// The sum of a sequence of durations.
pub open spec fn durations_sum(d: Seq<u64>) -> int
    decreases d.len(),
{
    if d.len() == 0 { 0 } else { durations_sum(d.drop_last()) + d.last() }
}

/// Sum, smallest and largest of durations, none when there are none.
pub fn duration_summary(durations: &Vec<u64>) -> (r: Option<(u128, u64, u64)>)
    ensures
        durations@.len() == 0 <==> r is None,
        r matches Some((sum, min, max)) ==> {
            &&& sum == durations_sum(durations@)
            &&& durations@.contains(min)
            &&& durations@.contains(max)
            &&& forall|i: int| 0 <= i < durations@.len() ==> min <= #[trigger] durations@[i] <= max
        },
{
    if durations.len() == 0 {
        return None;
    }
    let mut sum: u128 = 0;
    let mut min = durations[0];
    let mut max = durations[0];
    let mut i: usize = 0;
    while i < durations.len()
        invariant
            0 <= i <= durations@.len(),
            durations@.len() > 0,
            sum == durations_sum(durations@.take(i as int)),
            sum <= i * 0xffff_ffff_ffff_ffffu64,
            durations@.contains(min),
            durations@.contains(max),
            forall|k: int| 0 <= k < i ==> min <= #[trigger] durations@[k] <= max,
            i == 0 ==> min == durations@[0] && max == durations@[0],
        decreases durations@.len() - i,
    {
        proof {
            assert(durations@.take(i + 1).drop_last() =~= durations@.take(i as int));
            assert(i < usize::MAX);
            assert(sum + durations@[i as int] <= (i + 1) * 0xffff_ffff_ffff_ffffu64) by (nonlinear_arith)
                requires sum <= i * 0xffff_ffff_ffff_ffffu64, durations@[i as int] <= 0xffff_ffff_ffff_ffffu64;
            assert((i + 1) * 0xffff_ffff_ffff_ffffu64 <= 0x1_0000_0000_0000_0000 * 0xffff_ffff_ffff_ffffu64) by (nonlinear_arith)
                requires i + 1 <= 0x1_0000_0000_0000_0000int;
        }
        let d = durations[i];
        sum = sum + d as u128;
        if d < min {
            min = d;
        }
        if d > max {
            max = d;
        }
        i = i + 1;
    }
    proof { assert(durations@.take(i as int) =~= durations@); }
    Some((sum, min, max))
}

/// The reporting interval has passed since the last report at time `now`: `now` is not
/// before the last report and at least the interval after it.
pub open spec fn update_due(t: ProgressTracker, now: u64) -> bool {
    now >= t.last_update && now - t.last_update >= t.update_interval_ms
}

/// Filtering a sequence extended by one element.
proof fn lemma_filter_push_task(s: Seq<TaskInfo>, x: TaskInfo, pred: spec_fn(TaskInfo) -> bool)
    ensures
        s.push(x).filter(pred) == if pred(x) { s.filter(pred).push(x) } else { s.filter(pred) },
{
    reveal(Seq::filter);
    assert(s.push(x).drop_last() =~= s);
}

impl ProgressTracker {
    /// The tasks are known by distinct identifiers.
    pub open spec fn wf(self) -> bool {
        ids_unique(self.tasks@)
    }

    /// An active tracker with no tasks, reporting every `update_interval_ms`
    /// milliseconds; its start and last report are now (read from the clock).
    pub fn new(update_interval_ms: u64) -> (t: ProgressTracker)
        ensures
            t.tasks@.len() == 0,
            t.update_interval_ms == update_interval_ms,
            t.last_update == t.start_time,
            t.active,
            t.wf(),
    {
        let now = current_time_millis();
        ProgressTracker { tasks: Vec::new(), start_time: now, update_interval_ms, last_update: now, active: true }
    }

    /// A tracker reporting every second.
    pub fn default() -> (t: ProgressTracker)
        ensures
            t.tasks@.len() == 0,
            t.update_interval_ms == 1000,
            t.active,
            t.wf(),
    {
        Self::new(1000)
    }

    /// The position of the task with identifier `id`, if any.
    fn position(&self, id: &str) -> (r: Option<usize>)
        requires
            self.wf(),
        ensures
            match task_position(self.tasks@, id@) {
                Some(k) => r is Some && r.unwrap() == k,
                None => r is None,
            },
    {
        let mut i: usize = 0;
        while i < self.tasks.len()
            invariant
                0 <= i <= self.tasks@.len(),
                ids_unique(self.tasks@),
                forall|k: int| 0 <= k < i ==> (#[trigger] self.tasks@[k]).id@ != id@,
            decreases self.tasks@.len() - i,
        {
            if same_text(self.tasks[i].id.as_str(), id) {
                proof {
                    assert(self.tasks@[i as int].id@ == id@);
                    let k = choose|k: int| 0 <= k < self.tasks@.len() && (#[trigger] self.tasks@[k]).id@ == id@;
                    if k > i {
                        assert(self.tasks@[i as int].id@ != self.tasks@[k].id@);
                    }
                    assert(k == i);
                }
                return Some(i);
            }
            i = i + 1;
        }
        None
    }

    /// Adds a task, replacing the task with the same identifier if there is one.
    pub fn add_task(&mut self, task_info: TaskInfo)
        requires
            old(self).wf(),
        ensures
            final(self).wf(),
            final(self).tasks@ == match task_position(old(self).tasks@, task_info.id@) {
                Some(k) => old(self).tasks@.update(k, task_info),
                None => old(self).tasks@.push(task_info),
            },
            final(self).active == old(self).active,
    {
        match self.position(task_info.id.as_str()) {
            Some(k) => {
                let ghost t0 = self.tasks@;
                self.tasks.set(k, task_info);
                proof {
                    assert forall|i: int, j: int| 0 <= i < j < self.tasks@.len() implies
                        (#[trigger] self.tasks@[i]).id@ != (#[trigger] self.tasks@[j]).id@ by {
                        if i == k {
                            assert(t0[j].id@ != t0[k as int].id@);
                        } else if j == k {
                            assert(t0[i].id@ != t0[k as int].id@);
                        } else {
                            assert(t0[i].id@ != t0[j].id@);
                        }
                    }
                }
            },
            None => {
                let ghost t0 = self.tasks@;
                self.tasks.push(task_info);
                proof {
                    assert forall|i: int, j: int| 0 <= i < j < self.tasks@.len() implies
                        (#[trigger] self.tasks@[i]).id@ != (#[trigger] self.tasks@[j]).id@ by {
                        if j == t0.len() {
                            assert(t0[i].id@ != task_info.id@);
                        } else {
                            assert(t0[i].id@ != t0[j].id@);
                        }
                    }
                }
            },
        }
    }

    /// Sets a task's status. A queued task that starts running gets its start time; a
    /// task that finishes gets its end time unless it has one; a completed task is at
    /// 100 percent. Nothing happens for an unknown identifier.
    pub fn update_task_status(&mut self, task_id: &str, status: TaskStatus)
        requires
            old(self).wf(),
        ensures
            final(self).wf(),
            final(self).tasks@.len() == old(self).tasks@.len(),
            match task_position(old(self).tasks@, task_id@) {
                None => final(self).tasks@ == old(self).tasks@,
                Some(k) => {
                    let o = old(self).tasks@[k];
                    let n = final(self).tasks@[k];
                    &&& final(self).tasks@ == old(self).tasks@.update(k, n)
                    &&& n.id == o.id
                    &&& n.name == o.name
                    &&& n.status == status
                    &&& n.details == o.details
                    &&& n.priority == o.priority
                    &&& n.progress_percentage == if status == TaskStatus::Completed { 100 } else { o.progress_percentage }
                    &&& (status == TaskStatus::Running && o.status == TaskStatus::Queued) ==> n.start_time is Some
                    &&& !(status == TaskStatus::Running && o.status == TaskStatus::Queued) ==> n.start_time == o.start_time
                    &&& is_final_status(status) ==> n.end_time is Some
                    &&& (is_final_status(status) && o.end_time is Some) ==> n.end_time == o.end_time
                    &&& !is_final_status(status) ==> n.end_time == o.end_time
                },
            },
    {
        if let Some(k) = self.position(task_id) {
            let ghost t0 = self.tasks@;
            let mut task = self.tasks[k].duplicate();
            let old_status = task.status;
            task.status = status;
            if status == TaskStatus::Running && old_status == TaskStatus::Queued {
                task.start_time = Some(current_time_millis());
            } else if status == TaskStatus::Completed || status == TaskStatus::Failed || status == TaskStatus::Cancelled {
                if task.end_time.is_none() {
                    task.end_time = Some(current_time_millis());
                }
                if status == TaskStatus::Completed {
                    task.progress_percentage = 100;
                }
            }
            self.tasks.set(k, task);
            proof {
                assert forall|i: int, j: int| 0 <= i < j < self.tasks@.len() implies
                    (#[trigger] self.tasks@[i]).id@ != (#[trigger] self.tasks@[j]).id@ by {
                    assert(t0[i].id@ != t0[j].id@);
                }
            }
        }
    }

    /// Sets a task's progress, capped at 100 percent. Nothing happens for an unknown
    /// identifier.
    pub fn update_task_progress(&mut self, task_id: &str, progress: u8)
        requires
            old(self).wf(),
        ensures
            final(self).wf(),
            final(self).tasks@ == match task_position(old(self).tasks@, task_id@) {
                None => old(self).tasks@,
                Some(k) => old(self).tasks@.update(k, TaskInfo {
                    progress_percentage: if progress < 100 { progress } else { 100u8 },
                    ..old(self).tasks@[k]
                }),
            },
    {
        if let Some(k) = self.position(task_id) {
            let ghost t0 = self.tasks@;
            let mut task = self.tasks[k].duplicate();
            task.progress_percentage = if progress < 100 { progress } else { 100 };
            self.tasks.set(k, task);
            proof {
                assert forall|i: int, j: int| 0 <= i < j < self.tasks@.len() implies
                    (#[trigger] self.tasks@[i]).id@ != (#[trigger] self.tasks@[j]).id@ by {
                    assert(t0[i].id@ != t0[j].id@);
                }
            }
        }
    }

    /// Sets a task's details. Nothing happens for an unknown identifier.
    pub fn update_task_details(&mut self, task_id: &str, details: String)
        requires
            old(self).wf(),
        ensures
            final(self).wf(),
            final(self).tasks@ == match task_position(old(self).tasks@, task_id@) {
                None => old(self).tasks@,
                Some(k) => old(self).tasks@.update(k, TaskInfo { details: Some(details), ..old(self).tasks@[k] }),
            },
    {
        if let Some(k) = self.position(task_id) {
            let ghost t0 = self.tasks@;
            let mut task = self.tasks[k].duplicate();
            task.details = Some(details);
            self.tasks.set(k, task);
            proof {
                assert forall|i: int, j: int| 0 <= i < j < self.tasks@.len() implies
                    (#[trigger] self.tasks@[i]).id@ != (#[trigger] self.tasks@[j]).id@ by {
                    assert(t0[i].id@ != t0[j].id@);
                }
            }
        }
    }

    /// Removes the task with identifier `task_id`, if any.
    pub fn remove_task(&mut self, task_id: &str)
        requires
            old(self).wf(),
        ensures
            final(self).wf(),
            final(self).tasks@ == match task_position(old(self).tasks@, task_id@) {
                None => old(self).tasks@,
                Some(k) => old(self).tasks@.remove(k),
            },
    {
        if let Some(k) = self.position(task_id) {
            let ghost t0 = self.tasks@;
            self.tasks.remove(k);
            proof {
                assert forall|i: int, j: int| 0 <= i < j < self.tasks@.len() implies
                    (#[trigger] self.tasks@[i]).id@ != (#[trigger] self.tasks@[j]).id@ by {
                    let i0 = if i < k { i } else { i + 1 };
                    let j0 = if j < k { j } else { j + 1 };
                    assert(self.tasks@[i] == t0[i0]);
                    assert(self.tasks@[j] == t0[j0]);
                    assert(t0[i0].id@ != t0[j0].id@);
                }
            }
        }
    }

    /// A copy of the task with identifier `task_id`, if any.
    pub fn get_task(&self, task_id: &str) -> (r: Option<TaskInfo>)
        requires
            self.wf(),
        ensures
            r == match task_position(self.tasks@, task_id@) {
                None => None,
                Some(k) => Some(self.tasks@[k]),
            },
    {
        match self.position(task_id) {
            Some(k) => Some(self.tasks[k].duplicate()),
            None => None,
        }
    }

    /// Copies of all tasks.
    pub fn get_all_tasks(&self) -> (r: Vec<TaskInfo>)
        ensures
            r@ == self.tasks@,
    {
        let mut r: Vec<TaskInfo> = Vec::new();
        let mut i: usize = 0;
        while i < self.tasks.len()
            invariant
                0 <= i <= self.tasks@.len(),
                r@ == self.tasks@.take(i as int),
            decreases self.tasks@.len() - i,
        {
            r.push(self.tasks[i].duplicate());
            i = i + 1;
            proof { assert(r@ =~= self.tasks@.take(i as int)); }
        }
        proof { assert(self.tasks@.take(i as int) =~= self.tasks@); }
        r
    }

    /// Copies of the tasks with the given status.
    pub fn get_tasks_by_status(&self, status: TaskStatus) -> (r: Vec<TaskInfo>)
        ensures
            r@ == with_status(self.tasks@, status),
    {
        let ghost pred = |t: TaskInfo| t.status == status;
        let mut r: Vec<TaskInfo> = Vec::new();
        let mut i: usize = 0;
        proof { reveal(Seq::filter); assert(self.tasks@.take(0).filter(pred) =~= Seq::<TaskInfo>::empty()); }
        while i < self.tasks.len()
            invariant
                0 <= i <= self.tasks@.len(),
                pred == (|t: TaskInfo| t.status == status),
                r@ == self.tasks@.take(i as int).filter(pred),
            decreases self.tasks@.len() - i,
        {
            proof {
                assert(self.tasks@.take(i + 1) =~= self.tasks@.take(i as int).push(self.tasks@[i as int]));
                lemma_filter_push_task(self.tasks@.take(i as int), self.tasks@[i as int], pred);
            }
            if self.tasks[i].status == status {
                r.push(self.tasks[i].duplicate());
            }
            i = i + 1;
        }
        proof { assert(self.tasks@.take(i as int) =~= self.tasks@); }
        r
    }

    /// The progress percentages of all tasks, added up.
    pub fn get_total_progress(&self) -> (r: u128)
        ensures
            r == progress_sum(self.tasks@),
    {
        let mut total: u128 = 0;
        let mut i: usize = 0;
        while i < self.tasks.len()
            invariant
                0 <= i <= self.tasks@.len(),
                total == progress_sum(self.tasks@.take(i as int)),
                total <= i * 255,
            decreases self.tasks@.len() - i,
        {
            proof { assert(self.tasks@.take(i + 1).drop_last() =~= self.tasks@.take(i as int)); }
            total = total + self.tasks[i].progress_percentage as u128;
            i = i + 1;
        }
        proof { assert(self.tasks@.take(i as int) =~= self.tasks@); }
        total
    }

    /// How long each completed task with a start time ran, in order: from start to end
    /// when it has ended, until now (read from the clock) otherwise.
    pub fn get_completed_durations(&self) -> (r: Vec<u64>)
        ensures
            r@.len() == started(with_status(self.tasks@, TaskStatus::Completed)).len(),
            forall|i: int| 0 <= i < r@.len()
                && (#[trigger] started(with_status(self.tasks@, TaskStatus::Completed))[i]).end_time is Some
                ==> r@[i] == span(started(with_status(self.tasks@, TaskStatus::Completed))[i]),
    {
        let done = self.get_tasks_by_status(TaskStatus::Completed);
        let ghost pred = |t: TaskInfo| t.start_time is Some;
        let ghost all = done@;
        let mut r: Vec<u64> = Vec::new();
        let mut i: usize = 0;
        proof { reveal(Seq::filter); assert(all.take(0).filter(pred) =~= Seq::<TaskInfo>::empty()); }
        while i < done.len()
            invariant
                0 <= i <= all.len(),
                all == done@,
                pred == (|t: TaskInfo| t.start_time is Some),
                r@.len() == all.take(i as int).filter(pred).len(),
                forall|k: int| 0 <= k < r@.len() && (#[trigger] all.take(i as int).filter(pred)[k]).end_time is Some
                    ==> r@[k] == span(all.take(i as int).filter(pred)[k]),
            decreases all.len() - i,
        {
            let ghost before = all.take(i as int).filter(pred);
            proof {
                assert(all.take(i + 1) =~= all.take(i as int).push(all[i as int]));
                lemma_filter_push_task(all.take(i as int), all[i as int], pred);
            }
            match done[i].get_duration() {
                Some(d) => {
                    r.push(d);
                    proof {
                        let after = all.take(i + 1).filter(pred);
                        assert(after == before.push(all[i as int]));
                        assert forall|k: int| 0 <= k < r@.len() && (#[trigger] after[k]).end_time is Some
                            implies r@[k] == span(after[k]) by {
                            if k < before.len() {
                                assert(after[k] == before[k]);
                            }
                        }
                    }
                },
                None => {
                    proof { assert(all.take(i + 1).filter(pred) == before); }
                },
            }
            i = i + 1;
        }
        proof { assert(all.take(i as int) =~= all); }
        r
    }

    /// Whether the reporting interval has passed since the last report at time `now`
    /// (milliseconds since the epoch): `now` is not before the last report and at least
    /// the interval after it.
    pub fn should_update_at(&self, now: u64) -> (b: bool)
        ensures
            b == update_due(*self, now),
    {
        now >= self.last_update && now - self.last_update >= self.update_interval_ms
    }

    /// Whether the reporting interval has passed since the last report, at the time the
    /// clock gives (see `should_update_at`). Which time that is is not known here.
    pub fn should_update(&self) -> (b: bool)
        ensures
            exists|now: u64| b == #[trigger] update_due(*self, now),
    {
        let now = current_time_millis();
        self.should_update_at(now)
    }

    /// Records a report at time `now`; nothing else changes.
    pub fn mark_updated_at(&mut self, now: u64)
        ensures
            *final(self) == (ProgressTracker { last_update: now, ..*old(self) }),
    {
        self.last_update = now;
    }

    /// Records a report now, at the time the clock gives; nothing else changes.
    pub fn mark_updated(&mut self)
        ensures
            *final(self) == (ProgressTracker { last_update: final(self).last_update, ..*old(self) }),
    {
        let now = current_time_millis();
        self.mark_updated_at(now);
    }

    /// Number of running tasks.
    pub fn get_active_task_count(&self) -> (r: usize)
        ensures
            r == with_status(self.tasks@, TaskStatus::Running).len(),
    {
        self.get_tasks_by_status(TaskStatus::Running).len()
    }

    /// Number of completed tasks.
    pub fn get_completed_task_count(&self) -> (r: usize)
        ensures
            r == with_status(self.tasks@, TaskStatus::Completed).len(),
    {
        self.get_tasks_by_status(TaskStatus::Completed).len()
    }

    /// Number of tasks.
    pub fn get_total_task_count(&self) -> (r: usize)
        ensures
            r == self.tasks@.len(),
    {
        self.tasks.len()
    }

    /// Whether every task has finished.
    pub fn are_all_tasks_finished(&self) -> (b: bool)
        ensures
            b == forall|k: int| 0 <= k < self.tasks@.len() ==> is_final_status(#[trigger] self.tasks@[k].status),
    {
        let mut i: usize = 0;
        while i < self.tasks.len()
            invariant
                0 <= i <= self.tasks@.len(),
                forall|k: int| 0 <= k < i ==> is_final_status(#[trigger] self.tasks@[k].status),
            decreases self.tasks@.len() - i,
        {
            if !self.tasks[i].is_finished() {
                return false;
            }
            i = i + 1;
        }
        true
    }

    /// Stops tracking.
    pub fn stop(&mut self)
        ensures
            *final(self) == (ProgressTracker { active: false, ..*old(self) }),
    {
        self.active = false;
    }

    pub fn is_active(&self) -> (b: bool)
        ensures
            b == self.active,
    {
        self.active
    }

    /// Removes the finished tasks, keeping the others in order.
    pub fn clear_finished_tasks(&mut self)
        requires
            old(self).wf(),
        ensures
            final(self).wf(),
            final(self).tasks@ == old(self).tasks@.filter(|t: TaskInfo| !is_final_status(t.status)),
    {
        let ghost pred = |t: TaskInfo| !is_final_status(t.status);
        let mut src: Vec<TaskInfo> = Vec::new();
        std::mem::swap(&mut src, &mut self.tasks);
        let ghost orig = src@;
        let n = src.len();
        let mut kept: Vec<TaskInfo> = Vec::new();
        let mut i: usize = 0;
        proof { reveal(Seq::filter); assert(orig.take(0).filter(pred) =~= Seq::<TaskInfo>::empty()); }
        while src.len() > 0
            invariant
                0 <= i <= orig.len(),
                orig.len() == n,
                src@ == orig.skip(i as int),
                pred == (|t: TaskInfo| !is_final_status(t.status)),
                kept@ == orig.take(i as int).filter(pred),
                self.tasks@.len() == 0,
            decreases src@.len(),
        {
            let ghost src0 = src@;
            let t = src.remove(0);
            proof {
                assert(src0[0] == orig[i as int]);
                assert(src@ =~= orig.skip(i + 1));
                assert(orig.take(i + 1) =~= orig.take(i as int).push(orig[i as int]));
                lemma_filter_push_task(orig.take(i as int), orig[i as int], pred);
            }
            if !t.is_finished() {
                kept.push(t);
            }
            i = i + 1;
        }
        proof {
            assert(orig.take(i as int) =~= orig);
            lemma_filter_keeps_ids_unique(orig, pred);
        }
        self.tasks = kept;
    }
}

/// Keeping some of the tasks keeps their identifiers distinct.
proof fn lemma_filter_keeps_ids_unique(s: Seq<TaskInfo>, pred: spec_fn(TaskInfo) -> bool)
    requires
        ids_unique(s),
    ensures
        ids_unique(s.filter(pred)),
    decreases s.len(),
{
    reveal(Seq::filter);
    if s.len() > 0 {
        let front = s.drop_last();
        assert(ids_unique(front)) by {
            assert forall|i: int, j: int| 0 <= i < j < front.len() implies
                (#[trigger] front[i]).id@ != (#[trigger] front[j]).id@ by {
                assert(s[i].id@ != s[j].id@);
            }
        }
        lemma_filter_keeps_ids_unique(front, pred);
        let f = front.filter(pred);
        if pred(s.last()) {
            let g = f.push(s.last());
            assert forall|i: int, j: int| 0 <= i < j < g.len() implies
                (#[trigger] g[i]).id@ != (#[trigger] g[j]).id@ by {
                if j == f.len() {
                    assert(f.contains(f[i]));
                    front.lemma_filter_contains_rev(pred, f[i]);
                    let k = choose|k: int| 0 <= k < front.len() && front[k] == f[i];
                    assert(s[k].id@ != s[s.len() - 1].id@);
                } else {
                    assert(g[i] == f[i] && g[j] == f[j]);
                }
            }
        }
    }
}

} // verus!
