//! Dependency resolution: the dates on which a task actually starts and
//! ends once its predecessors are taken into account.

use vstd::prelude::*;
use crate::calendar::{lemma_add_work_days_bounds, Date, MAX_JULIAN_DAY};
use crate::cycles::{has_predecessor_cycle, is_cyclic_error, lemma_cyclic_error_means_cycle};
use crate::pom::{counted, dated, spec_find_task, Project, ScheduleError, Task};

verus! {

/// The latest of `floor` and the actual end dates of the predecessors from
/// index `from` on, taken in order; the first failure among them wins.
/// `depth` bounds the length of the predecessor chains that are followed.
pub open spec fn spec_latest_end(
    tasks: Seq<Task>,
    task: Task,
    from: int,
    floor: int,
    depth: nat,
) -> Result<int, ScheduleError>
    decreases depth, 0nat, task.predecessors@.len() - from,
{
    if from < 0 || from >= task.predecessors@.len() {
        Ok(floor)
    } else {
        match spec_find_task(tasks, task.predecessors@[from]) {
            None => Err(ScheduleError::MissingTask { task_id: task.predecessors@[from] }),
            Some(i) => if depth == 0 {
                Err(ScheduleError::CyclicDependency { task_id: task.id })
            } else {
                match spec_actual_end_date(tasks, tasks[i], (depth - 1) as nat) {
                    Err(e) => Err(e),
                    Ok(end) => spec_latest_end(
                        tasks,
                        task,
                        from + 1,
                        if end > floor {
                            end
                        } else {
                            floor
                        },
                        depth,
                    ),
                }
            },
        }
    }
}

/// The date on which the task can start: its earliest start date, or the
/// latest end date among its predecessors where that is later.
pub open spec fn spec_actual_start_date(tasks: Seq<Task>, task: Task, depth: nat) -> Result<
    int,
    ScheduleError,
>
    decreases depth, 1nat, 0nat,
{
    if task.predecessors@.len() == 0 {
        Ok(task.earliest_start_date@)
    } else {
        spec_latest_end(tasks, task, 0, task.earliest_start_date@, depth)
    }
}

/// The date on which the task ends: its own end date where it has no
/// predecessors, else its calendar days counted from its actual start.
pub open spec fn spec_actual_end_date(tasks: Seq<Task>, task: Task, depth: nat) -> Result<
    int,
    ScheduleError,
>
    decreases depth, 2nat, 0nat,
{
    if task.predecessors@.len() == 0 {
        task.spec_end_date()
    } else {
        match spec_actual_start_date(tasks, task, depth) {
            Err(e) => Err(e),
            Ok(start) => match task.spec_calendar_days() {
                Err(e) => Err(e),
                Ok(days) => if start + days <= MAX_JULIAN_DAY {
                    Ok(start + days)
                } else {
                    Err(ScheduleError::DateOverflow { task_id: task.id })
                },
            },
        }
    }
}

/// Calendar days of a task from `start` to `end` that are still to come at
/// `reference`: none once the task is over, the days up to the end while it
/// runs, and the whole span until it has started.
pub open spec fn spec_remaining_calendar_days(start: int, end: int, reference: int) -> int {
    if reference > end {
        0
    } else if reference > start {
        end - reference
    } else {
        end - start
    }
}

impl Task {
    fn latest_end_within(&self, proj: &Project, depth: usize) -> (r: Result<Date, ScheduleError>)
        ensures
            dated(r) == spec_latest_end(
                proj.tasks@,
                *self,
                0,
                self.earliest_start_date@,
                depth as nat,
            ),
            r matches Ok(start) ==> self.earliest_start_date@ <= start@,
        decreases depth, 0nat, 0nat,
    {
        let mut latest = self.earliest_start_date;
        let mut k: usize = 0;
        while k < self.predecessors.len()
            invariant
                k <= self.predecessors@.len(),
                self.earliest_start_date@ <= latest@,
                spec_latest_end(proj.tasks@, *self, k as int, latest@, depth as nat)
                    == spec_latest_end(
                    proj.tasks@,
                    *self,
                    0,
                    self.earliest_start_date@,
                    depth as nat,
                ),
            decreases self.predecessors@.len() - k,
        {
            let pred_id: u32 = self.predecessors[k];
            match proj.find_task(pred_id) {
                None => {
                    return Err(ScheduleError::MissingTask { task_id: pred_id });
                },
                Some(i) => {
                    if depth == 0 {
                        return Err(ScheduleError::CyclicDependency { task_id: self.id });
                    }
                    match proj.tasks[i].actual_end_within(proj, depth - 1) {
                        Err(e) => {
                            return Err(e);
                        },
                        Ok(end) => {
                            if end.to_julian_day() > latest.to_julian_day() {
                                latest = end;
                            }
                        },
                    }
                },
            }
            k = k + 1;
        }
        Ok(latest)
    }

    fn actual_start_within(&self, proj: &Project, depth: usize) -> (r: Result<Date, ScheduleError>)
        ensures
            dated(r) == spec_actual_start_date(proj.tasks@, *self, depth as nat),
            self.predecessors@.len() == 0 ==> r == Ok::<Date, ScheduleError>(
                self.earliest_start_date,
            ),
            r matches Ok(start) ==> self.earliest_start_date@ <= start@,
        decreases depth, 1nat, 0nat,
    {
        if self.predecessors.len() == 0 {
            return Ok(self.earliest_start_date);
        }
        self.latest_end_within(proj, depth)
    }

    fn actual_end_within(&self, proj: &Project, depth: usize) -> (r: Result<Date, ScheduleError>)
        ensures
            dated(r) == spec_actual_end_date(proj.tasks@, *self, depth as nat),
        decreases depth, 2nat, 0nat,
    {
        if self.predecessors.len() == 0 {
            return self.get_end_date();
        }
        let start = match self.actual_start_within(proj, depth) {
            Ok(start) => start,
            Err(e) => {
                return Err(e);
            },
        };
        let days: u32 = match self.get_calendar_days() {
            Ok(days) => days,
            Err(e) => {
                return Err(e);
            },
        };
        match start.checked_add_days(days) {
            Some(end) => Ok(end),
            None => Err(ScheduleError::DateOverflow { task_id: self.id }),
        }
    }

    /// The date on which the task can start, given the project that holds
    /// its predecessors.
    pub fn get_actual_start_date(&self, proj: &Project) -> (r: Result<Date, ScheduleError>)
        ensures
            dated(r) == spec_actual_start_date(proj.tasks@, *self, proj.tasks@.len()),
            self.predecessors@.len() == 0 ==> r == Ok::<Date, ScheduleError>(
                self.earliest_start_date,
            ),
            r matches Ok(start) ==> self.earliest_start_date@ <= start@,
            r matches Err(ScheduleError::CyclicDependency { .. }) ==> has_predecessor_cycle(
                proj.tasks@,
            ),
    {
        let r = self.actual_start_within(proj, proj.tasks.len());
        proof {
            if is_cyclic_error(dated(r)) {
                lemma_cyclic_error_means_cycle(proj.tasks@, *self, proj.tasks@.len());
            }
        }
        r
    }

    /// The date on which the task ends, given the project that holds its
    /// predecessors.
    pub fn get_actual_end_date(&self, proj: &Project) -> (r: Result<Date, ScheduleError>)
        ensures
            dated(r) == spec_actual_end_date(proj.tasks@, *self, proj.tasks@.len()),
            self.predecessors@.len() == 0 ==> dated(r) == self.spec_end_date(),
            r matches Err(ScheduleError::CyclicDependency { .. }) ==> has_predecessor_cycle(
                proj.tasks@,
            ),
    {
        let r = self.actual_end_within(proj, proj.tasks.len());
        proof {
            if is_cyclic_error(dated(r)) {
                lemma_cyclic_error_means_cycle(proj.tasks@, *self, proj.tasks@.len());
            }
        }
        r
    }

    /// Whole working days of the task that are outstanding at
    /// `reference_date`, counted from its actual start date.
    pub fn get_actual_remaining_work_days(&self, proj: &Project, reference_date: Date) -> (r:
        Result<u64, ScheduleError>)
        ensures
            counted(r) == match spec_actual_start_date(proj.tasks@, *self, proj.tasks@.len()) {
                Ok(start) => self.spec_days_remaining_at(reference_date@, start),
                Err(e) => Err(e),
            },
    {
        match self.get_actual_start_date(proj) {
            Ok(start) => self.get_days_remaining_at(reference_date, start),
            Err(e) => Err(e),
        }
    }

    /// Calendar days of the task that are still to come at
    /// `reference_date`, between its actual start and end dates.
    pub fn get_actual_remaining_calender_days(&self, proj: &Project, reference_date: Date) -> (r:
        Result<u32, ScheduleError>)
        ensures
            counted(r) == match spec_actual_start_date(proj.tasks@, *self, proj.tasks@.len()) {
                Err(e) => Err(e),
                Ok(start) => match spec_actual_end_date(proj.tasks@, *self, proj.tasks@.len()) {
                    Err(e) => Err(e),
                    Ok(end) => Ok(spec_remaining_calendar_days(start, end, reference_date@)),
                },
            },
            r matches Ok(days) ==> (spec_actual_end_date(proj.tasks@, *self, proj.tasks@.len())
                matches Ok(end) && (reference_date@ > end ==> days == 0)),
    {
        let start = match self.get_actual_start_date(proj) {
            Ok(start) => start,
            Err(e) => {
                return Err(e);
            },
        };
        let end = match self.get_actual_end_date(proj) {
            Ok(end) => end,
            Err(e) => {
                return Err(e);
            },
        };
        let s: i32 = start.to_julian_day();
        proof {
            lemma_actual_end_not_before_start(proj.tasks@, *self, proj.tasks@.len());
        }
        let e: i32 = end.to_julian_day();
        let at: i32 = reference_date.to_julian_day();
        if at > e {
            Ok(0)
        } else if at > s {
            Ok((e as i64 - at as i64) as u32)
        } else {
            Ok((e as i64 - s as i64) as u32)
        }
    }
}

/// The calendar days that remain are never negative, never more than the
/// span of the task, and none once the reference date is past its end.
pub proof fn lemma_remaining_calendar_days_bounds(start: int, end: int, reference: int)
    requires
        start <= end,
    ensures
        0 <= spec_remaining_calendar_days(start, end, reference) <= end - start,
        reference > end ==> spec_remaining_calendar_days(start, end, reference) == 0,
{
}

/// A task never ends before it starts, and never starts before its
/// earliest start date.
pub proof fn lemma_actual_end_not_before_start(tasks: Seq<Task>, task: Task, depth: nat)
    ensures
        spec_actual_start_date(tasks, task, depth) matches Ok(start) ==> {
            &&& task.earliest_start_date@ <= start
            &&& spec_actual_end_date(tasks, task, depth) matches Ok(end) ==> start <= end
        },
{
    lemma_add_work_days_bounds(
        task.earliest_start_date@,
        task.spec_work_days().occupied(),
    );
    if task.predecessors@.len() > 0 {
        lemma_latest_end_not_before_floor(tasks, task, 0, task.earliest_start_date@, depth);
    }
}

/// The latest end date among predecessors is no earlier than the floor
/// that it is compared with.
pub proof fn lemma_latest_end_not_before_floor(
    tasks: Seq<Task>,
    task: Task,
    from: int,
    floor: int,
    depth: nat,
)
    ensures
        spec_latest_end(tasks, task, from, floor, depth) matches Ok(latest) ==> floor <= latest,
    decreases task.predecessors@.len() - from,
{
    if 0 <= from < task.predecessors@.len() {
        match spec_find_task(tasks, task.predecessors@[from]) {
            None => {},
            Some(i) => {
                if depth > 0 {
                    match spec_actual_end_date(tasks, tasks[i], (depth - 1) as nat) {
                        Err(e) => {},
                        Ok(end) => {
                            lemma_latest_end_not_before_floor(
                                tasks,
                                task,
                                from + 1,
                                if end > floor {
                                    end
                                } else {
                                    floor
                                },
                                depth,
                            );
                        },
                    }
                }
            },
        }
    }
}

/// The actual end date of the predecessor that link `k` of the task
/// names.
pub open spec fn spec_predecessor_end(tasks: Seq<Task>, task: Task, k: int, depth: nat) -> Result<
    int,
    ScheduleError,
> {
    match spec_find_task(tasks, task.predecessors@[k]) {
        None => Err(ScheduleError::MissingTask { task_id: task.predecessors@[k] }),
        Some(i) => spec_actual_end_date(tasks, tasks[i], depth),
    }
}

/// More depth changes no latest end date that was found without running
/// out of depth.
pub proof fn lemma_latest_end_stable(
    tasks: Seq<Task>,
    task: Task,
    from: int,
    floor: int,
    depth: nat,
    more: nat,
)
    requires
        depth <= more,
        !is_cyclic_error(spec_latest_end(tasks, task, from, floor, depth)),
    ensures
        spec_latest_end(tasks, task, from, floor, more) == spec_latest_end(
            tasks,
            task,
            from,
            floor,
            depth,
        ),
    decreases depth, 0nat, task.predecessors@.len() - from,
{
    if 0 <= from < task.predecessors@.len() {
        match spec_find_task(tasks, task.predecessors@[from]) {
            None => {},
            Some(i) => {
                lemma_dates_stable(tasks, tasks[i], (depth - 1) as nat, (more - 1) as nat);
                match spec_actual_end_date(tasks, tasks[i], (depth - 1) as nat) {
                    Err(e) => {},
                    Ok(end) => {
                        lemma_latest_end_stable(
                            tasks,
                            task,
                            from + 1,
                            if end > floor {
                                end
                            } else {
                                floor
                            },
                            depth,
                            more,
                        );
                    },
                }
            },
        }
    }
}

/// More depth changes no date, and no failure but the want of depth: what
/// a schedule yields does not depend on how deep it was allowed to look.
pub proof fn lemma_dates_stable(tasks: Seq<Task>, task: Task, depth: nat, more: nat)
    requires
        depth <= more,
    ensures
        !is_cyclic_error(spec_actual_start_date(tasks, task, depth)) ==> spec_actual_start_date(
            tasks,
            task,
            more,
        ) == spec_actual_start_date(tasks, task, depth),
        !is_cyclic_error(spec_actual_end_date(tasks, task, depth)) ==> spec_actual_end_date(
            tasks,
            task,
            more,
        ) == spec_actual_end_date(tasks, task, depth),
    decreases depth, 1nat, 0nat,
{
    if task.predecessors@.len() > 0 && !is_cyclic_error(
        spec_actual_start_date(tasks, task, depth),
    ) {
        lemma_latest_end_stable(tasks, task, 0, task.earliest_start_date@, depth, more);
    }
}

/// The latest end date is no earlier than the end of any predecessor from
/// `from` on, and is the floor or the end of one of them. Each of those
/// ends was found with one level of depth less.
pub proof fn lemma_latest_end_is_latest(
    tasks: Seq<Task>,
    task: Task,
    from: int,
    floor: int,
    depth: nat,
)
    requires
        0 <= from,
        spec_latest_end(tasks, task, from, floor, depth).is_ok(),
    ensures
        from < task.predecessors@.len() ==> depth > 0,
        forall|k: int|
            from <= k < task.predecessors@.len() ==> (#[trigger] spec_predecessor_end(
                tasks,
                task,
                k,
                depth,
            ) matches Ok(end) && Ok::<int, ScheduleError>(end) == spec_predecessor_end(
                tasks,
                task,
                k,
                (depth - 1) as nat,
            ) && end <= spec_latest_end(tasks, task, from, floor, depth)->Ok_0),
        spec_latest_end(tasks, task, from, floor, depth) == Ok::<int, ScheduleError>(floor)
            || exists|k: int|
            from <= k < task.predecessors@.len() && #[trigger] spec_predecessor_end(
                tasks,
                task,
                k,
                depth,
            ) == spec_latest_end(tasks, task, from, floor, depth),
    decreases task.predecessors@.len() - from,
{
    if from < task.predecessors@.len() {
        let i = spec_find_task(tasks, task.predecessors@[from])->Some_0;
        let end = spec_actual_end_date(tasks, tasks[i], (depth - 1) as nat)->Ok_0;
        let next = if end > floor {
            end
        } else {
            floor
        };
        lemma_dates_stable(tasks, tasks[i], (depth - 1) as nat, depth);
        assert(spec_predecessor_end(tasks, task, from, depth) == Ok::<int, ScheduleError>(end));
        lemma_latest_end_is_latest(tasks, task, from + 1, next, depth);
        lemma_latest_end_not_before_floor(tasks, task, from + 1, next, depth);
    }
}

/// A task with predecessors starts on the latest of its earliest start
/// date and the actual end dates of its predecessors: no predecessor ends
/// after it, and it is the earliest start date or the end of one of them.
pub proof fn lemma_actual_start_is_latest_end(tasks: Seq<Task>, task: Task, depth: nat)
    requires
        task.predecessors@.len() > 0,
        spec_actual_start_date(tasks, task, depth).is_ok(),
    ensures
        task.earliest_start_date@ <= spec_actual_start_date(tasks, task, depth)->Ok_0,
        forall|k: int|
            0 <= k < task.predecessors@.len() ==> (#[trigger] spec_predecessor_end(
                tasks,
                task,
                k,
                depth,
            ) matches Ok(end) && end <= spec_actual_start_date(tasks, task, depth)->Ok_0),
        spec_actual_start_date(tasks, task, depth) == Ok::<int, ScheduleError>(
            task.earliest_start_date@,
        ) || exists|k: int|
            0 <= k < task.predecessors@.len() && #[trigger] spec_predecessor_end(
                tasks,
                task,
                k,
                depth,
            ) == spec_actual_start_date(tasks, task, depth),
{
    lemma_latest_end_is_latest(tasks, task, 0, task.earliest_start_date@, depth);
    lemma_latest_end_not_before_floor(tasks, task, 0, task.earliest_start_date@, depth);
}

} // verus!
