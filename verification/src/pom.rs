//! The project object model: tasks, resources and allocations, the work
//! and the dates of a task taken by itself, and the resources allocated to
//! it.

use vstd::prelude::*;
use crate::calendar::{spec_add_work_days, spec_days_remaining, Date, MAX_JULIAN_DAY};
use crate::work_days::WorkDays;

verus! {

/// Effort-units that one full-time resource produces per working day.
pub const GENERIC_RESOURCE_OUTPUT: u32 = 8;

/// Resources, loads and outputs are held in thousandths: 1000 is one
/// full-time resource, 500 a half-time commitment.
pub const RESOURCE_SCALE: u32 = 1000;

/// Working days of one effort-unit for one thousandth of a resource:
/// `RESOURCE_SCALE / GENERIC_RESOURCE_OUTPUT`.
pub const WORK_DAYS_PER_EFFORT: u64 = 125;

/// Why no schedule can be given. Every failure ends the computation.
#[derive(Clone, Copy, Debug, PartialEq, Eq, Structural)]
pub enum ScheduleError {
    /// A predecessor link or an allocation names a task that the project
    /// does not hold.
    MissingTask { task_id: u32 },
    /// No resource of the project has this identifier.
    MissingResource { resource_id: u32 },
    /// The dates of the task leave the calendar, or its work has no end
    /// because nothing works on it.
    DateOverflow { task_id: u32 },
    /// The predecessor chain through the task is longer than the number
    /// of tasks in the project.
    CyclicDependency { task_id: u32 },
}

#[derive(Clone, Debug)]
pub struct Task {
    pub id: u32,
    /// Total effort in effort-units, not in days.
    pub duration: u32,
    pub label: String,
    pub earliest_start_date: Date,
    /// Nominal resources, in thousandths of a full-time resource.
    pub planned_resources: u32,
    /// Sum of the loads allocated to the task, in thousandths; zero until
    /// the project has calculated it.
    pub allocated_resources: u128,
    pub predecessors: Vec<u32>,
}

#[derive(Clone, Debug)]
pub struct Resource {
    pub id: u32,
    pub label: String,
    /// Nominal daily output, in thousandths of an effort-unit.
    pub output: u32,
}

#[derive(Clone, Copy, Debug, PartialEq, Eq, Structural)]
pub struct Allocation {
    pub taskid: u32,
    pub resourceid: u32,
    /// Share of the resource that the task takes, in thousandths.
    pub load: u32,
}

#[derive(Clone, Debug)]
pub struct Project {
    pub tasks: Vec<Task>,
    pub resources: Vec<Resource>,
    pub allocations: Vec<Allocation>,
}

/// A date that may have failed, as the Julian day number that it stands for.
pub open spec fn dated(r: Result<Date, ScheduleError>) -> Result<int, ScheduleError> {
    match r {
        Ok(d) => Ok(d@),
        Err(e) => Err(e),
    }
}

/// A count that may have failed, as a mathematical integer.
pub open spec fn counted<T: Integer>(r: Result<T, ScheduleError>) -> Result<int, ScheduleError> {
    match r {
        Ok(n) => Ok(n as int),
        Err(e) => Err(e),
    }
}

impl Task {
    /// The resources that do the work: what is allocated, or what was
    /// planned while nothing is allocated. In thousandths.
    pub open spec fn effective_resources(&self) -> nat {
        if self.allocated_resources == 0 {
            self.planned_resources as nat
        } else {
            self.allocated_resources as nat
        }
    }

    /// Daily capacity, in thousandths of an effort-unit per working day.
    pub open spec fn work_force(&self) -> nat {
        self.effective_resources() * (GENERIC_RESOURCE_OUTPUT as nat)
    }

    /// The working days that the task needs: duration over work force.
    pub open spec fn spec_work_days(&self) -> WorkDays {
        WorkDays {
            numerator: (self.duration * WORK_DAYS_PER_EFFORT) as u64,
            denominator: self.effective_resources() as u128,
        }
    }

    /// The end date of the task when it starts on its earliest start date.
    pub open spec fn spec_end_date(&self) -> Result<int, ScheduleError> {
        let work = self.spec_work_days();
        if work.is_unbounded() {
            Err(ScheduleError::DateOverflow { task_id: self.id })
        } else {
            match spec_add_work_days(self.earliest_start_date@, work.occupied()) {
                Some(end) => Ok(end),
                None => Err(ScheduleError::DateOverflow { task_id: self.id }),
            }
        }
    }

    /// Whole days from the earliest start date to the end date.
    pub open spec fn spec_calendar_days(&self) -> Result<int, ScheduleError> {
        match self.spec_end_date() {
            Ok(end) => Ok(end - self.earliest_start_date@),
            Err(e) => Err(e),
        }
    }

    /// Working days outstanding at `reference` when the task starts on
    /// `start`; work without end has no such number.
    pub open spec fn spec_days_remaining_at(&self, reference: int, start: int) -> Result<
        int,
        ScheduleError,
    > {
        match spec_days_remaining(start, reference, self.spec_work_days()) {
            Some(n) => Ok(n as int),
            None => Err(ScheduleError::DateOverflow { task_id: self.id }),
        }
    }

    /// The work of a task is its duration divided by its work force, both
    /// taken in thousandths of an effort-unit.
    pub proof fn lemma_work_days_is_duration_over_work_force(&self)
        ensures
            self.spec_work_days().numerator * self.work_force() == self.spec_work_days().denominator
                * (self.duration * RESOURCE_SCALE),
    {
        let r = self.effective_resources() as int;
        let d = self.duration as int;
        assert((d * 125) * (r * 8) == r * (d * 1000)) by (nonlinear_arith);
    }

    pub fn set_allocated_resources(&mut self, allocated_resources: u128)
        ensures
            *final(self) == (Task { allocated_resources, ..*old(self) }),
    {
        self.allocated_resources = allocated_resources;
    }

    pub fn get_effective_resources(&self) -> (r: u128)
        ensures
            r == self.effective_resources(),
    {
        if self.allocated_resources == 0 {
            self.planned_resources as u128
        } else {
            self.allocated_resources
        }
    }

    /// Daily capacity of the task, in thousandths of an effort-unit per
    /// working day; `None` where that number does not fit.
    pub fn get_work_force(&self) -> (w: Option<u128>)
        ensures
            w.is_some() <==> self.work_force() <= u128::MAX,
            w matches Some(n) ==> n == self.work_force(),
    {
        self.get_effective_resources().checked_mul(GENERIC_RESOURCE_OUTPUT as u128)
    }

    /// The number of working days that the task needs.
    pub fn get_work_days(&self) -> (work: WorkDays)
        ensures
            work == self.spec_work_days(),
    {
        WorkDays {
            numerator: self.duration as u64 * WORK_DAYS_PER_EFFORT,
            denominator: self.get_effective_resources(),
        }
    }

    /// The end date given the resources at work, counted from the earliest
    /// start date.
    pub fn get_end_date(&self) -> (r: Result<Date, ScheduleError>)
        ensures
            dated(r) == self.spec_end_date(),
            r matches Ok(end) ==> self.earliest_start_date@ <= end@,
    {
        let work = self.get_work_days();
        if work.is_unbounded() {
            return Err(ScheduleError::DateOverflow { task_id: self.id });
        }
        match self.earliest_start_date.add_work_days(work.occupied_days()) {
            Some(end) => Ok(end),
            None => Err(ScheduleError::DateOverflow { task_id: self.id }),
        }
    }

    /// The number of calendar days between start and end.
    pub fn get_calendar_days(&self) -> (r: Result<u32, ScheduleError>)
        ensures
            counted(r) == self.spec_calendar_days(),
            r matches Ok(days) ==> self.earliest_start_date@ + days <= MAX_JULIAN_DAY,
    {
        match self.get_end_date() {
            Ok(end) => {
                let days: i64 = end.days_since(self.earliest_start_date);
                Ok(days as u32)
            },
            Err(e) => Err(e),
        }
    }

    /// Whole working days outstanding at `reference_date` when the task
    /// starts on `start_date`.
    pub fn get_days_remaining_at(&self, reference_date: Date, start_date: Date) -> (r: Result<
        u64,
        ScheduleError,
    >)
        ensures
            counted(r) == self.spec_days_remaining_at(reference_date@, start_date@),
            r.is_ok() <==> !self.spec_work_days().is_unbounded(),
    {
        match start_date.work_days_remaining_at(reference_date, self.get_work_days()) {
            Some(n) => Ok(n),
            None => Err(ScheduleError::DateOverflow { task_id: self.id }),
        }
    }
}

/// Index of the first task with the given identifier.
#[verifier::opaque]
pub open spec fn spec_find_task(tasks: Seq<Task>, task_id: u32) -> Option<int> {
    if exists|i: int| 0 <= i < tasks.len() && tasks[i].id == task_id {
        Some(
            choose|i: int|
                0 <= i < tasks.len() && tasks[i].id == task_id && forall|j: int|
                    0 <= j < i ==> tasks[j].id != task_id,
        )
    } else {
        None
    }
}

/// Some task up to index `bound` has the identifier, so one of them is
/// the first to have it.
proof fn lemma_first_match(tasks: Seq<Task>, task_id: u32, bound: int) -> (first: int)
    requires
        0 <= bound < tasks.len(),
        tasks[bound].id == task_id,
    ensures
        0 <= first <= bound,
        tasks[first].id == task_id,
        forall|j: int| 0 <= j < first ==> tasks[j].id != task_id,
    decreases bound,
{
    if exists|j: int| 0 <= j < bound && tasks[j].id == task_id {
        let j = choose|j: int| 0 <= j < bound && tasks[j].id == task_id;
        lemma_first_match(tasks, task_id, j)
    } else {
        bound
    }
}

/// The task that is found has the identifier and is the first to have it;
/// none is found only where no task has it.
pub proof fn lemma_find_task(tasks: Seq<Task>, task_id: u32)
    ensures
        match spec_find_task(tasks, task_id) {
            Some(i) => 0 <= i < tasks.len() && tasks[i].id == task_id && forall|j: int|
                0 <= j < i ==> tasks[j].id != task_id,
            None => forall|j: int| 0 <= j < tasks.len() ==> tasks[j].id != task_id,
        },
{
    reveal(spec_find_task);
    if exists|i: int| 0 <= i < tasks.len() && tasks[i].id == task_id {
        let i = choose|i: int| 0 <= i < tasks.len() && tasks[i].id == task_id;
        let first = lemma_first_match(tasks, task_id, i);
        assert(0 <= first < tasks.len() && tasks[first].id == task_id && forall|j: int|
            0 <= j < first ==> tasks[j].id != task_id);
    }
}

/// Sum of the loads of the first `upto` allocations that belong to the task.
pub open spec fn spec_task_load(allocations: Seq<Allocation>, task_id: u32, upto: nat) -> nat
    decreases upto,
{
    if upto == 0 {
        0
    } else {
        spec_task_load(allocations, task_id, (upto - 1) as nat) + if allocations[upto - 1].taskid
            == task_id {
            allocations[upto - 1].load as nat
        } else {
            0nat
        }
    }
}

/// `after` is `before` with the allocated resources of every task set to
/// the sum of the loads allocated to it, and nothing else changed.
pub open spec fn allocations_calculated(before: Project, after: Project) -> bool {
    &&& after.resources@ == before.resources@
    &&& after.allocations@ == before.allocations@
    &&& after.tasks@.len() == before.tasks@.len()
    &&& forall|i: int|
        0 <= i < before.tasks@.len() ==> #[trigger] after.tasks@[i] == (Task {
            allocated_resources: spec_task_load(
                before.allocations@,
                before.tasks@[i].id,
                before.allocations@.len(),
            ) as u128,
            ..before.tasks@[i]
        })
}

/// Calculating the allocated resources a second time changes no task.
pub proof fn lemma_calculate_resource_allocations_idempotent(
    before: Project,
    once: Project,
    twice: Project,
)
    requires
        allocations_calculated(before, once),
        allocations_calculated(once, twice),
    ensures
        twice.tasks@ == once.tasks@,
        forall|i: int|
            0 <= i < once.tasks@.len() ==> twice.tasks@[i].allocated_resources
                == once.tasks@[i].allocated_resources,
{
    assert forall|i: int| 0 <= i < once.tasks@.len() implies twice.tasks@[i] == once.tasks@[i] by {
        assert(once.tasks@[i].id == before.tasks@[i].id);
    }
    assert(twice.tasks@ =~= once.tasks@);
}

impl Project {
    /// The first task with the given identifier, by its index.
    pub fn find_task(&self, task_id: u32) -> (r: Option<usize>)
        ensures
            r matches Some(i) ==> spec_find_task(self.tasks@, task_id) == Some(i as int),
            r.is_none() ==> spec_find_task(self.tasks@, task_id).is_none(),
            r matches Some(i) ==> i < self.tasks@.len() && self.tasks@[i as int].id == task_id
                && forall|j: int| 0 <= j < i ==> self.tasks@[j].id != task_id,
            r.is_none() ==> forall|j: int| 0 <= j < self.tasks@.len() ==> self.tasks@[j].id != task_id,
    {
        proof {
            lemma_find_task(self.tasks@, task_id);
        }
        let mut i: usize = 0;
        while i < self.tasks.len()
            invariant
                i <= self.tasks@.len(),
                forall|j: int| 0 <= j < i ==> self.tasks@[j].id != task_id,
                match spec_find_task(self.tasks@, task_id) {
                    Some(i) => 0 <= i < self.tasks@.len() && self.tasks@[i].id == task_id
                        && forall|j: int| 0 <= j < i ==> self.tasks@[j].id != task_id,
                    None => forall|j: int|
                        0 <= j < self.tasks@.len() ==> self.tasks@[j].id != task_id,
                },
            decreases self.tasks@.len() - i,
        {
            if self.tasks[i].id == task_id {
                return Some(i);
            }
            i = i + 1;
        }
        None
    }

    /// A copy of the first resource with the given identifier.
    pub fn get_resource_by_id(&self, resource_id: u32) -> (r: Result<Resource, ScheduleError>)
        ensures
            r matches Ok(found) ==> exists|i: int|
                0 <= i < self.resources@.len() && found == self.resources@[i] && found.id
                    == resource_id && forall|j: int|
                    0 <= j < i ==> self.resources@[j].id != resource_id,
            r matches Err(e) ==> e == (ScheduleError::MissingResource { resource_id })
                && forall|j: int|
                0 <= j < self.resources@.len() ==> self.resources@[j].id != resource_id,
    {
        let mut i: usize = 0;
        while i < self.resources.len()
            invariant
                i <= self.resources@.len(),
                forall|j: int| 0 <= j < i ==> self.resources@[j].id != resource_id,
            decreases self.resources@.len() - i,
        {
            if self.resources[i].id == resource_id {
                let found = Resource {
                    id: self.resources[i].id,
                    label: self.resources[i].label.clone(),
                    output: self.resources[i].output,
                };
                assert(found == self.resources@[i as int]);
                return Ok(found);
            }
            i = i + 1;
        }
        Err(ScheduleError::MissingResource { resource_id })
    }

    /// Sum of the loads of all allocations to the task, in thousandths.
    pub fn get_resource_allocations_for_task(&self, task_id: u32) -> (sum: u128)
        ensures
            sum == spec_task_load(self.allocations@, task_id, self.allocations@.len()),
    {
        let mut sum: u128 = 0;
        let mut i: usize = 0;
        while i < self.allocations.len()
            invariant
                i <= self.allocations@.len(),
                sum == spec_task_load(self.allocations@, task_id, i as nat),
                sum <= i * 0xFFFF_FFFF,
            decreases self.allocations@.len() - i,
        {
            if self.allocations[i].taskid == task_id {
                sum = sum + self.allocations[i].load as u128;
            }
            i = i + 1;
        }
        sum
    }

    /// Sets the allocated resources of every task, in declaration order, to
    /// the sum of the loads allocated to it.
    pub fn calculate_resource_allocations(&mut self)
        ensures
            allocations_calculated(*old(self), *final(self)),
    {
        let mut i: usize = 0;
        while i < self.tasks.len()
            invariant
                i <= self.tasks@.len(),
                self.resources@ == old(self).resources@,
                self.allocations@ == old(self).allocations@,
                self.tasks@.len() == old(self).tasks@.len(),
                forall|k: int|
                    i <= k < self.tasks@.len() ==> self.tasks@[k] == old(self).tasks@[k],
                forall|k: int|
                    0 <= k < i ==> #[trigger] self.tasks@[k] == (Task {
                        allocated_resources: spec_task_load(
                            old(self).allocations@,
                            old(self).tasks@[k].id,
                            old(self).allocations@.len(),
                        ) as u128,
                        ..old(self).tasks@[k]
                    }),
            decreases self.tasks@.len() - i,
        {
            let sum: u128 = self.get_resource_allocations_for_task(self.tasks[i].id);
            self.tasks[i].set_allocated_resources(sum);
            i = i + 1;
        }
    }
}

} // verus!
