//! The load that a resource carries on a day.

use vstd::prelude::*;
use crate::calendar::Date;
use crate::pom::{counted, spec_find_task, Allocation, Project, ScheduleError, Task};
use crate::schedule::{spec_actual_end_date, spec_actual_start_date};

verus! {

/// Load that the resource carries on `day` through the first `upto`
/// allocations: the sum of the loads of those that name the resource and
/// whose task is active on that day, from its actual start date to its
/// actual end date, both included. The first allocation of the resource
/// whose task is missing or cannot be scheduled fails the whole sum.
pub open spec fn spec_resource_load(project: Project, resource_id: u32, day: int, upto: nat) -> Result<
    int,
    ScheduleError,
>
    decreases upto,
{
    if upto == 0 {
        Ok(0)
    } else {
        match spec_resource_load(project, resource_id, day, (upto - 1) as nat) {
            Err(e) => Err(e),
            Ok(sum) => {
                let allocation = project.allocations@[upto - 1];
                if allocation.resourceid != resource_id {
                    Ok(sum)
                } else {
                    spec_add_load_if_active(project.tasks@, allocation, day, sum)
                }
            },
        }
    }
}

/// `sum` with the load of the allocation added where its task is active on
/// `day`.
pub open spec fn spec_add_load_if_active(
    tasks: Seq<Task>,
    allocation: Allocation,
    day: int,
    sum: int,
) -> Result<int, ScheduleError> {
    match spec_find_task(tasks, allocation.taskid) {
        None => Err(ScheduleError::MissingTask { task_id: allocation.taskid }),
        Some(i) => match spec_actual_start_date(tasks, tasks[i], tasks.len()) {
            Err(e) => Err(e),
            Ok(start) => match spec_actual_end_date(tasks, tasks[i], tasks.len()) {
                Err(e) => Err(e),
                Ok(end) => if start <= day <= end {
                    Ok(sum + allocation.load)
                } else {
                    Ok(sum)
                },
            },
        },
    }
}

/// Once the load has failed at some allocation, it fails the same way
/// however many more are taken in.
pub proof fn lemma_resource_load_failure(
    project: Project,
    resource_id: u32,
    day: int,
    upto: nat,
    later: nat,
)
    requires
        upto <= later,
        spec_resource_load(project, resource_id, day, upto).is_err(),
    ensures
        spec_resource_load(project, resource_id, day, later) == spec_resource_load(
            project,
            resource_id,
            day,
            upto,
        ),
    decreases later - upto,
{
    if upto < later {
        lemma_resource_load_failure(project, resource_id, day, upto, (later - 1) as nat);
    }
}

impl Project {
    /// `sum` with the load of the allocation added where its task is
    /// active on `day`.
    fn add_load_if_active(&self, allocation: Allocation, day: Date, sum: u128) -> (r: Result<
        u128,
        ScheduleError,
    >)
        requires
            sum + allocation.load <= u128::MAX,
        ensures
            counted(r) == spec_add_load_if_active(self.tasks@, allocation, day@, sum as int),
            r matches Ok(next) ==> next <= sum + allocation.load,
    {
        let at: usize = match self.find_task(allocation.taskid) {
            Some(at) => at,
            None => {
                return Err(ScheduleError::MissingTask { task_id: allocation.taskid });
            },
        };
        let start = match self.tasks[at].get_actual_start_date(self) {
            Ok(start) => start,
            Err(e) => {
                return Err(e);
            },
        };
        let end = match self.tasks[at].get_actual_end_date(self) {
            Ok(end) => end,
            Err(e) => {
                return Err(e);
            },
        };
        if day.to_julian_day() >= start.to_julian_day() && day.to_julian_day()
            <= end.to_julian_day() {
            Ok(sum + allocation.load as u128)
        } else {
            Ok(sum)
        }
    }

    /// Load that the resource carries on `day`, in thousandths: above 1000
    /// the resource is over-allocated, at zero it is idle.
    pub fn calculate_resource_load(&self, resource_id: u32, day: Date) -> (r: Result<
        u128,
        ScheduleError,
    >)
        ensures
            counted(r) == spec_resource_load(*self, resource_id, day@, self.allocations@.len()),
    {
        let mut sum: u128 = 0;
        let mut i: usize = 0;
        while i < self.allocations.len()
            invariant
                i <= self.allocations@.len(),
                spec_resource_load(*self, resource_id, day@, i as nat) == Ok::<int, ScheduleError>(
                    sum as int,
                ),
                sum <= i * 0xFFFF_FFFF,
            decreases self.allocations@.len() - i,
        {
            let allocation = self.allocations[i];
            if allocation.resourceid == resource_id {
                match self.add_load_if_active(allocation, day, sum) {
                    Ok(next) => {
                        sum = next;
                    },
                    Err(e) => {
                        proof {
                            lemma_resource_load_failure(
                                *self,
                                resource_id,
                                day@,
                                (i + 1) as nat,
                                self.allocations@.len(),
                            );
                        }
                        return Err(e);
                    },
                }
            }
            i = i + 1;
        }
        Ok(sum)
    }
}

} // verus!
