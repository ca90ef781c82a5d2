use project_schedule::calendar::{Date, Weekday};
use project_schedule::pom::{Allocation, Project, Resource, ScheduleError, Task};
use project_schedule::work_days::WorkDays;
use time::Month;

fn date(year: i32, month: Month, day: u8) -> Date {
    let julian_day = time::Date::from_calendar_date(year, month, day)
        .unwrap()
        .to_julian_day();
    Date::from_julian_day(julian_day).unwrap()
}

fn make_simple_task(duration: u32, planned_resources: u32) -> Task {
    Task {
        id: 0,
        duration,
        label: "".to_string(),
        earliest_start_date: date(2023, Month::February, 1),
        planned_resources,
        predecessors: vec![],
        allocated_resources: 0,
    }
}

fn make_chain() -> Project {
    let t0 = Task {
        id: 0,
        duration: 40,
        label: "First".to_string(),
        earliest_start_date: date(2023, Month::June, 1),
        planned_resources: 1000,
        predecessors: vec![],
        allocated_resources: 0,
    };
    let t1 = Task {
        id: 1,
        duration: 40,
        label: "Second".to_string(),
        earliest_start_date: date(2023, Month::June, 1),
        planned_resources: 1000,
        predecessors: vec![0],
        allocated_resources: 0,
    };
    Project {
        resources: vec![],
        tasks: vec![t0, t1],
        allocations: vec![],
    }
}

fn make_project() -> Project {
    let t0 = Task {
        id: 0,
        duration: 40,
        label: "First".to_string(),
        earliest_start_date: date(2023, Month::June, 1),
        planned_resources: 1000,
        predecessors: vec![],
        allocated_resources: 0,
    };
    let t1 = Task {
        id: 1,
        duration: 40,
        label: "Second".to_string(),
        earliest_start_date: date(2023, Month::June, 3),
        planned_resources: 1000,
        predecessors: vec![],
        allocated_resources: 0,
    };
    Project {
        resources: vec![],
        tasks: vec![t0, t1],
        allocations: vec![],
    }
}

fn make_loaded_project() -> Project {
    let mut project = make_project();
    project.resources.push(Resource {
        id: 0,
        label: "r1".to_string(),
        output: 40_000,
    });
    project.allocations.push(Allocation {
        taskid: 0,
        resourceid: 0,
        load: 800,
    });
    project.allocations.push(Allocation {
        taskid: 1,
        resourceid: 0,
        load: 500,
    });
    project
}

#[test]
pub fn can_calculate_working_days() {
    let t = make_simple_task(80, 1000);
    let work = t.get_work_days();
    assert_eq!(10.0, work.numerator as f64 / work.denominator as f64);
    assert_eq!(work.numerator as u128, 10 * work.denominator);
}

#[test]
pub fn can_calculate_end_date() {
    let mut t = make_simple_task(80, 2000);
    t.earliest_start_date = date(2023, Month::June, 8);
    let end = t.get_end_date();

    // Five working days from a Thursday: the weekend in between puts the
    // end on the Thursday of the following week.
    assert_eq!(end, Ok(date(2023, Month::June, 15)))
}

#[test]
pub fn can_calculate_start_date_with_predecessor() {
    let proj = make_chain();
    let start_date = proj.tasks[1].get_actual_start_date(&proj);
    assert_eq!(start_date, Ok(date(2023, Month::June, 8)))
}

#[test]
pub fn can_calculate_end_date_with_predecessor() {
    let proj = make_chain();
    let end_date = proj.tasks[1].get_actual_end_date(&proj);
    assert_eq!(end_date, Ok(date(2023, Month::June, 15)))
}

#[test]
pub fn can_calculate_resource_load_simple() {
    let project = make_loaded_project();

    let load = project.calculate_resource_load(0, date(2023, Month::June, 1));
    assert_eq!(Ok(800), load);

    let load2 = project.calculate_resource_load(0, date(2023, Month::June, 3));
    assert_eq!(Ok(1300), load2);
}

#[test]
fn work_days_are_duration_over_work_force() {
    let mut t = make_simple_task(60, 1500);
    // 60 effort-units at 1.5 resources of 8 units a day: 5 days.
    let work = t.get_work_days();
    assert_eq!(work, WorkDays { numerator: 7500, denominator: 1500 });
    assert_eq!(work.whole_days(), 5);
    assert_eq!(work.occupied_days(), 5);
    // Allocated resources replace the planned ones once they are set.
    t.set_allocated_resources(500);
    assert_eq!(t.get_effective_resources(), 500);
    let work = t.get_work_days();
    assert_eq!(work, WorkDays { numerator: 7500, denominator: 500 });
    assert_eq!(work.whole_days(), 15);
}

#[test]
fn fractional_work_occupies_a_whole_day() {
    // 1 effort-unit for one resource is an eighth of a day.
    let mut t = make_simple_task(1, 1000);
    let work = t.get_work_days();
    assert_eq!(work.whole_days(), 0);
    assert_eq!(work.occupied_days(), 1);
    assert!(!work.is_unbounded());
    t.earliest_start_date = date(2023, Month::June, 9);
    // From a Friday the one working day is the Monday after.
    assert_eq!(t.get_end_date(), Ok(date(2023, Month::June, 12)));
    assert_eq!(t.get_calendar_days(), Ok(3));
}

#[test]
fn work_days_round_down_and_up() {
    let w = WorkDays { numerator: 7, denominator: 2 };
    assert_eq!(w.whole_days(), 3);
    assert_eq!(w.occupied_days(), 4);
    let small = WorkDays { numerator: 3, denominator: 1u128 << 70 };
    assert_eq!(small.whole_days(), 0);
    assert_eq!(small.occupied_days(), 1);
    let none = WorkDays { numerator: 0, denominator: 0 };
    assert!(!none.is_unbounded());
    assert_eq!(none.whole_days(), 0);
    assert_eq!(none.occupied_days(), 0);
    let endless = WorkDays { numerator: 1, denominator: 0 };
    assert!(endless.is_unbounded());
    let full = WorkDays { numerator: u64::MAX, denominator: 1 };
    assert_eq!(full.occupied_days(), u64::MAX);
}

#[test]
fn task_without_work_ends_where_it_starts() {
    let t = make_simple_task(0, 1000);
    assert_eq!(t.get_end_date(), Ok(date(2023, Month::February, 1)));
    assert_eq!(t.get_calendar_days(), Ok(0));
    // No work and no resources is still no work.
    let idle = make_simple_task(0, 0);
    assert_eq!(idle.get_end_date(), Ok(date(2023, Month::February, 1)));
}

#[test]
fn task_without_resources_overflows() {
    let t = make_simple_task(8, 0);
    assert_eq!(t.get_end_date(), Err(ScheduleError::DateOverflow { task_id: 0 }));
    assert_eq!(t.get_calendar_days(), Err(ScheduleError::DateOverflow { task_id: 0 }));
    assert_eq!(
        t.get_days_remaining_at(date(2023, Month::February, 2), date(2023, Month::February, 1)),
        Err(ScheduleError::DateOverflow { task_id: 0 })
    );
}

#[test]
fn task_at_the_end_of_the_calendar_overflows() {
    let mut t = make_simple_task(80, 1000);
    t.id = 7;
    t.earliest_start_date = date(9999, Month::December, 25);
    assert_eq!(t.get_end_date(), Err(ScheduleError::DateOverflow { task_id: 7 }));
}

#[test]
fn weekday_follows_the_calendar() {
    assert_eq!(date(2023, Month::June, 8).weekday(), Weekday::Thursday);
    assert_eq!(date(2023, Month::June, 10).weekday(), Weekday::Saturday);
    assert_eq!(date(2023, Month::June, 11).weekday(), Weekday::Sunday);
    assert_eq!(date(2023, Month::June, 12).weekday(), Weekday::Monday);
    assert_eq!(date(2023, Month::June, 13).weekday(), Weekday::Tuesday);
    assert_eq!(date(2023, Month::June, 14).weekday(), Weekday::Wednesday);
    assert_eq!(date(2023, Month::June, 16).weekday(), Weekday::Friday);
    assert_eq!(date(-4713, Month::November, 24).weekday(), Weekday::Monday);
    assert_eq!(date(-4713, Month::November, 23).weekday(), Weekday::Sunday);
    assert!(date(2023, Month::June, 9).is_working_day());
    assert!(!date(2023, Month::June, 10).is_working_day());
    assert!(!date(2023, Month::June, 11).is_working_day());
}

#[test]
fn julian_day_round_trip_and_limits() {
    assert_eq!(date(2000, Month::January, 1).to_julian_day(), 2_451_545);
    assert_eq!(time::Date::MIN.to_julian_day(), project_schedule::calendar::MIN_JULIAN_DAY);
    assert_eq!(time::Date::MAX.to_julian_day(), project_schedule::calendar::MAX_JULIAN_DAY);
    assert!(Date::from_julian_day(project_schedule::calendar::MIN_JULIAN_DAY).is_some());
    assert!(Date::from_julian_day(project_schedule::calendar::MAX_JULIAN_DAY).is_some());
    assert!(Date::from_julian_day(project_schedule::calendar::MIN_JULIAN_DAY - 1).is_none());
    assert!(Date::from_julian_day(project_schedule::calendar::MAX_JULIAN_DAY + 1).is_none());
}

#[test]
fn adding_days_moves_the_date() {
    let d = date(2023, Month::February, 27);
    assert_eq!(d.checked_add_days(0), Some(d));
    assert_eq!(d.checked_add_days(2), Some(date(2023, Month::March, 1)));
    assert_eq!(d.checked_add_days(366), Some(date(2024, Month::February, 28)));
    assert_eq!(date(9999, Month::December, 31).checked_add_days(1), None);
    assert_eq!(
        date(9999, Month::December, 30).checked_add_days(1),
        Some(date(9999, Month::December, 31))
    );
    assert_eq!(d.checked_add_days(u32::MAX), None);
    assert_eq!(date(2023, Month::March, 1).days_since(d), 2);
    assert_eq!(d.days_since(date(2023, Month::March, 1)), -2);
}

#[test]
fn working_days_skip_weekends() {
    let thursday = date(2023, Month::June, 8);
    assert_eq!(thursday.add_work_days(0), Some(thursday));
    assert_eq!(thursday.add_work_days(1), Some(date(2023, Month::June, 9)));
    assert_eq!(thursday.add_work_days(2), Some(date(2023, Month::June, 12)));
    assert_eq!(thursday.add_work_days(5), Some(date(2023, Month::June, 15)));
    let saturday = date(2023, Month::June, 10);
    assert_eq!(saturday.add_work_days(1), Some(date(2023, Month::June, 12)));
    assert_eq!(date(9999, Month::December, 31).add_work_days(1), None);
    assert_eq!(thursday.add_work_days(u64::MAX), None);
}

#[test]
fn remaining_work_days_at_a_reference_date() {
    let mut t = make_simple_task(80, 2000);
    let start = date(2023, Month::June, 8);
    t.earliest_start_date = start;
    // Not begun: the whole work is outstanding.
    assert_eq!(t.get_days_remaining_at(date(2023, Month::June, 7), start), Ok(5));
    assert_eq!(t.get_days_remaining_at(start, start), Ok(5));
    // The walk stops on the reference date; weekends consume nothing.
    assert_eq!(t.get_days_remaining_at(date(2023, Month::June, 9), start), Ok(4));
    assert_eq!(t.get_days_remaining_at(date(2023, Month::June, 10), start), Ok(4));
    assert_eq!(t.get_days_remaining_at(date(2023, Month::June, 11), start), Ok(4));
    assert_eq!(t.get_days_remaining_at(date(2023, Month::June, 12), start), Ok(3));
    assert_eq!(t.get_days_remaining_at(date(2023, Month::June, 14), start), Ok(1));
    assert_eq!(t.get_days_remaining_at(date(2023, Month::June, 15), start), Ok(0));
    assert_eq!(t.get_days_remaining_at(date(2024, Month::June, 14), start), Ok(0));
    // Only whole days count: two and a half days of work.
    let part = make_simple_task(20, 1000);
    let begun = date(2023, Month::February, 1);
    assert_eq!(part.get_days_remaining_at(date(2023, Month::January, 1), begun), Ok(2));
    assert_eq!(part.get_days_remaining_at(begun, begun), Ok(2));
    assert_eq!(part.get_days_remaining_at(date(2023, Month::February, 2), begun), Ok(1));
    assert_eq!(part.get_days_remaining_at(date(2023, Month::February, 3), begun), Ok(0));
    assert_eq!(part.get_days_remaining_at(date(2023, Month::February, 6), begun), Ok(0));
}

#[test]
fn remaining_work_days_at_the_end_of_the_calendar() {
    let mut t = make_simple_task(80, 1000);
    let last = date(9999, Month::December, 31);
    // A Monday, four working days before the last date.
    t.earliest_start_date = date(9999, Month::December, 27);
    assert_eq!(t.get_end_date(), Err(ScheduleError::DateOverflow { task_id: 0 }));
    assert_eq!(t.get_days_remaining_at(last, t.earliest_start_date), Ok(6));
    assert_eq!(t.get_days_remaining_at(date(9999, Month::December, 28), t.earliest_start_date), Ok(9));
    assert_eq!(t.get_days_remaining_at(last, last), Ok(10));
}

#[test]
fn task_without_predecessors_starts_on_its_earliest_start_date() {
    let proj = make_project();
    for t in proj.tasks.iter() {
        assert_eq!(t.get_actual_start_date(&proj), Ok(t.earliest_start_date));
        assert_eq!(t.get_actual_end_date(&proj), t.get_end_date());
    }
    let empty = Project { tasks: vec![], resources: vec![], allocations: vec![] };
    let t = make_simple_task(80, 1000);
    assert_eq!(t.get_actual_start_date(&empty), Ok(t.earliest_start_date));
}

#[test]
fn predecessors_never_pull_a_start_earlier() {
    let mut proj = make_chain();
    proj.tasks[1].earliest_start_date = date(2023, Month::July, 3);
    assert_eq!(proj.tasks[1].get_actual_start_date(&proj), Ok(date(2023, Month::July, 3)));
    assert_eq!(proj.tasks[1].get_actual_end_date(&proj), Ok(date(2023, Month::July, 10)));
}

#[test]
fn latest_predecessor_decides() {
    let mut proj = make_chain();
    let t2 = Task {
        id: 2,
        duration: 80,
        label: "Third".to_string(),
        earliest_start_date: date(2023, Month::June, 1),
        planned_resources: 1000,
        predecessors: vec![],
        allocated_resources: 0,
    };
    let t3 = Task {
        id: 3,
        duration: 8,
        label: "Fourth".to_string(),
        earliest_start_date: date(2023, Month::June, 1),
        planned_resources: 1000,
        predecessors: vec![1, 2, 0],
        allocated_resources: 0,
    };
    proj.tasks.push(t2);
    proj.tasks.push(t3);
    assert_eq!(proj.tasks[2].get_actual_end_date(&proj), Ok(date(2023, Month::June, 15)));
    assert_eq!(proj.tasks[3].get_actual_start_date(&proj), Ok(date(2023, Month::June, 15)));
    assert_eq!(proj.tasks[3].get_actual_end_date(&proj), Ok(date(2023, Month::June, 16)));
}

#[test]
fn missing_predecessor_is_an_error() {
    let mut proj = make_chain();
    proj.tasks[1].predecessors = vec![0, 99];
    assert_eq!(
        proj.tasks[1].get_actual_start_date(&proj),
        Err(ScheduleError::MissingTask { task_id: 99 })
    );
    assert_eq!(
        proj.tasks[1].get_actual_end_date(&proj),
        Err(ScheduleError::MissingTask { task_id: 99 })
    );
    let at = date(2023, Month::June, 1);
    assert_eq!(
        proj.tasks[1].get_actual_remaining_work_days(&proj, at),
        Err(ScheduleError::MissingTask { task_id: 99 })
    );
    assert_eq!(
        proj.tasks[1].get_actual_remaining_calender_days(&proj, at),
        Err(ScheduleError::MissingTask { task_id: 99 })
    );
}

#[test]
fn predecessor_cycle_is_an_error() {
    let mut proj = make_chain();
    proj.tasks[0].predecessors = vec![1];
    assert!(matches!(
        proj.tasks[1].get_actual_start_date(&proj),
        Err(ScheduleError::CyclicDependency { .. })
    ));
    assert!(matches!(
        proj.tasks[0].get_actual_end_date(&proj),
        Err(ScheduleError::CyclicDependency { .. })
    ));
    let mut own = make_chain();
    own.tasks[1].predecessors = vec![1];
    assert_eq!(
        own.tasks[1].get_actual_start_date(&own),
        Err(ScheduleError::CyclicDependency { task_id: 1 })
    );
}

#[test]
fn longest_chain_without_a_cycle_resolves() {
    let mut tasks = vec![];
    for id in 0..6u32 {
        tasks.push(Task {
            id,
            duration: 8,
            label: format!("t{}", id),
            earliest_start_date: date(2023, Month::June, 5),
            planned_resources: 1000,
            predecessors: if id == 0 { vec![] } else { vec![id - 1] },
            allocated_resources: 0,
        });
    }
    let proj = Project { tasks, resources: vec![], allocations: vec![] };
    // One working day each, handed on from end to start.
    assert_eq!(proj.tasks[5].get_actual_start_date(&proj), Ok(date(2023, Month::June, 10)));
    assert_eq!(proj.tasks[5].get_actual_end_date(&proj), Ok(date(2023, Month::June, 11)));
}

#[test]
fn actual_dates_overflow_at_the_end_of_the_calendar() {
    let mut proj = make_chain();
    proj.tasks[0].earliest_start_date = date(9999, Month::December, 20);
    assert_eq!(proj.tasks[0].get_actual_end_date(&proj), Ok(date(9999, Month::December, 27)));
    assert_eq!(
        proj.tasks[1].get_actual_end_date(&proj),
        Err(ScheduleError::DateOverflow { task_id: 1 })
    );
}

#[test]
fn remaining_calendar_days_in_three_cases() {
    let proj = make_chain();
    let t = &proj.tasks[1];
    // Runs from 2023-06-08 to 2023-06-15.
    assert_eq!(t.get_actual_remaining_calender_days(&proj, date(2023, Month::June, 16)), Ok(0));
    assert_eq!(t.get_actual_remaining_calender_days(&proj, date(2024, Month::June, 16)), Ok(0));
    assert_eq!(t.get_actual_remaining_calender_days(&proj, date(2023, Month::June, 15)), Ok(0));
    assert_eq!(t.get_actual_remaining_calender_days(&proj, date(2023, Month::June, 10)), Ok(5));
    assert_eq!(t.get_actual_remaining_calender_days(&proj, date(2023, Month::June, 9)), Ok(6));
    assert_eq!(t.get_actual_remaining_calender_days(&proj, date(2023, Month::June, 8)), Ok(7));
    assert_eq!(t.get_actual_remaining_calender_days(&proj, date(2023, Month::June, 1)), Ok(7));
    assert_eq!(t.get_actual_remaining_calender_days(&proj, date(2020, Month::June, 1)), Ok(7));
}

#[test]
fn remaining_work_days_count_from_the_actual_start() {
    let proj = make_chain();
    let t = &proj.tasks[1];
    // Starts on 2023-06-08, a Thursday, with five days of work.
    assert_eq!(t.get_actual_remaining_work_days(&proj, date(2023, Month::June, 1)), Ok(5));
    assert_eq!(t.get_actual_remaining_work_days(&proj, date(2023, Month::June, 8)), Ok(5));
    assert_eq!(t.get_actual_remaining_work_days(&proj, date(2023, Month::June, 9)), Ok(4));
    assert_eq!(t.get_actual_remaining_work_days(&proj, date(2023, Month::June, 12)), Ok(3));
    assert_eq!(t.get_actual_remaining_work_days(&proj, date(2023, Month::June, 15)), Ok(0));
    assert_eq!(t.get_actual_remaining_work_days(&proj, date(2023, Month::June, 30)), Ok(0));
    // The first task counts from its own earliest start date.
    let first = &proj.tasks[0];
    assert_eq!(first.get_actual_remaining_work_days(&proj, date(2023, Month::June, 2)), Ok(4));
}

#[test]
fn allocations_sum_per_task() {
    let mut project = make_loaded_project();
    project.allocations.push(Allocation { taskid: 0, resourceid: 5, load: 250 });
    assert_eq!(project.get_resource_allocations_for_task(0), 1050);
    assert_eq!(project.get_resource_allocations_for_task(1), 500);
    assert_eq!(project.get_resource_allocations_for_task(2), 0);
}

#[test]
fn calculating_allocations_twice_changes_nothing() {
    let mut project = make_loaded_project();
    project.calculate_resource_allocations();
    let once: Vec<u128> = project.tasks.iter().map(|t| t.allocated_resources).collect();
    assert_eq!(once, vec![800, 500]);
    project.calculate_resource_allocations();
    let twice: Vec<u128> = project.tasks.iter().map(|t| t.allocated_resources).collect();
    assert_eq!(once, twice);
    assert_eq!(project.tasks[0].label, "First");
    assert_eq!(project.tasks[1].earliest_start_date, date(2023, Month::June, 3));
    assert_eq!(project.allocations.len(), 2);
    assert_eq!(project.resources.len(), 1);
}

#[test]
fn allocated_resources_feed_the_schedule() {
    let mut project = make_loaded_project();
    // 40 effort-units at 0.8 resources: 6.25 days, so 7 working days.
    project.calculate_resource_allocations();
    assert_eq!(project.tasks[0].get_end_date(), Ok(date(2023, Month::June, 12)));
    // 40 effort-units at 0.5 resources: 10 working days from a Saturday.
    assert_eq!(project.tasks[1].get_end_date(), Ok(date(2023, Month::June, 16)));
    assert_eq!(project.calculate_resource_load(0, date(2023, Month::June, 12)), Ok(1300));
    assert_eq!(project.calculate_resource_load(0, date(2023, Month::June, 13)), Ok(500));
    assert_eq!(project.calculate_resource_load(0, date(2023, Month::June, 17)), Ok(0));
}

#[test]
fn resource_load_counts_active_tasks_only() {
    let project = make_loaded_project();
    // The first task runs from 06-01 to 06-08, the second from 06-03 to 06-09.
    assert_eq!(project.calculate_resource_load(0, date(2023, Month::May, 31)), Ok(0));
    assert_eq!(project.calculate_resource_load(0, date(2023, Month::June, 2)), Ok(800));
    assert_eq!(project.calculate_resource_load(0, date(2023, Month::June, 8)), Ok(1300));
    assert_eq!(project.calculate_resource_load(0, date(2023, Month::June, 9)), Ok(500));
    assert_eq!(project.calculate_resource_load(0, date(2023, Month::June, 10)), Ok(0));
    assert_eq!(project.calculate_resource_load(1, date(2023, Month::June, 8)), Ok(0));
}

#[test]
fn resource_load_fails_on_a_missing_task() {
    let mut project = make_loaded_project();
    project.allocations.push(Allocation { taskid: 42, resourceid: 0, load: 100 });
    assert_eq!(
        project.calculate_resource_load(0, date(2023, Month::June, 1)),
        Err(ScheduleError::MissingTask { task_id: 42 })
    );
    // An allocation of another resource is not looked at.
    assert_eq!(project.calculate_resource_load(1, date(2023, Month::June, 1)), Ok(0));
}

#[test]
fn resources_are_found_by_id() {
    let mut project = make_loaded_project();
    project.resources.push(Resource { id: 3, label: "r3".to_string(), output: 8000 });
    project.resources.push(Resource { id: 3, label: "shadowed".to_string(), output: 1 });
    let found = project.get_resource_by_id(3).unwrap();
    assert_eq!(found.id, 3);
    assert_eq!(found.label, "r3");
    assert_eq!(found.output, 8000);
    assert_eq!(
        project.get_resource_by_id(9).err(),
        Some(ScheduleError::MissingResource { resource_id: 9 })
    );
    assert_eq!(project.find_task(1), Some(1));
    assert_eq!(project.find_task(9), None);
}

#[test]
fn work_force_is_eight_units_a_day_for_each_resource() {
    let mut t = make_simple_task(80, 1000);
    assert_eq!(t.get_work_force(), Some(8000));
    t.set_allocated_resources(2500);
    assert_eq!(t.get_work_force(), Some(20_000));
    t.set_allocated_resources(u128::MAX);
    assert_eq!(t.get_work_force(), None);
    // Still a schedule: so many resources do any work within a day.
    assert_eq!(t.get_work_days().occupied_days(), 1);
    assert_eq!(t.get_end_date(), Ok(date(2023, Month::February, 2)));
}

#[test]
fn first_task_with_an_identifier_is_the_one_found() {
    let mut proj = make_chain();
    let mut shadow = proj.tasks[0].clone();
    shadow.duration = 400;
    proj.tasks.push(shadow);
    assert_eq!(proj.find_task(0), Some(0));
    assert_eq!(proj.tasks[1].get_actual_start_date(&proj), Ok(date(2023, Month::June, 8)));
}

#[test]
fn work_days_remaining_follow_the_calendar() {
    let thursday = date(2023, Month::June, 8);
    let work = WorkDays { numerator: 7, denominator: 2 };
    assert_eq!(thursday.work_days_remaining_at(date(2023, Month::June, 1), work), Some(3));
    assert_eq!(thursday.work_days_remaining_at(thursday, work), Some(3));
    assert_eq!(thursday.work_days_remaining_at(date(2023, Month::June, 9), work), Some(2));
    assert_eq!(thursday.work_days_remaining_at(date(2023, Month::June, 10), work), Some(2));
    assert_eq!(thursday.work_days_remaining_at(date(2023, Month::June, 12), work), Some(1));
    assert_eq!(thursday.work_days_remaining_at(date(2023, Month::June, 13), work), Some(0));
    assert_eq!(thursday.work_days_remaining_at(date(2023, Month::June, 14), work), Some(0));
    let endless = WorkDays { numerator: 1, denominator: 0 };
    assert_eq!(thursday.work_days_remaining_at(thursday, endless), None);
}
