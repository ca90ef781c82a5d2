//! Dependency-resolved project scheduling and resource load.
//!
//! A project is a flat list of tasks, resources and allocations. The
//! engine turns planned effort, start floors and predecessor links into
//! start and end dates that skip weekends, and into the load that each
//! resource carries on a given day. Fractions (resources, loads) are held
//! as integer thousandths, dates as Julian day numbers.

pub mod calendar;
pub mod cycles;
pub mod layout;
pub mod load;
pub mod pom;
pub mod schedule;
pub mod work_days;
