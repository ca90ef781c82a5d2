//! Where the charts put what the schedule yields: positions along the time
//! axis, rows, quarters, and the colour of a load.

use vstd::prelude::*;
use crate::calendar::Date;

verus! {

/// Horizontal position of the chart's first day.
pub const BAR_START_X: u32 = 150;

/// Vertical position of the first row.
pub const BAR_START_Y: u32 = 20;

/// Height of a bar.
pub const BAR_HEIGHT: u32 = 8;

/// Gap between two rows.
pub const ROW_GAP: u32 = 2;

/// The month, counted from 1, with which the quarter of `month` begins.
pub open spec fn spec_quarter_start_month(month: int) -> int {
    month - (month - 1) % 3
}

/// Colour of a load given in thousandths. Loads up to a quarter, a half,
/// three quarters and the whole of a resource have a colour each, from the
/// first hundredth above the step below; beyond the whole the resource is
/// over-allocated. What falls between two bands is drawn black.
pub open spec fn spec_color_for_load(load: nat) -> Seq<char> {
    if load <= 250 {
        "#00C000"@
    } else if 260 <= load <= 500 {
        "#00FF00"@
    } else if 510 <= load <= 750 {
        "#FFFF00"@
    } else if 750 < load <= 1000 {
        "#FF0000"@
    } else if load > 1000 {
        "#A00000"@
    } else {
        "#000000"@
    }
}

/// Horizontal position of `rel_date` on a chart that begins on
/// `start_date`: one unit per day, and nothing lies left of the first day.
pub fn date_to_x_pos(start_date: Date, rel_date: Date) -> (x: u32)
    ensures
        rel_date@ > start_date@ ==> x == BAR_START_X + (rel_date@ - start_date@),
        rel_date@ <= start_date@ ==> x == BAR_START_X,
{
    let days: i64 = rel_date.days_since(start_date);
    if days > 0 {
        BAR_START_X + days as u32
    } else {
        BAR_START_X
    }
}

/// Vertical position of the row with the given number, counted from 0.
pub fn row_top(row: u32) -> (y: u64)
    ensures
        y == BAR_START_Y + (BAR_HEIGHT + ROW_GAP) * row,
{
    let step: u64 = BAR_HEIGHT as u64 + ROW_GAP as u64;
    assert(step == 10);
    BAR_START_Y as u64 + step * (row as u64)
}

pub fn quarter_start_month(month: u32) -> (first: u32)
    requires
        month >= 1,
    ensures
        first == spec_quarter_start_month(month as int),
        first % 3 == 1,
        first <= month < first + 3,
{
    let months_since_q_start: u32 = (month - 1) % 3;
    month - months_since_q_start
}

pub fn select_color_for_load(load: u128) -> (color: String)
    ensures
        color@ == spec_color_for_load(load as nat),
{
    let color = if load <= 250 {
        "#00C000"
    } else if 260 <= load && load <= 500 {
        "#00FF00"
    } else if 510 <= load && load <= 750 {
        "#FFFF00"
    } else if 750 < load && load <= 1000 {
        "#FF0000"
    } else if load > 1000 {
        "#A00000"
    } else {
        "#000000"
    };
    color.to_owned()
}

} // verus!
