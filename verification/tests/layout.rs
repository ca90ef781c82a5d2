use chrono::{Datelike, Months, NaiveDate};
use project_schedule::calendar::Date;
use project_schedule::layout::{
    date_to_x_pos, quarter_start_month, row_top, select_color_for_load,
};

fn start_of_quarter(date: NaiveDate) -> NaiveDate {
    NaiveDate::from_ymd_opt(date.year(), quarter_start_month(date.month()), 1).unwrap()
}

fn next_quarter(date: NaiveDate) -> NaiveDate {
    start_of_quarter(date)
        .checked_add_months(Months::new(3))
        .unwrap()
}

#[test]
pub fn get_correct_start_of_quarter() {
    let d = NaiveDate::from_ymd_opt(2023, 6, 8).unwrap();
    let start_of_quarter = start_of_quarter(d);

    assert_eq!(
        start_of_quarter,
        NaiveDate::from_ymd_opt(2023, 4, 1).unwrap()
    )
}

#[test]
pub fn get_correct_start_of_quarter_jan() {
    let d = NaiveDate::from_ymd_opt(2023, 1, 8).unwrap();
    let start_of_quarter = start_of_quarter(d);

    assert_eq!(
        start_of_quarter,
        NaiveDate::from_ymd_opt(2023, 1, 1).unwrap()
    )
}

#[test]
pub fn get_correct_start_of_next_quarter() {
    let d = NaiveDate::from_ymd_opt(2023, 6, 30).unwrap();
    let start_of_quarter = next_quarter(d);

    assert_eq!(
        start_of_quarter,
        NaiveDate::from_ymd_opt(2023, 7, 1).unwrap()
    )
}

#[test]
fn every_month_has_its_quarter() {
    let firsts: Vec<u32> = (1..=12).map(quarter_start_month).collect();
    assert_eq!(firsts, vec![1, 1, 1, 4, 4, 4, 7, 7, 7, 10, 10, 10]);
}

#[test]
fn positions_follow_the_days() {
    let start = Date::from_julian_day(2_460_104).unwrap();
    let later = Date::from_julian_day(2_460_111).unwrap();
    assert_eq!(date_to_x_pos(start, start), 150);
    assert_eq!(date_to_x_pos(start, later), 157);
    assert_eq!(date_to_x_pos(later, start), 150);
    assert_eq!(row_top(0), 20);
    assert_eq!(row_top(1), 30);
    assert_eq!(row_top(3), 50);
    assert_eq!(row_top(u32::MAX), 42_949_672_970);
}

#[test]
fn loads_have_their_colours() {
    assert_eq!(select_color_for_load(0), "#00C000");
    assert_eq!(select_color_for_load(250), "#00C000");
    assert_eq!(select_color_for_load(255), "#000000");
    assert_eq!(select_color_for_load(260), "#00FF00");
    assert_eq!(select_color_for_load(500), "#00FF00");
    assert_eq!(select_color_for_load(505), "#000000");
    assert_eq!(select_color_for_load(510), "#FFFF00");
    assert_eq!(select_color_for_load(750), "#FFFF00");
    assert_eq!(select_color_for_load(751), "#FF0000");
    assert_eq!(select_color_for_load(1000), "#FF0000");
    assert_eq!(select_color_for_load(1001), "#A00000");
    assert_eq!(select_color_for_load(1300), "#A00000");
}
