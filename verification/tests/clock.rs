use papers::clock::{date_paper, iso_date, title_edition, today, Day};
use papers::error::SourceError;

fn day(year: i32, mon: i32, mday: i32, wday: i32) -> Day {
    Day { year: year - 1900, month: mon, day: mday, weekday: wday }
}

#[test]
fn date_is_year_month_day() {
    assert_eq!(iso_date(&day(2015, 2, 7, 6)), Ok("2015-03-07".to_string()));
    assert_eq!(iso_date(&day(1999, 11, 31, 5)), Ok("1999-12-31".to_string()));
    assert_eq!(iso_date(&day(2024, 0, 1, 1)), Ok("2024-01-01".to_string()));
}

#[test]
fn year_is_written_as_it_is() {
    assert_eq!(iso_date(&day(987, 5, 15, 0)), Ok("987-06-15".to_string()));
    assert_eq!(iso_date(&day(12345, 5, 15, 0)), Ok("12345-06-15".to_string()));
    assert_eq!(iso_date(&day(0, 0, 1, 0)), Ok("0-01-01".to_string()));
    assert_eq!(iso_date(&day(-44, 2, 15, 0)), Ok("-44-03-15".to_string()));
}

#[test]
fn day_of_month_is_written_as_it_is() {
    assert_eq!(iso_date(&day(2015, 0, 0, 0)), Ok("2015-01-00".to_string()));
    assert_eq!(iso_date(&day(2015, 0, 123, 0)), Ok("2015-01-123".to_string()));
    assert_eq!(iso_date(&day(2015, 0, -5, 0)), Ok("2015-01--5".to_string()));
    assert_eq!(iso_date(&day(2015, 0, -12, 0)), Ok("2015-01--12".to_string()));
}

#[test]
fn month_or_weekday_out_of_range_is_refused() {
    assert_eq!(iso_date(&day(2015, 12, 1, 0)), Err(SourceError::Clock));
    assert_eq!(iso_date(&day(2015, -1, 1, 0)), Err(SourceError::Clock));
    assert_eq!(iso_date(&day(2015, 0, 1, 7)), Err(SourceError::Clock));
    assert_eq!(iso_date(&day(2015, 0, 1, -1)), Err(SourceError::Clock));
    assert_eq!(iso_date(&day(2015, 12, 1, 7)), Err(SourceError::Clock));
}

#[test]
fn year_beyond_the_field_is_refused() {
    let mut t = day(2015, 0, 1, 0);
    t.year = i32::MAX;
    assert_eq!(iso_date(&t), Err(SourceError::Clock));
    t.year = i32::MAX - 1899;
    assert_eq!(iso_date(&t), Err(SourceError::Clock));
    t.year = i32::MAX - 1900;
    assert_eq!(iso_date(&t), Ok("2147483647-01-01".to_string()));
    t.year = i32::MIN;
    assert_eq!(iso_date(&t), Ok("-2147481748-01-01".to_string()));
}

#[test]
fn today_is_the_date_of_the_local_clock() {
    let before = time::strftime("%F", &time::now()).unwrap();
    let date = today().unwrap();
    let after = time::strftime("%F", &time::now()).unwrap();
    assert!(date == before || date == after);
    assert_eq!(date.len(), 10);
}

#[test]
fn title_is_name_hyphen_date() {
    assert_eq!(title_edition("Politiken", "2015-03-07"), "Politiken - 2015-03-07");
    assert_eq!(title_edition("", ""), " - ");
}

#[test]
fn paper_is_dated_today() {
    let before = today().unwrap();
    let title = date_paper("Information").unwrap();
    let after = today().unwrap();
    assert!(
        title == format!("Information - {}", before) || title == format!("Information - {}", after)
    );
}
