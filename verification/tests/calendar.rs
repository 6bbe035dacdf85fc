use chrono::{Datelike, NaiveDate, Weekday};
use github_vanity::calendar::{
    get_last_sunday, seed_sunday, CalendarDay, MovingDate, OutOfRange, MAX_DAY, MIN_DAY,
    WINDOW_DAYS,
};

fn number_of(year: i32, month: u32, day: u32) -> i32 {
    NaiveDate::from_ymd_opt(year, month, day).unwrap().num_days_from_ce()
}

fn calendar_day(year: i32, month: u32, day: u32) -> CalendarDay {
    CalendarDay::from_days(number_of(year, month, day)).unwrap()
}

#[test]
fn calendar_bounds_are_those_of_chrono() {
    assert_eq!(NaiveDate::MIN.num_days_from_ce(), MIN_DAY);
    assert_eq!(NaiveDate::MAX.num_days_from_ce(), MAX_DAY);
    assert!(NaiveDate::from_num_days_from_ce_opt(MIN_DAY - 1).is_none());
    assert!(NaiveDate::from_num_days_from_ce_opt(MAX_DAY + 1).is_none());
    assert!(NaiveDate::from_num_days_from_ce_opt(MIN_DAY).is_some());
    assert!(NaiveDate::from_num_days_from_ce_opt(MAX_DAY).is_some());
}

#[test]
fn from_days_accepts_exactly_the_calendar() {
    assert_eq!(CalendarDay::from_days(MIN_DAY).unwrap().days(), MIN_DAY);
    assert_eq!(CalendarDay::from_days(MAX_DAY).unwrap().days(), MAX_DAY);
    assert_eq!(CalendarDay::from_days(0).unwrap().days(), 0);
    assert!(CalendarDay::from_days(MIN_DAY - 1).is_none());
    assert!(CalendarDay::from_days(MAX_DAY + 1).is_none());
    assert!(CalendarDay::from_days(i32::MIN).is_none());
    assert!(CalendarDay::from_days(i32::MAX).is_none());
}

#[test]
fn window_is_fifty_two_weeks() {
    assert_eq!(WINDOW_DAYS, 7 * 52);
}

#[test]
fn weekday_of_known_dates() {
    assert_eq!(calendar_day(1970, 1, 1).weekday(), 4);
    assert_eq!(calendar_day(2000, 1, 1).weekday(), 6);
    assert_eq!(calendar_day(2024, 2, 29).weekday(), 4);
    assert_eq!(calendar_day(2024, 5, 12).weekday(), 0);
    assert_eq!(calendar_day(2024, 5, 13).weekday(), 1);
    assert_eq!(calendar_day(1, 1, 1).weekday(), 1);
    assert_eq!(calendar_day(1, 1, 1).days(), 1);
    assert_eq!(calendar_day(1970, 1, 1).days(), 719_163);
}

#[test]
fn weekday_is_day_number_modulo_seven() {
    let mut number = MIN_DAY;
    while number <= MAX_DAY {
        let date = NaiveDate::from_num_days_from_ce_opt(number).unwrap();
        let day = CalendarDay::from_days(number).unwrap();
        assert_eq!(day.weekday(), number.rem_euclid(7) as u32);
        assert_eq!(day.weekday(), date.weekday().num_days_from_sunday());
        assert_eq!(day.is_sunday(), date.weekday() == Weekday::Sun);
        number += 9_973;
    }
    for number in [MIN_DAY, MIN_DAY + 1, -8, -7, -1, 0, 1, 6, 7, MAX_DAY - 1, MAX_DAY] {
        let day = CalendarDay::from_days(number).unwrap();
        assert_eq!(day.weekday(), number.rem_euclid(7) as u32);
    }
}

#[test]
fn weekday_of_every_day_of_four_centuries() {
    let first = number_of(1800, 1, 1);
    let last = number_of(2200, 12, 31);
    for number in first..=last {
        let date = NaiveDate::from_num_days_from_ce_opt(number).unwrap();
        let day = CalendarDay::from_days(number).unwrap();
        assert_eq!(day.weekday(), date.weekday().num_days_from_sunday());
    }
}

#[test]
fn checked_add_days_stays_in_the_calendar() {
    let day = calendar_day(2024, 3, 1);
    assert_eq!(day.checked_add_days(-1).unwrap().days(), number_of(2024, 2, 29));
    assert_eq!(day.checked_add_days(365).unwrap().days(), number_of(2025, 3, 1));
    assert_eq!(day.checked_add_days(0).unwrap(), day);
    let first = CalendarDay::from_days(MIN_DAY).unwrap();
    let last = CalendarDay::from_days(MAX_DAY).unwrap();
    assert!(first.checked_add_days(-1).is_none());
    assert!(last.checked_add_days(1).is_none());
    assert!(first.checked_add_days(i32::MIN).is_none());
    assert!(last.checked_add_days(i32::MAX).is_none());
    assert_eq!(first.checked_add_days(1).unwrap().days(), MIN_DAY + 1);
    assert_eq!(last.checked_add_days(-1).unwrap().days(), MAX_DAY - 1);
}

#[test]
fn last_sunday_of_a_wednesday() {
    let wednesday = calendar_day(2024, 5, 15);
    assert_eq!(get_last_sunday(wednesday).days(), number_of(2024, 5, 12));
}

#[test]
fn last_sunday_of_a_sunday_is_itself() {
    let sunday = calendar_day(2024, 5, 12);
    assert_eq!(get_last_sunday(sunday), sunday);
}

#[test]
fn last_sunday_of_a_saturday_is_six_days_back() {
    let saturday = calendar_day(2024, 5, 18);
    assert_eq!(get_last_sunday(saturday).days(), number_of(2024, 5, 12));
}

#[test]
fn last_sunday_for_every_day_of_a_year() {
    for offset in 0..366 {
        let day = calendar_day(2023, 1, 1).checked_add_days(offset).unwrap();
        let sunday = get_last_sunday(day);
        assert!(sunday.is_sunday());
        assert!(sunday.days() <= day.days());
        assert!(day.days() - sunday.days() < 7);
        let date = NaiveDate::from_num_days_from_ce_opt(sunday.days()).unwrap();
        assert_eq!(date.weekday(), Weekday::Sun);
    }
}

#[test]
fn seed_is_the_sunday_fifty_two_weeks_before_the_last() {
    let seed = seed_sunday(calendar_day(2024, 5, 15));
    assert_eq!(seed.days(), number_of(2023, 5, 14));
    assert_eq!(seed.weekday(), 0);
    assert_eq!(seed.checked_add_days(364).unwrap().days(), number_of(2024, 5, 12));
}

#[test]
fn seed_and_last_sunday_are_sundays_for_every_day_of_a_year() {
    for offset in 0..366 {
        let now = calendar_day(2024, 1, 1).checked_add_days(offset).unwrap();
        let sunday = get_last_sunday(now);
        let seed = seed_sunday(now);
        assert!(sunday.is_sunday());
        assert!(seed.is_sunday());
        assert_eq!(sunday.days() - seed.days(), 364);
        let date = NaiveDate::from_num_days_from_ce_opt(seed.days()).unwrap();
        assert_eq!(date.weekday(), Weekday::Sun);
    }
}

#[test]
fn seed_near_the_first_day_of_the_calendar() {
    // The first day is a Thursday: the first Sunday is three days later.
    let first_sunday = CalendarDay::from_days(MIN_DAY + 3).unwrap();
    assert!(first_sunday.is_sunday());
    assert_eq!(get_last_sunday(first_sunday), first_sunday);
    let now = CalendarDay::from_days(MIN_DAY + 3 + 364 + 6).unwrap();
    assert_eq!(seed_sunday(now), first_sunday);
}

#[test]
fn cursor_hands_out_consecutive_days() {
    let first = calendar_day(2024, 2, 27);
    let today = calendar_day(2024, 3, 2);
    let mut cursor = MovingDate::new(first, today);
    assert_eq!(cursor.remaining(), 5);
    assert_eq!(cursor.next().unwrap().days(), number_of(2024, 2, 27));
    assert_eq!(cursor.next().unwrap().days(), number_of(2024, 2, 28));
    assert_eq!(cursor.next().unwrap().days(), number_of(2024, 2, 29));
    assert_eq!(cursor.next().unwrap().days(), number_of(2024, 3, 1));
    assert_eq!(cursor.remaining(), 1);
    assert_eq!(cursor.next().unwrap().days(), number_of(2024, 3, 2));
    assert_eq!(cursor.remaining(), 0);
    assert_eq!(cursor.next(), Err(OutOfRange));
}

#[test]
fn cursor_stays_out_of_range_once_it_is() {
    let today = calendar_day(2024, 3, 2);
    let mut cursor = MovingDate::new(today, today);
    assert_eq!(cursor.next(), Ok(today));
    assert_eq!(cursor.next(), Err(OutOfRange));
    assert_eq!(cursor.next(), Err(OutOfRange));
    assert_eq!(cursor.remaining(), 0);
    assert_eq!(cursor.last_day(), today);
}

#[test]
fn cursor_that_starts_after_today_hands_out_nothing() {
    let today = calendar_day(2024, 3, 2);
    let tomorrow = calendar_day(2024, 3, 3);
    let mut cursor = MovingDate::new(tomorrow, today);
    assert_eq!(cursor.remaining(), 0);
    assert_eq!(cursor.next(), Err(OutOfRange));
    assert_eq!(cursor.next(), Err(OutOfRange));
}

#[test]
fn cursor_at_the_last_day_of_the_calendar() {
    let last = CalendarDay::from_days(MAX_DAY).unwrap();
    let mut cursor = MovingDate::new(last, last);
    assert_eq!(cursor.next(), Ok(last));
    assert_eq!(cursor.next(), Err(OutOfRange));
}

#[test]
fn seeded_cursor_covers_the_window_up_to_today() {
    let today = calendar_day(2024, 5, 15);
    let mut cursor = MovingDate::seeded(today);
    assert_eq!(cursor.remaining(), 368);
    let mut expected = number_of(2023, 5, 14);
    while let Ok(day) = cursor.next() {
        assert_eq!(day.days(), expected);
        expected += 1;
    }
    assert_eq!(expected, today.days() + 1);
}

#[test]
fn seeded_cursor_on_a_sunday_has_fifty_two_weeks_and_a_day() {
    let today = calendar_day(2024, 5, 12);
    let cursor = MovingDate::seeded(today);
    assert_eq!(cursor.remaining(), 365);
}

#[test]
fn seeded_cursor_on_a_saturday_has_fifty_three_weeks() {
    let today = calendar_day(2024, 5, 18);
    let cursor = MovingDate::seeded(today);
    assert_eq!(cursor.remaining(), 371);
}
