use betting_season::clock::{east_coast_date_in_x_days, east_coast_date_today, LeagueDate};

fn date(y: i32, m: u32, d: u32) -> LeagueDate {
    LeagueDate::from_ymd(y, m, d).unwrap()
}

#[test]
fn unix_epoch_day_number() {
    assert_eq!(date(1970, 1, 1).day, 719_163);
    assert_eq!(date(1, 1, 1).day, 1);
}

#[test]
fn invalid_calendar_dates_are_rejected() {
    assert!(LeagueDate::from_ymd(2023, 2, 29).is_none());
    assert!(LeagueDate::from_ymd(2024, 13, 1).is_none());
    assert!(LeagueDate::from_ymd(2024, 2, 29).is_some());
}

#[test]
fn league_day_lags_utc_by_five_hours() {
    // 2024-01-02T04:59:59Z is still 2024-01-01 on the league clock.
    let just_before = 1_704_171_599;
    assert_eq!(east_coast_date_today(just_before), date(2024, 1, 1));
    // 2024-01-02T05:00:00Z is the start of 2024-01-02 on the league clock.
    assert_eq!(east_coast_date_today(just_before + 1), date(2024, 1, 2));
}

#[test]
fn instants_before_the_epoch() {
    assert_eq!(LeagueDate::from_instant(0), date(1969, 12, 31));
    assert_eq!(LeagueDate::from_instant(-86_400), date(1969, 12, 30));
    assert_eq!(LeagueDate::from_instant(18_000), date(1970, 1, 1));
    assert_eq!(LeagueDate::from_instant(17_999), date(1969, 12, 31));
}

#[test]
fn extreme_instants_do_not_overflow() {
    let hi = LeagueDate::from_instant(i64::MAX);
    let lo = LeagueDate::from_instant(i64::MIN);
    assert!(hi.day > lo.day);
}

#[test]
fn shifted_dates() {
    let noon = 1_704_128_400; // 2024-01-01T17:00:00Z
    assert_eq!(east_coast_date_in_x_days(noon, 1, false), Some(date(2024, 1, 2)));
    assert_eq!(east_coast_date_in_x_days(noon, 7, false), Some(date(2024, 1, 8)));
    assert_eq!(east_coast_date_in_x_days(noon, 3, true), Some(date(2023, 12, 29)));
    assert_eq!(east_coast_date_in_x_days(noon, 0, true), Some(date(2024, 1, 1)));
    assert_eq!(east_coast_date_in_x_days(noon, i64::MAX, false), None);
}

#[test]
fn date_comparisons() {
    assert!(date(2024, 1, 9).is_after(date(2024, 1, 8)));
    assert!(!date(2024, 1, 8).is_after(date(2024, 1, 8)));
    assert_eq!(date(2024, 1, 8).plus_days(1), Some(date(2024, 1, 9)));
    assert_eq!(date(2024, 3, 1).minus_days(1), Some(date(2024, 2, 29)));
    assert_eq!(LeagueDate::from_day_number(i64::MAX).plus_days(1), None);
}
