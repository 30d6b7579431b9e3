use betting_season::clock::LeagueDate;
use betting_season::model::BetWeek;
use betting_season::store::SeasonStore;

fn date(y: i32, m: u32, d: u32) -> LeagueDate {
    LeagueDate::from_ymd(y, m, d).unwrap()
}

#[test]
fn first_week_of_a_new_chat() {
    let mut store = SeasonStore::new();
    let week = store.maybe_advance_week(42, date(2024, 1, 1)).unwrap();
    assert_eq!(
        week,
        BetWeek {
            chat_id: 42,
            week_number: 1,
            start_date: date(2024, 1, 2),
            end_date: date(2024, 1, 8),
            polls_sent: false,
        }
    );
    assert_eq!(store.weeks, vec![week]);
    assert_eq!(store.get_bet_week(42), Some(week));
}

#[test]
fn rollover_happens_the_day_after_the_last_day() {
    let mut store = SeasonStore::new();
    store.maybe_advance_week(42, date(2024, 1, 1)).unwrap();
    // Tomorrow is 2024-01-08, not after the end date.
    assert_eq!(store.maybe_advance_week(42, date(2024, 1, 7)), None);
    assert_eq!(store.weeks.len(), 1);
    // Tomorrow is 2024-01-09, after the end date.
    let second = store.maybe_advance_week(42, date(2024, 1, 8)).unwrap();
    assert_eq!(second.week_number, 2);
    assert_eq!(second.start_date, date(2024, 1, 9));
    assert_eq!(second.end_date, date(2024, 1, 15));
    assert_eq!(store.get_bet_week(42), Some(second));
}

#[test]
fn repeated_ticks_on_one_day_open_one_week() {
    let mut store = SeasonStore::new();
    assert!(store.maybe_advance_week(7, date(2024, 2, 1)).is_some());
    assert!(store.maybe_advance_week(7, date(2024, 2, 1)).is_none());
    assert!(store.maybe_advance_week(7, date(2024, 2, 1)).is_none());
    assert_eq!(store.weeks.len(), 1);
}

#[test]
fn week_numbers_count_up_per_chat() {
    let mut store = SeasonStore::new();
    let mut day = date(2024, 1, 1);
    for _ in 0..5 {
        store.maybe_advance_week(1, day).unwrap();
        store.maybe_advance_week(2, day).unwrap();
        day = day.plus_days(7).unwrap();
    }
    for chat in [1, 2] {
        let numbers: Vec<i32> = store
            .weeks
            .iter()
            .filter(|w| w.chat_id == chat)
            .map(|w| w.week_number)
            .collect();
        assert_eq!(numbers, vec![1, 2, 3, 4, 5]);
    }
}

#[test]
fn a_late_tick_starts_the_next_week_from_tomorrow() {
    let mut store = SeasonStore::new();
    store.maybe_advance_week(5, date(2024, 1, 1)).unwrap();
    let next = store.maybe_advance_week(5, date(2024, 1, 20)).unwrap();
    assert_eq!(next.week_number, 2);
    assert_eq!(next.start_date, date(2024, 1, 21));
    assert_eq!(next.end_date, date(2024, 1, 27));
}

#[test]
fn chats_have_separate_weeks() {
    let mut store = SeasonStore::new();
    store.maybe_advance_week(1, date(2024, 1, 1)).unwrap();
    assert_eq!(store.get_bet_week(2), None);
    let other = store.maybe_advance_week(2, date(2024, 1, 3)).unwrap();
    assert_eq!(other.week_number, 1);
}
