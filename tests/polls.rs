use betting_season::clock::LeagueDate;
use betting_season::model::{Game, Poll};
use betting_season::polls::CloseOutcome;
use betting_season::store::SeasonStore;

fn date(y: i32, m: u32, d: u32) -> LeagueDate {
    LeagueDate::from_ymd(y, m, d).unwrap()
}

fn game(id: i32, start: i64) -> Game {
    Game {
        id,
        away_team_id: 100 + id,
        home_team_id: 200 + id,
        scheduled_start: start,
        away_points: None,
        home_points: None,
        quality: 10,
        combined_win_rate: 500,
    }
}

fn poll(id: &str, chat_id: i64, game_id: i32) -> Poll {
    Poll {
        id: id.to_string(),
        local_id: game_id,
        chat_id,
        game_id,
        week_number: 1,
        sent_date: date(2024, 1, 1),
        is_open: true,
    }
}

#[test]
fn publishing_twice_keeps_one_poll_per_game() {
    let mut store = SeasonStore::new();
    let slate = vec![game(1, 1000), game(2, 2000), game(3, 3000)];
    let (week, to_send) = store.send_polls(42, date(2024, 1, 1), &slate).unwrap();
    assert_eq!(week.week_number, 1);
    assert_eq!(to_send, slate);
    // The transport accepted games 1 and 3; game 2 failed.
    assert!(store.add_poll(poll("first", 42, 1)));
    assert!(store.add_poll(poll("third", 42, 3)));
    // A second publication of the same slate only sends game 2.
    assert_eq!(store.games_to_publish(42, &slate), vec![game(2, 2000)]);
    // A second poll for game 1 is never stored.
    assert!(!store.add_poll(poll("first-again", 42, 1)));
    assert_eq!(store.polls.len(), 2);
    let for_game_1 = store.polls.iter().filter(|p| p.chat_id == 42 && p.game_id == 1).count();
    assert_eq!(for_game_1, 1);
}

#[test]
fn send_polls_does_nothing_when_no_week_is_due() {
    let mut store = SeasonStore::new();
    let slate = vec![game(1, 1000)];
    assert!(store.send_polls(42, date(2024, 1, 1), &slate).is_some());
    assert!(store.send_polls(42, date(2024, 1, 2), &slate).is_none());
    assert_eq!(store.weeks.len(), 1);
}

#[test]
fn slate_duplicates_are_sent_once() {
    let store = SeasonStore::new();
    let slate = vec![game(1, 1000), game(1, 1000), game(2, 500)];
    assert_eq!(store.games_to_publish(9, &slate), vec![game(1, 1000), game(2, 500)]);
}

#[test]
fn polls_of_other_chats_do_not_count() {
    let mut store = SeasonStore::new();
    assert!(store.add_poll(poll("a", 1, 5)));
    assert!(store.poll_is_in_db(5, 1));
    assert!(!store.poll_is_in_db(5, 2));
    assert!(store.add_poll(poll("b", 2, 5)));
    assert!(store.poll_is_in_db_by_poll_id(&"b".to_string()));
    assert!(!store.poll_is_in_db_by_poll_id(&"c".to_string()));
}

#[test]
fn a_taken_transport_id_is_refused() {
    let mut store = SeasonStore::new();
    assert!(store.add_poll(poll("same", 1, 5)));
    assert!(!store.add_poll(poll("same", 1, 6)));
    assert_eq!(store.polls.len(), 1);
}

#[test]
fn closing_twice_is_idle_the_second_time() {
    let mut store = SeasonStore::new();
    store.games = vec![game(1, 1000), game(2, 2000), game(3, 9000)];
    store.add_poll(poll("first", 42, 1));
    store.add_poll(poll("second", 42, 2));
    store.add_poll(poll("third", 42, 3));
    let now = 5000;
    let due = store.expired_open_polls(42, now);
    assert_eq!(due.iter().map(|p| p.id.clone()).collect::<Vec<_>>(), vec!["first", "second"]);
    store.stop_poll(42, now, &vec![CloseOutcome::Closed, CloseOutcome::ChatGone]);
    assert!(!store.polls[0].is_open);
    assert!(!store.polls[1].is_open);
    assert!(store.polls[2].is_open);
    let before = store.polls.clone();
    let again = store.expired_open_polls(42, now);
    assert!(again.is_empty());
    store.stop_poll(42, now, &vec![]);
    assert_eq!(store.polls, before);
}

#[test]
fn retryable_failures_stay_open() {
    let mut store = SeasonStore::new();
    store.games = vec![game(1, 1000), game(2, 2000)];
    store.add_poll(poll("first", 42, 1));
    store.add_poll(poll("second", 42, 2));
    store.stop_poll(42, 3000, &vec![CloseOutcome::Retryable, CloseOutcome::Closed]);
    assert!(store.polls[0].is_open);
    assert!(!store.polls[1].is_open);
    let again = store.expired_open_polls(42, 3000);
    assert_eq!(again.len(), 1);
    assert_eq!(again[0].id, "first");
}

#[test]
fn polls_of_games_not_started_or_unknown_stay_open() {
    let mut store = SeasonStore::new();
    store.games = vec![game(1, 1000)];
    store.add_poll(poll("first", 42, 1));
    store.add_poll(poll("ninth", 42, 9));
    store.add_poll(poll("q1", 43, 1));
    // A game starting exactly now has started.
    assert_eq!(store.expired_open_polls(42, 1000).len(), 1);
    assert!(store.expired_open_polls(42, 999).is_empty());
    let due_43 = store.expired_open_polls(43, 1000);
    assert_eq!(due_43.len(), 1);
    assert_eq!(due_43[0].id, "q1");
}

#[test]
fn find_game_by_id() {
    let mut store = SeasonStore::new();
    store.games = vec![game(1, 1000), game(2, 2000)];
    assert_eq!(store.find_game(2), Some(game(2, 2000)));
    assert_eq!(store.find_game(3), None);
}

#[test]
fn finished_games_of_a_week() {
    let mut store = SeasonStore::new();
    let mut done = game(1, 1000);
    done.away_points = Some(101);
    done.home_points = Some(99);
    let mut half = game(2, 1000);
    half.home_points = Some(80);
    store.games = vec![done, half, game(3, 1000)];
    store.add_poll(poll("first", 42, 1));
    store.add_poll(poll("second", 42, 2));
    store.add_poll(poll("third", 42, 3));
    store.add_poll(poll("q1", 43, 1));
    assert_eq!(store.number_of_finished_games_week(42, 1), 1);
    assert_eq!(store.number_of_finished_games_week(42, 2), 0);
    assert_eq!(store.number_of_finished_games_week(43, 1), 1);
}
