use betting_season::bets::{bet_to_team_id, BetError, PollAnswer};
use betting_season::clock::LeagueDate;
use betting_season::model::{Bet, Game, Poll};
use betting_season::store::SeasonStore;

fn game() -> Game {
    Game {
        id: 7,
        away_team_id: 11,
        home_team_id: 22,
        scheduled_start: 1000,
        away_points: None,
        home_points: None,
        quality: 1,
        combined_win_rate: 1,
    }
}

fn store_with_poll() -> SeasonStore {
    let mut store = SeasonStore::new();
    store.games = vec![game()];
    store.add_poll(Poll {
        id: "poll-7".to_string(),
        local_id: 70,
        chat_id: 42,
        game_id: 7,
        week_number: 1,
        sent_date: LeagueDate::from_ymd(2024, 1, 1).unwrap(),
        is_open: true,
    });
    store
}

fn answer(poll_id: &str, user_id: i64, option_index: i32) -> PollAnswer {
    PollAnswer {
        poll_id: poll_id.to_string(),
        user_id,
        first_name: "Ada".to_string(),
        last_name: None,
        username: Some("ada".to_string()),
        language_code: None,
        option_index,
    }
}

#[test]
fn second_answer_keeps_the_first_choice() {
    let mut store = store_with_poll();
    assert_eq!(store.record_bet(&answer("poll-7", 5, 0)), Ok(true));
    assert_eq!(store.record_bet(&answer("poll-7", 5, 1)), Ok(false));
    assert_eq!(
        store.bets,
        vec![Bet { game_id: 7, chat_id: 42, user_id: 5, bet: 11, poll_id: "poll-7".to_string() }]
    );
}

#[test]
fn options_map_to_away_and_home_team() {
    let mut store = store_with_poll();
    assert_eq!(store.record_bet(&answer("poll-7", 1, 1)), Ok(true));
    assert_eq!(store.bets[0].bet, 22);
    assert_eq!(bet_to_team_id(&game(), 0), Ok(11));
    assert_eq!(bet_to_team_id(&game(), 1), Ok(22));
    assert_eq!(bet_to_team_id(&game(), 2), Err(BetError::InvalidOption));
}

#[test]
fn unknown_poll_is_rejected() {
    let mut store = store_with_poll();
    assert_eq!(store.record_bet(&answer("other", 5, 0)), Err(BetError::UnknownPoll));
    assert!(store.bets.is_empty());
    assert!(store.users.is_empty());
}

#[test]
fn poll_whose_game_is_unknown_is_rejected() {
    let mut store = store_with_poll();
    store.games.clear();
    assert_eq!(store.record_bet(&answer("poll-7", 5, 0)), Err(BetError::UnknownPoll));
}

#[test]
fn invalid_option_is_rejected() {
    let mut store = store_with_poll();
    assert_eq!(store.record_bet(&answer("poll-7", 5, 2)), Err(BetError::InvalidOption));
    assert_eq!(store.record_bet(&answer("poll-7", 5, -1)), Err(BetError::InvalidOption));
    assert!(store.bets.is_empty());
    assert!(store.users.is_empty());
}

#[test]
fn new_users_get_default_profile_fields() {
    let mut store = store_with_poll();
    store.record_bet(&answer("poll-7", 5, 0)).unwrap();
    assert_eq!(store.users.len(), 1);
    let user = &store.users[0];
    assert_eq!(user.id, 5);
    assert_eq!(user.first_name, "Ada");
    assert_eq!(user.last_name, "");
    assert_eq!(user.username, "ada");
    assert_eq!(user.language_code, "en");
    assert!(store.user_is_in_db(5));
    assert!(!store.user_is_in_db(6));
}

#[test]
fn a_known_user_is_not_stored_again() {
    let mut store = store_with_poll();
    store.record_bet(&answer("poll-7", 5, 0)).unwrap();
    let mut second = answer("poll-7", 5, 1);
    second.first_name = "Other".to_string();
    store.record_bet(&second).unwrap();
    assert_eq!(store.users.len(), 1);
    assert_eq!(store.users[0].first_name, "Ada");
}

#[test]
fn answers_on_closed_polls_still_count() {
    let mut store = store_with_poll();
    store.polls[0].is_open = false;
    assert_eq!(store.record_bet(&answer("poll-7", 8, 1)), Ok(true));
}

#[test]
fn poll_lookup() {
    let store = store_with_poll();
    assert_eq!(store.get_chat_id_game_id_from_poll(&"poll-7".to_string()), Some((42, 7)));
    assert_eq!(store.get_chat_id_game_id_from_poll(&"nope".to_string()), None);
}

#[test]
fn add_bet_refuses_a_second_bet_on_the_same_game() {
    let mut store = SeasonStore::new();
    let bet = Bet { game_id: 1, chat_id: 2, user_id: 3, bet: 4, poll_id: "a".to_string() };
    assert!(store.add_bet(bet.clone()));
    let other_poll = Bet { poll_id: "b".to_string(), ..bet.clone() };
    assert!(!store.add_bet(other_poll));
    let other_user = Bet { user_id: 4, ..bet };
    assert!(store.add_bet(other_user));
}
