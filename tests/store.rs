use betting_season::clock::LeagueDate;
use betting_season::model::{Bet, ChatStatus, Poll};
use betting_season::store::SeasonStore;

fn date(y: i32, m: u32, d: u32) -> LeagueDate {
    LeagueDate::from_ymd(y, m, d).unwrap()
}

fn poll(id: &str, chat_id: i64, game_id: i32) -> Poll {
    Poll {
        id: id.to_string(),
        local_id: 1,
        chat_id,
        game_id,
        week_number: 1,
        sent_date: date(2024, 1, 1),
        is_open: true,
    }
}

#[test]
fn chats_start_in_setup_and_can_be_activated() {
    let mut store = SeasonStore::new();
    assert!(!store.chat_is_known(42));
    assert_eq!(store.chat_status(42), None);
    store.add_chat(42);
    assert_eq!(store.chat_status(42), Some(ChatStatus::Setup));
    store.change_active_chat_status(42, true);
    assert_eq!(store.chat_status(42), Some(ChatStatus::Active));
    store.add_chat(42);
    assert_eq!(store.chats.len(), 1);
    assert_eq!(store.chat_status(42), Some(ChatStatus::Active));
    store.change_active_chat_status(7, true);
    assert_eq!(store.chat_status(7), None);
}

#[test]
fn removing_a_chat_purges_only_its_rows() {
    let mut store = SeasonStore::new();
    store.add_chat(1);
    store.add_chat(2);
    store.maybe_advance_week(1, date(2024, 1, 1));
    store.maybe_advance_week(2, date(2024, 1, 1));
    store.add_poll(poll("a", 1, 5));
    store.add_poll(poll("b", 2, 5));
    store.add_bet(Bet { game_id: 5, chat_id: 1, user_id: 9, bet: 3, poll_id: "a".to_string() });
    store.add_bet(Bet { game_id: 5, chat_id: 2, user_id: 9, bet: 3, poll_id: "b".to_string() });
    store.remove_chat(1);
    assert!(!store.chat_is_known(1));
    assert!(store.chat_is_known(2));
    assert!(store.weeks.iter().all(|w| w.chat_id == 2));
    assert_eq!(store.weeks.len(), 1);
    assert_eq!(store.polls.len(), 1);
    assert_eq!(store.polls[0].id, "b");
    assert_eq!(store.bets.len(), 1);
    assert_eq!(store.bets[0].chat_id, 2);
    // A removed chat starts again from week one.
    let week = store.maybe_advance_week(1, date(2024, 3, 1)).unwrap();
    assert_eq!(week.week_number, 1);
}

#[test]
fn active_chats_in_store_order() {
    let mut store = SeasonStore::new();
    store.add_chat(3);
    store.add_chat(1);
    store.add_chat(2);
    store.change_active_chat_status(2, true);
    store.change_active_chat_status(3, true);
    assert_eq!(store.active_chats(), vec![3, 2]);
    store.change_active_chat_status(3, false);
    assert_eq!(store.active_chats(), vec![2]);
}

#[test]
fn marking_a_slate_published() {
    let mut store = SeasonStore::new();
    store.maybe_advance_week(1, date(2024, 1, 1));
    store.maybe_advance_week(2, date(2024, 1, 1));
    store.maybe_advance_week(1, date(2024, 1, 8));
    store.mark_polls_sent(1, 2);
    let flags: Vec<(i64, i32, bool)> =
        store.weeks.iter().map(|w| (w.chat_id, w.week_number, w.polls_sent)).collect();
    assert_eq!(flags, vec![(1, 1, false), (2, 1, false), (1, 2, true)]);
}
