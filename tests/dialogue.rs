use betting_season::dialogue::{
    parse_number, react, user_is_admin, Command, Dialogue, Effect, Input, ReadyState, Reply,
    StopState, WeekInputState,
};
use betting_season::model::ChatStatus;

fn text(t: &str, admin: bool, weeks: i32) -> Input {
    Input { command: Some(Command::parse(t)), sender_is_admin: admin, weeks_played: weeks }
}

const READY: Dialogue = Dialogue::Ready(ReadyState);

#[test]
fn non_admin_cannot_stop_the_season() {
    let r = react(ChatStatus::Active, READY, text("/stop_season", false, 2));
    assert_eq!(r.status, ChatStatus::Active);
    assert_eq!(r.dialogue, READY);
    assert_eq!(r.effects, vec![Effect::Reply(Reply::OnlyAdminsCanStop)]);
}

#[test]
fn admin_stop_then_end_removes_the_chat() {
    let r = react(ChatStatus::Active, READY, text("/stop_season", true, 2));
    assert_eq!(r.dialogue, Dialogue::Stop(StopState));
    assert_eq!(r.effects, vec![Effect::Reply(Reply::ConfirmStop)]);
    let r = react(r.status, r.dialogue, text("/end_my_season", true, 2));
    assert_eq!(r.status, ChatStatus::Removed);
    assert_eq!(
        r.effects,
        vec![
            Effect::ShowWeekStandings(None),
            Effect::ShowFullStandings,
            Effect::PurgeChat,
            Effect::Reply(Reply::SeasonEnded),
        ]
    );
}

#[test]
fn anything_else_while_confirming_cancels() {
    let stop = Dialogue::Stop(StopState);
    let r = react(ChatStatus::Active, stop, text("no thanks", true, 2));
    assert_eq!((r.status, r.dialogue), (ChatStatus::Active, READY));
    assert_eq!(r.effects, vec![Effect::Reply(Reply::SeasonContinues)]);
    let r = react(ChatStatus::Active, stop, text("/end_my_season", false, 2));
    assert_eq!((r.status, r.dialogue), (ChatStatus::Active, READY));
    assert_eq!(r.effects, vec![Effect::Reply(Reply::OnlyAdminsCanStop)]);
}

#[test]
fn week_standings_with_three_weeks() {
    let r = react(ChatStatus::Active, READY, text("/week_standings", false, 3));
    let query = Dialogue::WeekResults(WeekInputState { max_week_number: 3 });
    assert_eq!(r.dialogue, query);
    assert_eq!(r.effects, vec![Effect::Reply(Reply::ChooseWeek(3))]);
    let shown = react(ChatStatus::Active, query, text("2", false, 3));
    assert_eq!(shown.dialogue, READY);
    assert_eq!(shown.effects, vec![Effect::ShowWeekStandings(Some(2))]);
    let again = react(ChatStatus::Active, query, text("9", false, 3));
    assert_eq!(again.dialogue, query);
    assert_eq!(again.effects, vec![Effect::Reply(Reply::WeekNotPlayed)]);
    let slash = react(ChatStatus::Active, query, text("/3", false, 3));
    assert_eq!(slash.effects, vec![Effect::ShowWeekStandings(Some(3))]);
    let words = react(ChatStatus::Active, query, text("two", false, 3));
    assert_eq!(words.dialogue, query);
    assert_eq!(words.effects, vec![Effect::Reply(Reply::EnterValidNumber)]);
    let zero = react(ChatStatus::Active, query, text("0", false, 3));
    assert_eq!(zero.dialogue, query);
}

#[test]
fn week_standings_with_one_week_or_none() {
    let r = react(ChatStatus::Active, READY, text("/week_standings", false, 1));
    assert_eq!(r.dialogue, READY);
    assert_eq!(
        r.effects,
        vec![Effect::Reply(Reply::OnlyOneWeek), Effect::ShowWeekStandings(Some(1))]
    );
    let r = react(ChatStatus::Active, READY, text("/week_standings", false, 0));
    assert_eq!(r.dialogue, READY);
    assert_eq!(r.effects, vec![Effect::Reply(Reply::NoWeekYet)]);
}

#[test]
fn start_activates_a_chat_in_setup() {
    let r = react(ChatStatus::Setup, READY, text("/start@BasketballBettingBot", false, 0));
    assert_eq!(r.status, ChatStatus::Active);
    assert_eq!(r.effects, vec![Effect::Reply(Reply::SeasonBegins), Effect::AdvanceWeek]);
    let r = react(ChatStatus::Active, READY, text("/start", false, 1));
    assert_eq!(r.status, ChatStatus::Active);
    assert_eq!(r.effects, vec![Effect::Reply(Reply::AlreadyStarted)]);
}

#[test]
fn setup_accepts_only_start() {
    let r = react(ChatStatus::Setup, READY, text("/standings", false, 0));
    assert_eq!(r.status, ChatStatus::Setup);
    assert_eq!(r.effects, vec![Effect::Reply(Reply::StartFirst)]);
}

#[test]
fn messages_without_text_change_nothing() {
    let query = Dialogue::WeekResults(WeekInputState { max_week_number: 4 });
    let input = Input { command: None, sender_is_admin: true, weeks_played: 4 };
    let r = react(ChatStatus::Active, query, input);
    assert_eq!((r.status, r.dialogue), (ChatStatus::Active, query));
    assert!(r.effects.is_empty());
}

#[test]
fn removed_is_terminal() {
    let r = react(ChatStatus::Removed, READY, text("/start", true, 0));
    assert_eq!(r.status, ChatStatus::Removed);
    assert!(r.effects.is_empty());
}

#[test]
fn other_commands_at_rest() {
    let cases = [
        ("/standings", vec![Effect::ShowWeekStandings(None)]),
        ("/full_standings", vec![Effect::ShowFullStandings]),
        ("/sage", vec![Effect::SendGif]),
        ("/help@BasketballBettingBot", vec![Effect::Reply(Reply::Help)]),
        ("hello", vec![]),
    ];
    for (t, effects) in cases {
        let r = react(ChatStatus::Active, READY, text(t, false, 2));
        assert_eq!(r.dialogue, READY);
        assert_eq!(r.effects, effects);
    }
}

#[test]
fn command_parsing() {
    assert_eq!(Command::parse("/start"), Command::Start);
    assert_eq!(Command::parse("/week_standings@BasketballBettingBot"), Command::WeekStandings);
    assert_eq!(Command::parse("/end_my_season"), Command::EndMySeason);
    assert_eq!(Command::parse("/start@OtherBot"), Command::Other);
    assert_eq!(Command::parse("/Start"), Command::Other);
    assert_eq!(Command::parse("12"), Command::Number(12));
    assert_eq!(Command::parse("/7"), Command::Number(7));
    assert_eq!(Command::parse(""), Command::Other);
}

#[test]
fn number_parsing() {
    assert_eq!(parse_number("2147483647"), Some(i32::MAX));
    assert_eq!(parse_number("2147483648"), None);
    assert_eq!(parse_number("99999999999999999999"), None);
    assert_eq!(parse_number("/"), None);
    assert_eq!(parse_number("//1"), None);
    assert_eq!(parse_number("1a"), None);
    assert_eq!(parse_number("-1"), None);
    assert_eq!(parse_number("007"), Some(7));
}

#[test]
fn admin_gate() {
    let admins = vec![10, 20];
    assert!(user_is_admin(&admins, 20));
    assert!(!user_is_admin(&admins, 30));
    assert!(!user_is_admin(&vec![], 10));
}

#[test]
fn default_dialogue_is_ready() {
    assert_eq!(Dialogue::default(), READY);
}
