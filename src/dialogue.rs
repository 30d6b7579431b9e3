//! The per-chat season dialogue: which commands are accepted in which state,
//! what the chat's state becomes, and which effects the caller must carry out.

use vstd::prelude::*;
use crate::model::ChatStatus;

verus! {

/// Waiting for an administrator to confirm the end of the season.
#[derive(Clone, Copy, Debug, PartialEq, Eq, Structural)]
pub struct StopState;

/// The resting state: commands are accepted.
#[derive(Clone, Copy, Debug, PartialEq, Eq, Structural)]
pub struct ReadyState;

/// Waiting for the number of the week whose standings should be shown.
#[derive(Clone, Copy, Debug, PartialEq, Eq, Structural)]
pub struct WeekInputState {
    /// The highest week number that may be chosen.
    pub max_week_number: i32,
}

/// Where a chat's dialogue stands.
#[derive(Clone, Copy, Debug, PartialEq, Eq, Structural)]
pub enum Dialogue {
    Stop(StopState),
    Ready(ReadyState),
    WeekResults(WeekInputState),
}

impl Default for Dialogue {
    fn default() -> (r: Self)
        ensures
            r == Dialogue::Ready(ReadyState),
    {
        Dialogue::Ready(ReadyState)
    }
}

/// What a text message asks for.
#[derive(Clone, Copy, Debug, PartialEq, Eq, Structural)]
pub enum Command {
    Start,
    Standings,
    FullStandings,
    StopSeason,
    EndMySeason,
    WeekStandings,
    Sage,
    Help,
    /// A number, written bare or after a slash.
    Number(i32),
    /// Any other text.
    Other,
}

/// A fixed reply to the chat.
#[derive(Clone, Copy, Debug, PartialEq, Eq, Structural)]
pub enum Reply {
    /// The season has not started: send /start first.
    StartFirst,
    /// How the game works, and that the season begins now.
    SeasonBegins,
    AlreadyStarted,
    OnlyAdminsCanStop,
    /// Asks an administrator to confirm the end of the season.
    ConfirmStop,
    SeasonContinues,
    SeasonEnded,
    /// No week has been played yet.
    NoWeekYet,
    /// Only one week was played: its standings follow.
    OnlyOneWeek,
    /// Asks which week to show, from 1 to the given number.
    ChooseWeek(i32),
    /// The number given is not a week that was played.
    WeekNotPlayed,
    /// The text given is not a number.
    EnterValidNumber,
    Help,
}

/// What the caller must do after a message.
#[derive(Clone, Copy, Debug, PartialEq, Eq, Structural)]
pub enum Effect {
    Reply(Reply),
    /// Open the chat's next week now and publish its slate.
    AdvanceWeek,
    /// Show the standings of the given week, or of the current week for `None`.
    ShowWeekStandings(Option<i32>),
    /// Show the standings of the whole season.
    ShowFullStandings,
    SendGif,
    /// Delete the chat and all its weeks, polls and bets.
    PurgeChat,
}

/// A message as the dialogue sees it.
#[derive(Clone, Copy, Debug, PartialEq, Eq, Structural)]
pub struct Input {
    /// The message's text, parsed; `None` for a message without text.
    pub command: Option<Command>,
    /// Whether the sender is one of the chat's administrators.
    pub sender_is_admin: bool,
    /// The number of the chat's latest week, 0 where it has none.
    pub weeks_played: i32,
}

/// The chat's state and the effects after a message.
#[derive(Debug, PartialEq, Eq)]
pub struct Reaction {
    pub status: ChatStatus,
    pub dialogue: Dialogue,
    pub effects: Vec<Effect>,
}

/// The value of a string of decimal digits.
pub open spec fn digits_value(s: Seq<char>) -> int
    decreases s.len(),
{
    if s.len() == 0 {
        0
    } else {
        digits_value(s.drop_last()) * 10 + (s.last() as int - '0' as int)
    }
}

/// Every character is a decimal digit.
pub open spec fn all_digits(s: Seq<char>) -> bool {
    forall|i: int| 0 <= i < s.len() ==> '0' <= #[trigger] s[i] <= '9'
}

/// The number that a text holds: one or more digits, after an optional slash,
/// whose value fits an `i32`.
pub open spec fn number_of(s: Seq<char>) -> Option<i32> {
    let digits = if s.len() > 0 && s[0] == '/' {
        s.subrange(1, s.len() as int)
    } else {
        s
    };
    if digits.len() > 0 && all_digits(digits) && digits_value(digits) <= i32::MAX {
        Some(digits_value(digits) as i32)
    } else {
        None
    }
}

/// Whether the text is one of the two spellings of a command: bare, or addressed to the bot.
pub open spec fn is_command(s: Seq<char>, bare: Seq<char>, addressed: Seq<char>) -> bool {
    s == bare || s == addressed
}

/// What a text asks for.
pub open spec fn command_of(s: Seq<char>) -> Command {
    if is_command(s, "/start"@, "/start@BasketballBettingBot"@) {
        Command::Start
    } else if is_command(s, "/standings"@, "/standings@BasketballBettingBot"@) {
        Command::Standings
    } else if is_command(s, "/full_standings"@, "/full_standings@BasketballBettingBot"@) {
        Command::FullStandings
    } else if is_command(s, "/stop_season"@, "/stop_season@BasketballBettingBot"@) {
        Command::StopSeason
    } else if is_command(s, "/end_my_season"@, "/end_my_season@BasketballBettingBot"@) {
        Command::EndMySeason
    } else if is_command(s, "/week_standings"@, "/week_standings@BasketballBettingBot"@) {
        Command::WeekStandings
    } else if is_command(s, "/sage"@, "/sage@BasketballBettingBot"@) {
        Command::Sage
    } else if is_command(s, "/help"@, "/help@BasketballBettingBot"@) {
        Command::Help
    } else if number_of(s).is_some() {
        Command::Number(number_of(s).unwrap())
    } else {
        Command::Other
    }
}

/// The state after a message, and the effects, in order.
pub open spec fn step(status: ChatStatus, dialogue: Dialogue, input: Input) -> (ChatStatus, Dialogue, Seq<Effect>) {
    let ready = Dialogue::Ready(ReadyState);
    match input.command {
        None => (status, dialogue, Seq::empty()),
        Some(command) => match status {
            ChatStatus::Removed => (status, dialogue, Seq::empty()),
            ChatStatus::Setup => if command == Command::Start {
                (ChatStatus::Active, ready, seq![Effect::Reply(Reply::SeasonBegins), Effect::AdvanceWeek])
            } else {
                (ChatStatus::Setup, ready, seq![Effect::Reply(Reply::StartFirst)])
            },
            ChatStatus::Active => match dialogue {
                Dialogue::Ready(_) => ready_step(command, input),
                Dialogue::Stop(_) => if !input.sender_is_admin {
                    (ChatStatus::Active, ready, seq![Effect::Reply(Reply::OnlyAdminsCanStop)])
                } else if command == Command::EndMySeason {
                    (
                        ChatStatus::Removed,
                        ready,
                        seq![
                            Effect::ShowWeekStandings(None),
                            Effect::ShowFullStandings,
                            Effect::PurgeChat,
                            Effect::Reply(Reply::SeasonEnded),
                        ],
                    )
                } else {
                    (ChatStatus::Active, ready, seq![Effect::Reply(Reply::SeasonContinues)])
                },
                Dialogue::WeekResults(w) => match command {
                    Command::Number(n) => if 1 <= n <= w.max_week_number {
                        (ChatStatus::Active, ready, seq![Effect::ShowWeekStandings(Some(n))])
                    } else {
                        (ChatStatus::Active, dialogue, seq![Effect::Reply(Reply::WeekNotPlayed)])
                    },
                    _ => (ChatStatus::Active, dialogue, seq![Effect::Reply(Reply::EnterValidNumber)]),
                },
            },
        },
    }
}

/// The state and effects after a command in an active chat at rest.
pub open spec fn ready_step(command: Command, input: Input) -> (ChatStatus, Dialogue, Seq<Effect>) {
    let ready = Dialogue::Ready(ReadyState);
    match command {
        Command::Start => (ChatStatus::Active, ready, seq![Effect::Reply(Reply::AlreadyStarted)]),
        Command::Standings => (ChatStatus::Active, ready, seq![Effect::ShowWeekStandings(None)]),
        Command::FullStandings => (ChatStatus::Active, ready, seq![Effect::ShowFullStandings]),
        Command::StopSeason => if input.sender_is_admin {
            (ChatStatus::Active, Dialogue::Stop(StopState), seq![Effect::Reply(Reply::ConfirmStop)])
        } else {
            (ChatStatus::Active, ready, seq![Effect::Reply(Reply::OnlyAdminsCanStop)])
        },
        Command::WeekStandings => if input.weeks_played <= 0 {
            (ChatStatus::Active, ready, seq![Effect::Reply(Reply::NoWeekYet)])
        } else if input.weeks_played == 1 {
            (
                ChatStatus::Active,
                ready,
                seq![Effect::Reply(Reply::OnlyOneWeek), Effect::ShowWeekStandings(Some(1))],
            )
        } else {
            (
                ChatStatus::Active,
                Dialogue::WeekResults(WeekInputState { max_week_number: input.weeks_played }),
                seq![Effect::Reply(Reply::ChooseWeek(input.weeks_played))],
            )
        },
        Command::Sage => (ChatStatus::Active, ready, seq![Effect::SendGif]),
        Command::Help => (ChatStatus::Active, ready, seq![Effect::Reply(Reply::Help)]),
        _ => (ChatStatus::Active, ready, Seq::empty()),
    }
}

/// Whether `user_id` is among the chat's administrators.
pub fn user_is_admin(admins: &Vec<i64>, user_id: i64) -> (r: bool)
    ensures
        r == admins@.contains(user_id),
{
    let mut i: usize = 0;
    while i < admins.len()
        invariant
            i <= admins@.len(),
            forall|k: int| 0 <= k < i ==> admins@[k] != user_id,
        decreases admins@.len() - i,
    {
        if admins[i] == user_id {
            return true;
        }
        i = i + 1;
    }
    false
}

fn same_text(a: &str, b: &str) -> (r: bool)
    ensures
        r == (a@ == b@),
{
    let n = a.unicode_len();
    if n != b.unicode_len() {
        return false;
    }
    let mut i: usize = 0;
    while i < n
        invariant
            n == a@.len() == b@.len(),
            i <= n,
            forall|k: int| 0 <= k < i ==> a@[k] == b@[k],
        decreases n - i,
    {
        if a.get_char(i) != b.get_char(i) {
            return false;
        }
        i = i + 1;
    }
    assert(a@ =~= b@);
    true
}

fn command_is(text: &str, bare: &str, addressed: &str) -> (r: bool)
    ensures
        r == is_command(text@, bare@, addressed@),
{
    same_text(text, bare) || same_text(text, addressed)
}

/// The number that a text holds: one or more ASCII digits, after an optional slash,
/// whose value fits an `i32`.
pub fn parse_number(text: &str) -> (r: Option<i32>)
    ensures
        r == number_of(text@),
{
    let n = text.unicode_len();
    let first: usize = if n > 0 && text.get_char(0) == '/' { 1 } else { 0 };
    let ghost digits = text@.subrange(first as int, n as int);
    if first >= n {
        return None;
    }
    let mut value: i64 = 0;
    let mut too_big = false;
    let mut i: usize = first;
    while i < n
        invariant
            n == text@.len(),
            first <= i <= n,
            first < n,
            first as int == (if text@.len() > 0 && text@[0] == '/' { 1int } else { 0int }),
            digits == text@.subrange(first as int, n as int),
            all_digits(text@.subrange(first as int, i as int)),
            0 <= value <= i32::MAX,
            !too_big ==> value == digits_value(text@.subrange(first as int, i as int)),
            too_big ==> digits_value(text@.subrange(first as int, i as int)) > i32::MAX,
        decreases n - i,
    {
        let c = text.get_char(i);
        if c < '0' || c > '9' {
            proof {
                assert(digits[i - first] == c);
            }
            return None;
        }
        let ghost pre = text@.subrange(first as int, i as int);
        assert(text@.subrange(first as int, i + 1) =~= pre.push(c));
        assert(text@.subrange(first as int, i + 1).drop_last() =~= pre);
        if !too_big {
            let next: i64 = value * 10 + (c as u32 as i64 - '0' as u32 as i64);
            if next > i32::MAX as i64 {
                too_big = true;
            } else {
                value = next;
            }
        } else {
            proof {
                assert(digits_value(pre) >= 0) by {
                    lemma_digits_value_nonneg(pre);
                }
            }
        }
        i = i + 1;
    }
    assert(text@.subrange(first as int, n as int) =~= digits);
    assert(text@.subrange(0, n as int) =~= text@);
    if too_big {
        None
    } else {
        Some(value as i32)
    }
}

proof fn lemma_digits_value_nonneg(s: Seq<char>)
    requires
        all_digits(s),
    ensures
        digits_value(s) >= 0,
    decreases s.len(),
{
    if s.len() > 0 {
        assert(all_digits(s.drop_last())) by {
            assert forall|i: int| 0 <= i < s.drop_last().len() implies '0' <= #[trigger] s.drop_last()[i] <= '9' by {
                assert(s.drop_last()[i] == s[i]);
            }
        }
        lemma_digits_value_nonneg(s.drop_last());
        assert('0' <= s[s.len() - 1] <= '9');
    }
}

fn effects(list: &[Effect]) -> (r: Vec<Effect>)
    ensures
        r@ == list@,
{
    let mut r: Vec<Effect> = Vec::new();
    let mut i: usize = 0;
    while i < list.len()
        invariant
            i <= list@.len(),
            r@ == list@.subrange(0, i as int),
        decreases list@.len() - i,
    {
        r.push(list[i]);
        assert(list@.subrange(0, i + 1) =~= list@.subrange(0, i as int).push(list@[i as int]));
        i = i + 1;
    }
    assert(list@.subrange(0, list@.len() as int) =~= list@);
    r
}

fn reaction(status: ChatStatus, dialogue: Dialogue, list: &[Effect]) -> (r: Reaction)
    ensures
        r.status == status,
        r.dialogue == dialogue,
        r.effects@ == list@,
{
    Reaction { status, dialogue, effects: effects(list) }
}

/// Handles one message: the chat's state after it, and the effects that the caller
/// must carry out, in order.
///
/// A message without text changes nothing, and so does anything sent to a removed
/// chat. Before the season starts only `/start` is accepted: it activates the chat
/// and asks for the first week to be opened at once. In an active chat at rest,
/// `/stop_season` from an administrator asks for confirmation (anyone else is
/// refused), and `/week_standings` shows the only week or asks which week to show
/// when there are several. While confirming, only an administrator's
/// `/end_my_season` ends the season; anything else goes back to rest. While asking
/// for a week, a number from 1 to the latest week shows that week and goes back to
/// rest; anything else asks again.
pub fn react(status: ChatStatus, dialogue: Dialogue, input: Input) -> (r: Reaction)
    ensures
        (r.status, r.dialogue, r.effects@) == step(status, dialogue, input),
{
    let ready = Dialogue::Ready(ReadyState);
    let command = match input.command {
        None => return reaction(status, dialogue, &[]),
        Some(c) => c,
    };
    match status {
        ChatStatus::Removed => reaction(status, dialogue, &[]),
        ChatStatus::Setup => if command == Command::Start {
            reaction(ChatStatus::Active, ready, &[Effect::Reply(Reply::SeasonBegins), Effect::AdvanceWeek])
        } else {
            reaction(ChatStatus::Setup, ready, &[Effect::Reply(Reply::StartFirst)])
        },
        ChatStatus::Active => match dialogue {
            Dialogue::Ready(_) => react_at_rest(command, input),
            Dialogue::Stop(_) => if !input.sender_is_admin {
                reaction(ChatStatus::Active, ready, &[Effect::Reply(Reply::OnlyAdminsCanStop)])
            } else if command == Command::EndMySeason {
                reaction(
                    ChatStatus::Removed,
                    ready,
                    &[
                        Effect::ShowWeekStandings(None),
                        Effect::ShowFullStandings,
                        Effect::PurgeChat,
                        Effect::Reply(Reply::SeasonEnded),
                    ],
                )
            } else {
                reaction(ChatStatus::Active, ready, &[Effect::Reply(Reply::SeasonContinues)])
            },
            Dialogue::WeekResults(w) => match command {
                Command::Number(n) => if 1 <= n && n <= w.max_week_number {
                    reaction(ChatStatus::Active, ready, &[Effect::ShowWeekStandings(Some(n))])
                } else {
                    reaction(ChatStatus::Active, dialogue, &[Effect::Reply(Reply::WeekNotPlayed)])
                },
                _ => reaction(ChatStatus::Active, dialogue, &[Effect::Reply(Reply::EnterValidNumber)]),
            },
        },
    }
}

fn react_at_rest(command: Command, input: Input) -> (r: Reaction)
    ensures
        (r.status, r.dialogue, r.effects@) == ready_step(command, input),
{
    let ready = Dialogue::Ready(ReadyState);
    match command {
        Command::Start => reaction(ChatStatus::Active, ready, &[Effect::Reply(Reply::AlreadyStarted)]),
        Command::Standings => reaction(ChatStatus::Active, ready, &[Effect::ShowWeekStandings(None)]),
        Command::FullStandings => reaction(ChatStatus::Active, ready, &[Effect::ShowFullStandings]),
        Command::StopSeason => if input.sender_is_admin {
            reaction(ChatStatus::Active, Dialogue::Stop(StopState), &[Effect::Reply(Reply::ConfirmStop)])
        } else {
            reaction(ChatStatus::Active, ready, &[Effect::Reply(Reply::OnlyAdminsCanStop)])
        },
        Command::WeekStandings => if input.weeks_played <= 0 {
            reaction(ChatStatus::Active, ready, &[Effect::Reply(Reply::NoWeekYet)])
        } else if input.weeks_played == 1 {
            reaction(
                ChatStatus::Active,
                ready,
                &[Effect::Reply(Reply::OnlyOneWeek), Effect::ShowWeekStandings(Some(1))],
            )
        } else {
            reaction(
                ChatStatus::Active,
                Dialogue::WeekResults(WeekInputState { max_week_number: input.weeks_played }),
                &[Effect::Reply(Reply::ChooseWeek(input.weeks_played))],
            )
        },
        Command::Sage => reaction(ChatStatus::Active, ready, &[Effect::SendGif]),
        Command::Help => reaction(ChatStatus::Active, ready, &[Effect::Reply(Reply::Help)]),
        _ => reaction(ChatStatus::Active, ready, &[]),
    }
}

impl Command {
    /// What a text asks for: one of the bot's commands (bare or addressed to the bot),
    /// a number, or other text.
    pub fn parse(text: &str) -> (r: Command)
        ensures
            r == command_of(text@),
    {
        if command_is(text, "/start", "/start@BasketballBettingBot") {
            Command::Start
        } else if command_is(text, "/standings", "/standings@BasketballBettingBot") {
            Command::Standings
        } else if command_is(text, "/full_standings", "/full_standings@BasketballBettingBot") {
            Command::FullStandings
        } else if command_is(text, "/stop_season", "/stop_season@BasketballBettingBot") {
            Command::StopSeason
        } else if command_is(text, "/end_my_season", "/end_my_season@BasketballBettingBot") {
            Command::EndMySeason
        } else if command_is(text, "/week_standings", "/week_standings@BasketballBettingBot") {
            Command::WeekStandings
        } else if command_is(text, "/sage", "/sage@BasketballBettingBot") {
            Command::Sage
        } else if command_is(text, "/help", "/help@BasketballBettingBot") {
            Command::Help
        } else {
            match parse_number(text) {
                Some(n) => Command::Number(n),
                None => Command::Other,
            }
        }
    }
}

} // verus!
