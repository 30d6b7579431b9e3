//! The records that the scheduler keeps and reads.

use vstd::prelude::*;
use crate::clock::LeagueDate;

verus! {

/// Where a chat stands in its season.
#[derive(Clone, Copy, Debug, PartialEq, Eq, Structural)]
pub enum ChatStatus {
    /// Known, but no season started yet.
    Setup,
    /// A season is running.
    Active,
    /// The season was ended and the chat's rows were purged.
    Removed,
}

/// A chat that has talked to the bot.
#[derive(Clone, Copy, Debug, PartialEq, Eq, Structural)]
pub struct Chat {
    pub id: i64,
    pub status: ChatStatus,
}

/// One betting week of a chat.
#[derive(Clone, Copy, Debug, PartialEq, Eq, Structural)]
pub struct BetWeek {
    pub chat_id: i64,
    /// 1 for a chat's first week, then one more for each following week.
    pub week_number: i32,
    pub start_date: LeagueDate,
    pub end_date: LeagueDate,
    /// Whether the slate of this week was published.
    pub polls_sent: bool,
}

/// A game that may be bet on, as the ingestion side supplies it.
#[derive(Clone, Copy, Debug, PartialEq, Eq, Structural)]
pub struct Game {
    pub id: i32,
    pub away_team_id: i32,
    pub home_team_id: i32,
    /// Scheduled tip-off, in seconds since the Unix epoch.
    pub scheduled_start: i64,
    pub away_points: Option<i32>,
    pub home_points: Option<i32>,
    /// How attractive the matchup is: higher is better.
    pub quality: i64,
    /// The two teams' combined win fraction, on a fixed integer scale: lower is worse.
    pub combined_win_rate: i64,
}

/// A poll that was published for one game in one chat.
#[derive(Debug, PartialEq, Eq)]
pub struct Poll {
    /// The identifier that the transport gave the poll.
    pub id: String,
    /// The transport's handle of the poll message within its chat.
    pub local_id: i32,
    pub chat_id: i64,
    pub game_id: i32,
    /// Number of the week that the poll belongs to.
    pub week_number: i32,
    pub sent_date: LeagueDate,
    pub is_open: bool,
}

/// One user's pick for one poll.
#[derive(Debug, PartialEq, Eq)]
pub struct Bet {
    pub game_id: i32,
    pub chat_id: i64,
    pub user_id: i64,
    /// The team that the user picked.
    pub bet: i32,
    pub poll_id: String,
}

/// A participant, recorded when they first bet.
#[derive(Debug, PartialEq, Eq)]
pub struct User {
    pub id: i64,
    pub first_name: String,
    pub last_name: String,
    pub username: String,
    pub language_code: String,
}

impl Clone for Poll {
    fn clone(&self) -> (r: Self)
        ensures
            r == *self,
    {
        Poll {
            id: self.id.clone(),
            local_id: self.local_id,
            chat_id: self.chat_id,
            game_id: self.game_id,
            week_number: self.week_number,
            sent_date: self.sent_date,
            is_open: self.is_open,
        }
    }
}

impl Clone for Bet {
    fn clone(&self) -> (r: Self)
        ensures
            r == *self,
    {
        Bet {
            game_id: self.game_id,
            chat_id: self.chat_id,
            user_id: self.user_id,
            bet: self.bet,
            poll_id: self.poll_id.clone(),
        }
    }
}

impl Clone for User {
    fn clone(&self) -> (r: Self)
        ensures
            r == *self,
    {
        User {
            id: self.id,
            first_name: self.first_name.clone(),
            last_name: self.last_name.clone(),
            username: self.username.clone(),
            language_code: self.language_code.clone(),
        }
    }
}

} // verus!
