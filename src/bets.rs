//! Turning poll answers into bets: at most one bet per poll and user, and the
//! first answer is the one that counts.

use vstd::prelude::*;
use crate::model::{Bet, Game, Poll, User};
use crate::polls::game_of;
use crate::store::{bets_wf, same_bet_slot, users_wf, SeasonStore};

verus! {

/// Why a poll answer was not turned into a bet.
#[derive(Clone, Copy, Debug, PartialEq, Eq, Structural)]
pub enum BetError {
    /// No stored poll (with a known game) has the answered poll's id.
    UnknownPoll,
    /// The answer picked an option other than the away team (0) or the home team (1).
    InvalidOption,
}

/// A participant's answer to a poll, as the transport delivers it.
#[derive(Debug)]
pub struct PollAnswer {
    pub poll_id: String,
    pub user_id: i64,
    pub first_name: String,
    pub last_name: Option<String>,
    pub username: Option<String>,
    pub language_code: Option<String>,
    /// 0 for the first option (the away team), 1 for the second (the home team).
    pub option_index: i32,
}

/// The stored poll with the given transport id (the last such entry).
pub open spec fn poll_of(polls: Seq<Poll>, poll_id: Seq<char>) -> Option<Poll>
    decreases polls.len(),
{
    if polls.len() == 0 {
        None
    } else if polls.last().id@ == poll_id {
        Some(polls.last())
    } else {
        poll_of(polls.drop_last(), poll_id)
    }
}

/// The team that an option of a game's poll stands for.
pub open spec fn team_of_option(game: Game, option_index: int) -> Option<i32> {
    if option_index == 0 {
        Some(game.away_team_id)
    } else if option_index == 1 {
        Some(game.home_team_id)
    } else {
        None
    }
}

/// Whether a stored bet already takes the place of `b`.
pub open spec fn bet_slot_taken(bets: Seq<Bet>, b: Bet) -> bool {
    exists|i: int| 0 <= i < bets.len() && same_bet_slot(bets[i], b)
}

/// The bets after an attempt to store `b`: stored only where its place is free.
pub open spec fn with_bet(bets: Seq<Bet>, b: Bet) -> Seq<Bet> {
    if bet_slot_taken(bets, b) {
        bets
    } else {
        bets.push(b)
    }
}

/// Whether a user with the given id is stored.
pub open spec fn has_user(users: Seq<User>, user_id: i64) -> bool {
    exists|i: int| 0 <= i < users.len() && users[i].id == user_id
}

/// An optional profile text, or the given default.
pub open spec fn text_or(s: Option<String>, default: Seq<char>) -> Seq<char> {
    match s {
        Some(t) => t@,
        None => default,
    }
}

/// The user record made from an answer, with defaults for missing profile fields.
pub open spec fn is_user_of_answer(u: User, a: PollAnswer) -> bool {
    &&& u.id == a.user_id
    &&& u.first_name@ == a.first_name@
    &&& u.last_name@ == text_or(a.last_name, Seq::empty())
    &&& u.username@ == text_or(a.username, Seq::empty())
    &&& u.language_code@ == text_or(a.language_code, "en"@)
}

proof fn lemma_poll_of_push(polls: Seq<Poll>, p: Poll, poll_id: Seq<char>)
    ensures
        poll_of(polls.push(p), poll_id) == if p.id@ == poll_id {
            Some(p)
        } else {
            poll_of(polls, poll_id)
        },
{
    assert(polls.push(p).drop_last() =~= polls);
}

/// The team that option `option_index` of the game's poll stands for: the away team for
/// 0, the home team for 1.
pub fn bet_to_team_id(game: &Game, option_index: i32) -> (r: Result<i32, BetError>)
    ensures
        r == match team_of_option(*game, option_index as int) {
            Some(t) => Ok::<i32, BetError>(t),
            None => Err(BetError::InvalidOption),
        },
{
    if option_index == 0 {
        Ok(game.away_team_id)
    } else if option_index == 1 {
        Ok(game.home_team_id)
    } else {
        Err(BetError::InvalidOption)
    }
}

fn text_or_default(s: &Option<String>, default: &str) -> (r: String)
    ensures
        r@ == text_or(*s, default@),
{
    match s {
        Some(t) => t.clone(),
        None => String::from_str(default),
    }
}

impl SeasonStore {
    /// The stored poll with the given transport id.
    pub fn find_poll(&self, poll_id: &String) -> (r: Option<Poll>)
        ensures
            r == poll_of(self.polls@, poll_id@),
    {
        let mut found: Option<Poll> = None;
        let mut i: usize = 0;
        while i < self.polls.len()
            invariant
                i <= self.polls@.len(),
                found == poll_of(self.polls@.subrange(0, i as int), poll_id@),
            decreases self.polls@.len() - i,
        {
            let p = &self.polls[i];
            proof {
                assert(self.polls@.subrange(0, i + 1) =~= self.polls@.subrange(0, i as int).push(*p));
                lemma_poll_of_push(self.polls@.subrange(0, i as int), *p, poll_id@);
            }
            if p.id == *poll_id {
                found = Some(p.clone());
            }
            i = i + 1;
        }
        assert(self.polls@.subrange(0, self.polls@.len() as int) =~= self.polls@);
        found
    }

    /// The chat and game of the stored poll with the given transport id.
    pub fn get_chat_id_game_id_from_poll(&self, poll_id: &String) -> (r: Option<(i64, i32)>)
        ensures
            r == match poll_of(self.polls@, poll_id@) {
                Some(p) => Some((p.chat_id, p.game_id)),
                None => None,
            },
    {
        match self.find_poll(poll_id) {
            Some(p) => Some((p.chat_id, p.game_id)),
            None => None,
        }
    }

    /// Whether a user with the given id is stored.
    pub fn user_is_in_db(&self, user_id: i64) -> (r: bool)
        ensures
            r == has_user(self.users@, user_id),
    {
        let mut i: usize = 0;
        while i < self.users.len()
            invariant
                i <= self.users@.len(),
                forall|k: int| 0 <= k < i ==> self.users@[k].id != user_id,
            decreases self.users@.len() - i,
        {
            if self.users[i].id == user_id {
                return true;
            }
            i = i + 1;
        }
        false
    }

    /// Stores a user whose id is not stored yet; says whether it was stored.
    pub fn add_user(&mut self, user: User) -> (r: bool)
        requires
            old(self).wf(),
        ensures
            final(self).wf(),
            r == !has_user(old(self).users@, user.id),
            final(self).users@ == if r {
                old(self).users@.push(user)
            } else {
                old(self).users@
            },
            final(self).chats == old(self).chats,
            final(self).weeks == old(self).weeks,
            final(self).games == old(self).games,
            final(self).polls == old(self).polls,
            final(self).bets == old(self).bets,
    {
        if self.user_is_in_db(user.id) {
            return false;
        }
        let ghost before = self.users@;
        self.users.push(user);
        proof {
            assert forall|i: int, j: int|
                0 <= i < self.users@.len() && 0 <= j < self.users@.len() && i != j
                implies self.users@[i].id != self.users@[j].id by {
                if i < before.len() {
                    assert(before[i] == self.users@[i]);
                }
                if j < before.len() {
                    assert(before[j] == self.users@[j]);
                }
            }
        }
        true
    }

    /// Stores a bet unless the user already has one for the same poll, or for the same
    /// game in the same chat; says whether it was stored.
    pub fn add_bet(&mut self, bet: Bet) -> (r: bool)
        requires
            old(self).wf(),
        ensures
            final(self).wf(),
            r == !bet_slot_taken(old(self).bets@, bet),
            final(self).bets@ == with_bet(old(self).bets@, bet),
            final(self).chats == old(self).chats,
            final(self).weeks == old(self).weeks,
            final(self).games == old(self).games,
            final(self).polls == old(self).polls,
            final(self).users == old(self).users,
    {
        let mut i: usize = 0;
        while i < self.bets.len()
            invariant
                i <= self.bets@.len(),
                *self == *old(self),
                old(self).wf(),
                forall|k: int| 0 <= k < i ==> !same_bet_slot(self.bets@[k], bet),
            decreases self.bets@.len() - i,
        {
            let b = &self.bets[i];
            if b.user_id == bet.user_id && (b.poll_id == bet.poll_id || (b.game_id == bet.game_id
                && b.chat_id == bet.chat_id)) {
                return false;
            }
            i = i + 1;
        }
        let ghost before = self.bets@;
        self.bets.push(bet);
        proof {
            assert forall|a: int, c: int|
                0 <= a < self.bets@.len() && 0 <= c < self.bets@.len() && a != c
                implies !same_bet_slot(self.bets@[a], self.bets@[c]) by {
                if a < before.len() {
                    assert(before[a] == self.bets@[a]);
                }
                if c < before.len() {
                    assert(before[c] == self.bets@[c]);
                }
            }
        }
        true
    }

    /// Records a poll answer as a bet. The poll must be stored and its game known
    /// (else `UnknownPoll`), and the option must be 0 or 1 (else `InvalidOption`); on
    /// either error nothing changes. Otherwise the user is stored if new, with empty
    /// texts and the locale "en" for missing profile fields, and the bet is stored
    /// unless the user already has one for this poll; `Ok` says whether it was stored.
    pub fn record_bet(&mut self, answer: &PollAnswer) -> (r: Result<bool, BetError>)
        requires
            old(self).wf(),
        ensures
            final(self).wf(),
            final(self).chats == old(self).chats,
            final(self).weeks == old(self).weeks,
            final(self).games == old(self).games,
            final(self).polls == old(self).polls,
            match poll_of(old(self).polls@, answer.poll_id@) {
                None => r == Err::<bool, BetError>(BetError::UnknownPoll),
                Some(p) => match game_of(old(self).games@, p.game_id) {
                    None => r == Err::<bool, BetError>(BetError::UnknownPoll),
                    Some(g) => match team_of_option(g, answer.option_index as int) {
                        None => r == Err::<bool, BetError>(BetError::InvalidOption),
                        Some(team) => {
                            let b = Bet {
                                game_id: p.game_id,
                                chat_id: p.chat_id,
                                user_id: answer.user_id,
                                bet: team,
                                poll_id: answer.poll_id,
                            };
                            &&& r == Ok::<bool, BetError>(!bet_slot_taken(old(self).bets@, b))
                            &&& final(self).bets@ == with_bet(old(self).bets@, b)
                        },
                    },
                },
            },
            r.is_err() ==> final(self).bets == old(self).bets && final(self).users == old(self).users,
            r.is_ok() && has_user(old(self).users@, answer.user_id) ==> final(self).users == old(self).users,
            r.is_ok() && !has_user(old(self).users@, answer.user_id) ==> {
                &&& final(self).users@.len() == old(self).users@.len() + 1
                &&& final(self).users@.drop_last() == old(self).users@
                &&& is_user_of_answer(final(self).users@.last(), *answer)
            },
    {
        let poll = match self.find_poll(&answer.poll_id) {
            Some(p) => p,
            None => return Err(BetError::UnknownPoll),
        };
        let game = match self.find_game(poll.game_id) {
            Some(g) => g,
            None => return Err(BetError::UnknownPoll),
        };
        let team = match bet_to_team_id(&game, answer.option_index) {
            Ok(t) => t,
            Err(e) => return Err(e),
        };
        if !self.user_is_in_db(answer.user_id) {
            let user = User {
                id: answer.user_id,
                first_name: answer.first_name.clone(),
                last_name: text_or_default(&answer.last_name, ""),
                username: text_or_default(&answer.username, ""),
                language_code: text_or_default(&answer.language_code, "en"),
            };
            proof {
                reveal_strlit("");
                assert(""@ =~= Seq::<char>::empty());
            }
            let ghost before = self.users@;
            self.add_user(user);
            assert(self.users@.drop_last() =~= before);
        }
        let bet = Bet {
            game_id: poll.game_id,
            chat_id: poll.chat_id,
            user_id: answer.user_id,
            bet: team,
            poll_id: answer.poll_id.clone(),
        };
        Ok(self.add_bet(bet))
    }
}

} // verus!
