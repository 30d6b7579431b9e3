//! The poll lifecycle: publishing one poll per game of a slate, at most once
//! per chat and game, and closing polls once their game has started.

use vstd::prelude::*;
use crate::clock::LeagueDate;
use crate::model::{BetWeek, Game, Poll};
use crate::store::{polls_wf, same_poll_slot, SeasonStore};
use crate::weeks::{chat_weeks, next_week_of, rollover_due};

verus! {

/// What the transport answered when asked to close a poll.
#[derive(Clone, Copy, Debug, PartialEq, Eq, Structural)]
pub enum CloseOutcome {
    /// The poll was closed.
    Closed,
    /// The chat no longer exists: the poll can never be closed there.
    ChatGone,
    /// Any other failure (network, rate limit): try again on a later tick.
    Retryable,
}

/// The game with the given id, where ingestion supplied one (the last such entry).
pub open spec fn game_of(games: Seq<Game>, game_id: i32) -> Option<Game>
    decreases games.len(),
{
    if games.len() == 0 {
        None
    } else if games.last().id == game_id {
        Some(games.last())
    } else {
        game_of(games.drop_last(), game_id)
    }
}

/// Whether the chat already has a poll for the game.
pub open spec fn has_poll(polls: Seq<Poll>, chat_id: i64, game_id: i32) -> bool {
    exists|i: int| 0 <= i < polls.len() && polls[i].chat_id == chat_id && polls[i].game_id == game_id
}

/// Whether a poll with the given transport id is stored.
pub open spec fn has_poll_id(polls: Seq<Poll>, poll_id: Seq<char>) -> bool {
    exists|i: int| 0 <= i < polls.len() && polls[i].id@ == poll_id
}

/// The polls after an attempt to store `p`: stored only where its chat has no poll
/// for its game and its transport id is new.
pub open spec fn with_poll(polls: Seq<Poll>, p: Poll) -> Seq<Poll> {
    if has_poll(polls, p.chat_id, p.game_id) || has_poll_id(polls, p.id@) {
        polls
    } else {
        polls.push(p)
    }
}

/// Whether the slate holds a game with the given id.
pub open spec fn slate_has_game(slate: Seq<Game>, game_id: i32) -> bool {
    exists|k: int| 0 <= k < slate.len() && slate[k].id == game_id
}

/// The games of a slate that still need a poll in the chat, in slate order: those
/// without a poll, each id once.
pub open spec fn pending_games(polls: Seq<Poll>, chat_id: i64, slate: Seq<Game>) -> Seq<Game>
    decreases slate.len(),
{
    if slate.len() == 0 {
        Seq::empty()
    } else {
        let earlier = pending_games(polls, chat_id, slate.drop_last());
        let g = slate.last();
        if !has_poll(polls, chat_id, g.id) && !slate_has_game(slate.drop_last(), g.id) {
            earlier.push(g)
        } else {
            earlier
        }
    }
}

/// Whether a poll of the chat is still open although its game has started by `now`.
pub open spec fn due_for_closing(games: Seq<Game>, chat_id: i64, now: i64) -> spec_fn(Poll) -> bool {
    |p: Poll|
        p.chat_id == chat_id && p.is_open && match game_of(games, p.game_id) {
            Some(g) => g.scheduled_start <= now,
            None => false,
        }
}

/// Whether a poll of the chat's week `week_number` is for a game that has finished
/// (both scores known).
pub open spec fn finished_in_week(games: Seq<Game>, chat_id: i64, week_number: i32) -> spec_fn(Poll) -> bool {
    |p: Poll|
        p.chat_id == chat_id && p.week_number == week_number && match game_of(games, p.game_id) {
            Some(g) => g.away_points.is_some() && g.home_points.is_some(),
            None => false,
        }
}

/// The same poll, marked closed.
pub open spec fn closed(p: Poll) -> Poll {
    Poll {
        id: p.id,
        local_id: p.local_id,
        chat_id: p.chat_id,
        game_id: p.game_id,
        week_number: p.week_number,
        sent_date: p.sent_date,
        is_open: false,
    }
}

/// Position of `polls[i]` among the polls due for closing.
pub open spec fn due_rank(polls: Seq<Poll>, games: Seq<Game>, chat_id: i64, now: i64, i: int) -> int {
    polls.subrange(0, i).filter(due_for_closing(games, chat_id, now)).len() as int
}

/// The polls after a closing pass in which the transport answered `outcomes[k]` for
/// the `k`-th poll due: it is closed unless the answer was retryable.
pub open spec fn close_pass(
    polls: Seq<Poll>,
    games: Seq<Game>,
    chat_id: i64,
    now: i64,
    outcomes: Seq<CloseOutcome>,
) -> Seq<Poll> {
    Seq::new(
        polls.len(),
        |i: int|
            if due_for_closing(games, chat_id, now)(polls[i]) && outcomes[due_rank(
                polls,
                games,
                chat_id,
                now,
                i,
            )] != CloseOutcome::Retryable {
                closed(polls[i])
            } else {
                polls[i]
            },
    )
}

proof fn lemma_game_of_push(games: Seq<Game>, g: Game, game_id: i32)
    ensures
        game_of(games.push(g), game_id) == if g.id == game_id {
            Some(g)
        } else {
            game_of(games, game_id)
        },
{
    assert(games.push(g).drop_last() =~= games);
}

proof fn lemma_pending_push(polls: Seq<Poll>, chat_id: i64, slate: Seq<Game>, g: Game)
    ensures
        pending_games(polls, chat_id, slate.push(g)) == if !has_poll(polls, chat_id, g.id)
            && !slate_has_game(slate, g.id) {
            pending_games(polls, chat_id, slate).push(g)
        } else {
            pending_games(polls, chat_id, slate)
        },
{
    assert(slate.push(g).drop_last() =~= slate);
}

impl SeasonStore {
    /// The game with the given id, where ingestion supplied one.
    pub fn find_game(&self, game_id: i32) -> (r: Option<Game>)
        ensures
            r == game_of(self.games@, game_id),
    {
        let mut found: Option<Game> = None;
        let mut i: usize = 0;
        while i < self.games.len()
            invariant
                i <= self.games@.len(),
                found == game_of(self.games@.subrange(0, i as int), game_id),
            decreases self.games@.len() - i,
        {
            let g = self.games[i];
            proof {
                assert(self.games@.subrange(0, i + 1) =~= self.games@.subrange(0, i as int).push(g));
                lemma_game_of_push(self.games@.subrange(0, i as int), g, game_id);
            }
            if g.id == game_id {
                found = Some(g);
            }
            i = i + 1;
        }
        assert(self.games@.subrange(0, self.games@.len() as int) =~= self.games@);
        found
    }

    /// Whether the chat already has a poll for the game.
    pub fn poll_is_in_db(&self, game_id: i32, chat_id: i64) -> (r: bool)
        ensures
            r == has_poll(self.polls@, chat_id, game_id),
    {
        let mut i: usize = 0;
        while i < self.polls.len()
            invariant
                i <= self.polls@.len(),
                forall|k: int| 0 <= k < i ==> !(self.polls@[k].chat_id == chat_id && self.polls@[k].game_id == game_id),
            decreases self.polls@.len() - i,
        {
            if self.polls[i].chat_id == chat_id && self.polls[i].game_id == game_id {
                return true;
            }
            i = i + 1;
        }
        false
    }

    /// Whether a poll with the given transport id is stored.
    pub fn poll_is_in_db_by_poll_id(&self, poll_id: &String) -> (r: bool)
        ensures
            r == has_poll_id(self.polls@, poll_id@),
    {
        let mut i: usize = 0;
        while i < self.polls.len()
            invariant
                i <= self.polls@.len(),
                forall|k: int| 0 <= k < i ==> self.polls@[k].id@ != poll_id@,
            decreases self.polls@.len() - i,
        {
            if self.polls[i].id == *poll_id {
                return true;
            }
            i = i + 1;
        }
        false
    }

    /// Stores a poll that the transport published, unless its chat already has a poll
    /// for that game or its transport id is taken; says whether it was stored.
    pub fn add_poll(&mut self, poll: Poll) -> (r: bool)
        requires
            old(self).wf(),
        ensures
            final(self).wf(),
            r == !(has_poll(old(self).polls@, poll.chat_id, poll.game_id) || has_poll_id(
                old(self).polls@,
                poll.id@,
            )),
            final(self).polls@ == with_poll(old(self).polls@, poll),
            final(self).chats == old(self).chats,
            final(self).weeks == old(self).weeks,
            final(self).games == old(self).games,
            final(self).bets == old(self).bets,
            final(self).users == old(self).users,
    {
        if self.poll_is_in_db(poll.game_id, poll.chat_id) || self.poll_is_in_db_by_poll_id(&poll.id) {
            return false;
        }
        let ghost before = self.polls@;
        self.polls.push(poll);
        proof {
            assert forall|i: int, j: int|
                0 <= i < self.polls@.len() && 0 <= j < self.polls@.len() && i != j
                implies !same_poll_slot(self.polls@[i], self.polls@[j]) by {
                if i < before.len() && j < before.len() {
                    assert(before[i] == self.polls@[i] && before[j] == self.polls@[j]);
                } else if i < before.len() {
                    assert(before[i] == self.polls@[i]);
                } else {
                    assert(before[j] == self.polls@[j]);
                }
            }
        }
        true
    }

    /// The games of the slate that still need a poll in the chat, in slate order, each
    /// once: publishing a slate sends a poll for these and for no other game.
    pub fn games_to_publish(&self, chat_id: i64, slate: &Vec<Game>) -> (r: Vec<Game>)
        ensures
            r@ == pending_games(self.polls@, chat_id, slate@),
    {
        let mut r: Vec<Game> = Vec::new();
        let mut i: usize = 0;
        while i < slate.len()
            invariant
                i <= slate@.len(),
                r@ == pending_games(self.polls@, chat_id, slate@.subrange(0, i as int)),
            decreases slate@.len() - i,
        {
            let g = slate[i];
            let mut seen = false;
            let mut k: usize = 0;
            while k < i
                invariant
                    k <= i < slate@.len(),
                    g == slate@[i as int],
                    seen == exists|m: int| 0 <= m < k && slate@[m].id == g.id,
                decreases i - k,
            {
                if slate[k].id == g.id {
                    seen = true;
                }
                k = k + 1;
            }
            proof {
                let pre = slate@.subrange(0, i as int);
                assert(slate@.subrange(0, i + 1) =~= pre.push(g));
                lemma_pending_push(self.polls@, chat_id, pre, g);
                if seen {
                    let m = choose|m: int| 0 <= m < i && slate@[m].id == g.id;
                    assert(pre[m].id == g.id);
                }
                if slate_has_game(pre, g.id) {
                    let m = choose|m: int| 0 <= m < pre.len() && pre[m].id == g.id;
                    assert(slate@[m].id == g.id);
                }
            }
            if !seen && !self.poll_is_in_db(g.id, chat_id) {
                r.push(g);
            }
            i = i + 1;
        }
        assert(slate@.subrange(0, slate@.len() as int) =~= slate@);
        r
    }

    /// A scheduler tick's publishing step for a chat on league date `today`: when a new
    /// week is due it is stored and returned with the games of the slate that still
    /// need a poll, in slate order; the caller sends those polls and stores each one
    /// that the transport accepted with `add_poll`. `None`, with nothing changed, when
    /// no week is due.
    pub fn send_polls(&mut self, chat_id: i64, today: LeagueDate, slate: &Vec<Game>) -> (r: Option<(BetWeek, Vec<Game>)>)
        requires
            old(self).wf(),
            today.day + 7 <= i64::MAX,
        ensures
            final(self).wf(),
            r.is_some() == (rollover_due(old(self).weeks@, chat_id, today)
                && chat_weeks(old(self).weeks@, chat_id).len() < i32::MAX),
            r.is_some() ==> r.unwrap().0 == next_week_of(old(self).weeks@, chat_id, today),
            r.is_some() ==> final(self).weeks@ == old(self).weeks@.push(r.unwrap().0),
            r.is_some() ==> r.unwrap().1@ == pending_games(old(self).polls@, chat_id, slate@),
            r.is_none() ==> final(self).weeks@ == old(self).weeks@,
            final(self).chats == old(self).chats,
            final(self).games == old(self).games,
            final(self).polls == old(self).polls,
            final(self).bets == old(self).bets,
            final(self).users == old(self).users,
    {
        match self.maybe_advance_week(chat_id, today) {
            Some(week) => Some((week, self.games_to_publish(chat_id, slate))),
            None => None,
        }
    }

    /// The chat's open polls whose game has started by `now` (seconds since the Unix
    /// epoch), in store order: the polls that a closing pass asks the transport to close.
    pub fn expired_open_polls(&self, chat_id: i64, now: i64) -> (r: Vec<Poll>)
        ensures
            r@ == self.polls@.filter(due_for_closing(self.games@, chat_id, now)),
    {
        let mut r: Vec<Poll> = Vec::new();
        let mut i: usize = 0;
        while i < self.polls.len()
            invariant
                i <= self.polls@.len(),
                r@ == self.polls@.subrange(0, i as int).filter(due_for_closing(self.games@, chat_id, now)),
            decreases self.polls@.len() - i,
        {
            let p = &self.polls[i];
            proof {
                assert(self.polls@.subrange(0, i + 1) =~= self.polls@.subrange(0, i as int).push(*p));
                self.polls@.subrange(0, i as int).lemma_filter_push(*p, due_for_closing(self.games@, chat_id, now));
            }
            if self.is_due(p, chat_id, now) {
                r.push(p.clone());
            }
            i = i + 1;
        }
        assert(self.polls@.subrange(0, self.polls@.len() as int) =~= self.polls@);
        r
    }

    /// How many games of the chat's week `week_number` have finished.
    pub fn number_of_finished_games_week(&self, chat_id: i64, week_number: i32) -> (r: usize)
        ensures
            r == self.polls@.filter(finished_in_week(self.games@, chat_id, week_number)).len(),
    {
        let ghost finished = finished_in_week(self.games@, chat_id, week_number);
        let mut n: usize = 0;
        let mut i: usize = 0;
        while i < self.polls.len()
            invariant
                i <= self.polls@.len(),
                finished == finished_in_week(self.games@, chat_id, week_number),
                n == self.polls@.subrange(0, i as int).filter(finished).len(),
                n <= i,
            decreases self.polls@.len() - i,
        {
            let p = &self.polls[i];
            proof {
                assert(self.polls@.subrange(0, i + 1) =~= self.polls@.subrange(0, i as int).push(*p));
                self.polls@.subrange(0, i as int).lemma_filter_push(*p, finished);
            }
            if p.chat_id == chat_id && p.week_number == week_number {
                match self.find_game(p.game_id) {
                    Some(g) => {
                        if g.away_points.is_some() && g.home_points.is_some() {
                            n = n + 1;
                        }
                    },
                    None => {},
                }
            }
            i = i + 1;
        }
        assert(self.polls@.subrange(0, self.polls@.len() as int) =~= self.polls@);
        n
    }

    fn is_due(&self, p: &Poll, chat_id: i64, now: i64) -> (r: bool)
        ensures
            r == due_for_closing(self.games@, chat_id, now)(*p),
    {
        if p.chat_id != chat_id || !p.is_open {
            return false;
        }
        match self.find_game(p.game_id) {
            Some(g) => g.scheduled_start <= now,
            None => false,
        }
    }

    /// Applies a closing pass: `outcomes[k]` is the transport's answer for the `k`-th
    /// poll that `expired_open_polls` listed. A poll is marked closed when it was
    /// closed or its chat is gone, and stays open on a retryable failure.
    pub fn stop_poll(&mut self, chat_id: i64, now: i64, outcomes: &Vec<CloseOutcome>)
        requires
            old(self).wf(),
            outcomes@.len() == old(self).polls@.filter(due_for_closing(old(self).games@, chat_id, now)).len(),
        ensures
            final(self).wf(),
            final(self).polls@ == close_pass(old(self).polls@, old(self).games@, chat_id, now, outcomes@),
            final(self).chats == old(self).chats,
            final(self).weeks == old(self).weeks,
            final(self).games == old(self).games,
            final(self).bets == old(self).bets,
            final(self).users == old(self).users,
    {
        let ghost ps = self.polls@;
        let ghost due = due_for_closing(self.games@, chat_id, now);
        let mut i: usize = 0;
        let mut j: usize = 0;
        while i < self.polls.len()
            invariant
                i <= self.polls@.len(),
                self.polls@.len() == ps.len(),
                ps == old(self).polls@,
                due == due_for_closing(old(self).games@, chat_id, now),
                self.games == old(self).games,
                self.chats == old(self).chats,
                self.weeks == old(self).weeks,
                self.bets == old(self).bets,
                self.users == old(self).users,
                outcomes@.len() == ps.filter(due).len(),
                j == ps.subrange(0, i as int).filter(due).len(),
                forall|k: int| 0 <= k < i ==> self.polls@[k] == #[trigger] close_pass(ps, self.games@, chat_id, now, outcomes@)[k],
                forall|k: int| i <= k < ps.len() ==> self.polls@[k] == ps[k],
            decreases ps.len() - i,
        {
            proof {
                assert(ps.subrange(0, i + 1) =~= ps.subrange(0, i as int).push(ps[i as int]));
                ps.subrange(0, i as int).lemma_filter_push(ps[i as int], due);
                lemma_filter_prefix_len(ps, due, i + 1);
            }
            let due_now = self.is_due(&self.polls[i], chat_id, now);
            if due_now {
                let outcome = outcomes[j];
                if outcome != CloseOutcome::Retryable {
                    let p = self.polls[i].clone();
                    self.polls.set(i, Poll { is_open: false, ..p });
                }
                j = j + 1;
            }
            i = i + 1;
        }
        proof {
            assert(self.polls@ =~= close_pass(ps, self.games@, chat_id, now, outcomes@));
            assert forall|a: int, b: int|
                0 <= a < self.polls@.len() && 0 <= b < self.polls@.len() && a != b
                implies !same_poll_slot(self.polls@[a], self.polls@[b]) by {
                assert(close_pass(ps, self.games@, chat_id, now, outcomes@)[a] == self.polls@[a]);
                assert(close_pass(ps, self.games@, chat_id, now, outcomes@)[b] == self.polls@[b]);
                assert(!same_poll_slot(ps[a], ps[b]));
            }
        }
    }
}

/// A prefix has no more due polls than the whole.
pub proof fn lemma_filter_prefix_len(ps: Seq<Poll>, due: spec_fn(Poll) -> bool, i: int)
    requires
        0 <= i <= ps.len(),
    ensures
        ps.subrange(0, i).filter(due).len() <= ps.filter(due).len(),
    decreases ps.len() - i,
{
    if i < ps.len() {
        assert(ps.subrange(0, i + 1) =~= ps.subrange(0, i).push(ps[i]));
        ps.subrange(0, i).lemma_filter_push(ps[i], due);
        lemma_filter_prefix_len(ps, due, i + 1);
    } else {
        assert(ps.subrange(0, i) =~= ps);
    }
}

} // verus!
