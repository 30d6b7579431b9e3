//! The in-memory store of chats, weeks, games, polls, bets and users: its
//! invariants, the chat records, and purging a chat.

use vstd::prelude::*;
use crate::model::{Bet, BetWeek, Chat, ChatStatus, Game, Poll, User};
use crate::weeks::{chat_weeks, weeks_wf, week_in_order};

verus! {

/// No two chats share an id.
pub open spec fn chats_wf(cs: Seq<Chat>) -> bool {
    forall|i: int, j: int|
        0 <= i < cs.len() && 0 <= j < cs.len() && i != j ==> cs[i].id != cs[j].id
}

/// At most one poll per chat and game, and no two polls share a transport id.
pub open spec fn polls_wf(ps: Seq<Poll>) -> bool {
    forall|i: int, j: int|
        0 <= i < ps.len() && 0 <= j < ps.len() && i != j ==> !same_poll_slot(ps[i], ps[j])
}

/// Two polls that cannot both be stored.
pub open spec fn same_poll_slot(a: Poll, b: Poll) -> bool {
    (a.chat_id == b.chat_id && a.game_id == b.game_id) || a.id@ == b.id@
}

/// At most one bet per poll and user, and per game, chat and user.
pub open spec fn bets_wf(bs: Seq<Bet>) -> bool {
    forall|i: int, j: int|
        0 <= i < bs.len() && 0 <= j < bs.len() && i != j ==> !same_bet_slot(bs[i], bs[j])
}

/// Two bets that cannot both be stored.
pub open spec fn same_bet_slot(a: Bet, b: Bet) -> bool {
    a.user_id == b.user_id && (a.poll_id@ == b.poll_id@ || (a.game_id == b.game_id
        && a.chat_id == b.chat_id))
}

/// No two users share an id.
pub open spec fn users_wf(us: Seq<User>) -> bool {
    forall|i: int, j: int|
        0 <= i < us.len() && 0 <= j < us.len() && i != j ==> us[i].id != us[j].id
}

/// The status of a chat, if the chat is known.
pub open spec fn chat_status_of(cs: Seq<Chat>, chat_id: i64) -> Option<ChatStatus>
    decreases cs.len(),
{
    if cs.len() == 0 {
        None
    } else if cs.last().id == chat_id {
        Some(cs.last().status)
    } else {
        chat_status_of(cs.drop_last(), chat_id)
    }
}

/// The rows that survive purging a chat.
pub open spec fn chat_row_kept(chat_id: i64) -> spec_fn(Chat) -> bool {
    |c: Chat| c.id != chat_id
}

pub open spec fn week_row_kept(chat_id: i64) -> spec_fn(BetWeek) -> bool {
    |w: BetWeek| w.chat_id != chat_id
}

pub open spec fn poll_row_kept(chat_id: i64) -> spec_fn(Poll) -> bool {
    |p: Poll| p.chat_id != chat_id
}

pub open spec fn bet_row_kept(chat_id: i64) -> spec_fn(Bet) -> bool {
    |b: Bet| b.chat_id != chat_id
}

/// Filtering keeps rows pairwise apart: no two kept rows clash where no two rows did.
pub proof fn lemma_filter_keeps_apart<A>(s: Seq<A>, keep: spec_fn(A) -> bool, clash: spec_fn(A, A) -> bool)
    requires
        forall|i: int, j: int|
            0 <= i < s.len() && 0 <= j < s.len() && i != j ==> !clash(s[i], s[j]),
    ensures
        forall|i: int, j: int|
            0 <= i < s.filter(keep).len() && 0 <= j < s.filter(keep).len() && i != j
                ==> !clash(s.filter(keep)[i], s.filter(keep)[j]),
    decreases s.len(),
{
    reveal(Seq::filter);
    if s.len() > 0 {
        let d = s.drop_last();
        lemma_filter_keeps_apart(d, keep, clash);
        let f = s.filter(keep);
        if keep(s.last()) {
            assert(f == d.filter(keep).push(s.last()));
            assert forall|i: int, j: int|
                0 <= i < f.len() && 0 <= j < f.len() && i != j implies !clash(f[i], f[j]) by {
                if i == f.len() - 1 || j == f.len() - 1 {
                    let other = if i == f.len() - 1 { j } else { i };
                    assert(d.filter(keep).contains(f[other]));
                    d.lemma_filter_contains_rev(keep, f[other]);
                    let k = choose|k: int| 0 <= k < d.len() && d[k] == f[other];
                    assert(s[k] == f[other]);
                    assert(s[s.len() - 1] == s.last());
                }
            }
        }
    }
}

/// Dropping a chat's weeks leaves every other chat's weeks as they were.
pub proof fn lemma_chat_weeks_without(ws: Seq<BetWeek>, chat_id: i64, c: i64)
    ensures
        chat_weeks(ws.filter(week_row_kept(chat_id)), c) == if c == chat_id {
            Seq::<BetWeek>::empty()
        } else {
            chat_weeks(ws, c)
        },
    decreases ws.len(),
{
    reveal(Seq::filter);
    if ws.len() > 0 {
        lemma_chat_weeks_without(ws.drop_last(), chat_id, c);
        let f = ws.filter(week_row_kept(chat_id));
        if week_row_kept(chat_id)(ws.last()) {
            crate::weeks::lemma_chat_weeks_push(ws.drop_last().filter(week_row_kept(chat_id)), ws.last(), c);
        }
    }
}

/// The store that the scheduler reads and updates.
pub struct SeasonStore {
    pub chats: Vec<Chat>,
    pub weeks: Vec<BetWeek>,
    /// The games that ingestion supplied; looked up by id.
    pub games: Vec<Game>,
    pub polls: Vec<Poll>,
    pub bets: Vec<Bet>,
    pub users: Vec<User>,
}

impl SeasonStore {
    /// The store's invariants.
    pub open spec fn wf(&self) -> bool {
        &&& chats_wf(self.chats@)
        &&& weeks_wf(self.weeks@)
        &&& polls_wf(self.polls@)
        &&& bets_wf(self.bets@)
        &&& users_wf(self.users@)
    }

    /// An empty store.
    pub fn new() -> (r: SeasonStore)
        ensures
            r.wf(),
            r.chats@.len() == 0,
            r.weeks@.len() == 0,
            r.games@.len() == 0,
            r.polls@.len() == 0,
            r.bets@.len() == 0,
            r.users@.len() == 0,
    {
        let r = SeasonStore {
            chats: Vec::new(),
            weeks: Vec::new(),
            games: Vec::new(),
            polls: Vec::new(),
            bets: Vec::new(),
            users: Vec::new(),
        };
        assert forall|c: i64, k: int| 0 <= k < chat_weeks(r.weeks@, c).len() implies #[trigger] week_in_order(chat_weeks(r.weeks@, c), k) by {
            assert(r.weeks@.len() == 0);
        }
        r
    }

    /// The chat's status, or `None` for a chat that is not known.
    pub fn chat_status(&self, chat_id: i64) -> (r: Option<ChatStatus>)
        ensures
            r == chat_status_of(self.chats@, chat_id),
    {
        let mut found: Option<ChatStatus> = None;
        let mut i: usize = 0;
        while i < self.chats.len()
            invariant
                i <= self.chats@.len(),
                found == chat_status_of(self.chats@.subrange(0, i as int), chat_id),
            decreases self.chats@.len() - i,
        {
            let c = self.chats[i];
            proof {
                assert(self.chats@.subrange(0, i + 1) =~= self.chats@.subrange(0, i as int).push(c));
                lemma_chat_status_push(self.chats@.subrange(0, i as int), c, chat_id);
            }
            if c.id == chat_id {
                found = Some(c.status);
            }
            i = i + 1;
        }
        assert(self.chats@.subrange(0, self.chats@.len() as int) =~= self.chats@);
        found
    }

    /// Whether the chat is known.
    pub fn chat_is_known(&self, chat_id: i64) -> (r: bool)
        ensures
            r == chat_status_of(self.chats@, chat_id).is_some(),
    {
        self.chat_status(chat_id).is_some()
    }

    /// The ids of the chats whose season is running, in store order.
    pub fn active_chats(&self) -> (r: Vec<i64>)
        ensures
            r@ == self.chats@.filter(|c: Chat| c.status == ChatStatus::Active).map_values(|c: Chat| c.id),
    {
        let ghost active = |c: Chat| c.status == ChatStatus::Active;
        let mut r: Vec<i64> = Vec::new();
        let mut i: usize = 0;
        while i < self.chats.len()
            invariant
                i <= self.chats@.len(),
                active == |c: Chat| c.status == ChatStatus::Active,
                r@ == self.chats@.subrange(0, i as int).filter(active).map_values(|c: Chat| c.id),
            decreases self.chats@.len() - i,
        {
            let c = self.chats[i];
            proof {
                let pre = self.chats@.subrange(0, i as int);
                assert(self.chats@.subrange(0, i + 1) =~= pre.push(c));
                pre.lemma_filter_push(c, active);
                assert(pre.filter(active).push(c).map_values(|c: Chat| c.id) =~= pre.filter(active).map_values(|c: Chat| c.id).push(c.id));
            }
            if c.status == ChatStatus::Active {
                r.push(c.id);
            }
            i = i + 1;
        }
        assert(self.chats@.subrange(0, self.chats@.len() as int) =~= self.chats@);
        r
    }

    /// Records a chat that was not known yet, in `Setup`; a known chat is left as it is.
    pub fn add_chat(&mut self, chat_id: i64)
        requires
            old(self).wf(),
        ensures
            final(self).wf(),
            chat_status_of(old(self).chats@, chat_id).is_some() ==> final(self).chats@ == old(
                self,
            ).chats@,
            chat_status_of(old(self).chats@, chat_id).is_none() ==> final(self).chats@ == old(
                self,
            ).chats@.push(Chat { id: chat_id, status: ChatStatus::Setup }),
            final(self).weeks == old(self).weeks,
            final(self).games == old(self).games,
            final(self).polls == old(self).polls,
            final(self).bets == old(self).bets,
            final(self).users == old(self).users,
    {
        if self.chat_status(chat_id).is_none() {
            proof {
                lemma_chat_status_absent(self.chats@, chat_id);
            }
            self.chats.push(Chat { id: chat_id, status: ChatStatus::Setup });
        }
    }

    /// Sets a known chat's status to `Active` (`active`) or `Setup` (not `active`);
    /// an unknown chat is left unknown.
    pub fn change_active_chat_status(&mut self, chat_id: i64, active: bool)
        requires
            old(self).wf(),
        ensures
            final(self).wf(),
            forall|c: i64|
                #[trigger] chat_status_of(final(self).chats@, c) == if c == chat_id
                    && chat_status_of(old(self).chats@, c).is_some() {
                    Some(if active { ChatStatus::Active } else { ChatStatus::Setup })
                } else {
                    chat_status_of(old(self).chats@, c)
                },
            final(self).chats@.len() == old(self).chats@.len(),
            final(self).weeks == old(self).weeks,
            final(self).games == old(self).games,
            final(self).polls == old(self).polls,
            final(self).bets == old(self).bets,
            final(self).users == old(self).users,
    {
        let status = if active { ChatStatus::Active } else { ChatStatus::Setup };
        let mut i: usize = 0;
        while i < self.chats.len()
            invariant
                i <= self.chats@.len(),
                *self == *old(self),
                old(self).wf(),
                status == if active { ChatStatus::Active } else { ChatStatus::Setup },
                forall|k: int| 0 <= k < i ==> self.chats@[k].id != chat_id,
            decreases self.chats@.len() - i,
        {
            if self.chats[i].id == chat_id {
                let ghost before = self.chats@;
                self.chats.set(i, Chat { id: chat_id, status });
                proof {
                    assert(before == old(self).chats@);
                    assert(before[i as int].id == chat_id);
                    assert(self.chats@ == before.update(i as int, Chat { id: before[i as int].id, status }));
                    assert(status == if active { ChatStatus::Active } else { ChatStatus::Setup });
                    assert forall|c: i64| #[trigger] chat_status_of(self.chats@, c) == if c == chat_id
                        && chat_status_of(before, c).is_some() {
                        Some(status)
                    } else {
                        chat_status_of(before, c)
                    } by {
                        lemma_chat_status_update(before, i as int, status, c);
                        lemma_chat_status_present(before, i as int);
                        if c == chat_id {
                            assert(chat_status_of(self.chats@, c) == Some(status));
                        } else {
                            assert(chat_status_of(self.chats@, c) == chat_status_of(before, c));
                        }
                    }
                    assert forall|a: int, b: int|
                        0 <= a < self.chats@.len() && 0 <= b < self.chats@.len() && a != b
                        implies self.chats@[a].id != self.chats@[b].id by {
                        assert(before[a].id == self.chats@[a].id);
                        assert(before[b].id == self.chats@[b].id);
                    }
                }
                return;
            }
            i = i + 1;
        }
        proof {
            lemma_chat_status_absent_all(self.chats@, chat_id);
        }
    }

    /// Removes the chat and every week, poll and bet of it.
    pub fn remove_chat(&mut self, chat_id: i64)
        requires
            old(self).wf(),
        ensures
            final(self).wf(),
            final(self).chats@ == old(self).chats@.filter(chat_row_kept(chat_id)),
            final(self).weeks@ == old(self).weeks@.filter(week_row_kept(chat_id)),
            final(self).polls@ == old(self).polls@.filter(poll_row_kept(chat_id)),
            final(self).bets@ == old(self).bets@.filter(bet_row_kept(chat_id)),
            final(self).games == old(self).games,
            final(self).users == old(self).users,
    {
        reveal(Seq::filter);
        let mut chats: Vec<Chat> = Vec::new();
        let mut i: usize = 0;
        while i < self.chats.len()
            invariant
                i <= self.chats@.len(),
                chats@ == self.chats@.subrange(0, i as int).filter(chat_row_kept(chat_id)),
                *self == *old(self),
            decreases self.chats@.len() - i,
        {
            proof {
                assert(self.chats@.subrange(0, i + 1) =~= self.chats@.subrange(0, i as int).push(self.chats@[i as int]));
                self.chats@.subrange(0, i as int).lemma_filter_push(self.chats@[i as int], chat_row_kept(chat_id));
            }
            if self.chats[i].id != chat_id {
                chats.push(self.chats[i]);
            }
            i = i + 1;
        }
        let mut weeks: Vec<BetWeek> = Vec::new();
        let mut i: usize = 0;
        while i < self.weeks.len()
            invariant
                i <= self.weeks@.len(),
                weeks@ == self.weeks@.subrange(0, i as int).filter(week_row_kept(chat_id)),
                *self == *old(self),
            decreases self.weeks@.len() - i,
        {
            proof {
                assert(self.weeks@.subrange(0, i + 1) =~= self.weeks@.subrange(0, i as int).push(self.weeks@[i as int]));
                self.weeks@.subrange(0, i as int).lemma_filter_push(self.weeks@[i as int], week_row_kept(chat_id));
            }
            if self.weeks[i].chat_id != chat_id {
                weeks.push(self.weeks[i]);
            }
            i = i + 1;
        }
        let mut polls: Vec<Poll> = Vec::new();
        let mut i: usize = 0;
        while i < self.polls.len()
            invariant
                i <= self.polls@.len(),
                polls@ == self.polls@.subrange(0, i as int).filter(poll_row_kept(chat_id)),
                *self == *old(self),
            decreases self.polls@.len() - i,
        {
            proof {
                assert(self.polls@.subrange(0, i + 1) =~= self.polls@.subrange(0, i as int).push(self.polls@[i as int]));
                self.polls@.subrange(0, i as int).lemma_filter_push(self.polls@[i as int], poll_row_kept(chat_id));
            }
            if self.polls[i].chat_id != chat_id {
                polls.push(self.polls[i].clone());
            }
            i = i + 1;
        }
        let mut bets: Vec<Bet> = Vec::new();
        let mut i: usize = 0;
        while i < self.bets.len()
            invariant
                i <= self.bets@.len(),
                bets@ == self.bets@.subrange(0, i as int).filter(bet_row_kept(chat_id)),
                *self == *old(self),
            decreases self.bets@.len() - i,
        {
            proof {
                assert(self.bets@.subrange(0, i + 1) =~= self.bets@.subrange(0, i as int).push(self.bets@[i as int]));
                self.bets@.subrange(0, i as int).lemma_filter_push(self.bets@[i as int], bet_row_kept(chat_id));
            }
            if self.bets[i].chat_id != chat_id {
                bets.push(self.bets[i].clone());
            }
            i = i + 1;
        }
        proof {
            assert(self.chats@.subrange(0, self.chats@.len() as int) =~= self.chats@);
            assert(self.weeks@.subrange(0, self.weeks@.len() as int) =~= self.weeks@);
            assert(self.polls@.subrange(0, self.polls@.len() as int) =~= self.polls@);
            assert(self.bets@.subrange(0, self.bets@.len() as int) =~= self.bets@);
            lemma_filter_keeps_apart(self.chats@, chat_row_kept(chat_id), |a: Chat, b: Chat| a.id == b.id);
            lemma_filter_keeps_apart(self.polls@, poll_row_kept(chat_id), |a: Poll, b: Poll| same_poll_slot(a, b));
            lemma_filter_keeps_apart(self.bets@, bet_row_kept(chat_id), |a: Bet, b: Bet| same_bet_slot(a, b));
            assert forall|c: i64, k: int| 0 <= k < chat_weeks(weeks@, c).len() implies #[trigger] week_in_order(chat_weeks(weeks@, c), k) by {
                lemma_chat_weeks_without(self.weeks@, chat_id, c);
                assert(week_in_order(chat_weeks(self.weeks@, c), k));
            }
        }
        self.chats = chats;
        self.weeks = weeks;
        self.polls = polls;
        self.bets = bets;
    }
}

proof fn lemma_chat_status_push(cs: Seq<Chat>, c: Chat, chat_id: i64)
    ensures
        chat_status_of(cs.push(c), chat_id) == if c.id == chat_id {
            Some(c.status)
        } else {
            chat_status_of(cs, chat_id)
        },
{
    assert(cs.push(c).drop_last() =~= cs);
}

proof fn lemma_chat_status_absent(cs: Seq<Chat>, chat_id: i64)
    requires
        chat_status_of(cs, chat_id).is_none(),
    ensures
        forall|k: int| 0 <= k < cs.len() ==> cs[k].id != chat_id,
    decreases cs.len(),
{
    if cs.len() > 0 {
        lemma_chat_status_absent(cs.drop_last(), chat_id);
        assert forall|k: int| 0 <= k < cs.len() implies cs[k].id != chat_id by {
            if k < cs.len() - 1 {
                assert(cs.drop_last()[k] == cs[k]);
            }
        }
    }
}

proof fn lemma_chat_status_absent_all(cs: Seq<Chat>, chat_id: i64)
    requires
        forall|k: int| 0 <= k < cs.len() ==> cs[k].id != chat_id,
    ensures
        chat_status_of(cs, chat_id).is_none(),
    decreases cs.len(),
{
    if cs.len() > 0 {
        lemma_chat_status_absent_all(cs.drop_last(), chat_id);
    }
}

proof fn lemma_chat_status_present(cs: Seq<Chat>, i: int)
    requires
        0 <= i < cs.len(),
        chats_wf(cs),
    ensures
        chat_status_of(cs, cs[i].id) == Some(cs[i].status),
    decreases cs.len(),
{
    if i < cs.len() - 1 {
        assert(cs.last() == cs[cs.len() - 1]);
        lemma_chat_status_present(cs.drop_last(), i);
    }
}

proof fn lemma_chat_status_update(cs: Seq<Chat>, i: int, status: ChatStatus, c: i64)
    requires
        0 <= i < cs.len(),
        chats_wf(cs),
    ensures
        chat_status_of(cs.update(i, Chat { id: cs[i].id, status }), c) == if c == cs[i].id {
            Some(status)
        } else {
            chat_status_of(cs, c)
        },
    decreases cs.len(),
{
    let u = cs.update(i, Chat { id: cs[i].id, status });
    if i == cs.len() - 1 {
        assert(u.drop_last() =~= cs.drop_last());
    } else {
        assert(u.drop_last() =~= cs.drop_last().update(i, Chat { id: cs[i].id, status }));
        assert(cs.last() == cs[cs.len() - 1]);
        lemma_chat_status_update(cs.drop_last(), i, status, c);
    }
}

} // verus!
