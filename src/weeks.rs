//! The week cycle: deciding per chat when the running week has lapsed and
//! appending the next one, numbered one past the last.

use vstd::prelude::*;
use crate::clock::LeagueDate;
use crate::model::BetWeek;
use crate::store::SeasonStore;

verus! {

/// The weeks of one chat, in the order in which they were stored.
pub open spec fn chat_weeks(weeks: Seq<BetWeek>, chat_id: i64) -> Seq<BetWeek>
    decreases weeks.len(),
{
    if weeks.len() == 0 {
        Seq::empty()
    } else {
        let earlier = chat_weeks(weeks.drop_last(), chat_id);
        if weeks.last().chat_id == chat_id {
            earlier.push(weeks.last())
        } else {
            earlier
        }
    }
}

/// Week `k` (from 0) of a chat's weeks is numbered `k + 1`, ends after it
/// starts, and ends after the week before it.
pub open spec fn week_in_order(cw: Seq<BetWeek>, k: int) -> bool {
    &&& cw[k].week_number == k + 1
    &&& cw[k].start_date.day < cw[k].end_date.day
    &&& k > 0 ==> cw[k - 1].end_date.day < cw[k].end_date.day
}

/// Every chat's weeks are numbered 1, 2, 3, ... in the order stored, with end dates increasing.
pub open spec fn weeks_wf(weeks: Seq<BetWeek>) -> bool {
    forall|c: i64, k: int|
        0 <= k < chat_weeks(weeks, c).len() ==> #[trigger] week_in_order(chat_weeks(weeks, c), k)
}

/// The chat's latest week: the last one stored, which in a well-formed store is the one
/// with the latest end date (see `latest_week_ends_last`).
pub open spec fn latest_week_of(weeks: Seq<BetWeek>, chat_id: i64) -> Option<BetWeek> {
    let cw = chat_weeks(weeks, chat_id);
    if cw.len() == 0 {
        None
    } else {
        Some(cw.last())
    }
}

/// Whether a new week is due for a chat on league date `today`: it has no week yet, or
/// tomorrow comes after the end of its latest week.
pub open spec fn rollover_due(weeks: Seq<BetWeek>, chat_id: i64, today: LeagueDate) -> bool {
    match latest_week_of(weeks, chat_id) {
        None => true,
        Some(w) => today.day + 1 > w.end_date.day,
    }
}

/// The week that a rollover on `today` creates.
pub open spec fn next_week_of(weeks: Seq<BetWeek>, chat_id: i64, today: LeagueDate) -> BetWeek {
    BetWeek {
        chat_id,
        week_number: (match latest_week_of(weeks, chat_id) {
            None => 0,
            Some(w) => w.week_number as int,
        } + 1) as i32,
        start_date: LeagueDate { day: (today.day + 1) as i64 },
        end_date: LeagueDate { day: (today.day + 7) as i64 },
        polls_sent: false,
    }
}

/// In a well-formed store no week of a chat ends after its latest week.
pub proof fn latest_week_ends_last(weeks: Seq<BetWeek>, chat_id: i64)
    requires
        weeks_wf(weeks),
    ensures
        forall|k: int|
            0 <= k < chat_weeks(weeks, chat_id).len() ==> (#[trigger] chat_weeks(weeks, chat_id)[k]).end_date.day
                <= latest_week_of(weeks, chat_id).unwrap().end_date.day,
{
    let cw = chat_weeks(weeks, chat_id);
    assert forall|k: int| 0 <= k < cw.len() implies (#[trigger] cw[k]).end_date.day <= cw.last().end_date.day by {
        lemma_end_dates_increase(cw, k, cw.len() - 1, weeks, chat_id);
    }
}

proof fn lemma_end_dates_increase(cw: Seq<BetWeek>, a: int, b: int, weeks: Seq<BetWeek>, chat_id: i64)
    requires
        weeks_wf(weeks),
        cw == chat_weeks(weeks, chat_id),
        0 <= a <= b < cw.len(),
    ensures
        cw[a].end_date.day <= cw[b].end_date.day,
    decreases b - a,
{
    if a < b {
        assert(week_in_order(chat_weeks(weeks, chat_id), b));
        lemma_end_dates_increase(cw, a, b - 1, weeks, chat_id);
    }
}

/// Storing a week appends it to its own chat's weeks and leaves the other chats' as they were.
pub proof fn lemma_chat_weeks_push(weeks: Seq<BetWeek>, w: BetWeek, c: i64)
    ensures
        chat_weeks(weeks.push(w), c) == if w.chat_id == c {
            chat_weeks(weeks, c).push(w)
        } else {
            chat_weeks(weeks, c)
        },
{
    assert(weeks.push(w).drop_last() =~= weeks);
}

/// The week with its slate marked published, where it is the chat's week `week_number`.
pub open spec fn mark_published(chat_id: i64, week_number: i32) -> spec_fn(BetWeek) -> BetWeek {
    |w: BetWeek|
        if w.chat_id == chat_id && w.week_number == week_number {
            BetWeek { polls_sent: true, ..w }
        } else {
            w
        }
}

proof fn lemma_chat_weeks_marked(weeks: Seq<BetWeek>, chat_id: i64, week_number: i32, c: i64)
    ensures
        chat_weeks(weeks.map_values(mark_published(chat_id, week_number)), c) == chat_weeks(
            weeks,
            c,
        ).map_values(mark_published(chat_id, week_number)),
    decreases weeks.len(),
{
    let f = mark_published(chat_id, week_number);
    if weeks.len() > 0 {
        lemma_chat_weeks_marked(weeks.drop_last(), chat_id, week_number, c);
        assert(weeks.map_values(f).drop_last() =~= weeks.drop_last().map_values(f));
        let cw = chat_weeks(weeks.drop_last(), c);
        assert(cw.push(weeks.last()).map_values(f) =~= cw.map_values(f).push(f(weeks.last())));
    } else {
        assert(weeks.map_values(f) =~= weeks);
        assert(chat_weeks(weeks, c).map_values(f) =~= Seq::<BetWeek>::empty());
    }
}

impl SeasonStore {
    /// Marks the slate of the chat's week `week_number` as published.
    pub fn mark_polls_sent(&mut self, chat_id: i64, week_number: i32)
        requires
            old(self).wf(),
        ensures
            final(self).wf(),
            final(self).weeks@ == old(self).weeks@.map_values(mark_published(chat_id, week_number)),
            final(self).chats == old(self).chats,
            final(self).games == old(self).games,
            final(self).polls == old(self).polls,
            final(self).bets == old(self).bets,
            final(self).users == old(self).users,
    {
        let ghost f = mark_published(chat_id, week_number);
        let mut i: usize = 0;
        while i < self.weeks.len()
            invariant
                i <= self.weeks@.len(),
                self.weeks@.len() == old(self).weeks@.len(),
                f == mark_published(chat_id, week_number),
                forall|k: int| 0 <= k < i ==> self.weeks@[k] == f(old(self).weeks@[k]),
                forall|k: int| i <= k < self.weeks@.len() ==> self.weeks@[k] == old(self).weeks@[k],
                self.chats == old(self).chats,
                self.games == old(self).games,
                self.polls == old(self).polls,
                self.bets == old(self).bets,
                self.users == old(self).users,
            decreases self.weeks@.len() - i,
        {
            let w = self.weeks[i];
            if w.chat_id == chat_id && w.week_number == week_number {
                self.weeks.set(i, BetWeek { polls_sent: true, ..w });
            }
            i = i + 1;
        }
        proof {
            let old_weeks = old(self).weeks@;
            assert(self.weeks@ =~= old_weeks.map_values(f));
            assert forall|c: i64, k: int| 0 <= k < chat_weeks(self.weeks@, c).len() implies #[trigger] week_in_order(chat_weeks(self.weeks@, c), k) by {
                lemma_chat_weeks_marked(old_weeks, chat_id, week_number, c);
                assert(week_in_order(chat_weeks(old_weeks, c), k));
                if k > 0 {
                    assert(week_in_order(chat_weeks(old_weeks, c), k));
                }
            }
        }
    }

    /// The chat's latest week, if it has one.
    pub fn get_bet_week(&self, chat_id: i64) -> (r: Option<BetWeek>)
        ensures
            r == latest_week_of(self.weeks@, chat_id),
    {
        let mut latest: Option<BetWeek> = None;
        let mut i: usize = 0;
        while i < self.weeks.len()
            invariant
                i <= self.weeks@.len(),
                latest == latest_week_of(self.weeks@.subrange(0, i as int), chat_id),
            decreases self.weeks@.len() - i,
        {
            let w = self.weeks[i];
            proof {
                assert(self.weeks@.subrange(0, i + 1) =~= self.weeks@.subrange(0, i as int).push(w));
                lemma_chat_weeks_push(self.weeks@.subrange(0, i as int), w, chat_id);
            }
            if w.chat_id == chat_id {
                latest = Some(w);
            }
            i = i + 1;
        }
        assert(self.weeks@.subrange(0, self.weeks@.len() as int) =~= self.weeks@);
        latest
    }

    /// Appends the chat's next week when one is due on league date `today`, and returns it.
    /// Nothing changes, and `None` comes back, when no week is due or the week number
    /// would not fit.
    pub fn maybe_advance_week(&mut self, chat_id: i64, today: LeagueDate) -> (r: Option<BetWeek>)
        requires
            old(self).wf(),
            today.day + 7 <= i64::MAX,
        ensures
            final(self).wf(),
            r.is_some() == (rollover_due(old(self).weeks@, chat_id, today)
                && chat_weeks(old(self).weeks@, chat_id).len() < i32::MAX),
            r.is_some() ==> r == Some(next_week_of(old(self).weeks@, chat_id, today)),
            r.is_some() ==> final(self).weeks@ == old(self).weeks@.push(r.unwrap()),
            r.is_none() ==> final(self).weeks@ == old(self).weeks@,
            r.is_some() ==> r.unwrap().week_number == chat_weeks(old(self).weeks@, chat_id).len() + 1,
            final(self).chats == old(self).chats,
            final(self).games == old(self).games,
            final(self).polls == old(self).polls,
            final(self).bets == old(self).bets,
            final(self).users == old(self).users,
    {
        let ghost old_weeks = self.weeks@;
        let ghost cw = chat_weeks(old_weeks, chat_id);
        let latest = self.get_bet_week(chat_id);
        let previous_number: i32 = match latest {
            None => 0,
            Some(w) => {
                assert(week_in_order(cw, cw.len() - 1));
                if !(today.day + 1 > w.end_date.day) {
                    return None;
                }
                if w.week_number == i32::MAX {
                    return None;
                }
                w.week_number
            },
        };
        let week = BetWeek {
            chat_id,
            week_number: previous_number + 1,
            start_date: LeagueDate { day: today.day + 1 },
            end_date: LeagueDate { day: today.day + 7 },
            polls_sent: false,
        };
        self.weeks.push(week);
        proof {
            assert(week.week_number == cw.len() + 1);
            assert forall|c: i64, k: int| 0 <= k < chat_weeks(self.weeks@, c).len() implies #[trigger] week_in_order(chat_weeks(self.weeks@, c), k) by {
                lemma_chat_weeks_push(old_weeks, week, c);
                if c == chat_id && k == cw.len() {
                    if k > 0 {
                        assert(week_in_order(cw, k - 1));
                    }
                } else {
                    assert(week_in_order(chat_weeks(old_weeks, c), k));
                }
            }
        }
        Some(week)
    }
}

} // verus!
