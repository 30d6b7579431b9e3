//! Properties that hold across calls: week numbering, at most one poll per
//! chat and game, idle second closing passes, and first answers that stick.

use vstd::prelude::*;
use crate::model::{Bet, BetWeek, Game, Poll};
use crate::store::{bets_wf, polls_wf, same_bet_slot, same_poll_slot};
use crate::weeks::{chat_weeks, weeks_wf, week_in_order};
use crate::polls::{
    close_pass, closed, due_for_closing, due_rank, has_poll, has_poll_id, lemma_filter_prefix_len,
    pending_games, with_poll, CloseOutcome,
};
use crate::bets::{bet_slot_taken, with_bet};

verus! {

/// In every chat, the week numbers in the order the weeks were stored are exactly
/// 1, 2, 3, ...: no gaps and no repeats.
pub proof fn week_numbers_run_from_one(weeks: Seq<BetWeek>, chat_id: i64)
    requires
        weeks_wf(weeks),
    ensures
        forall|k: int|
            0 <= k < chat_weeks(weeks, chat_id).len() ==> #[trigger] chat_weeks(weeks, chat_id)[k].week_number == k + 1,
{
    assert forall|k: int| 0 <= k < chat_weeks(weeks, chat_id).len() implies #[trigger] chat_weeks(weeks, chat_id)[k].week_number == k + 1 by {
        assert(week_in_order(chat_weeks(weeks, chat_id), k));
    }
}

/// Games of a slate that still need a poll have none in the chat.
pub proof fn lemma_pending_have_no_poll(polls: Seq<Poll>, chat_id: i64, slate: Seq<Game>)
    ensures
        forall|k: int| 0 <= k < pending_games(polls, chat_id, slate).len()
            ==> !has_poll(polls, chat_id, #[trigger] pending_games(polls, chat_id, slate)[k].id),
    decreases slate.len(),
{
    if slate.len() > 0 {
        lemma_pending_have_no_poll(polls, chat_id, slate.drop_last());
    }
}

/// Publishing the same game of a slate twice in a chat keeps one poll for it: after
/// the first poll (with a transport id not seen before) the game is not among those
/// still to publish, a second poll for it is not stored, and no two polls share a
/// chat and game.
pub proof fn republishing_adds_no_poll(polls: Seq<Poll>, slate: Seq<Game>, first: Poll, second: Poll)
    requires
        polls_wf(polls),
        !has_poll_id(polls, first.id@),
        second.chat_id == first.chat_id,
        second.game_id == first.game_id,
    ensures
        with_poll(with_poll(polls, first), second) == with_poll(polls, first),
        polls_wf(with_poll(polls, first)),
        forall|k: int| 0 <= k < pending_games(with_poll(polls, first), first.chat_id, slate).len()
            ==> (#[trigger] pending_games(with_poll(polls, first), first.chat_id, slate)[k]).id != first.game_id,
{
    let once = with_poll(polls, first);
    if !(has_poll(polls, first.chat_id, first.game_id) || has_poll_id(polls, first.id@)) {
        assert(once[polls.len() as int] == first);
        assert forall|i: int, j: int| 0 <= i < once.len() && 0 <= j < once.len() && i != j implies !same_poll_slot(once[i], once[j]) by {
            if i < polls.len() as int && j < polls.len() as int {
                assert(once[i] == polls[i] && once[j] == polls[j]);
            } else if i < polls.len() as int {
                assert(once[i] == polls[i]);
            } else {
                assert(once[j] == polls[j]);
            }
        }
        assert(once[polls.len() as int].chat_id == first.chat_id);
    }
    assert(has_poll(once, first.chat_id, first.game_id));
    lemma_pending_have_no_poll(once, first.chat_id, slate);
    assert(has_poll(once, second.chat_id, second.game_id));
}

/// A closing pass leaves due only polls that were due before and got a retryable
/// answer; so when no answer was retryable, a second pass right after it asks the
/// transport to close nothing and changes nothing.
pub proof fn second_close_pass_is_idle(
    polls: Seq<Poll>,
    games: Seq<Game>,
    chat_id: i64,
    now: i64,
    outcomes: Seq<CloseOutcome>,
)
    requires
        outcomes.len() == polls.filter(due_for_closing(games, chat_id, now)).len(),
    ensures
        ({
            let due = due_for_closing(games, chat_id, now);
            let after = close_pass(polls, games, chat_id, now, outcomes);
            &&& forall|i: int| 0 <= i < polls.len() && #[trigger] due(after[i]) ==> {
                &&& after[i] == polls[i]
                &&& due(polls[i])
                &&& outcomes[due_rank(polls, games, chat_id, now, i)] == CloseOutcome::Retryable
            }
            &&& (forall|k: int| 0 <= k < outcomes.len() ==> outcomes[k] != CloseOutcome::Retryable)
                ==> after.filter(due).len() == 0 && close_pass(after, games, chat_id, now, Seq::empty()) == after
        }),
{
    let due = due_for_closing(games, chat_id, now);
    let after = close_pass(polls, games, chat_id, now, outcomes);
    assert forall|i: int| 0 <= i < polls.len() && #[trigger] due(after[i]) implies {
        &&& after[i] == polls[i]
        &&& due(polls[i])
        &&& outcomes[due_rank(polls, games, chat_id, now, i)] == CloseOutcome::Retryable
    } by {
        if due(polls[i]) && outcomes[due_rank(polls, games, chat_id, now, i)] != CloseOutcome::Retryable {
            assert(after[i] == closed(polls[i]));
        }
    }
    if forall|k: int| 0 <= k < outcomes.len() ==> outcomes[k] != CloseOutcome::Retryable {
        assert forall|i: int| 0 <= i < after.len() implies !due(after[i]) by {
            if due(after[i]) {
                assert(polls.subrange(0, i + 1) =~= polls.subrange(0, i).push(polls[i]));
                polls.subrange(0, i).lemma_filter_push(polls[i], due);
                lemma_filter_prefix_len(polls, due, i + 1);
                assert(outcomes[due_rank(polls, games, chat_id, now, i)] != CloseOutcome::Retryable);
            }
        }
        if after.filter(due).len() > 0 {
            let q = after.filter(due)[0];
            after.lemma_filter_pred(due, 0);
            after.lemma_filter_contains_rev(due, q);
            let i = choose|i: int| 0 <= i < after.len() && after[i] == q;
            assert(due(after[i]));
        }
        let again = close_pass(after, games, chat_id, now, Seq::empty());
        assert forall|i: int| 0 <= i < after.len() implies again[i] == after[i] by {
            assert(!due(after[i]));
        }
        assert(again =~= after);
    }
}

/// When a user answers the same poll twice, only the first answer is stored: one bet
/// for that poll and user, carrying the first answer's pick.
pub proof fn second_answer_keeps_first_bet(bets: Seq<Bet>, first: Bet, second: Bet)
    requires
        bets_wf(bets),
        !bet_slot_taken(bets, first),
        second.poll_id@ == first.poll_id@,
        second.user_id == first.user_id,
    ensures
        with_bet(with_bet(bets, first), second) == bets.push(first),
        bets_wf(bets.push(first)),
        forall|i: int|
            0 <= i < bets.len() + 1 && (#[trigger] bets.push(first)[i]).poll_id@ == first.poll_id@
                && bets.push(first)[i].user_id == first.user_id ==> bets.push(first)[i] == first,
{
    let once = bets.push(first);
    assert(once[bets.len() as int] == first);
    assert(same_bet_slot(once[bets.len() as int], second));
    assert(bet_slot_taken(once, second));
    assert forall|i: int, j: int| 0 <= i < once.len() && 0 <= j < once.len() && i != j implies !same_bet_slot(once[i], once[j]) by {
        if i < bets.len() && j < bets.len() {
            assert(once[i] == bets[i] && once[j] == bets[j]);
        } else if i < bets.len() {
            assert(once[i] == bets[i]);
            assert(!same_bet_slot(bets[i], first));
        } else {
            assert(once[j] == bets[j]);
            assert(!same_bet_slot(bets[j], first));
        }
    }
    assert forall|i: int|
        0 <= i < bets.len() + 1 && (#[trigger] once[i]).poll_id@ == first.poll_id@ && once[i].user_id == first.user_id
        implies once[i] == first by {
        if i < bets.len() {
            assert(once[i] == bets[i]);
            assert(same_bet_slot(bets[i], first));
        }
    }
}

} // verus!
