//! Choosing a week's slate: the best matchups of the window, one deliberately
//! poor game, each game once, in order of tip-off.

use vstd::prelude::*;
use crate::clock::{league_day_of, LeagueDate};
use crate::model::Game;

verus! {

/// Whether the game's league-local date lies within `[start, end]`.
pub open spec fn in_window(g: Game, start: LeagueDate, end: LeagueDate) -> bool {
    start.day <= league_day_of(g.scheduled_start as int) <= end.day
}

/// `a` ranks above `b` by quality: higher quality first, then lower id.
pub open spec fn ranks_above(a: Game, b: Game) -> bool {
    a.quality > b.quality || (a.quality == b.quality && a.id < b.id)
}

/// `a` ranks below `b` by combined win rate: lower rate first, then lower id.
pub open spec fn ranks_below(a: Game, b: Game) -> bool {
    a.combined_win_rate < b.combined_win_rate || (a.combined_win_rate == b.combined_win_rate
        && a.id < b.id)
}

/// `a` comes before `b` in a published slate: earlier tip-off first, then lower id.
pub open spec fn starts_before(a: Game, b: Game) -> bool {
    a.scheduled_start < b.scheduled_start || (a.scheduled_start == b.scheduled_start && a.id
        < b.id)
}

/// The two games are the same (home team, away team) matchup.
pub open spec fn same_matchup(a: Game, b: Game) -> bool {
    a.home_team_id == b.home_team_id && a.away_team_id == b.away_team_id
}

/// No two games of the pool share an id.
pub open spec fn ids_distinct(pool: Seq<Game>) -> bool {
    forall|i: int, j: int|
        0 <= i < pool.len() && 0 <= j < pool.len() && i != j ==> pool[i].id != pool[j].id
}

/// `g` is in the window and ranks above every other game of the window with its matchup.
pub open spec fn leads_matchup(pool: Seq<Game>, start: LeagueDate, end: LeagueDate, g: Game) -> bool {
    &&& in_window(g, start, end)
    &&& forall|j: int|
        0 <= j < pool.len() && in_window(pool[j], start, end) && same_matchup(pool[j], g)
            && pool[j].id != g.id ==> ranks_above(g, pool[j])
}

/// The matchup leaders that rank above `g`.
pub open spec fn leader_above(pool: Seq<Game>, start: LeagueDate, end: LeagueDate, g: Game) -> spec_fn(
    Game,
) -> bool {
    |h: Game| leads_matchup(pool, start, end, h) && ranks_above(h, g)
}

/// `g` is among the best `count` distinct matchups of the window.
pub open spec fn quality_pick(
    pool: Seq<Game>,
    start: LeagueDate,
    end: LeagueDate,
    count: int,
    g: Game,
) -> bool {
    leads_matchup(pool, start, end, g) && pool.filter(leader_above(pool, start, end, g)).len()
        < count
}

/// `g` is the window's single worst game by combined win rate.
pub open spec fn tank_pick(pool: Seq<Game>, start: LeagueDate, end: LeagueDate, g: Game) -> bool {
    &&& in_window(g, start, end)
    &&& forall|j: int|
        0 <= j < pool.len() && in_window(pool[j], start, end) && pool[j].id != g.id
            ==> ranks_below(g, pool[j])
}

/// `g` belongs in the slate: a quality pick or the worst game.
pub open spec fn in_slate(pool: Seq<Game>, start: LeagueDate, end: LeagueDate, count: int, g: Game) -> bool {
    quality_pick(pool, start, end, count, g) || tank_pick(pool, start, end, g)
}

/// The games are in slate order.
pub open spec fn in_start_order(s: Seq<Game>) -> bool {
    forall|a: int, b: int| 0 <= a < b < s.len() ==> starts_before(s[a], s[b])
}

fn window_flags(pool: &Vec<Game>, start: LeagueDate, end: LeagueDate) -> (r: Vec<bool>)
    ensures
        r@.len() == pool@.len(),
        forall|i: int| 0 <= i < pool@.len() ==> r@[i] == in_window(pool@[i], start, end),
{
    let mut r: Vec<bool> = Vec::new();
    let mut i: usize = 0;
    while i < pool.len()
        invariant
            i <= pool@.len(),
            r@.len() == i,
            forall|k: int| 0 <= k < i ==> r@[k] == in_window(pool@[k], start, end),
        decreases pool@.len() - i,
    {
        let day = LeagueDate::from_instant(pool[i].scheduled_start);
        r.push(start.day <= day.day && day.day <= end.day);
        i = i + 1;
    }
    r
}

fn leader_flags(pool: &Vec<Game>, elig: &Vec<bool>, Ghost(start): Ghost<LeagueDate>, Ghost(end): Ghost<LeagueDate>) -> (r: Vec<bool>)
    requires
        elig@.len() == pool@.len(),
        forall|i: int| 0 <= i < pool@.len() ==> elig@[i] == in_window(pool@[i], start, end),
    ensures
        r@.len() == pool@.len(),
        forall|i: int| 0 <= i < pool@.len() ==> r@[i] == leads_matchup(pool@, start, end, pool@[i]),
{
    let mut r: Vec<bool> = Vec::new();
    let mut i: usize = 0;
    while i < pool.len()
        invariant
            i <= pool@.len(),
            r@.len() == i,
            elig@.len() == pool@.len(),
            forall|k: int| 0 <= k < pool@.len() ==> elig@[k] == in_window(pool@[k], start, end),
            forall|k: int| 0 <= k < i ==> r@[k] == leads_matchup(pool@, start, end, pool@[k]),
        decreases pool@.len() - i,
    {
        let g = pool[i];
        let mut leads = elig[i];
        let mut j: usize = 0;
        while j < pool.len()
            invariant
                i < pool@.len(),
                j <= pool@.len(),
                g == pool@[i as int],
                elig@.len() == pool@.len(),
                forall|k: int| 0 <= k < pool@.len() ==> elig@[k] == in_window(pool@[k], start, end),
                leads == (in_window(g, start, end) && forall|m: int|
                    0 <= m < j && in_window(pool@[m], start, end) && same_matchup(pool@[m], g)
                        && pool@[m].id != g.id ==> ranks_above(g, pool@[m])),
            decreases pool@.len() - j,
        {
            let h = pool[j];
            if elig[j] && h.home_team_id == g.home_team_id && h.away_team_id == g.away_team_id
                && h.id != g.id && !(g.quality > h.quality || (g.quality == h.quality && g.id < h.id)) {
                leads = false;
            }
            j = j + 1;
        }
        r.push(leads);
        i = i + 1;
    }
    r
}

fn count_leaders_above(pool: &Vec<Game>, lead: &Vec<bool>, i: usize, Ghost(start): Ghost<LeagueDate>, Ghost(end): Ghost<LeagueDate>) -> (r: usize)
    requires
        i < pool@.len(),
        lead@.len() == pool@.len(),
        forall|k: int| 0 <= k < pool@.len() ==> lead@[k] == leads_matchup(pool@, start, end, pool@[k]),
    ensures
        r == pool@.filter(leader_above(pool@, start, end, pool@[i as int])).len(),
{
    let g = pool[i];
    let ghost above = leader_above(pool@, start, end, g);
    let mut c: usize = 0;
    let mut j: usize = 0;
    while j < pool.len()
        invariant
            i < pool@.len(),
            j <= pool@.len(),
            g == pool@[i as int],
            above == leader_above(pool@, start, end, g),
            lead@.len() == pool@.len(),
            forall|k: int| 0 <= k < pool@.len() ==> lead@[k] == leads_matchup(pool@, start, end, pool@[k]),
            c == pool@.subrange(0, j as int).filter(above).len(),
            c <= j,
        decreases pool@.len() - j,
    {
        let h = pool[j];
        proof {
            assert(pool@.subrange(0, j + 1) =~= pool@.subrange(0, j as int).push(h));
            pool@.subrange(0, j as int).lemma_filter_push(h, above);
        }
        if lead[j] && (h.quality > g.quality || (h.quality == g.quality && h.id < g.id)) {
            c = c + 1;
        }
        j = j + 1;
    }
    assert(pool@.subrange(0, pool@.len() as int) =~= pool@);
    c
}

fn lowest_ranked(pool: &Vec<Game>, elig: &Vec<bool>, Ghost(start): Ghost<LeagueDate>, Ghost(end): Ghost<LeagueDate>) -> (r: Option<usize>)
    requires
        ids_distinct(pool@),
        elig@.len() == pool@.len(),
        forall|i: int| 0 <= i < pool@.len() ==> elig@[i] == in_window(pool@[i], start, end),
    ensures
        forall|i: int| 0 <= i < pool@.len() ==> (tank_pick(pool@, start, end, pool@[i]) <==> r == Some(i as usize)),
        r.is_some() ==> r.unwrap() < pool@.len(),
{
    let mut best: Option<usize> = None;
    let mut i: usize = 0;
    while i < pool.len()
        invariant
            i <= pool@.len(),
            ids_distinct(pool@),
            elig@.len() == pool@.len(),
            forall|k: int| 0 <= k < pool@.len() ==> elig@[k] == in_window(pool@[k], start, end),
            best.is_none() ==> forall|m: int| 0 <= m < i ==> !in_window(pool@[m], start, end),
            best.is_some() ==> {
                let b = best.unwrap() as int;
                &&& b < i
                &&& in_window(pool@[b], start, end)
                &&& forall|m: int|
                    0 <= m < i && m != b && in_window(pool@[m], start, end) ==> ranks_below(pool@[b], pool@[m])
            },
        decreases pool@.len() - i,
    {
        if elig[i] {
            let g = pool[i];
            match best {
                None => {
                    best = Some(i);
                },
                Some(b) => {
                    let h = pool[b];
                    assert(pool@[b as int].id != pool@[i as int].id);
                    if g.combined_win_rate < h.combined_win_rate || (g.combined_win_rate
                        == h.combined_win_rate && g.id < h.id) {
                        best = Some(i);
                    }
                },
            }
        }
        i = i + 1;
    }
    proof {
        assert forall|m: int| 0 <= m < pool@.len() implies (tank_pick(pool@, start, end, pool@[m]) <==> best == Some(m as usize)) by {
            match best {
                None => {},
                Some(b) => {
                    if m != b {
                        assert(pool@[m].id != pool@[b as int].id);
                        if tank_pick(pool@, start, end, pool@[m]) {
                            assert(ranks_below(pool@[m], pool@[b as int]));
                            assert(ranks_below(pool@[b as int], pool@[m]));
                        }
                    } else {
                        assert forall|j: int|
                            0 <= j < pool@.len() && in_window(pool@[j], start, end) && pool@[j].id != pool@[m].id
                            implies ranks_below(pool@[m], pool@[j]) by {
                            assert(j != b);
                        }
                    }
                },
            }
        }
    }
    best
}

/// Inserts `g` into a slate-ordered sequence whose games all have other ids.
fn insert_by_start(r: &mut Vec<Game>, g: Game)
    requires
        in_start_order(old(r)@),
        forall|a: int| 0 <= a < old(r)@.len() ==> old(r)@[a].id != g.id,
    ensures
        in_start_order(final(r)@),
        forall|x: Game| final(r)@.contains(x) <==> (old(r)@.contains(x) || x == g),
{
    let mut p: usize = 0;
    let mut found = false;
    while p < r.len() && !found
        invariant
            p <= r@.len(),
            r@ == old(r)@,
            in_start_order(r@),
            found ==> p < r@.len() && starts_before(g, r@[p as int]),
            forall|a: int| 0 <= a < p ==> starts_before(r@[a], g),
            forall|a: int| 0 <= a < r@.len() ==> r@[a].id != g.id,
        decreases r@.len() - p + (if found { 0int } else { 1int }),
    {
        let h = r[p];
        if g.scheduled_start < h.scheduled_start || (g.scheduled_start == h.scheduled_start && g.id < h.id) {
            found = true;
        } else {
            p = p + 1;
        }
    }
    let ghost before = r@;
    proof {
        assert forall|a: int| p <= a < before.len() implies starts_before(g, before[a]) by {
            if a > p {
                assert(starts_before(before[p as int], before[a]));
            }
        }
        before.insert_ensures(p as int, g);
    }
    r.insert(p, g);
    proof {
        let n = r@;
        assert forall|a: int, b: int| 0 <= a < b < n.len() implies starts_before(n[a], n[b]) by {
            if b < p {
                assert(n[a] == before[a] && n[b] == before[b]);
            } else if b == p {
                assert(n[a] == before[a]);
            } else if a < p {
                assert(n[a] == before[a] && n[b] == before[b - 1]);
            } else if a == p {
                assert(n[b] == before[b - 1]);
            } else {
                assert(n[a] == before[a - 1] && n[b] == before[b - 1]);
            }
        }
        assert forall|x: Game| n.contains(x) <==> (before.contains(x) || x == g) by {
            if n.contains(x) {
                let a = choose|a: int| 0 <= a < n.len() && n[a] == x;
                if a < p {
                    assert(before[a] == x);
                } else if a > p {
                    assert(before[a - 1] == x);
                }
            }
            if before.contains(x) {
                let a = choose|a: int| 0 <= a < before.len() && before[a] == x;
                if a < p {
                    assert(n[a] == x);
                } else {
                    assert(n[a + 1] == x);
                }
            }
            if x == g {
                assert(n[p as int] == x);
            }
        }
    }
}

fn slate_flag(
    pool: &Vec<Game>,
    lead: &Vec<bool>,
    tank: Option<usize>,
    i: usize,
    number_of_games: usize,
    Ghost(start): Ghost<LeagueDate>,
    Ghost(end): Ghost<LeagueDate>,
) -> (r: bool)
    requires
        i < pool@.len(),
        lead@.len() == pool@.len(),
        forall|k: int| 0 <= k < pool@.len() ==> lead@[k] == leads_matchup(pool@, start, end, pool@[k]),
        forall|k: int| 0 <= k < pool@.len() ==> (tank_pick(pool@, start, end, pool@[k]) <==> tank == Some(k as usize)),
    ensures
        r == in_slate(pool@, start, end, number_of_games as int, pool@[i as int]),
{
    let picked = if lead[i] {
        count_leaders_above(pool, lead, i, Ghost(start), Ghost(end)) < number_of_games
    } else {
        false
    };
    let is_tank = match tank {
        Some(t) => t == i,
        None => false,
    };
    picked || is_tank
}

/// The slate for the window `[start_date, end_date]`: the leader of each of the best
/// `number_of_games` matchups by quality, plus the window's worst game by combined win
/// rate, each game once, ordered by tip-off. An empty window gives an empty slate.
pub fn get_games(pool: &Vec<Game>, number_of_games: usize, start_date: LeagueDate, end_date: LeagueDate) -> (r: Vec<Game>)
    requires
        ids_distinct(pool@),
    ensures
        in_start_order(r@),
        forall|x: Game| r@.contains(x) <==> (pool@.contains(x) && in_slate(pool@, start_date, end_date, number_of_games as int, x)),
        forall|a: int, b: int| 0 <= a < r@.len() && 0 <= b < r@.len() && a != b ==> r@[a].id != r@[b].id,
{
    let elig = window_flags(pool, start_date, end_date);
    let lead = leader_flags(pool, &elig, Ghost(start_date), Ghost(end_date));
    let tank = lowest_ranked(pool, &elig, Ghost(start_date), Ghost(end_date));
    let ghost sel = |g: Game| in_slate(pool@, start_date, end_date, number_of_games as int, g);
    let mut r: Vec<Game> = Vec::new();
    let mut i: usize = 0;
    while i < pool.len()
        invariant
            i <= pool@.len(),
            ids_distinct(pool@),
            sel == |g: Game| in_slate(pool@, start_date, end_date, number_of_games as int, g),
            lead@.len() == pool@.len(),
            forall|k: int| 0 <= k < pool@.len() ==> lead@[k] == leads_matchup(pool@, start_date, end_date, pool@[k]),
            forall|k: int| 0 <= k < pool@.len() ==> (tank_pick(pool@, start_date, end_date, pool@[k]) <==> tank == Some(k as usize)),
            in_start_order(r@),
            forall|a: int| 0 <= a < r@.len() ==> exists|m: int| 0 <= m < i && pool@[m] == #[trigger] r@[a] && sel(pool@[m]),
            forall|m: int| 0 <= m < i && sel(pool@[m]) ==> r@.contains(pool@[m]),
        decreases pool@.len() - i,
    {
        let g = pool[i];
        if slate_flag(pool, &lead, tank, i, number_of_games, Ghost(start_date), Ghost(end_date)) {
            proof {
                assert forall|a: int| 0 <= a < r@.len() implies r@[a].id != g.id by {
                    let m = choose|m: int| 0 <= m < i && pool@[m] == r@[a] && sel(pool@[m]);
                    assert(m != i);
                }
            }
            let ghost before = r@;
            insert_by_start(&mut r, g);
            proof {
                assert forall|a: int| 0 <= a < r@.len() implies exists|m: int| 0 <= m < i + 1 && pool@[m] == #[trigger] r@[a] && sel(pool@[m]) by {
                    assert(r@.contains(r@[a]));
                    if before.contains(r@[a]) {
                        let b = choose|b: int| 0 <= b < before.len() && before[b] == r@[a];
                        let m = choose|m: int| 0 <= m < i && pool@[m] == before[b] && sel(pool@[m]);
                        assert(pool@[m] == r@[a]);
                    } else {
                        assert(pool@[i as int] == r@[a]);
                    }
                }
                assert forall|m: int| 0 <= m < i + 1 && sel(pool@[m]) implies r@.contains(pool@[m]) by {
                    if m < i {
                        assert(before.contains(pool@[m]));
                    }
                }
            }
        }
        i = i + 1;
    }
    proof {
        assert forall|x: Game| r@.contains(x) <==> (pool@.contains(x) && sel(x)) by {
            if r@.contains(x) {
                let a = choose|a: int| 0 <= a < r@.len() && r@[a] == x;
                let m = choose|m: int| 0 <= m < i && pool@[m] == r@[a] && sel(pool@[m]);
                assert(pool@[m] == x);
            }
        }
        assert forall|a: int, b: int| 0 <= a < r@.len() && 0 <= b < r@.len() && a != b implies r@[a].id != r@[b].id by {
            let ma = choose|m: int| 0 <= m < i && pool@[m] == r@[a] && sel(pool@[m]);
            let mb = choose|m: int| 0 <= m < i && pool@[m] == r@[b] && sel(pool@[m]);
            if r@[a].id == r@[b].id {
                assert(ma == mb);
                if a < b {
                    assert(starts_before(r@[a], r@[b]));
                } else {
                    assert(starts_before(r@[b], r@[a]));
                }
            }
        }
    }
    r
}

} // verus!
