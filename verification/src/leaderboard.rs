//! The leaderboard: one entry per roster player with win/loss totals and the
//! current streak, ranked by win rate, then total games, then identifier.
//!
//! Win rate is the ratio `wins / total_games` (zero for a player with no
//! games); entries carry the integer totals and the rate is compared exactly,
//! by cross-multiplication, never through floating point.

use vstd::prelude::*;

use crate::counts::{
    losses_of, results_of, wins_of, collect_results, lemma_results_len, tally_record,
};
use crate::models::{MatchRecord, Player};
use crate::streak::{calculate_streak, streak_spec};
use crate::text::{lemma_lex_lt_transitive, lemma_lex_lt_trichotomy, lex_lt, str_lt};

verus! {

/// A player's row on the leaderboard. `total_games == wins + losses`, and the
/// win rate is `wins / total_games` (0 when no games were played).
pub struct LeaderboardEntry {
    pub player_id: String,
    pub player_name: String,
    pub avatar_emoji: String,
    pub nickname: String,
    pub wins: u32,
    pub losses: u32,
    pub total_games: u32,
    /// Current streak: positive = winning, negative = losing.
    pub streak: i32,
}

/// Numerator of the entry's win rate, with the no-games rate read as 0/1.
pub open spec fn rate_num(e: LeaderboardEntry) -> int {
    if e.total_games == 0 {
        0
    } else {
        e.wins as int
    }
}

/// Denominator of the entry's win rate, with the no-games rate read as 0/1.
pub open spec fn rate_den(e: LeaderboardEntry) -> int {
    if e.total_games == 0 {
        1
    } else {
        e.total_games as int
    }
}

/// Exact comparison of the two win rates by cross-multiplication.
pub open spec fn rate_gt(a: LeaderboardEntry, b: LeaderboardEntry) -> bool {
    rate_num(a) * rate_den(b) > rate_num(b) * rate_den(a)
}

/// The two win rates are exactly equal.
pub open spec fn rate_eq(a: LeaderboardEntry, b: LeaderboardEntry) -> bool {
    rate_num(a) * rate_den(b) == rate_num(b) * rate_den(a)
}

/// The ranking order: win rate descending, then total games descending, then
/// player identifier ascending as the deterministic last resort.
pub open spec fn ranked_before(a: LeaderboardEntry, b: LeaderboardEntry) -> bool {
    ||| rate_gt(a, b)
    ||| (rate_eq(a, b) && a.total_games > b.total_games)
    ||| (rate_eq(a, b) && a.total_games == b.total_games && lex_lt(a.player_id@, b.player_id@))
}

/// Chained cross-multiplied ratio comparisons compose, strictly so when
/// either link is strict.
proof fn lemma_ratio_chain(na: int, da: int, nb: int, db: int, nc: int, dc: int)
    requires
        da >= 1,
        db >= 1,
        dc >= 1,
        na * db >= nb * da,
        nb * dc >= nc * db,
    ensures
        na * dc >= nc * da,
        na * db > nb * da || nb * dc > nc * db ==> na * dc > nc * da,
{
    assert(na * dc >= nc * da && (na * db > nb * da || nb * dc > nc * db ==> na * dc > nc * da))
        by (nonlinear_arith)
        requires
            da >= 1,
            db >= 1,
            dc >= 1,
            na * db >= nb * da,
            nb * dc >= nc * db,
    ;
}

/// The ranking order is a strict total order on distinct player identifiers:
/// never both directions, and for two entries with different identifiers
/// always one of them — two distinct players never compare as equal with
/// ambiguous order.
pub proof fn lemma_ranking_is_total(a: LeaderboardEntry, b: LeaderboardEntry)
    ensures
        ranked_before(a, b) ==> !ranked_before(b, a),
        a.player_id@ != b.player_id@ ==> ranked_before(a, b) || ranked_before(b, a),
{
    lemma_lex_lt_trichotomy(a.player_id@, b.player_id@);
}

/// The ranking order is transitive.
pub proof fn lemma_ranking_transitive(a: LeaderboardEntry, b: LeaderboardEntry, c: LeaderboardEntry)
    requires
        ranked_before(a, b),
        ranked_before(b, c),
    ensures
        ranked_before(a, c),
{
    lemma_ratio_chain(rate_num(a), rate_den(a), rate_num(b), rate_den(b), rate_num(c), rate_den(c));
    if rate_eq(a, b) && rate_eq(b, c) && a.total_games == b.total_games && b.total_games
        == c.total_games {
        lemma_lex_lt_transitive(a.player_id@, b.player_id@, c.player_id@);
    }
}

/// Entries that compare as unordered in both directions can stand in either
/// order: being ranked before some third entry then carries over.
proof fn lemma_ranking_unordered_swap(a: LeaderboardEntry, b: LeaderboardEntry, c: LeaderboardEntry)
    requires
        !ranked_before(a, b),
        !ranked_before(b, a),
    ensures
        ranked_before(a, c) == ranked_before(b, c),
        ranked_before(c, a) == ranked_before(c, b),
{
    lemma_lex_lt_trichotomy(a.player_id@, b.player_id@);
    assert(rate_eq(a, b) && a.total_games == b.total_games && a.player_id@ == b.player_id@);
    assert(rate_num(a) == rate_num(b)) by (nonlinear_arith)
        requires
            rate_num(a) * rate_den(b) == rate_num(b) * rate_den(a),
            rate_den(a) == rate_den(b),
            rate_den(a) >= 1,
    ;
}

/// Being not-ranked-after is transitive, which makes the sorted order below
/// meaningful.
pub proof fn lemma_ranked_le_transitive(
    a: LeaderboardEntry,
    b: LeaderboardEntry,
    c: LeaderboardEntry,
)
    requires
        !ranked_before(b, a),
        !ranked_before(c, b),
    ensures
        !ranked_before(c, a),
{
    if ranked_before(c, a) {
        if ranked_before(b, c) {
            lemma_ranking_transitive(b, c, a);
        } else {
            lemma_ranking_unordered_swap(b, c, a);
        }
    }
}

/// Whether the sequence is ranked: no entry is ranked strictly before an
/// earlier one.
pub open spec fn entries_sorted(s: Seq<LeaderboardEntry>) -> bool {
    forall|i: int, j: int| 0 <= i < j < s.len() ==> !ranked_before(#[trigger] s[j], #[trigger] s[i])
}

/// Whether `a` is ranked before `b`.
pub fn ranked_before_exec(a: &LeaderboardEntry, b: &LeaderboardEntry) -> (r: bool)
    ensures
        r == ranked_before(*a, *b),
{
    let (na, da): (u64, u64) = if a.total_games == 0 {
        (0, 1)
    } else {
        (a.wins as u64, a.total_games as u64)
    };
    let (nb, db): (u64, u64) = if b.total_games == 0 {
        (0, 1)
    } else {
        (b.wins as u64, b.total_games as u64)
    };
    proof {
        assert(na * db < 0x1_0000_0000_0000_0000 && nb * da < 0x1_0000_0000_0000_0000)
            by (nonlinear_arith)
            requires
                na < 0x1_0000_0000,
                db < 0x1_0000_0000,
                nb < 0x1_0000_0000,
                da < 0x1_0000_0000,
        ;
    }
    let cross_a = na * db;
    let cross_b = nb * da;
    if cross_a > cross_b {
        true
    } else if cross_a == cross_b {
        if a.total_games > b.total_games {
            true
        } else if a.total_games == b.total_games {
            str_lt(a.player_id.as_str(), b.player_id.as_str())
        } else {
            false
        }
    } else {
        false
    }
}

/// The leaderboard row a given roster position yields for a given log: the
/// player's profile fields beside their exact tallies and streak.
pub open spec fn entry_for(ps: Seq<Player>, ms: Seq<MatchRecord>, j: int) -> LeaderboardEntry {
    LeaderboardEntry {
        player_id: ps[j].id,
        player_name: ps[j].name,
        avatar_emoji: ps[j].avatar_emoji,
        nickname: ps[j].nickname,
        wins: wins_of(ms, ps[j].id@) as u32,
        losses: losses_of(ms, ps[j].id@) as u32,
        total_games: (wins_of(ms, ps[j].id@) + losses_of(ms, ps[j].id@)) as u32,
        streak: streak_spec(results_of(ms, ps[j].id@)) as i32,
    }
}

/// Accounting of every leaderboard row: wins and losses add up to the total,
/// the win rate lies between 0 and 1, it is 0 whenever no games were played,
/// and it is 0 exactly for players without a win.
pub proof fn lemma_entry_accounting(ps: Seq<Player>, ms: Seq<MatchRecord>, j: int)
    requires
        0 <= j < ps.len(),
        ms.len() <= 0x1000_0000,
    ensures
        entry_for(ps, ms, j).wins + entry_for(ps, ms, j).losses == entry_for(ps, ms, j).total_games,
        0 <= rate_num(entry_for(ps, ms, j)),
        rate_num(entry_for(ps, ms, j)) <= rate_den(entry_for(ps, ms, j)),
        entry_for(ps, ms, j).total_games == 0 ==> rate_num(entry_for(ps, ms, j)) == 0,
        rate_num(entry_for(ps, ms, j)) == 0 <==> entry_for(ps, ms, j).wins == 0,
{
    crate::counts::lemma_results_len(ms, ps[j].id@);
}

/// Whether `e` is the exact row of some roster position.
pub open spec fn is_roster_entry(
    ps: Seq<Player>,
    ms: Seq<MatchRecord>,
    e: LeaderboardEntry,
) -> bool {
    exists|j: int| 0 <= j < ps.len() && e == entry_for(ps, ms, j)
}

/// One leaderboard row, with the exact aggregates of the log.
fn build_entry(p: &Player, matches: &Vec<MatchRecord>) -> (e: LeaderboardEntry)
    requires
        matches@.len() <= 0x1000_0000,
    ensures
        e.player_id == p.id,
        e.player_name == p.name,
        e.avatar_emoji == p.avatar_emoji,
        e.nickname == p.nickname,
        e.wins == wins_of(matches@, p.id@),
        e.losses == losses_of(matches@, p.id@),
        e.total_games == wins_of(matches@, p.id@) + losses_of(matches@, p.id@),
        e.streak == streak_spec(results_of(matches@, p.id@)) as i32,
    decreases 0int,
{
    proof {
        lemma_results_len(matches@, p.id@);
    }
    let (wins, losses) = tally_record(matches, &p.id);
    let results = collect_results(matches, &p.id);
    let streak = calculate_streak(results.as_slice());
    proof {
        crate::streak::lemma_run_len_le(results@, true);
        crate::streak::lemma_run_len_le(results@, false);
    }
    let copy = p.duplicate();
    LeaderboardEntry {
        player_id: copy.id,
        player_name: copy.name,
        avatar_emoji: copy.avatar_emoji,
        nickname: copy.nickname,
        wins,
        losses,
        total_games: wins + losses,
        streak,
    }
}

/// Sort entries into ranking order, keeping exactly the same rows.
fn sort_entries(entries: Vec<LeaderboardEntry>) -> (r: Vec<LeaderboardEntry>)
    ensures
        r@.to_multiset() == entries@.to_multiset(),
        r@.len() == entries@.len(),
        entries_sorted(r@),
{
    broadcast use vstd::seq_lib::group_to_multiset_ensures;

    let mut v = entries;
    let ghost orig = v@;
    let mut i: usize = 1;
    while i < v.len()
        invariant
            v@.to_multiset() == orig.to_multiset(),
            v@.len() == orig.len(),
            1 <= i,
            i <= v@.len() || v@.len() == 0,
            forall|a: int, b: int|
                0 <= a < b < i && b < v@.len() ==> !ranked_before(
                    #[trigger] v@[b],
                    #[trigger] v@[a],
                ),
        decreases v@.len() - i,
    {
        let mut j: usize = i;
        while j > 0 && ranked_before_exec(&v[j], &v[j - 1])
            invariant
                0 <= j <= i < v@.len(),
                v@.to_multiset() == orig.to_multiset(),
                v@.len() == orig.len(),
                forall|a: int, b: int|
                    0 <= a < b <= i && b != j ==> !ranked_before(
                        #[trigger] v@[b],
                        #[trigger] v@[a],
                    ),
                forall|b: int| j < b <= i ==> ranked_before(v@[j as int], #[trigger] v@[b]),
            decreases j,
        {
            let ghost pre = v@;
            let e = v.remove(j);
            v.insert(j - 1, e);
            proof {
                let ghost moved = pre[j as int];
                assert(v@ =~= pre.update(j as int, pre[j - 1]).update(j - 1, moved));
                assert(v@.to_multiset() == pre.to_multiset()) by {
                    broadcast use vstd::multiset::group_multiset_axioms;

                    vstd::seq_lib::to_multiset_remove(pre, j as int);
                    vstd::seq_lib::to_multiset_insert(pre.remove(j as int), j - 1, moved);
                    vstd::seq_lib::to_multiset_contains(pre, moved);
                    assert(pre.contains(moved));
                    assert(pre.to_multiset().remove(moved).insert(moved) =~= pre.to_multiset());
                }
                assert forall|a: int, b: int|
                    0 <= a < b <= i && b != j - 1 implies !ranked_before(
                    #[trigger] v@[b],
                    #[trigger] v@[a],
                ) by {
                    if b == j && a == j - 1 {
                        lemma_ranking_is_total(moved, pre[j - 1]);
                    } else if b > j && a == j - 1 {
                        lemma_ranking_is_total(moved, pre[b]);
                    }
                }
            }
            j = j - 1;
        }
        proof {
            if j > 0 {
                assert forall|b: int| j <= b <= i implies !ranked_before(
                    #[trigger] v@[b],
                    v@[j - 1],
                ) by {
                    if b > j {
                        lemma_ranking_is_total(v@[j as int], v@[b]);
                    }
                }
                assert forall|a: int, b: int| 0 <= a < b <= i implies !ranked_before(
                    #[trigger] v@[b],
                    #[trigger] v@[a],
                ) by {
                    if b >= j && a < j - 1 {
                        assert(!ranked_before(v@[j - 1], v@[a]));
                        assert(!ranked_before(v@[b], v@[j - 1]));
                        lemma_ranked_le_transitive(v@[a], v@[j - 1], v@[b]);
                    }
                }
            } else {
                assert forall|a: int, b: int| 0 <= a < b <= i implies !ranked_before(
                    v@[b],
                    v@[a],
                ) by {
                }
            }
        }
        i = i + 1;
    }
    v
}

/// The ranked leaderboard for a roster and a match log: exactly one row per
/// roster entry, each row carrying that player's exact aggregates, in ranking
/// order.
pub fn compute_leaderboard(players: &Vec<Player>, matches: &Vec<MatchRecord>) -> (r: Vec<
    LeaderboardEntry,
>)
    requires
        matches@.len() <= 0x1000_0000,
    ensures
        r@.len() == players@.len(),
        forall|j: int|
            0 <= j < players@.len() ==> r@.contains(#[trigger] entry_for(players@, matches@, j)),
        forall|k: int|
            0 <= k < r@.len() ==> is_roster_entry(players@, matches@, #[trigger] r@[k]),
        entries_sorted(r@),
{
    broadcast use vstd::seq_lib::group_to_multiset_ensures;

    let mut entries: Vec<LeaderboardEntry> = Vec::new();
    let n = players.len();
    let mut j: usize = 0;
    while j < n
        invariant
            0 <= j <= n,
            n == players@.len(),
            matches@.len() <= 0x1000_0000,
            entries@.len() == j,
            forall|k: int| 0 <= k < j ==> entries@[k] == entry_for(players@, matches@, k),
        decreases n - j,
    {
        let e = build_entry(&players[j], matches);
        proof {
            lemma_results_len(matches@, players@[j as int].id@);
            crate::streak::lemma_run_len_le(results_of(matches@, players@[j as int].id@), true);
            crate::streak::lemma_run_len_le(results_of(matches@, players@[j as int].id@), false);
            assert(e == entry_for(players@, matches@, j as int));
        }
        entries.push(e);
        j = j + 1;
    }
    let ghost built = entries@;
    let r = sort_entries(entries);
    proof {
        assert forall|j2: int| 0 <= j2 < players@.len() implies r@.contains(
            #[trigger] entry_for(players@, matches@, j2),
        ) by {
            let e = entry_for(players@, matches@, j2);
            assert(built[j2] == e);
            assert(built.contains(e));
            vstd::seq_lib::to_multiset_contains(built, e);
            vstd::seq_lib::to_multiset_contains(r@, e);
        }
        assert forall|k: int| 0 <= k < r@.len() implies is_roster_entry(
            players@,
            matches@,
            #[trigger] r@[k],
        ) by {
            let x = r@[k];
            assert(r@.contains(x));
            vstd::seq_lib::to_multiset_contains(built, x);
            vstd::seq_lib::to_multiset_contains(r@, x);
            assert(built.contains(x));
            let j2 = choose|j2: int| 0 <= j2 < built.len() && built[j2] == x;
            assert(built[j2] == entry_for(players@, matches@, j2));
            assert(x == entry_for(players@, matches@, j2));
        }
    }
    r
}

} // verus!
