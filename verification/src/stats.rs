//! The per-player report: win/loss totals, win rate inputs, streak, best
//! partner, nemesis, and the ten most recent matches the player took part in.

use vstd::prelude::*;

use crate::counts::{
    collect_results, involves_player, lemma_results_len, lemma_take_all, lemma_take_step,
    losses_of, matches_involving, results_of, tally_record, wins_of,
};
use crate::errors::{PlayerStorageError, StatsError};
use crate::models::{MatchRecord, Player};
use crate::partner::{
    best_partner, best_partner_ok, nemesis, nemesis_ok, PartnerStats, RivalryStats,
};
use crate::roster::{find_player, in_roster};
use crate::streak::{calculate_streak, streak_spec};

verus! {

/// Detailed report for one roster player. `total_games == wins + losses`;
/// `recent_matches` holds the ten newest matches the player appears in,
/// newest first.
pub struct PlayerStats {
    pub player_id: String,
    pub player_name: String,
    pub avatar_emoji: String,
    pub nickname: String,
    pub wins: u32,
    pub losses: u32,
    pub total_games: u32,
    pub streak: i32,
    pub best_partner: Option<PartnerStats>,
    pub nemesis: Option<RivalryStats>,
    pub recent_matches: Vec<MatchRecord>,
}

/// The ten newest matches involving `id`, newest first: the whole filtered
/// log when it is short, its first ten entries otherwise.
pub open spec fn newest_ten(ms: Seq<MatchRecord>, id: Seq<char>) -> Seq<MatchRecord> {
    let f = matches_involving(ms, id);
    if f.len() <= 10 {
        f
    } else {
        f.take(10)
    }
}

/// The ten newest matches involving `id`, newest first.
fn recent_matches_of(ms: &Vec<MatchRecord>, id: &String) -> (r: Vec<MatchRecord>)
    ensures
        r@ == newest_ten(ms@, id@),
{
    let mut r: Vec<MatchRecord> = Vec::new();
    let n = ms.len();
    let mut i: usize = 0;
    while i < n
        invariant
            0 <= i <= n,
            n == ms@.len(),
            r@.len() <= 10,
            r@ == newest_ten(ms@.take(i as int), id@),
        decreases n - i,
    {
        proof {
            lemma_take_step(ms@, id@, id@, i as int);
        }
        let ghost filtered = matches_involving(ms@.take(i as int), id@);
        let ghost extended = filtered + seq![ms@[i as int]];
        if involves_player(&ms[i], id) {
            if r.len() < 10 {
                proof {
                    assert(filtered.len() <= 10 ==> filtered == r@);
                    assert(filtered.len() > 10 ==> filtered.take(10).len() == 10);
                    assert(filtered == r@);
                }
                r.push(ms[i].duplicate());
                proof {
                    assert(extended.len() <= 10 ==> r@ =~= extended);
                    assert(extended.len() > 10 ==> r@ =~= extended.take(10));
                }
            } else {
                proof {
                    assert(filtered.len() >= 10);
                    assert(extended.len() > 10);
                    assert(filtered.len() <= 10 ==> (extended.take(10) =~= filtered));
                    assert(filtered.len() > 10 ==> (extended.take(10) =~= filtered.take(10)));
                }
            }
        }
        i = i + 1;
    }
    proof {
        lemma_take_all(ms@);
    }
    r
}

/// The full report for one player id against a roster snapshot and match
/// log: fails with the player's `NotFound` exactly when the roster lacks the
/// id, and otherwise carries the exact aggregates of the log. Partner,
/// nemesis and streak figures still count matches that reference players no
/// longer on the roster.
pub fn compute_player_stats(
    players: &Vec<Player>,
    matches: &Vec<MatchRecord>,
    player_id: &String,
) -> (r: Result<PlayerStats, StatsError>)
    requires
        matches@.len() <= 0x1000_0000,
    ensures
        r is Ok <==> in_roster(players@, player_id@),
        r is Err ==> (r matches Err(StatsError::Player(PlayerStorageError::NotFound(s))) && s@
            == player_id@),
        r matches Ok(st) ==> {
            &&& st.player_id@ == player_id@
            &&& exists|j: int|
                0 <= j < players@.len() && #[trigger] players@[j].id@ == player_id@ && st.player_name
                    == players@[j].name && st.nickname == players@[j].nickname && st.avatar_emoji
                    == players@[j].avatar_emoji
            &&& st.wins == wins_of(matches@, player_id@)
            &&& st.losses == losses_of(matches@, player_id@)
            &&& st.total_games == wins_of(matches@, player_id@) + losses_of(matches@, player_id@)
            &&& st.streak == streak_spec(results_of(matches@, player_id@)) as i32
            &&& best_partner_ok(players@, matches@, player_id@, st.best_partner)
            &&& nemesis_ok(players@, matches@, player_id@, st.nemesis)
            &&& st.recent_matches@ == newest_ten(matches@, player_id@)
        },
{
    let player = match find_player(players, player_id) {
        Some(p) => p,
        None => {
            return Err(StatsError::Player(PlayerStorageError::NotFound(player_id.clone())));
        },
    };
    proof {
        lemma_results_len(matches@, player_id@);
    }
    let (wins, losses) = tally_record(matches, player_id);
    let results = collect_results(matches, player_id);
    let streak = calculate_streak(results.as_slice());
    proof {
        crate::streak::lemma_run_len_le(results@, true);
        crate::streak::lemma_run_len_le(results@, false);
    }
    let partner = best_partner(players, matches, player_id);
    let rival = nemesis(players, matches, player_id);
    let recent = recent_matches_of(matches, player_id);
    Ok(
        PlayerStats {
            player_id: player_id.clone(),
            player_name: player.name,
            avatar_emoji: player.avatar_emoji,
            nickname: player.nickname,
            wins,
            losses,
            total_games: wins + losses,
            streak,
            best_partner: partner,
            nemesis: rival,
            recent_matches: recent,
        },
    )
}

} // verus!
