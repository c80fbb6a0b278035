//! Counting over the match log: per-player win/loss tallies, newest-first
//! result sequences, and directed head-to-head counts between two players.
//!
//! All aggregations are pure functions of the match sequence, so removing one
//! match removes exactly that match's contribution and nothing else (see
//! [`lemma_removed_match_contribution`]).

use vstd::prelude::*;

use crate::models::MatchRecord;

verus! {

/// How many of the two winner slots of `m` hold `id` (0, 1 or 2).
pub open spec fn win_slots(m: MatchRecord, id: Seq<char>) -> nat {
    (if m.winner1_id@ == id {
        1nat
    } else {
        0nat
    }) + (if m.winner2_id@ == id {
        1nat
    } else {
        0nat
    })
}

/// How many of the two loser slots of `m` hold `id` (0, 1 or 2).
pub open spec fn loss_slots(m: MatchRecord, id: Seq<char>) -> nat {
    (if m.loser1_id@ == id {
        1nat
    } else {
        0nat
    }) + (if m.loser2_id@ == id {
        1nat
    } else {
        0nat
    })
}

/// Whether `id` appears anywhere in `m`.
pub open spec fn involves(m: MatchRecord, id: Seq<char>) -> bool {
    win_slots(m, id) + loss_slots(m, id) > 0
}

/// Total wins of `id` over the log: appearances in winner slots.
pub open spec fn wins_of(ms: Seq<MatchRecord>, id: Seq<char>) -> nat
    decreases ms.len(),
{
    if ms.len() == 0 {
        0
    } else {
        wins_of(ms.drop_last(), id) + win_slots(ms.last(), id)
    }
}

/// Total losses of `id` over the log: appearances in loser slots.
pub open spec fn losses_of(ms: Seq<MatchRecord>, id: Seq<char>) -> nat
    decreases ms.len(),
{
    if ms.len() == 0 {
        0
    } else {
        losses_of(ms.drop_last(), id) + loss_slots(ms.last(), id)
    }
}

/// The results `m` contributes for `id`: one `true` per winner slot held,
/// then one `false` per loser slot held.
pub open spec fn match_results(m: MatchRecord, id: Seq<char>) -> Seq<bool> {
    (if m.winner1_id@ == id {
        seq![true]
    } else {
        seq![]
    }) + (if m.winner2_id@ == id {
        seq![true]
    } else {
        seq![]
    }) + (if m.loser1_id@ == id {
        seq![false]
    } else {
        seq![]
    }) + (if m.loser2_id@ == id {
        seq![false]
    } else {
        seq![]
    })
}

/// The result sequence of `id` over a newest-first log, newest first.
pub open spec fn results_of(ms: Seq<MatchRecord>, id: Seq<char>) -> Seq<bool>
    decreases ms.len(),
{
    if ms.len() == 0 {
        seq![]
    } else {
        results_of(ms.drop_last(), id) + match_results(ms.last(), id)
    }
}

/// Directed head-to-head hits of `m`: winner-slot appearances of `a` crossed
/// with loser-slot appearances of `b` (0 to 4).
pub open spec fn pair_hits(m: MatchRecord, a: Seq<char>, b: Seq<char>) -> nat {
    (if m.winner1_id@ == a && m.loser1_id@ == b {
        1nat
    } else {
        0nat
    }) + (if m.winner1_id@ == a && m.loser2_id@ == b {
        1nat
    } else {
        0nat
    }) + (if m.winner2_id@ == a && m.loser1_id@ == b {
        1nat
    } else {
        0nat
    }) + (if m.winner2_id@ == a && m.loser2_id@ == b {
        1nat
    } else {
        0nat
    })
}

/// How often `a` was on the winning team against `b` on the losing team,
/// counted per winner-slot/loser-slot pair over the whole log.
pub open spec fn beat_count(ms: Seq<MatchRecord>, a: Seq<char>, b: Seq<char>) -> nat
    decreases ms.len(),
{
    if ms.len() == 0 {
        0
    } else {
        beat_count(ms.drop_last(), a, b) + pair_hits(ms.last(), a, b)
    }
}

/// The teammate of `p` on the winning team of `m`: the other winner slot.
pub open spec fn win_partner(m: MatchRecord, p: Seq<char>) -> Seq<char> {
    if m.winner1_id@ == p {
        m.winner2_id@
    } else {
        m.winner1_id@
    }
}

/// The teammate of `p` on the losing team of `m`: the other loser slot.
pub open spec fn loss_partner(m: MatchRecord, p: Seq<char>) -> Seq<char> {
    if m.loser1_id@ == p {
        m.loser2_id@
    } else {
        m.loser1_id@
    }
}

/// Whether `m` counts as a game `p` won with teammate `q`.
pub open spec fn partner_win(m: MatchRecord, p: Seq<char>, q: Seq<char>) -> nat {
    if win_slots(m, p) > 0 && win_partner(m, p) == q {
        1nat
    } else {
        0nat
    }
}

/// Whether `m` counts as a game `p` lost with teammate `q`.
pub open spec fn partner_loss(m: MatchRecord, p: Seq<char>, q: Seq<char>) -> nat {
    if loss_slots(m, p) > 0 && loss_partner(m, p) == q {
        1nat
    } else {
        0nat
    }
}

/// Games `p` won together with teammate `q` over the log.
pub open spec fn partner_wins(ms: Seq<MatchRecord>, p: Seq<char>, q: Seq<char>) -> nat
    decreases ms.len(),
{
    if ms.len() == 0 {
        0
    } else {
        partner_wins(ms.drop_last(), p, q) + partner_win(ms.last(), p, q)
    }
}

/// Games `p` lost together with teammate `q` over the log.
pub open spec fn partner_losses(ms: Seq<MatchRecord>, p: Seq<char>, q: Seq<char>) -> nat
    decreases ms.len(),
{
    if ms.len() == 0 {
        0
    } else {
        partner_losses(ms.drop_last(), p, q) + partner_loss(ms.last(), p, q)
    }
}

/// Partner tallies grow by at most one per match.
pub proof fn lemma_partner_counts_le(ms: Seq<MatchRecord>, p: Seq<char>, q: Seq<char>)
    ensures
        partner_wins(ms, p, q) <= ms.len(),
        partner_losses(ms, p, q) <= ms.len(),
    decreases ms.len(),
{
    if ms.len() != 0 {
        lemma_partner_counts_le(ms.drop_last(), p, q);
    }
}

/// The matches of the log that mention `id`, in log order.
pub open spec fn matches_involving(ms: Seq<MatchRecord>, id: Seq<char>) -> Seq<MatchRecord>
    decreases ms.len(),
{
    if ms.len() == 0 {
        seq![]
    } else {
        matches_involving(ms.drop_last(), id) + (if involves(ms.last(), id) {
            seq![ms.last()]
        } else {
            seq![]
        })
    }
}

/// Extending the log by one match extends every aggregate by that match's
/// contribution.
pub proof fn lemma_take_step(ms: Seq<MatchRecord>, a: Seq<char>, b: Seq<char>, i: int)
    requires
        0 <= i < ms.len(),
    ensures
        wins_of(ms.take(i + 1), a) == wins_of(ms.take(i), a) + win_slots(ms[i], a),
        losses_of(ms.take(i + 1), a) == losses_of(ms.take(i), a) + loss_slots(ms[i], a),
        results_of(ms.take(i + 1), a) == results_of(ms.take(i), a) + match_results(ms[i], a),
        beat_count(ms.take(i + 1), a, b) == beat_count(ms.take(i), a, b) + pair_hits(ms[i], a, b),
        matches_involving(ms.take(i + 1), a) == matches_involving(ms.take(i), a) + (if involves(
            ms[i],
            a,
        ) {
            seq![ms[i]]
        } else {
            seq![]
        }),
        partner_wins(ms.take(i + 1), a, b) == partner_wins(ms.take(i), a, b) + partner_win(
            ms[i],
            a,
            b,
        ),
        partner_losses(ms.take(i + 1), a, b) == partner_losses(ms.take(i), a, b) + partner_loss(
            ms[i],
            a,
            b,
        ),
{
    assert(ms.take(i + 1).drop_last() =~= ms.take(i));
    assert(ms.take(i + 1).last() == ms[i]);
}

/// A whole log is the `take` of its own length.
pub proof fn lemma_take_all(ms: Seq<MatchRecord>)
    ensures
        ms.take(ms.len() as int) == ms,
{
    assert(ms.take(ms.len() as int) =~= ms);
}

/// A result sequence holds at most four entries per match.
pub proof fn lemma_results_len(ms: Seq<MatchRecord>, id: Seq<char>)
    ensures
        results_of(ms, id).len() <= 4 * ms.len(),
        wins_of(ms, id) <= 2 * ms.len(),
        losses_of(ms, id) <= 2 * ms.len(),
    decreases ms.len(),
{
    if ms.len() != 0 {
        lemma_results_len(ms.drop_last(), id);
    }
}

/// A head-to-head count grows by at most four per match.
pub proof fn lemma_beat_count_le(ms: Seq<MatchRecord>, a: Seq<char>, b: Seq<char>)
    ensures
        beat_count(ms, a, b) <= 4 * ms.len(),
    decreases ms.len(),
{
    if ms.len() != 0 {
        lemma_beat_count_le(ms.drop_last(), a, b);
    }
}

/// Deleting the match at position `k` lowers every aggregate by exactly that
/// match's own contribution; no other record's contribution changes.
pub proof fn lemma_removed_match_contribution(
    ms: Seq<MatchRecord>,
    k: int,
    a: Seq<char>,
    b: Seq<char>,
)
    requires
        0 <= k < ms.len(),
    ensures
        wins_of(ms.remove(k), a) == wins_of(ms, a) - win_slots(ms[k], a),
        losses_of(ms.remove(k), a) == losses_of(ms, a) - loss_slots(ms[k], a),
        beat_count(ms.remove(k), a, b) == beat_count(ms, a, b) - pair_hits(ms[k], a, b),
        partner_wins(ms.remove(k), a, b) == partner_wins(ms, a, b) - partner_win(ms[k], a, b),
        partner_losses(ms.remove(k), a, b) == partner_losses(ms, a, b) - partner_loss(ms[k], a, b),
        meeting_count(ms.remove(k), a, b) == meeting_count(ms, a, b) - (if one_sided_meeting(
            ms[k],
            a,
            b,
        ) {
            1nat
        } else {
            0nat
        }),
    decreases ms.len(),
{
    if k == ms.len() - 1 {
        assert(ms.remove(k) =~= ms.drop_last());
    } else {
        lemma_removed_match_contribution(ms.drop_last(), k, a, b);
        assert(ms.remove(k).drop_last() =~= ms.drop_last().remove(k));
        assert(ms.remove(k).last() == ms.last());
    }
}

/// Whether exactly one of `a`, `b` stood on the winning team of `m` and the
/// other on the losing team.
pub open spec fn one_sided_meeting(m: MatchRecord, a: Seq<char>, b: Seq<char>) -> bool {
    ||| (win_slots(m, a) > 0 && loss_slots(m, b) > 0 && loss_slots(m, a) == 0 && win_slots(m, b)
        == 0)
    ||| (win_slots(m, b) > 0 && loss_slots(m, a) > 0 && loss_slots(m, b) == 0 && win_slots(m, a)
        == 0)
}

/// Matches of the log in which `a` and `b` met on opposite teams.
pub open spec fn meeting_count(ms: Seq<MatchRecord>, a: Seq<char>, b: Seq<char>) -> nat
    decreases ms.len(),
{
    if ms.len() == 0 {
        0
    } else {
        meeting_count(ms.drop_last(), a, b) + (if one_sided_meeting(ms.last(), a, b) {
            1nat
        } else {
            0nat
        })
    }
}

/// Whether `id` fills at most one participant slot of `m`.
pub open spec fn appears_at_most_once(m: MatchRecord, id: Seq<char>) -> bool {
    win_slots(m, id) + loss_slots(m, id) <= 1
}

/// Rivalry totals are symmetric: over a log in which `a` and `b` each fill at
/// most one slot per match, the two directed head-to-head counts of the pair
/// sum to the number of matches where one of them won over the other.
pub proof fn lemma_rivalry_symmetry(ms: Seq<MatchRecord>, a: Seq<char>, b: Seq<char>)
    requires
        forall|i: int|
            0 <= i < ms.len() ==> #[trigger] appears_at_most_once(ms[i], a) && appears_at_most_once(
                ms[i],
                b,
            ),
    ensures
        beat_count(ms, a, b) + beat_count(ms, b, a) == meeting_count(ms, a, b),
    decreases ms.len(),
{
    if ms.len() != 0 {
        assert(appears_at_most_once(ms[ms.len() - 1], a));
        assert(appears_at_most_once(ms[ms.len() - 1], b));
        assert(forall|i: int|
            0 <= i < ms.drop_last().len() ==> ms.drop_last()[i] == ms[i]);
        lemma_rivalry_symmetry(ms.drop_last(), a, b);
    }
}

/// Winner-slot appearances of `id` in one match.
pub fn win_slots_count(m: &MatchRecord, id: &String) -> (c: u32)
    ensures
        c == win_slots(*m, id@),
{
    let mut c: u32 = 0;
    if m.winner1_id == *id {
        c = c + 1;
    }
    if m.winner2_id == *id {
        c = c + 1;
    }
    c
}

/// Loser-slot appearances of `id` in one match.
pub fn loss_slots_count(m: &MatchRecord, id: &String) -> (c: u32)
    ensures
        c == loss_slots(*m, id@),
{
    let mut c: u32 = 0;
    if m.loser1_id == *id {
        c = c + 1;
    }
    if m.loser2_id == *id {
        c = c + 1;
    }
    c
}

/// Whether `id` appears anywhere in `m`.
pub fn involves_player(m: &MatchRecord, id: &String) -> (r: bool)
    ensures
        r == involves(*m, id@),
{
    let w = win_slots_count(m, id);
    let l = loss_slots_count(m, id);
    w > 0 || l > 0
}

/// Directed head-to-head hits of one match.
pub fn pair_hits_count(m: &MatchRecord, a: &String, b: &String) -> (c: u32)
    ensures
        c == pair_hits(*m, a@, b@),
{
    let mut c: u32 = 0;
    if m.winner1_id == *a && m.loser1_id == *b {
        c = c + 1;
    }
    if m.winner1_id == *a && m.loser2_id == *b {
        c = c + 1;
    }
    if m.winner2_id == *a && m.loser1_id == *b {
        c = c + 1;
    }
    if m.winner2_id == *a && m.loser2_id == *b {
        c = c + 1;
    }
    c
}

/// Win and loss totals of `id` over the whole log.
pub fn tally_record(ms: &Vec<MatchRecord>, id: &String) -> (r: (u32, u32))
    requires
        ms@.len() <= 0x1000_0000,
    ensures
        r.0 == wins_of(ms@, id@),
        r.1 == losses_of(ms@, id@),
{
    let mut wins: u32 = 0;
    let mut losses: u32 = 0;
    let n = ms.len();
    let mut i: usize = 0;
    while i < n
        invariant
            0 <= i <= n,
            n == ms@.len() <= 0x1000_0000,
            wins == wins_of(ms@.take(i as int), id@),
            losses == losses_of(ms@.take(i as int), id@),
            wins <= 2 * i,
            losses <= 2 * i,
        decreases n - i,
    {
        proof {
            lemma_take_step(ms@, id@, id@, i as int);
        }
        wins = wins + win_slots_count(&ms[i], id);
        losses = losses + loss_slots_count(&ms[i], id);
        i = i + 1;
    }
    proof {
        lemma_take_all(ms@);
    }
    (wins, losses)
}

/// Directed head-to-head count of `a` over `b` across the whole log.
pub fn tally_beats(ms: &Vec<MatchRecord>, a: &String, b: &String) -> (c: u32)
    requires
        ms@.len() <= 0x1000_0000,
    ensures
        c == beat_count(ms@, a@, b@),
{
    let mut c: u32 = 0;
    let n = ms.len();
    let mut i: usize = 0;
    while i < n
        invariant
            0 <= i <= n,
            n == ms@.len() <= 0x1000_0000,
            c == beat_count(ms@.take(i as int), a@, b@),
            c <= 4 * i,
        decreases n - i,
    {
        proof {
            lemma_take_step(ms@, a@, b@, i as int);
        }
        c = c + pair_hits_count(&ms[i], a, b);
        i = i + 1;
    }
    proof {
        lemma_take_all(ms@);
    }
    c
}

/// The newest-first result sequence of `id` over the log.
pub fn collect_results(ms: &Vec<MatchRecord>, id: &String) -> (r: Vec<bool>)
    requires
        ms@.len() <= 0x1000_0000,
    ensures
        r@ == results_of(ms@, id@),
{
    let mut r: Vec<bool> = Vec::new();
    let n = ms.len();
    let mut i: usize = 0;
    while i < n
        invariant
            0 <= i <= n,
            n == ms@.len() <= 0x1000_0000,
            r@ == results_of(ms@.take(i as int), id@),
        decreases n - i,
    {
        proof {
            lemma_take_step(ms@, id@, id@, i as int);
        }
        let ghost pre = r@;
        if ms[i].winner1_id == *id {
            r.push(true);
        }
        if ms[i].winner2_id == *id {
            r.push(true);
        }
        if ms[i].loser1_id == *id {
            r.push(false);
        }
        if ms[i].loser2_id == *id {
            r.push(false);
        }
        assert(r@ =~= pre + match_results(ms@[i as int], id@));
        i = i + 1;
    }
    proof {
        lemma_take_all(ms@);
    }
    r
}

} // verus!
