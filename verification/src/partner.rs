//! Best partner and nemesis selection: for one focal player, the most
//! successful teammate and the opponent they lose to most, each subject to a
//! minimum of two games together or against.

use vstd::prelude::*;

use crate::counts::{
    beat_count, lemma_beat_count_le, lemma_partner_counts_le, lemma_take_all, lemma_take_step,
    loss_slots, loss_slots_count, pair_hits, partner_losses, partner_wins, tally_beats,
    win_slots, win_slots_count,
};
use crate::models::{MatchRecord, Player};
use crate::roster::{display_name, name_of};
use crate::text::{lemma_lex_lt_transitive, lemma_lex_lt_trichotomy, lex_lt, str_lt};

verus! {

/// A player's record together with one teammate.
pub struct PartnerStats {
    pub partner_id: String,
    pub partner_name: String,
    pub wins: u32,
    pub losses: u32,
}

/// A player's record against one opponent: games won against them and games
/// lost to them.
pub struct RivalryStats {
    pub opponent_id: String,
    pub opponent_name: String,
    pub wins_against: u32,
    pub losses_against: u32,
}

/// Whether some listed identifier equals `q`.
pub open spec fn id_listed(c: Seq<String>, q: Seq<char>) -> bool {
    exists|k: int| 0 <= k < c.len() && c[k]@ == q
}

/// An identifier stays listed when the list only grows at the end.
proof fn lemma_id_listed_extends(c1: Seq<String>, c2: Seq<String>, q: Seq<char>)
    requires
        c1.len() <= c2.len(),
        forall|k: int| 0 <= k < c1.len() ==> c2[k] == c1[k],
        id_listed(c1, q),
    ensures
        id_listed(c2, q),
{
    let k = choose|k: int| 0 <= k < c1.len() && c1[k]@ == q;
    assert(c2[k] == c1[k]);
}

/// An identifier listed in one more step was listed before or is the new one.
proof fn lemma_id_listed_take_step(c: Seq<String>, i: int, q: Seq<char>)
    requires
        0 <= i < c.len(),
        id_listed(c.take(i + 1), q),
    ensures
        id_listed(c.take(i), q) || c[i]@ == q,
{
    let t = c.take(i + 1);
    let k = choose|k: int| 0 <= k < t.len() && t[k]@ == q;
    if k < i {
        assert(c.take(i)[k] == t[k]);
    }
}

/// The partner preference: more wins together, then fewer losses together,
/// then the lexicographically smaller identifier.
pub open spec fn partner_better(w1: int, l1: int, id1: Seq<char>, w2: int, l2: int, id2: Seq<
    char,
>) -> bool {
    ||| w1 > w2
    ||| (w1 == w2 && l1 < l2)
    ||| (w1 == w2 && l1 == l2 && lex_lt(id1, id2))
}

/// The partner preference holds in exactly one direction for distinct
/// identifiers, and is transitive.
proof fn lemma_partner_better_props(
    w1: int,
    l1: int,
    id1: Seq<char>,
    w2: int,
    l2: int,
    id2: Seq<char>,
    w3: int,
    l3: int,
    id3: Seq<char>,
)
    ensures
        !(partner_better(w1, l1, id1, w2, l2, id2) && partner_better(w2, l2, id2, w1, l1, id1)),
        id1 != id2 ==> partner_better(w1, l1, id1, w2, l2, id2) || partner_better(
            w2,
            l2,
            id2,
            w1,
            l1,
            id1,
        ),
        partner_better(w1, l1, id1, w2, l2, id2) && partner_better(w2, l2, id2, w3, l3, id3)
            ==> partner_better(w1, l1, id1, w3, l3, id3),
{
    lemma_lex_lt_trichotomy(id1, id2);
    if lex_lt(id1, id2) && lex_lt(id2, id3) {
        lemma_lex_lt_transitive(id1, id2, id3);
    }
}

/// The nemesis preference: more losses against, then more wins against, then
/// the lexicographically smaller identifier.
pub open spec fn nemesis_better(l1: int, w1: int, id1: Seq<char>, l2: int, w2: int, id2: Seq<
    char,
>) -> bool {
    ||| l1 > l2
    ||| (l1 == l2 && w1 > w2)
    ||| (l1 == l2 && w1 == w2 && lex_lt(id1, id2))
}

/// The nemesis preference holds in exactly one direction for distinct
/// identifiers, and is transitive.
proof fn lemma_nemesis_better_props(
    l1: int,
    w1: int,
    id1: Seq<char>,
    l2: int,
    w2: int,
    id2: Seq<char>,
    l3: int,
    w3: int,
    id3: Seq<char>,
)
    ensures
        !(nemesis_better(l1, w1, id1, l2, w2, id2) && nemesis_better(l2, w2, id2, l1, w1, id1)),
        id1 != id2 ==> nemesis_better(l1, w1, id1, l2, w2, id2) || nemesis_better(
            l2,
            w2,
            id2,
            l1,
            w1,
            id1,
        ),
        nemesis_better(l1, w1, id1, l2, w2, id2) && nemesis_better(l2, w2, id2, l3, w3, id3)
            ==> nemesis_better(l1, w1, id1, l3, w3, id3),
{
    lemma_lex_lt_trichotomy(id1, id2);
    if lex_lt(id1, id2) && lex_lt(id2, id3) {
        lemma_lex_lt_transitive(id1, id2, id3);
    }
}

/// Whether `r` is the correct best-partner answer for `p`: absent exactly
/// when no teammate reaches two games together, otherwise the exact record of
/// the teammate who wins the preference against every other eligible one.
pub open spec fn best_partner_ok(
    ps: Seq<Player>,
    ms: Seq<MatchRecord>,
    p: Seq<char>,
    r: Option<PartnerStats>,
) -> bool {
    match r {
        None => forall|q: Seq<char>|
            #[trigger] partner_wins(ms, p, q) + partner_losses(ms, p, q) < 2,
        Some(s) => {
            &&& s.wins == partner_wins(ms, p, s.partner_id@)
            &&& s.losses == partner_losses(ms, p, s.partner_id@)
            &&& s.wins + s.losses >= 2
            &&& s.partner_name@ == name_of(ps, s.partner_id@)
            &&& forall|q: Seq<char>|
                q != s.partner_id@ && #[trigger] partner_wins(ms, p, q) + partner_losses(ms, p, q)
                    >= 2 ==> partner_better(
                    s.wins as int,
                    s.losses as int,
                    s.partner_id@,
                    partner_wins(ms, p, q) as int,
                    partner_losses(ms, p, q) as int,
                    q,
                )
        },
    }
}

/// Whether `r` is the correct nemesis answer for `p`: absent exactly when no
/// opponent has beaten `p` twice, otherwise the exact record against the
/// opponent who wins the preference against every other eligible one.
pub open spec fn nemesis_ok(
    ps: Seq<Player>,
    ms: Seq<MatchRecord>,
    p: Seq<char>,
    r: Option<RivalryStats>,
) -> bool {
    match r {
        None => forall|q: Seq<char>| #[trigger] beat_count(ms, q, p) < 2,
        Some(s) => {
            &&& s.losses_against == beat_count(ms, s.opponent_id@, p)
            &&& s.wins_against == beat_count(ms, p, s.opponent_id@)
            &&& s.losses_against >= 2
            &&& s.opponent_name@ == name_of(ps, s.opponent_id@)
            &&& forall|q: Seq<char>|
                q != s.opponent_id@ && #[trigger] beat_count(ms, q, p) >= 2 ==> nemesis_better(
                    s.losses_against as int,
                    s.wins_against as int,
                    s.opponent_id@,
                    beat_count(ms, q, p) as int,
                    beat_count(ms, p, q) as int,
                    q,
                )
        },
    }
}

/// Games `p` and teammate `q` won and lost together over the log.
pub fn tally_partner(ms: &Vec<MatchRecord>, p: &String, q: &String) -> (r: (u32, u32))
    requires
        ms@.len() <= 0x1000_0000,
    ensures
        r.0 == partner_wins(ms@, p@, q@),
        r.1 == partner_losses(ms@, p@, q@),
{
    let mut wins: u32 = 0;
    let mut losses: u32 = 0;
    let n = ms.len();
    let mut i: usize = 0;
    while i < n
        invariant
            0 <= i <= n,
            n == ms@.len() <= 0x1000_0000,
            wins == partner_wins(ms@.take(i as int), p@, q@),
            losses == partner_losses(ms@.take(i as int), p@, q@),
            wins <= i,
            losses <= i,
        decreases n - i,
    {
        proof {
            lemma_take_step(ms@, p@, q@, i as int);
        }
        let m = &ms[i];
        let on_winning_team = win_slots_count(m, p) > 0;
        if on_winning_team {
            let teammate_matches = if m.winner1_id == *p {
                m.winner2_id == *q
            } else {
                m.winner1_id == *q
            };
            if teammate_matches {
                wins = wins + 1;
            }
        }
        let on_losing_team = loss_slots_count(m, p) > 0;
        if on_losing_team {
            let teammate_matches = if m.loser1_id == *p {
                m.loser2_id == *q
            } else {
                m.loser1_id == *q
            };
            if teammate_matches {
                losses = losses + 1;
            }
        }
        i = i + 1;
    }
    proof {
        lemma_take_all(ms@);
    }
    (wins, losses)
}

/// Every teammate `p` ever played beside, read off each match.
fn collect_partners(ms: &Vec<MatchRecord>, p: &String) -> (c: Vec<String>)
    ensures
        forall|q: Seq<char>|
            #[trigger] partner_wins(ms@, p@, q) + partner_losses(ms@, p@, q) >= 1 ==> id_listed(
                c@,
                q,
            ),
{
    let mut c: Vec<String> = Vec::new();
    let n = ms.len();
    let mut i: usize = 0;
    while i < n
        invariant
            0 <= i <= n,
            n == ms@.len(),
            forall|q: Seq<char>|
                #[trigger] partner_wins(ms@.take(i as int), p@, q) + partner_losses(
                    ms@.take(i as int),
                    p@,
                    q,
                ) >= 1 ==> id_listed(c@, q),
        decreases n - i,
    {
        let ghost c0 = c@;
        let m = &ms[i];
        if win_slots_count(m, p) > 0 {
            if m.winner1_id == *p {
                c.push(m.winner2_id.clone());
            } else {
                c.push(m.winner1_id.clone());
            }
        }
        let ghost c1 = c@;
        proof {
            if win_slots(ms@[i as int], p@) > 0 {
                assert(c1[c1.len() - 1]@ == crate::counts::win_partner(ms@[i as int], p@));
                assert(id_listed(c1, crate::counts::win_partner(ms@[i as int], p@)));
            }
        }
        if loss_slots_count(m, p) > 0 {
            if m.loser1_id == *p {
                c.push(m.loser2_id.clone());
            } else {
                c.push(m.loser1_id.clone());
            }
        }
        proof {
            if win_slots(ms@[i as int], p@) > 0 {
                lemma_id_listed_extends(c1, c@, crate::counts::win_partner(ms@[i as int], p@));
            }
            if loss_slots(ms@[i as int], p@) > 0 {
                assert(c@[c@.len() - 1]@ == crate::counts::loss_partner(ms@[i as int], p@));
                assert(id_listed(c@, crate::counts::loss_partner(ms@[i as int], p@)));
            }
            assert forall|q: Seq<char>|
                #[trigger] partner_wins(ms@.take(i + 1), p@, q) + partner_losses(
                    ms@.take(i + 1),
                    p@,
                    q,
                ) >= 1 implies id_listed(c@, q) by {
                lemma_take_step(ms@, p@, q, i as int);
                if partner_wins(ms@.take(i as int), p@, q) + partner_losses(
                    ms@.take(i as int),
                    p@,
                    q,
                ) >= 1 {
                    lemma_id_listed_extends(c0, c@, q);
                }
            }
        }
        i = i + 1;
    }
    proof {
        lemma_take_all(ms@);
    }
    c
}

/// Every opponent who ever beat `p`, read off each match.
fn collect_victors(ms: &Vec<MatchRecord>, p: &String) -> (c: Vec<String>)
    ensures
        forall|q: Seq<char>| #[trigger] beat_count(ms@, q, p@) >= 1 ==> id_listed(c@, q),
{
    let mut c: Vec<String> = Vec::new();
    let n = ms.len();
    let mut i: usize = 0;
    while i < n
        invariant
            0 <= i <= n,
            n == ms@.len(),
            forall|q: Seq<char>|
                #[trigger] beat_count(ms@.take(i as int), q, p@) >= 1 ==> id_listed(c@, q),
        decreases n - i,
    {
        let ghost c0 = c@;
        let m = &ms[i];
        if loss_slots_count(m, p) > 0 {
            c.push(m.winner1_id.clone());
            c.push(m.winner2_id.clone());
        }
        proof {
            if loss_slots(ms@[i as int], p@) > 0 {
                assert(c@[c@.len() - 2]@ == ms@[i as int].winner1_id@);
                assert(c@[c@.len() - 1]@ == ms@[i as int].winner2_id@);
                assert(id_listed(c@, ms@[i as int].winner1_id@));
                assert(id_listed(c@, ms@[i as int].winner2_id@));
            }
            assert forall|q: Seq<char>|
                #[trigger] beat_count(ms@.take(i + 1), q, p@) >= 1 implies id_listed(c@, q) by {
                lemma_take_step(ms@, q, p@, i as int);
                if beat_count(ms@.take(i as int), q, p@) >= 1 {
                    lemma_id_listed_extends(c0, c@, q);
                } else {
                    assert(pair_hits(ms@[i as int], q, p@) >= 1);
                }
            }
        }
        i = i + 1;
    }
    proof {
        lemma_take_all(ms@);
    }
    c
}

/// The teammate `p` won the most games with, among teammates with at least
/// two games together; ties go to fewer losses together, then to the smaller
/// identifier. Absent when no teammate is eligible.
pub fn best_partner(players: &Vec<Player>, matches: &Vec<MatchRecord>, p: &String) -> (r: Option<
    PartnerStats,
>)
    requires
        matches@.len() <= 0x1000_0000,
    ensures
        best_partner_ok(players@, matches@, p@, r),
{
    let cands = collect_partners(matches, p);
    let mut best: Option<(String, u32, u32)> = None;
    let n = cands.len();
    let mut i: usize = 0;
    while i < n
        invariant
            0 <= i <= n,
            n == cands@.len(),
            matches@.len() <= 0x1000_0000,
            best is None ==> forall|q: Seq<char>|
                id_listed(cands@.take(i as int), q) ==> #[trigger] partner_wins(matches@, p@, q)
                    + partner_losses(matches@, p@, q) < 2,
            best matches Some((ref id, w, l)) ==> {
                &&& w == partner_wins(matches@, p@, id@)
                &&& l == partner_losses(matches@, p@, id@)
                &&& w + l >= 2
                &&& forall|q: Seq<char>|
                    id_listed(cands@.take(i as int), q) && q != id@ && #[trigger] partner_wins(
                        matches@,
                        p@,
                        q,
                    ) + partner_losses(matches@, p@, q) >= 2 ==> partner_better(
                        w as int,
                        l as int,
                        id@,
                        partner_wins(matches@, p@, q) as int,
                        partner_losses(matches@, p@, q) as int,
                        q,
                    )
            },
        decreases n - i,
    {
        let q = &cands[i];
        let (w, l) = tally_partner(matches, p, q);
        proof {
            lemma_partner_counts_le(matches@, p@, q@);
        }
        let mut take_it = false;
        if w + l >= 2 {
            match best {
                None => {
                    take_it = true;
                },
                Some((ref bid, bw, bl)) => {
                    if w > bw || (w == bw && l < bl) || (w == bw && l == bl && str_lt(
                        q.as_str(),
                        bid.as_str(),
                    )) {
                        take_it = true;
                    }
                },
            }
        }
        proof {
            assert forall|q2: Seq<char>| id_listed(cands@.take(i + 1), q2) implies id_listed(
                cands@.take(i as int),
                q2,
            ) || q2 == cands@[i as int]@ by {
                lemma_id_listed_take_step(cands@, i as int, q2);
            }
        }
        if take_it {
            let ghost old_best = best;
            best = Some((q.clone(), w, l));
            proof {
                let ghost ob = old_best;
                if ob is Some {
                    let (oid, ow, ol) = ob->Some_0;
                    assert forall|q2: Seq<char>|
                        id_listed(cands@.take(i + 1), q2) && q2 != q@ && #[trigger] partner_wins(
                            matches@,
                            p@,
                            q2,
                        ) + partner_losses(matches@, p@, q2) >= 2 implies partner_better(
                        w as int,
                        l as int,
                        q@,
                        partner_wins(matches@, p@, q2) as int,
                        partner_losses(matches@, p@, q2) as int,
                        q2,
                    ) by {
                        lemma_partner_better_props(
                            w as int,
                            l as int,
                            q@,
                            ow as int,
                            ol as int,
                            oid@,
                            partner_wins(matches@, p@, q2) as int,
                            partner_losses(matches@, p@, q2) as int,
                            q2,
                        );
                        lemma_partner_better_props(
                            ow as int,
                            ol as int,
                            oid@,
                            w as int,
                            l as int,
                            q@,
                            0,
                            0,
                            q2,
                        );
                    }
                }
            }
        } else {
            proof {
                let ghost b = best;
                if b is Some {
                    let (bid, bw, bl) = b->Some_0;
                    if w + l >= 2 && q@ != bid@ {
                        lemma_partner_better_props(
                            bw as int,
                            bl as int,
                            bid@,
                            w as int,
                            l as int,
                            q@,
                            0,
                            0,
                            q@,
                        );
                    }
                }
            }
        }
        i = i + 1;
    }
    proof {
        assert(cands@.take(n as int) =~= cands@);
    }
    match best {
        None => None,
        Some((id, w, l)) => {
            let name = display_name(players, &id);
            Some(PartnerStats { partner_id: id, partner_name: name, wins: w, losses: l })
        },
    }
}

/// The opponent `p` has lost to most, among opponents who beat them at least
/// twice; ties go to more wins against that opponent, then to the smaller
/// identifier. Absent when no opponent is eligible.
pub fn nemesis(players: &Vec<Player>, matches: &Vec<MatchRecord>, p: &String) -> (r: Option<
    RivalryStats,
>)
    requires
        matches@.len() <= 0x1000_0000,
    ensures
        nemesis_ok(players@, matches@, p@, r),
{
    let cands = collect_victors(matches, p);
    let mut best: Option<(String, u32, u32)> = None;
    let n = cands.len();
    let mut i: usize = 0;
    while i < n
        invariant
            0 <= i <= n,
            n == cands@.len(),
            matches@.len() <= 0x1000_0000,
            best is None ==> forall|q: Seq<char>|
                id_listed(cands@.take(i as int), q) ==> #[trigger] beat_count(matches@, q, p@) < 2,
            best matches Some((ref id, l, w)) ==> {
                &&& l == beat_count(matches@, id@, p@)
                &&& w == beat_count(matches@, p@, id@)
                &&& l >= 2
                &&& forall|q: Seq<char>|
                    id_listed(cands@.take(i as int), q) && q != id@ && #[trigger] beat_count(
                        matches@,
                        q,
                        p@,
                    ) >= 2 ==> nemesis_better(
                        l as int,
                        w as int,
                        id@,
                        beat_count(matches@, q, p@) as int,
                        beat_count(matches@, p@, q) as int,
                        q,
                    )
            },
        decreases n - i,
    {
        let q = &cands[i];
        let l = tally_beats(matches, q, p);
        let w = tally_beats(matches, p, q);
        proof {
            lemma_beat_count_le(matches@, q@, p@);
            lemma_beat_count_le(matches@, p@, q@);
        }
        let mut take_it = false;
        if l >= 2 {
            match best {
                None => {
                    take_it = true;
                },
                Some((ref bid, bl, bw)) => {
                    if l > bl || (l == bl && w > bw) || (l == bl && w == bw && str_lt(
                        q.as_str(),
                        bid.as_str(),
                    )) {
                        take_it = true;
                    }
                },
            }
        }
        proof {
            assert forall|q2: Seq<char>| id_listed(cands@.take(i + 1), q2) implies id_listed(
                cands@.take(i as int),
                q2,
            ) || q2 == cands@[i as int]@ by {
                lemma_id_listed_take_step(cands@, i as int, q2);
            }
        }
        if take_it {
            let ghost old_best = best;
            best = Some((q.clone(), l, w));
            proof {
                let ghost ob = old_best;
                if ob is Some {
                    let (oid, ol, ow) = ob->Some_0;
                    assert forall|q2: Seq<char>|
                        id_listed(cands@.take(i + 1), q2) && q2 != q@ && #[trigger] beat_count(
                            matches@,
                            q2,
                            p@,
                        ) >= 2 implies nemesis_better(
                        l as int,
                        w as int,
                        q@,
                        beat_count(matches@, q2, p@) as int,
                        beat_count(matches@, p@, q2) as int,
                        q2,
                    ) by {
                        lemma_nemesis_better_props(
                            l as int,
                            w as int,
                            q@,
                            ol as int,
                            ow as int,
                            oid@,
                            beat_count(matches@, q2, p@) as int,
                            beat_count(matches@, p@, q2) as int,
                            q2,
                        );
                        lemma_nemesis_better_props(
                            ol as int,
                            ow as int,
                            oid@,
                            l as int,
                            w as int,
                            q@,
                            0,
                            0,
                            q@,
                        );
                    }
                }
            }
        } else {
            proof {
                let ghost b = best;
                if b is Some {
                    let (bid, bl, bw) = b->Some_0;
                    if l >= 2 && q@ != bid@ {
                        lemma_nemesis_better_props(
                            bl as int,
                            bw as int,
                            bid@,
                            l as int,
                            w as int,
                            q@,
                            0,
                            0,
                            q@,
                        );
                    }
                }
            }
        }
        i = i + 1;
    }
    proof {
        assert(cands@.take(n as int) =~= cands@);
    }
    match best {
        None => None,
        Some((id, l, w)) => {
            let name = display_name(players, &id);
            Some(
                RivalryStats {
                    opponent_id: id,
                    opponent_name: name,
                    wins_against: w,
                    losses_against: l,
                },
            )
        },
    }
}

} // verus!
