//! Head-to-head rivalry tables: for every unordered pair of distinct player
//! identifiers that met on opposite teams at least twice, the two directed
//! win counts, ordered by total meetings and then by the canonical pair.

use vstd::prelude::*;

use crate::counts::{beat_count, lemma_take_all, lemma_take_step, pair_hits, tally_beats};
use crate::models::{MatchRecord, Player};
use crate::roster::{display_name, name_of};
use crate::text::{lemma_lex_lt_transitive, lemma_lex_lt_trichotomy, lex_lt, str_lt};

verus! {

/// Head-to-head record of a canonical pair: `player1_id` precedes
/// `player2_id` lexicographically; `player1_wins` counts games where player 1
/// stood on the winning team and player 2 on the losing one, and vice versa.
pub struct RivalryEntry {
    pub player1_id: String,
    pub player1_name: String,
    pub player2_id: String,
    pub player2_name: String,
    pub player1_wins: u32,
    pub player2_wins: u32,
}

/// Total meetings a rivalry entry records.
pub open spec fn riv_total(e: RivalryEntry) -> int {
    e.player1_wins + e.player2_wins
}

/// Whether `e` is the correct rivalry row of its pair for this roster and
/// log: canonical pair order, the exact directed counts, at least two
/// combined meetings, and resolved display names.
pub open spec fn rivalry_ok(ps: Seq<Player>, ms: Seq<MatchRecord>, e: RivalryEntry) -> bool {
    &&& lex_lt(e.player1_id@, e.player2_id@)
    &&& e.player1_wins == beat_count(ms, e.player1_id@, e.player2_id@)
    &&& e.player2_wins == beat_count(ms, e.player2_id@, e.player1_id@)
    &&& riv_total(e) >= 2
    &&& e.player1_name@ == name_of(ps, e.player1_id@)
    &&& e.player2_name@ == name_of(ps, e.player2_id@)
}

/// Whether the table holds a row for the pair `(a, b)`.
pub open spec fn riv_listed(rs: Seq<RivalryEntry>, a: Seq<char>, b: Seq<char>) -> bool {
    exists|k: int| 0 <= k < rs.len() && rs[k].player1_id@ == a && rs[k].player2_id@ == b
}

/// Whether two rows name the same canonical pair.
pub open spec fn same_pair(x: RivalryEntry, y: RivalryEntry) -> bool {
    x.player1_id@ == y.player1_id@ && x.player2_id@ == y.player2_id@
}

/// The rivalry order: total meetings descending, then the first and second
/// canonical identifiers ascending.
pub open spec fn riv_before(a: RivalryEntry, b: RivalryEntry) -> bool {
    ||| riv_total(a) > riv_total(b)
    ||| (riv_total(a) == riv_total(b) && lex_lt(a.player1_id@, b.player1_id@))
    ||| (riv_total(a) == riv_total(b) && a.player1_id@ == b.player1_id@ && lex_lt(
        a.player2_id@,
        b.player2_id@,
    ))
}

/// Whether the table is in rivalry order.
pub open spec fn rivalries_sorted(s: Seq<RivalryEntry>) -> bool {
    forall|i: int, j: int| 0 <= i < j < s.len() ==> !riv_before(#[trigger] s[j], #[trigger] s[i])
}

/// The rivalry order never holds in both directions, and whenever two rows
/// name different pairs it holds in one.
pub proof fn lemma_rivalry_order_total(a: RivalryEntry, b: RivalryEntry)
    ensures
        riv_before(a, b) ==> !riv_before(b, a),
        a.player1_id@ != b.player1_id@ || a.player2_id@ != b.player2_id@ ==> riv_before(a, b)
            || riv_before(b, a),
{
    lemma_lex_lt_trichotomy(a.player1_id@, b.player1_id@);
    lemma_lex_lt_trichotomy(a.player2_id@, b.player2_id@);
}

/// Being not-ranked-after is transitive for the rivalry order.
proof fn lemma_riv_le_transitive(a: RivalryEntry, b: RivalryEntry, c: RivalryEntry)
    requires
        !riv_before(b, a),
        !riv_before(c, b),
    ensures
        !riv_before(c, a),
{
    lemma_lex_lt_trichotomy(a.player1_id@, b.player1_id@);
    lemma_lex_lt_trichotomy(a.player2_id@, b.player2_id@);
    lemma_lex_lt_trichotomy(b.player1_id@, c.player1_id@);
    lemma_lex_lt_trichotomy(b.player2_id@, c.player2_id@);
    lemma_lex_lt_trichotomy(a.player1_id@, c.player1_id@);
    lemma_lex_lt_trichotomy(a.player2_id@, c.player2_id@);
    if riv_before(c, a) {
        if lex_lt(a.player1_id@, b.player1_id@) || lex_lt(b.player1_id@, a.player1_id@)
            || lex_lt(a.player1_id@, c.player1_id@) || lex_lt(c.player1_id@, a.player1_id@)
            || lex_lt(b.player1_id@, c.player1_id@) || lex_lt(c.player1_id@, b.player1_id@) {
            if lex_lt(c.player1_id@, a.player1_id@) && lex_lt(a.player1_id@, b.player1_id@) {
                lemma_lex_lt_transitive(c.player1_id@, a.player1_id@, b.player1_id@);
            }
            if lex_lt(b.player1_id@, c.player1_id@) && lex_lt(c.player1_id@, a.player1_id@) {
                lemma_lex_lt_transitive(b.player1_id@, c.player1_id@, a.player1_id@);
            }
        }
        if a.player1_id@ == b.player1_id@ && b.player1_id@ == c.player1_id@ {
            if lex_lt(c.player2_id@, a.player2_id@) && lex_lt(a.player2_id@, b.player2_id@) {
                lemma_lex_lt_transitive(c.player2_id@, a.player2_id@, b.player2_id@);
            }
            if lex_lt(b.player2_id@, c.player2_id@) && lex_lt(c.player2_id@, a.player2_id@) {
                lemma_lex_lt_transitive(b.player2_id@, c.player2_id@, a.player2_id@);
            }
        }
    }
}

/// Whether `a` comes before `b` in the rivalry order.
fn riv_before_exec(a: &RivalryEntry, b: &RivalryEntry) -> (r: bool)
    ensures
        r == riv_before(*a, *b),
{
    let ta = a.player1_wins as u64 + a.player2_wins as u64;
    let tb = b.player1_wins as u64 + b.player2_wins as u64;
    if ta > tb {
        true
    } else if ta == tb {
        if str_lt(a.player1_id.as_str(), b.player1_id.as_str()) {
            true
        } else if a.player1_id == b.player1_id {
            str_lt(a.player2_id.as_str(), b.player2_id.as_str())
        } else {
            false
        }
    } else {
        false
    }
}

/// Whether some listed pair equals `(a, b)` by identifier.
pub open spec fn pair_listed(c: Seq<(String, String)>, a: Seq<char>, b: Seq<char>) -> bool {
    exists|k: int| 0 <= k < c.len() && c[k].0@ == a && c[k].1@ == b
}

/// A pair stays listed when the list only grows at the end.
proof fn lemma_pair_listed_extends(c1: Seq<(String, String)>, c2: Seq<(String, String)>, a: Seq<
    char,
>, b: Seq<char>)
    requires
        c1.len() <= c2.len(),
        forall|k: int| 0 <= k < c1.len() ==> c2[k] == c1[k],
        pair_listed(c1, a, b),
    ensures
        pair_listed(c2, a, b),
{
    let k = choose|k: int| 0 <= k < c1.len() && c1[k].0@ == a && c1[k].1@ == b;
    assert(c2[k] == c1[k]);
}

/// Record the canonical form of one opposing pair, skipping a pair of equal
/// identifiers.
fn push_pair(c: &mut Vec<(String, String)>, w: &String, l: &String)
    ensures
        old(c)@.len() <= final(c)@.len(),
        forall|k: int| 0 <= k < old(c)@.len() ==> final(c)@[k] == old(c)@[k],
        forall|k: int|
            old(c)@.len() <= k < final(c)@.len() ==> lex_lt(#[trigger] final(c)@[k].0@, final(c)@[k].1@),
        w@ != l@ && lex_lt(w@, l@) ==> pair_listed(final(c)@, w@, l@),
        w@ != l@ && lex_lt(l@, w@) ==> pair_listed(final(c)@, l@, w@),
{
    if *w == *l {
        return ;
    }
    proof {
        lemma_lex_lt_trichotomy(w@, l@);
    }
    if str_lt(w.as_str(), l.as_str()) {
        c.push((w.clone(), l.clone()));
        assert(c@[c@.len() - 1].0@ == w@ && c@[c@.len() - 1].1@ == l@);
    } else {
        c.push((l.clone(), w.clone()));
        assert(c@[c@.len() - 1].0@ == l@ && c@[c@.len() - 1].1@ == w@);
    }
}

/// Every canonical pair that met at least once over the log, read off the
/// winner-loser slot combinations of each match.
fn collect_pairs(ms: &Vec<MatchRecord>) -> (c: Vec<(String, String)>)
    ensures
        forall|k: int| 0 <= k < c@.len() ==> lex_lt(#[trigger] c@[k].0@, c@[k].1@),
        forall|a: Seq<char>, b: Seq<char>|
            lex_lt(a, b) && #[trigger] beat_count(ms@, a, b) + beat_count(ms@, b, a) >= 1
                ==> pair_listed(c@, a, b),
{
    let mut c: Vec<(String, String)> = Vec::new();
    let n = ms.len();
    let mut i: usize = 0;
    while i < n
        invariant
            0 <= i <= n,
            n == ms@.len(),
            forall|k: int| 0 <= k < c@.len() ==> lex_lt(#[trigger] c@[k].0@, c@[k].1@),
            forall|a: Seq<char>, b: Seq<char>|
                lex_lt(a, b) && #[trigger] beat_count(ms@.take(i as int), a, b) + beat_count(
                    ms@.take(i as int),
                    b,
                    a,
                ) >= 1 ==> pair_listed(c@, a, b),
        decreases n - i,
    {
        let ghost c0 = c@;
        let m = &ms[i];
        push_pair(&mut c, &m.winner1_id, &m.loser1_id);
        push_pair(&mut c, &m.winner1_id, &m.loser2_id);
        push_pair(&mut c, &m.winner2_id, &m.loser1_id);
        push_pair(&mut c, &m.winner2_id, &m.loser2_id);
        proof {
            let mm = ms@[i as int];
            assert forall|a: Seq<char>, b: Seq<char>|
                lex_lt(a, b) && #[trigger] beat_count(ms@.take(i + 1), a, b) + beat_count(
                    ms@.take(i + 1),
                    b,
                    a,
                ) >= 1 implies pair_listed(c@, a, b) by {
                lemma_take_step(ms@, a, b, i as int);
                lemma_take_step(ms@, b, a, i as int);
                lemma_lex_lt_trichotomy(a, b);
                if beat_count(ms@.take(i as int), a, b) + beat_count(ms@.take(i as int), b, a)
                    >= 1 {
                    lemma_pair_listed_extends(c0, c@, a, b);
                } else {
                    assert(pair_hits(mm, a, b) + pair_hits(mm, b, a) >= 1);
                }
            }
        }
        i = i + 1;
    }
    proof {
        lemma_take_all(ms@);
    }
    c
}

/// Whether the table already holds a row for the pair.
fn riv_listed_exec(rs: &Vec<RivalryEntry>, a: &String, b: &String) -> (r: bool)
    ensures
        r == riv_listed(rs@, a@, b@),
{
    let n = rs.len();
    let mut i: usize = 0;
    while i < n
        invariant
            0 <= i <= n,
            n == rs@.len(),
            forall|k: int|
                0 <= k < i ==> !(#[trigger] rs@[k].player1_id@ == a@ && rs@[k].player2_id@ == b@),
        decreases n - i,
    {
        if rs[i].player1_id == *a && rs[i].player2_id == *b {
            return true;
        }
        i = i + 1;
    }
    false
}

/// A row stays listed when the table only grows at the end.
proof fn lemma_riv_listed_extends(r1: Seq<RivalryEntry>, r2: Seq<RivalryEntry>, a: Seq<char>, b: Seq<
    char,
>)
    requires
        r1.len() <= r2.len(),
        forall|k: int| 0 <= k < r1.len() ==> r2[k] == r1[k],
        riv_listed(r1, a, b),
    ensures
        riv_listed(r2, a, b),
{
    let k = choose|k: int|
        0 <= k < r1.len() && r1[k].player1_id@ == a && r1[k].player2_id@ == b;
    assert(r2[k] == r1[k]);
}

/// The head-to-head table of a roster and a log: one row per canonical pair
/// of distinct identifiers with at least two combined meetings, each row
/// carrying the exact directed counts and resolved names, ranked by total
/// meetings and then by pair.
pub fn compute_rivalries(players: &Vec<Player>, matches: &Vec<MatchRecord>) -> (r: Vec<
    RivalryEntry,
>)
    requires
        matches@.len() <= 0x1000_0000,
    ensures
        forall|k: int| 0 <= k < r@.len() ==> rivalry_ok(players@, matches@, #[trigger] r@[k]),
        forall|k1: int, k2: int|
            0 <= k1 < r@.len() && 0 <= k2 < r@.len() && k1 != k2 ==> !same_pair(#[trigger] r@[k1], #[trigger] r@[k2]),
        forall|a: Seq<char>, b: Seq<char>|
            lex_lt(a, b) && #[trigger] beat_count(matches@, a, b) + beat_count(matches@, b, a) >= 2
                ==> riv_listed(r@, a, b),
        rivalries_sorted(r@),
{
    let cands = collect_pairs(matches);
    let mut out: Vec<RivalryEntry> = Vec::new();
    let n = cands.len();
    let mut i: usize = 0;
    while i < n
        invariant
            0 <= i <= n,
            n == cands@.len(),
            matches@.len() <= 0x1000_0000,
            forall|k: int| 0 <= k < cands@.len() ==> lex_lt(#[trigger] cands@[k].0@, cands@[k].1@),
            forall|k: int|
                0 <= k < out@.len() ==> rivalry_ok(players@, matches@, #[trigger] out@[k]),
            forall|k1: int, k2: int|
                0 <= k1 < out@.len() && 0 <= k2 < out@.len() && k1 != k2 ==> !same_pair(#[trigger] out@[k1], #[trigger] out@[k2]),
            forall|a: Seq<char>, b: Seq<char>|
                #[trigger] pair_listed(cands@.take(i as int), a, b) && beat_count(matches@, a, b)
                    + beat_count(matches@, b, a) >= 2 ==> riv_listed(out@, a, b),
        decreases n - i,
    {
        let ghost out0 = out@;
        let a = &cands[i].0;
        let b = &cands[i].1;
        let already = riv_listed_exec(&out, a, b);
        if !already {
            let w1 = tally_beats(matches, a, b);
            let w2 = tally_beats(matches, b, a);
            proof {
                crate::counts::lemma_beat_count_le(matches@, a@, b@);
                crate::counts::lemma_beat_count_le(matches@, b@, a@);
            }
            if w1 + w2 >= 2 {
                let entry = RivalryEntry {
                    player1_id: a.clone(),
                    player1_name: display_name(players, a),
                    player2_id: b.clone(),
                    player2_name: display_name(players, b),
                    player1_wins: w1,
                    player2_wins: w2,
                };
                out.push(entry);
            }
        }
        proof {
            assert forall|a2: Seq<char>, b2: Seq<char>|
                #[trigger] pair_listed(cands@.take(i + 1), a2, b2) && beat_count(matches@, a2, b2)
                    + beat_count(matches@, b2, a2) >= 2 implies riv_listed(out@, a2, b2) by {
                let t = cands@.take(i + 1);
                let k = choose|k: int| 0 <= k < t.len() && t[k].0@ == a2 && t[k].1@ == b2;
                if k < i {
                    assert(pair_listed(cands@.take(i as int), a2, b2)) by {
                        assert(cands@.take(i as int)[k] == cands@.take(i + 1)[k]);
                    }
                    lemma_riv_listed_extends(out0, out@, a2, b2);
                } else {
                    assert(cands@[i as int].0@ == a2 && cands@[i as int].1@ == b2);
                    if riv_listed(out0, a2, b2) {
                        lemma_riv_listed_extends(out0, out@, a2, b2);
                    } else {
                        assert(out@[out@.len() - 1].player1_id@ == a2 && out@[out@.len()
                            - 1].player2_id@ == b2);
                    }
                }
            }
        }
        i = i + 1;
    }
    let ghost out_final = out@;
    let r = sort_rivalries(out, Ghost(players@), Ghost(matches@));
    proof {
        assert(cands@.take(n as int) =~= cands@);
        assert forall|a: Seq<char>, b: Seq<char>|
            lex_lt(a, b) && #[trigger] beat_count(matches@, a, b) + beat_count(matches@, b, a)
                >= 2 implies riv_listed(r@, a, b) by {
            assert(pair_listed(cands@, a, b));
            assert(pair_listed(cands@.take(n as int), a, b));
            assert(riv_listed(out_final, a, b));
        }
    }
    r
}

/// Sort rivalry rows into rivalry order, keeping exactly the same rows,
/// their correctness, and their pairwise-distinct pairs.
fn sort_rivalries(
    entries: Vec<RivalryEntry>,
    Ghost(ps): Ghost<Seq<Player>>,
    Ghost(ms): Ghost<Seq<MatchRecord>>,
) -> (r: Vec<RivalryEntry>)
    requires
        forall|k: int|
            0 <= k < entries@.len() ==> rivalry_ok(ps, ms, #[trigger] entries@[k]),
        forall|k1: int, k2: int|
            0 <= k1 < entries@.len() && 0 <= k2 < entries@.len() && k1 != k2 ==> !same_pair(
                #[trigger] entries@[k1],
                #[trigger] entries@[k2],
            ),
    ensures
        r@.len() == entries@.len(),
        rivalries_sorted(r@),
        forall|k: int| 0 <= k < r@.len() ==> rivalry_ok(ps, ms, #[trigger] r@[k]),
        forall|a: Seq<char>, b: Seq<char>|
            #[trigger] riv_listed(entries@, a, b) ==> riv_listed(r@, a, b),
        forall|k1: int, k2: int|
            0 <= k1 < r@.len() && 0 <= k2 < r@.len() && k1 != k2 ==> !same_pair(#[trigger] r@[k1], #[trigger] r@[k2]),
{
    let ghost orig = entries@;
    let mut v = entries;
    let mut i: usize = 1;
    while i < v.len()
        invariant
            v@.to_multiset() == orig.to_multiset(),
            v@.len() == orig.len(),
            1 <= i,
            i <= v@.len() || v@.len() == 0,
            forall|k: int| 0 <= k < v@.len() ==> rivalry_ok(ps, ms, #[trigger] v@[k]),
            forall|k1: int, k2: int|
                0 <= k1 < v@.len() && 0 <= k2 < v@.len() && k1 != k2 ==> !same_pair(#[trigger] v@[k1], #[trigger] v@[k2]),
            forall|a: int, b: int|
                0 <= a < b < i && b < v@.len() ==> !riv_before(#[trigger] v@[b], #[trigger] v@[a]),
        decreases v@.len() - i,
    {
        let mut j: usize = i;
        while j > 0 && riv_before_exec(&v[j], &v[j - 1])
            invariant
                0 <= j <= i < v@.len(),
                v@.to_multiset() == orig.to_multiset(),
                v@.len() == orig.len(),
                forall|k: int| 0 <= k < v@.len() ==> rivalry_ok(ps, ms, #[trigger] v@[k]),
                forall|k1: int, k2: int|
                    0 <= k1 < v@.len() && 0 <= k2 < v@.len() && k1 != k2 ==> !same_pair(#[trigger] v@[k1], #[trigger] v@[k2]),
                forall|a: int, b: int|
                    0 <= a < b <= i && b != j ==> !riv_before(#[trigger] v@[b], #[trigger] v@[a]),
                forall|b: int| j < b <= i ==> riv_before(v@[j as int], #[trigger] v@[b]),
            decreases j,
        {
            let ghost pre = v@;
            let e = v.remove(j);
            v.insert(j - 1, e);
            proof {
                let ghost moved = pre[j as int];
                assert(v@ =~= pre.update(j as int, pre[j - 1]).update(j - 1, moved));
                assert(v@.to_multiset() == pre.to_multiset()) by {
                    broadcast use vstd::multiset::group_multiset_axioms;

                    vstd::seq_lib::to_multiset_remove(pre, j as int);
                    vstd::seq_lib::to_multiset_insert(pre.remove(j as int), j - 1, moved);
                    vstd::seq_lib::to_multiset_contains(pre, moved);
                    assert(pre.contains(moved));
                    assert(pre.to_multiset().remove(moved).insert(moved) =~= pre.to_multiset());
                }
                assert forall|k1: int, k2: int|
                    0 <= k1 < v@.len() && 0 <= k2 < v@.len() && k1 != k2 implies !same_pair(#[trigger] v@[k1], #[trigger] v@[k2]) by {
                    let m1: int = if k1 == j - 1 {
                        j as int
                    } else if k1 == j {
                        j - 1
                    } else {
                        k1
                    };
                    let m2: int = if k2 == j - 1 {
                        j as int
                    } else if k2 == j {
                        j - 1
                    } else {
                        k2
                    };
                    assert(v@[k1] == pre[m1]);
                    assert(v@[k2] == pre[m2]);
                }
                assert forall|a: int, b: int|
                    0 <= a < b <= i && b != j - 1 implies !riv_before(
                    #[trigger] v@[b],
                    #[trigger] v@[a],
                ) by {
                    if b == j && a == j - 1 {
                        lemma_rivalry_order_total(moved, pre[j - 1]);
                    } else if b > j && a == j - 1 {
                        lemma_rivalry_order_total(moved, pre[b]);
                    }
                }
            }
            j = j - 1;
        }
        proof {
            if j > 0 {
                assert forall|b: int| j <= b <= i implies !riv_before(
                    #[trigger] v@[b],
                    v@[j - 1],
                ) by {
                    if b > j {
                        lemma_rivalry_order_total(v@[j as int], v@[b]);
                    }
                }
                assert forall|a: int, b: int| 0 <= a < b <= i implies !riv_before(
                    #[trigger] v@[b],
                    #[trigger] v@[a],
                ) by {
                    if b >= j && a < j - 1 {
                        assert(!riv_before(v@[j - 1], v@[a]));
                        assert(!riv_before(v@[b], v@[j - 1]));
                        lemma_riv_le_transitive(v@[a], v@[j - 1], v@[b]);
                    }
                }
            } else {
                assert forall|a: int, b: int| 0 <= a < b <= i implies !riv_before(
                    #[trigger] v@[b],
                    #[trigger] v@[a],
                ) by {
                }
            }
        }
        i = i + 1;
    }
    proof {
        assert forall|a: Seq<char>, b: Seq<char>|
            #[trigger] riv_listed(orig, a, b) implies riv_listed(v@, a, b) by {
            let k = choose|k: int|
                0 <= k < orig.len() && orig[k].player1_id@ == a && orig[k].player2_id@ == b;
            let e = orig[k];
            assert(orig.contains(e));
            vstd::seq_lib::to_multiset_contains(orig, e);
            vstd::seq_lib::to_multiset_contains(v@, e);
            assert(v@.contains(e));
            let k2 = choose|k2: int| 0 <= k2 < v@.len() && v@[k2] == e;
            assert(v@[k2].player1_id@ == a);
        }
    }
    v
}

} // verus!
