//! Conversions between the domain types and the shapes the durable store
//! holds, including the timestamp text format. A stored match whose timestamp
//! does not parse is malformed: listings skip it rather than fail.

use vstd::prelude::*;

use crate::models::{CreateMatchRequest, MatchEntity, MatchRecord, Player, PlayerEntity};
use crate::rowkey::{generate_match_row_key, is_key_for, MAX_TIMESTAMP_MS};

verus! {

/// The RFC 3339 rendering of an instant given in milliseconds since the Unix
/// epoch.
pub uninterp spec fn rfc3339_of(ms: i64) -> Seq<char>;

/// The instant, in milliseconds since the Unix epoch, that an RFC 3339 text
/// denotes, or nothing when the text is not a valid RFC 3339 timestamp.
pub uninterp spec fn parse_rfc3339_ms(s: Seq<char>) -> Option<i64>;

/// Renders an instant as RFC 3339 text.
///
/// Relies on chrono's `DateTime::<Utc>::from_timestamp_millis`, which is
/// defined for the whole required range, and `to_rfc3339`: the rendering is a
/// function of the millisecond value alone.
#[verifier::external_body]
fn format_rfc3339(ms: i64) -> (r: String)
    requires
        0 <= ms <= MAX_TIMESTAMP_MS,
    ensures
        r@ == rfc3339_of(ms),
{
    chrono::DateTime::<chrono::Utc>::from_timestamp_millis(ms).unwrap().to_rfc3339()
}

/// Parses RFC 3339 text back to milliseconds since the Unix epoch.
///
/// Relies on chrono's `DateTime::parse_from_rfc3339` and `timestamp_millis`:
/// success and the parsed instant are a function of the text alone.
#[verifier::external_body]
fn parse_rfc3339(s: &str) -> (r: Option<i64>)
    ensures
        r == parse_rfc3339_ms(s@),
{
    match chrono::DateTime::parse_from_rfc3339(s) {
        Ok(dt) => Some(dt.with_timezone(&chrono::Utc).timestamp_millis()),
        Err(_) => None,
    }
}

impl MatchRecord {
    /// A new match record with a fresh ordered log key for its instant.
    pub fn new(
        winner1_id: String,
        winner2_id: String,
        loser1_id: String,
        loser2_id: String,
        winner_score: Option<i32>,
        loser_score: Option<i32>,
        comment: String,
        recorded_by: String,
        played_at_ms: i64,
    ) -> (r: MatchRecord)
        requires
            0 <= played_at_ms <= MAX_TIMESTAMP_MS,
        ensures
            is_key_for(r.id@, played_at_ms as int),
            r.winner1_id == winner1_id,
            r.winner2_id == winner2_id,
            r.loser1_id == loser1_id,
            r.loser2_id == loser2_id,
            r.winner_score == winner_score,
            r.loser_score == loser_score,
            r.comment == comment,
            r.recorded_by == recorded_by,
            r.played_at_ms == played_at_ms,
    {
        let id = generate_match_row_key(played_at_ms);
        MatchRecord {
            id,
            winner1_id,
            winner2_id,
            loser1_id,
            loser2_id,
            winner_score,
            loser_score,
            comment,
            recorded_by,
            played_at_ms,
        }
    }

    /// The record a creation request describes, stamped with the caller and
    /// with the request's instant, or `now_ms` when the request has none.
    pub fn from_request(req: CreateMatchRequest, recorded_by: String, now_ms: i64) -> (r:
        MatchRecord)
        requires
            0 <= now_ms <= MAX_TIMESTAMP_MS,
            req.played_at_ms matches Some(ms) ==> 0 <= ms <= MAX_TIMESTAMP_MS,
        ensures
            r.played_at_ms == (if req.played_at_ms is Some {
                req.played_at_ms->Some_0
            } else {
                now_ms
            }),
            is_key_for(r.id@, r.played_at_ms as int),
            r.winner1_id == req.winner1_id,
            r.winner2_id == req.winner2_id,
            r.loser1_id == req.loser1_id,
            r.loser2_id == req.loser2_id,
            r.winner_score == req.winner_score,
            r.loser_score == req.loser_score,
            r.comment == req.comment,
            r.recorded_by == recorded_by,
    {
        let played_at_ms = match req.played_at_ms {
            Some(ms) => ms,
            None => now_ms,
        };
        MatchRecord::new(
            req.winner1_id,
            req.winner2_id,
            req.loser1_id,
            req.loser2_id,
            req.winner_score,
            req.loser_score,
            req.comment,
            recorded_by,
            played_at_ms,
        )
    }

    /// The record a stored entity holds, or nothing when its timestamp text
    /// is malformed.
    pub fn try_from(entity: MatchEntity) -> (r: Option<MatchRecord>)
        ensures
            r is Some <==> parse_rfc3339_ms(entity.played_at@) is Some,
            r matches Some(m) ==> {
                &&& m.id == entity.row_key
                &&& m.winner1_id == entity.winner1_id
                &&& m.winner2_id == entity.winner2_id
                &&& m.loser1_id == entity.loser1_id
                &&& m.loser2_id == entity.loser2_id
                &&& m.winner_score == entity.winner_score
                &&& m.loser_score == entity.loser_score
                &&& m.comment == entity.comment
                &&& m.recorded_by == entity.recorded_by
                &&& Some(m.played_at_ms) == parse_rfc3339_ms(entity.played_at@)
            },
    {
        let played_at_ms = match parse_rfc3339(entity.played_at.as_str()) {
            Some(ms) => ms,
            None => {
                return None;
            },
        };
        Some(
            MatchRecord {
                id: entity.row_key,
                winner1_id: entity.winner1_id,
                winner2_id: entity.winner2_id,
                loser1_id: entity.loser1_id,
                loser2_id: entity.loser2_id,
                winner_score: entity.winner_score,
                loser_score: entity.loser_score,
                comment: entity.comment,
                recorded_by: entity.recorded_by,
                played_at_ms,
            },
        )
    }
}

impl MatchEntity {
    /// The stored shape of a match record: the constant match partition key,
    /// the record's key as row key, and the instant as RFC 3339 text.
    pub fn from_record(m: MatchRecord) -> (r: MatchEntity)
        requires
            0 <= m.played_at_ms <= MAX_TIMESTAMP_MS,
        ensures
            r.partition_key@ == "match"@,
            r.row_key == m.id,
            r.winner1_id == m.winner1_id,
            r.winner2_id == m.winner2_id,
            r.loser1_id == m.loser1_id,
            r.loser2_id == m.loser2_id,
            r.winner_score == m.winner_score,
            r.loser_score == m.loser_score,
            r.comment == m.comment,
            r.recorded_by == m.recorded_by,
            r.played_at@ == rfc3339_of(m.played_at_ms),
    {
        MatchEntity {
            partition_key: "match".to_owned(),
            row_key: m.id,
            winner1_id: m.winner1_id,
            winner2_id: m.winner2_id,
            loser1_id: m.loser1_id,
            loser2_id: m.loser2_id,
            winner_score: m.winner_score,
            loser_score: m.loser_score,
            comment: m.comment,
            recorded_by: m.recorded_by,
            played_at: format_rfc3339(m.played_at_ms),
        }
    }

    /// Field-by-field copy, equal to the original.
    pub fn duplicate(&self) -> (r: MatchEntity)
        ensures
            r == *self,
    {
        MatchEntity {
            partition_key: self.partition_key.clone(),
            row_key: self.row_key.clone(),
            winner1_id: self.winner1_id.clone(),
            winner2_id: self.winner2_id.clone(),
            loser1_id: self.loser1_id.clone(),
            loser2_id: self.loser2_id.clone(),
            winner_score: self.winner_score,
            loser_score: self.loser_score,
            comment: self.comment.clone(),
            recorded_by: self.recorded_by.clone(),
            played_at: self.played_at.clone(),
        }
    }
}

impl PlayerEntity {
    /// The stored shape of a player: the constant player partition key and
    /// the player's id as row key.
    pub fn from_player(p: Player) -> (r: PlayerEntity)
        ensures
            r.partition_key@ == "player"@,
            r.row_key == p.id,
            r.name == p.name,
            r.nickname == p.nickname,
            r.avatar_emoji == p.avatar_emoji,
    {
        PlayerEntity {
            partition_key: "player".to_owned(),
            row_key: p.id,
            name: p.name,
            nickname: p.nickname,
            avatar_emoji: p.avatar_emoji,
        }
    }
}

impl Player {
    /// The player a stored entity holds.
    pub fn from_entity(e: PlayerEntity) -> (r: Player)
        ensures
            r.id == e.row_key,
            r.name == e.name,
            r.nickname == e.nickname,
            r.avatar_emoji == e.avatar_emoji,
    {
        Player { id: e.row_key, name: e.name, nickname: e.nickname, avatar_emoji: e.avatar_emoji }
    }
}

/// The players a page of stored entities holds, in order.
pub fn players_from_entities(es: Vec<PlayerEntity>) -> (r: Vec<Player>)
    ensures
        r@.len() == es@.len(),
        forall|k: int|
            0 <= k < es@.len() ==> {
                &&& (#[trigger] r@[k]).id == es@[k].row_key
                &&& r@[k].name == es@[k].name
                &&& r@[k].nickname == es@[k].nickname
                &&& r@[k].avatar_emoji == es@[k].avatar_emoji
            },
{
    let ghost orig = es@;
    let mut es = es;
    let mut r: Vec<Player> = Vec::new();
    let n = es.len();
    let mut i: usize = 0;
    while i < n
        invariant
            0 <= i <= n,
            es@ =~= orig.skip(i as int),
            n == orig.len(),
            r@.len() == i,
            forall|k: int|
                0 <= k < i ==> {
                    &&& (#[trigger] r@[k]).id == orig[k].row_key
                    &&& r@[k].name == orig[k].name
                    &&& r@[k].nickname == orig[k].nickname
                    &&& r@[k].avatar_emoji == orig[k].avatar_emoji
                },
        decreases n - i,
    {
        let e = es.remove(0);
        proof {
            assert(orig.skip(i as int)[0] == orig[i as int]);
            assert(orig.skip(i as int).remove(0) =~= orig.skip(i + 1));
        }
        r.push(Player::from_entity(e));
        i = i + 1;
    }
    r
}

/// The records a listed page of stored entities holds: malformed entities
/// (those whose timestamp does not parse) are left out, in order.
pub open spec fn parsed_records(es: Seq<MatchEntity>) -> Seq<MatchRecord>
    decreases es.len(),
{
    if es.len() == 0 {
        seq![]
    } else {
        parsed_records(es.drop_last()) + (match parse_rfc3339_ms(es.last().played_at@) {
            Some(ms) => seq![
                MatchRecord {
                    id: es.last().row_key,
                    winner1_id: es.last().winner1_id,
                    winner2_id: es.last().winner2_id,
                    loser1_id: es.last().loser1_id,
                    loser2_id: es.last().loser2_id,
                    winner_score: es.last().winner_score,
                    loser_score: es.last().loser_score,
                    comment: es.last().comment,
                    recorded_by: es.last().recorded_by,
                    played_at_ms: ms,
                },
            ],
            None => seq![],
        })
    }
}

/// The parsed records of a listing, cut to `limit` when one is given.
pub open spec fn parsed_records_up_to(es: Seq<MatchEntity>, limit: Option<usize>) -> Seq<
    MatchRecord,
> {
    let all = parsed_records(es);
    match limit {
        None => all,
        Some(l) => if all.len() <= l {
            all
        } else {
            all.take(l as int)
        },
    }
}

/// One more entity extends the parsed records by its record, or by nothing
/// when it is malformed.
proof fn lemma_parsed_records_take_step(es: Seq<MatchEntity>, i: int)
    requires
        0 <= i < es.len(),
    ensures
        parsed_records(es.take(i + 1)) == parsed_records(es.take(i)) + (match parse_rfc3339_ms(
            es[i].played_at@,
        ) {
            Some(ms) => seq![
                MatchRecord {
                    id: es[i].row_key,
                    winner1_id: es[i].winner1_id,
                    winner2_id: es[i].winner2_id,
                    loser1_id: es[i].loser1_id,
                    loser2_id: es[i].loser2_id,
                    winner_score: es[i].winner_score,
                    loser_score: es[i].loser_score,
                    comment: es[i].comment,
                    recorded_by: es[i].recorded_by,
                    played_at_ms: ms,
                },
            ],
            None => seq![],
        }),
{
    assert(es.take(i + 1).drop_last() =~= es.take(i));
    assert(es.take(i + 1).last() == es[i]);
}

/// The well-formed records of a listed page of entities, newest first as the
/// page is, skipping malformed entities, cut to `limit` records when a limit
/// is given.
pub fn records_from_entities(es: &Vec<MatchEntity>, limit: Option<usize>) -> (r: Vec<MatchRecord>)
    ensures
        r@ == parsed_records_up_to(es@, limit),
{
    let max = match limit {
        Some(l) => l,
        None => usize::MAX,
    };
    let ghost glimit = limit;
    let mut r: Vec<MatchRecord> = Vec::new();
    let n = es.len();
    let mut i: usize = 0;
    while i < n
        invariant
            0 <= i <= n,
            n == es@.len(),
            r@.len() <= max,
            r@.len() <= i,
            max == (match glimit {
                Some(l) => l as int,
                None => usize::MAX as int,
            }),
            r@ == parsed_records_up_to(es@.take(i as int), glimit),
        decreases n - i,
    {
        proof {
            lemma_parsed_records_take_step(es@, i as int);
        }
        let ghost parsed = parsed_records(es@.take(i as int));
        match MatchRecord::try_from(es[i].duplicate()) {
            Some(record) => {
                let ghost extended = parsed_records(es@.take(i + 1));
                if r.len() < max {
                    proof {
                        if glimit is Some {
                            assert(parsed.len() <= max ==> parsed == r@);
                            assert(parsed.len() > max ==> parsed.take(max as int).len()
                                == max as int);
                        }
                        assert(parsed == r@);
                    }
                    r.push(record);
                    proof {
                        assert(r@ =~= extended);
                        if glimit is Some && extended.len() > max {
                            assert(false);
                        }
                    }
                } else {
                    proof {
                        assert(glimit is Some);
                        assert(parsed.len() >= max);
                        assert(extended.len() > max);
                        assert(parsed.len() <= max ==> (extended.take(max as int) =~= parsed));
                        assert(parsed.len() > max ==> (extended.take(max as int) =~= parsed.take(
                            max as int,
                        )));
                    }
                }
            },
            None => {},
        }
        i = i + 1;
    }
    proof {
        assert(es@.take(n as int) =~= es@);
    }
    r
}

} // verus!
