//! Domain types: players, match outcomes, and the request/entity shapes that
//! surround them.
//!
//! Participant identifiers in a match are soft references: they are never
//! validated against the roster, and a match stays computable after a player
//! it mentions is deleted.

use vstd::prelude::*;

verus! {

/// A player on the roster. `id` is a stable slug-like identifier, unique and
/// immutable once created.
pub struct Player {
    pub id: String,
    pub name: String,
    pub nickname: String,
    pub avatar_emoji: String,
}

impl Player {
    /// Field-by-field copy, equal to the original.
    pub fn duplicate(&self) -> (r: Player)
        ensures
            r == *self,
    {
        Player {
            id: self.id.clone(),
            name: self.name.clone(),
            nickname: self.nickname.clone(),
            avatar_emoji: self.avatar_emoji.clone(),
        }
    }
}

/// The avatar a player gets when none was chosen.
pub fn default_avatar() -> (r: String)
    ensures
        r@ == "🏓"@,
{
    "🏓".to_owned()
}

/// One completed doubles game, immutable once recorded (corrections are done
/// by delete-and-recreate). `played_at_ms` is the played-at instant in
/// milliseconds since the Unix epoch.
pub struct MatchRecord {
    pub id: String,
    pub winner1_id: String,
    pub winner2_id: String,
    pub loser1_id: String,
    pub loser2_id: String,
    pub winner_score: Option<i32>,
    pub loser_score: Option<i32>,
    pub comment: String,
    pub recorded_by: String,
    pub played_at_ms: i64,
}

impl MatchRecord {
    /// Field-by-field copy, equal to the original.
    pub fn duplicate(&self) -> (r: MatchRecord)
        ensures
            r == *self,
    {
        MatchRecord {
            id: self.id.clone(),
            winner1_id: self.winner1_id.clone(),
            winner2_id: self.winner2_id.clone(),
            loser1_id: self.loser1_id.clone(),
            loser2_id: self.loser2_id.clone(),
            winner_score: self.winner_score,
            loser_score: self.loser_score,
            comment: self.comment.clone(),
            recorded_by: self.recorded_by.clone(),
            played_at_ms: self.played_at_ms,
        }
    }
}

/// Body of a player-creation request.
pub struct CreatePlayerRequest {
    pub id: String,
    pub name: String,
    pub nickname: String,
    pub avatar_emoji: String,
}

/// Body of a player-update request; absent fields are left unchanged.
pub struct UpdatePlayerRequest {
    pub name: Option<String>,
    pub nickname: Option<String>,
    pub avatar_emoji: Option<String>,
}

/// Body of a match-creation request. `played_at_ms` defaults to the current
/// instant when omitted.
pub struct CreateMatchRequest {
    pub winner1_id: String,
    pub winner2_id: String,
    pub loser1_id: String,
    pub loser2_id: String,
    pub winner_score: Option<i32>,
    pub loser_score: Option<i32>,
    pub comment: String,
    pub played_at_ms: Option<i64>,
}

/// Query parameters of a match listing: an optional cap on how many matches
/// come back.
pub struct ListMatchesQuery {
    pub limit: Option<usize>,
}

/// A player as the durable store shapes it: a constant partition key and the
/// player id as row key.
pub struct PlayerEntity {
    pub partition_key: String,
    pub row_key: String,
    pub name: String,
    pub nickname: String,
    pub avatar_emoji: String,
}

/// A match as the durable store shapes it. `played_at` is an RFC 3339
/// timestamp string; a stored record whose timestamp does not parse is
/// malformed and is skipped by listings rather than failing them.
pub struct MatchEntity {
    pub partition_key: String,
    pub row_key: String,
    pub winner1_id: String,
    pub winner2_id: String,
    pub loser1_id: String,
    pub loser2_id: String,
    pub winner_score: Option<i32>,
    pub loser_score: Option<i32>,
    pub comment: String,
    pub recorded_by: String,
    pub played_at: String,
}

/// Merge an update request into an existing player: each present field
/// replaces the stored one, absent fields keep it.
pub fn apply_player_update(player: Player, req: UpdatePlayerRequest) -> (r: Player)
    ensures
        r.id == player.id,
        r.name == (if req.name is Some { req.name->Some_0 } else { player.name }),
        r.nickname == (if req.nickname is Some { req.nickname->Some_0 } else { player.nickname }),
        r.avatar_emoji == (if req.avatar_emoji is Some {
            req.avatar_emoji->Some_0
        } else {
            player.avatar_emoji
        }),
{
    let mut current = player;
    match req.name {
        Some(n) => {
            current.name = n;
        },
        None => {},
    }
    match req.nickname {
        Some(n) => {
            current.nickname = n;
        },
        None => {},
    }
    match req.avatar_emoji {
        Some(a) => {
            current.avatar_emoji = a;
        },
        None => {},
    }
    current
}

} // verus!
