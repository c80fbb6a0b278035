//! Error kinds of the store and the stats endpoints, and the classification
//! of raw store error messages into them.
//!
//! `NotFound` and `AlreadyExists` surface to the caller as specific failures;
//! `Azure` stands for an unreachable or failing store and surfaces opaquely.

use vstd::prelude::*;

use crate::text::{contains_seq, contains_substr};

verus! {

/// A failure of a player-store operation.
pub enum PlayerStorageError {
    NotFound(String),
    AlreadyExists(String),
    Azure(String),
}

/// A failure of a match-store operation.
pub enum MatchStorageError {
    NotFound(String),
    Azure(String),
}

/// A failure of a leaderboard or stats computation.
pub enum StatsError {
    Player(PlayerStorageError),
    Match(MatchStorageError),
}

/// Whether the raw store message signals a missing entity.
pub open spec fn says_not_found(msg: Seq<char>) -> bool {
    contains_seq(msg, "ResourceNotFound"@) || contains_seq(msg, "404"@)
}

/// Whether the raw store message signals a duplicate entity.
pub open spec fn says_already_exists(msg: Seq<char>) -> bool {
    contains_seq(msg, "EntityAlreadyExists"@) || contains_seq(msg, "409"@)
}

/// Classify a raw player-store message: duplicates first, then missing
/// entities, otherwise an opaque store failure carrying the message.
pub fn classify_player_message(msg: String) -> (r: PlayerStorageError)
    ensures
        r is AlreadyExists <==> says_already_exists(msg@),
        r is NotFound <==> (!says_already_exists(msg@) && says_not_found(msg@)),
        r matches PlayerStorageError::AlreadyExists(s) ==> s@ == "(unknown)"@,
        r matches PlayerStorageError::NotFound(s) ==> s@ == "(unknown)"@,
        r matches PlayerStorageError::Azure(s) ==> s@ == msg@,
{
    if contains_substr(msg.as_str(), "EntityAlreadyExists") || contains_substr(msg.as_str(), "409")
    {
        PlayerStorageError::AlreadyExists("(unknown)".to_owned())
    } else if contains_substr(msg.as_str(), "ResourceNotFound") || contains_substr(
        msg.as_str(),
        "404",
    ) {
        PlayerStorageError::NotFound("(unknown)".to_owned())
    } else {
        PlayerStorageError::Azure(msg)
    }
}

/// Classify a raw match-store message: a missing entity, otherwise an opaque
/// store failure carrying the message.
pub fn classify_match_message(msg: String) -> (r: MatchStorageError)
    ensures
        r is NotFound <==> says_not_found(msg@),
        r matches MatchStorageError::NotFound(s) ==> s@ == "(unknown)"@,
        r matches MatchStorageError::Azure(s) ==> s@ == msg@,
{
    if contains_substr(msg.as_str(), "ResourceNotFound") || contains_substr(msg.as_str(), "404") {
        MatchStorageError::NotFound("(unknown)".to_owned())
    } else {
        MatchStorageError::Azure(msg)
    }
}

/// Classify the message of an operation on one player, naming that player in
/// the missing-entity case.
pub fn classify_player_message_for(msg: String, player_id: &String) -> (r: PlayerStorageError)
    ensures
        r is NotFound <==> says_not_found(msg@),
        r matches PlayerStorageError::NotFound(s) ==> s@ == player_id@,
        r matches PlayerStorageError::Azure(s) ==> s@ == msg@,
        !(r is AlreadyExists),
{
    if contains_substr(msg.as_str(), "ResourceNotFound") || contains_substr(msg.as_str(), "404") {
        PlayerStorageError::NotFound(player_id.clone())
    } else {
        PlayerStorageError::Azure(msg)
    }
}

/// Classify the message of a player insertion, naming that player in the
/// duplicate case.
pub fn classify_player_insert_message(msg: String, player_id: &String) -> (r: PlayerStorageError)
    ensures
        r is AlreadyExists <==> says_already_exists(msg@),
        r matches PlayerStorageError::AlreadyExists(s) ==> s@ == player_id@,
        r matches PlayerStorageError::Azure(s) ==> s@ == msg@,
        !(r is NotFound),
{
    if contains_substr(msg.as_str(), "EntityAlreadyExists") || contains_substr(msg.as_str(), "409")
    {
        PlayerStorageError::AlreadyExists(player_id.clone())
    } else {
        PlayerStorageError::Azure(msg)
    }
}

/// Classify the message of an operation on one match, naming that match in
/// the missing-entity case.
pub fn classify_match_message_for(msg: String, match_id: &String) -> (r: MatchStorageError)
    ensures
        r is NotFound <==> says_not_found(msg@),
        r matches MatchStorageError::NotFound(s) ==> s@ == match_id@,
        r matches MatchStorageError::Azure(s) ==> s@ == msg@,
{
    if contains_substr(msg.as_str(), "ResourceNotFound") || contains_substr(msg.as_str(), "404") {
        MatchStorageError::NotFound(match_id.clone())
    } else {
        MatchStorageError::Azure(msg)
    }
}

impl PlayerStorageError {
    /// The user-facing message of this error; the opaque store failure does
    /// not leak its message.
    pub fn message(&self) -> (r: String)
        ensures
            self matches PlayerStorageError::NotFound(s) ==> r@ == "Player '"@ + s@
                + "' not found"@,
            self matches PlayerStorageError::AlreadyExists(s) ==> r@ == "Player '"@ + s@
                + "' already exists"@,
            self is Azure ==> r@ == "Internal server error"@,
    {
        match self {
            PlayerStorageError::NotFound(s) => String::from_str("Player '").concat(
                s.as_str(),
            ).concat("' not found"),
            PlayerStorageError::AlreadyExists(s) => String::from_str("Player '").concat(
                s.as_str(),
            ).concat("' already exists"),
            PlayerStorageError::Azure(_) => "Internal server error".to_owned(),
        }
    }
}

impl MatchStorageError {
    /// The user-facing message of this error; the opaque store failure does
    /// not leak its message.
    pub fn message(&self) -> (r: String)
        ensures
            self matches MatchStorageError::NotFound(s) ==> r@ == "Match '"@ + s@ + "' not found"@,
            self is Azure ==> r@ == "Internal server error"@,
    {
        match self {
            MatchStorageError::NotFound(s) => String::from_str("Match '").concat(s.as_str()).concat(
                "' not found",
            ),
            MatchStorageError::Azure(_) => "Internal server error".to_owned(),
        }
    }
}

impl StatsError {
    /// The user-facing message of the wrapped error.
    pub fn message(&self) -> (r: String)
        ensures
            self matches StatsError::Player(PlayerStorageError::NotFound(s)) ==> r@ == "Player '"@
                + s@ + "' not found"@,
            self matches StatsError::Match(MatchStorageError::NotFound(s)) ==> r@ == "Match '"@
                + s@ + "' not found"@,
    {
        match self {
            StatsError::Player(e) => e.message(),
            StatsError::Match(e) => e.message(),
        }
    }
}

} // verus!
