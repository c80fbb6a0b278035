//! Checks of the ordered log key scheme and the store conversions.

use scoreboard::convert::{players_from_entities, records_from_entities};
use scoreboard::models::{MatchEntity, MatchRecord, Player, PlayerEntity, UpdatePlayerRequest};
use scoreboard::models::{apply_player_update, default_avatar};
use scoreboard::rowkey::{generate_match_row_key, MAX_TIMESTAMP_MS};

fn entity(row_key: &str, played_at: &str) -> MatchEntity {
    MatchEntity {
        partition_key: "match".to_string(),
        row_key: row_key.to_string(),
        winner1_id: "a".to_string(),
        winner2_id: "b".to_string(),
        loser1_id: "c".to_string(),
        loser2_id: "d".to_string(),
        winner_score: None,
        loser_score: None,
        comment: String::new(),
        recorded_by: "anonymous".to_string(),
        played_at: played_at.to_string(),
    }
}

#[test]
fn row_key_has_padded_reverse_prefix_and_suffix() {
    let ms: i64 = 1_700_000_000_000;
    let key = generate_match_row_key(ms);
    assert_eq!(key.chars().count(), 57);
    let expected_prefix = format!("{:020}", MAX_TIMESTAMP_MS - ms);
    assert_eq!(&key[..20], expected_prefix.as_str());
    assert_eq!(key.as_bytes()[20], b'_');
    let suffix = &key[21..];
    assert_eq!(suffix.len(), 36);
    for (i, c) in suffix.chars().enumerate() {
        if i == 8 || i == 13 || i == 18 || i == 23 {
            assert_eq!(c, '-');
        } else {
            assert!(c.is_ascii_hexdigit() && !c.is_ascii_uppercase());
        }
    }
}

#[test]
fn newer_match_gets_smaller_key() {
    let older = generate_match_row_key(1_000_000);
    let newer = generate_match_row_key(2_000_000);
    assert!(newer < older);
}

#[test]
fn same_instant_keys_stay_distinct() {
    let k1 = generate_match_row_key(1_700_000_000_000);
    let k2 = generate_match_row_key(1_700_000_000_000);
    assert_ne!(k1, k2);
    assert_eq!(k1[..20], k2[..20]);
}

#[test]
fn match_record_round_trips_through_entity() {
    let ms: i64 = 1_700_000_123_456;
    let record = MatchRecord::new(
        "a".to_string(),
        "b".to_string(),
        "c".to_string(),
        "d".to_string(),
        Some(11),
        Some(9),
        "close one".to_string(),
        "a".to_string(),
        ms,
    );
    let id = record.id.clone();
    let entity = MatchEntity::from_record(record);
    assert_eq!(entity.partition_key, "match");
    assert_eq!(entity.row_key, id);
    let back = MatchRecord::try_from(entity).unwrap();
    assert_eq!(back.played_at_ms, ms);
    assert_eq!(back.id, id);
    assert_eq!(back.winner1_id, "a");
    assert_eq!(back.comment, "close one");
}

#[test]
fn malformed_timestamp_is_rejected() {
    assert!(MatchRecord::try_from(entity("k", "not-a-timestamp")).is_none());
    assert!(MatchRecord::try_from(entity("k", "2024-03-01T10:00:00+00:00")).is_some());
}

#[test]
fn listing_skips_malformed_entities_and_honours_the_limit() {
    let entities = vec![
        entity("k1", "2024-03-03T10:00:00+00:00"),
        entity("k2", "garbage"),
        entity("k3", "2024-03-01T10:00:00+00:00"),
    ];
    let all = records_from_entities(&entities, None);
    assert_eq!(all.len(), 2);
    assert_eq!(all[0].id, "k1");
    assert_eq!(all[1].id, "k3");

    let capped = records_from_entities(&entities, Some(1));
    assert_eq!(capped.len(), 1);
    assert_eq!(capped[0].id, "k1");

    assert!(records_from_entities(&entities, Some(0)).is_empty());
}

#[test]
fn player_round_trips_through_entity() {
    let p = Player {
        id: "martin".to_string(),
        name: "Martin".to_string(),
        nickname: "The Dinkmaster".to_string(),
        avatar_emoji: "🔥".to_string(),
    };
    let e = PlayerEntity::from_player(p);
    assert_eq!(e.partition_key, "player");
    assert_eq!(e.row_key, "martin");
    let back = Player::from_entity(e);
    assert_eq!(back.id, "martin");
    assert_eq!(back.nickname, "The Dinkmaster");
}

#[test]
fn players_from_entities_keeps_order() {
    let es = vec![
        PlayerEntity {
            partition_key: "player".to_string(),
            row_key: "a".to_string(),
            name: "A".to_string(),
            nickname: String::new(),
            avatar_emoji: default_avatar(),
        },
        PlayerEntity {
            partition_key: "player".to_string(),
            row_key: "b".to_string(),
            name: "B".to_string(),
            nickname: String::new(),
            avatar_emoji: default_avatar(),
        },
    ];
    let ps = players_from_entities(es);
    assert_eq!(ps.len(), 2);
    assert_eq!(ps[0].id, "a");
    assert_eq!(ps[1].id, "b");
}

#[test]
fn default_avatar_is_the_paddle() {
    assert_eq!(default_avatar(), "🏓");
}

#[test]
fn update_request_merges_field_by_field() {
    let p = Player {
        id: "a".to_string(),
        name: "Old".to_string(),
        nickname: "nick".to_string(),
        avatar_emoji: "🏓".to_string(),
    };
    let updated = apply_player_update(
        p,
        UpdatePlayerRequest { name: Some("New".to_string()), nickname: None, avatar_emoji: None },
    );
    assert_eq!(updated.id, "a");
    assert_eq!(updated.name, "New");
    assert_eq!(updated.nickname, "nick");
    assert_eq!(updated.avatar_emoji, "🏓");
}
