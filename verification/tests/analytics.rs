//! End-to-end checks of the aggregation engine on concrete rosters and logs.

use scoreboard::leaderboard::compute_leaderboard;
use scoreboard::models::{MatchRecord, Player};
use scoreboard::partner::{best_partner, nemesis};
use scoreboard::rivalry::compute_rivalries;
use scoreboard::stats::compute_player_stats;
use scoreboard::streak::calculate_streak;

fn player(id: &str, name: &str) -> Player {
    Player {
        id: id.to_string(),
        name: name.to_string(),
        nickname: String::new(),
        avatar_emoji: "🏓".to_string(),
    }
}

fn game(id: &str, w1: &str, w2: &str, l1: &str, l2: &str, played_at_ms: i64) -> MatchRecord {
    MatchRecord {
        id: id.to_string(),
        winner1_id: w1.to_string(),
        winner2_id: w2.to_string(),
        loser1_id: l1.to_string(),
        loser2_id: l2.to_string(),
        winner_score: Some(11),
        loser_score: Some(7),
        comment: String::new(),
        recorded_by: "anonymous".to_string(),
        played_at_ms,
    }
}

/// Roster alice, bob, carol, dave; match 1 (older): alice+bob beat
/// carol+dave; match 2 (newer): alice+carol beat bob+dave. The log is
/// newest-first.
fn example_scenario() -> (Vec<Player>, Vec<MatchRecord>) {
    let players = vec![
        player("alice", "Alice"),
        player("bob", "Bob"),
        player("carol", "Carol"),
        player("dave", "Dave"),
    ];
    let matches = vec![
        game("m2", "alice", "carol", "bob", "dave", 2_000),
        game("m1", "alice", "bob", "carol", "dave", 1_000),
    ];
    (players, matches)
}

#[test]
fn streak_of_empty_sequence_is_zero() {
    assert_eq!(calculate_streak(&[]), 0);
}

#[test]
fn streak_counts_leading_wins() {
    assert_eq!(calculate_streak(&[true, true, false]), 2);
}

#[test]
fn streak_counts_leading_losses_negative() {
    assert_eq!(calculate_streak(&[false, false, false, true]), -3);
}

#[test]
fn streak_sign_matches_most_recent_result() {
    assert!(calculate_streak(&[true, false, false]) > 0);
    assert!(calculate_streak(&[false, true, true]) < 0);
}

#[test]
fn leaderboard_example_scenario() {
    let (players, matches) = example_scenario();
    let board = compute_leaderboard(&players, &matches);
    assert_eq!(board.len(), 4);

    let ids: Vec<&str> = board.iter().map(|e| e.player_id.as_str()).collect();
    // alice leads on rate; bob and carol tie on rate and games, so the
    // identifier decides; dave is last.
    assert_eq!(ids, vec!["alice", "bob", "carol", "dave"]);

    let alice = &board[0];
    assert_eq!((alice.wins, alice.losses, alice.total_games), (2, 0, 2));
    assert_eq!(alice.streak, 2);

    let bob = &board[1];
    assert_eq!((bob.wins, bob.losses, bob.total_games), (1, 1, 2));
    // bob's newest result is the loss in match 2.
    assert_eq!(bob.streak, -1);

    let carol = &board[2];
    assert_eq!((carol.wins, carol.losses, carol.total_games), (1, 1, 2));
    assert_eq!(carol.streak, 1);

    let dave = &board[3];
    assert_eq!((dave.wins, dave.losses, dave.total_games), (0, 2, 2));
    assert_eq!(dave.streak, -2);

    for e in board.iter() {
        assert_eq!(e.wins + e.losses, e.total_games);
        assert!(e.wins <= e.total_games);
    }
}

#[test]
fn leaderboard_keeps_players_without_games() {
    let players = vec![player("alice", "Alice"), player("zoe", "Zoe")];
    let matches = vec![game("m1", "alice", "bob", "carol", "dave", 1_000)];
    let board = compute_leaderboard(&players, &matches);
    assert_eq!(board.len(), 2);
    assert_eq!(board[0].player_id, "alice");
    let zoe = &board[1];
    assert_eq!((zoe.wins, zoe.losses, zoe.total_games, zoe.streak), (0, 0, 0, 0));
}

#[test]
fn rivalries_example_scenario() {
    let (players, matches) = example_scenario();
    let rivalries = compute_rivalries(&players, &matches);
    // alice-dave met twice (alice won both); bob-carol met twice (one each).
    assert_eq!(rivalries.len(), 2);

    let first = &rivalries[0];
    assert_eq!(first.player1_id, "alice");
    assert_eq!(first.player2_id, "dave");
    assert_eq!(first.player1_name, "Alice");
    assert_eq!(first.player2_name, "Dave");
    assert_eq!((first.player1_wins, first.player2_wins), (2, 0));

    let second = &rivalries[1];
    assert_eq!(second.player1_id, "bob");
    assert_eq!(second.player2_id, "carol");
    assert_eq!((second.player1_wins, second.player2_wins), (1, 1));
}

#[test]
fn rivalry_needs_two_meetings() {
    let players = vec![player("a", "A"), player("b", "B"), player("c", "C"), player("d", "D")];
    let one = vec![game("m1", "a", "b", "c", "d", 1_000)];
    assert!(compute_rivalries(&players, &one).is_empty());

    let two = vec![
        game("m2", "a", "b", "c", "d", 2_000),
        game("m1", "a", "b", "c", "d", 1_000),
    ];
    let rivalries = compute_rivalries(&players, &two);
    // a-c, a-d, b-c, b-d now each have two meetings.
    assert_eq!(rivalries.len(), 4);
    for e in rivalries.iter() {
        assert_eq!(e.player1_wins + e.player2_wins, 2);
        assert!(e.player1_id < e.player2_id);
    }
    // equal totals: the canonical pair identifiers decide the order
    let pairs: Vec<(&str, &str)> = rivalries
        .iter()
        .map(|e| (e.player1_id.as_str(), e.player2_id.as_str()))
        .collect();
    assert_eq!(pairs, vec![("a", "c"), ("a", "d"), ("b", "c"), ("b", "d")]);
}

#[test]
fn deleting_a_match_removes_its_contribution() {
    let (players, mut matches) = example_scenario();
    let before = compute_leaderboard(&players, &matches);
    let alice_before = before.iter().find(|e| e.player_id == "alice").unwrap().wins;
    let bob_losses_before = before.iter().find(|e| e.player_id == "bob").unwrap().losses;

    // delete match 2 (the newest), in which alice won and bob lost
    matches.remove(0);
    let after = compute_leaderboard(&players, &matches);
    let alice_after = after.iter().find(|e| e.player_id == "alice").unwrap().wins;
    let bob_losses_after = after.iter().find(|e| e.player_id == "bob").unwrap().losses;

    assert_eq!(alice_after, alice_before - 1);
    assert_eq!(bob_losses_after, bob_losses_before - 1);
}

#[test]
fn player_stats_example_scenario() {
    let (players, matches) = example_scenario();
    let stats = compute_player_stats(&players, &matches, &"alice".to_string()).ok().unwrap();
    assert_eq!(stats.player_id, "alice");
    assert_eq!(stats.player_name, "Alice");
    assert_eq!((stats.wins, stats.losses, stats.total_games), (2, 0, 2));
    assert_eq!(stats.streak, 2);
    // alice played once with bob and once with carol: nobody reaches two
    // games together.
    assert!(stats.best_partner.is_none());
    // nobody has beaten alice.
    assert!(stats.nemesis.is_none());
    assert_eq!(stats.recent_matches.len(), 2);
    assert_eq!(stats.recent_matches[0].id, "m2");
    assert_eq!(stats.recent_matches[1].id, "m1");
}

#[test]
fn player_stats_unknown_player_is_not_found() {
    let (players, matches) = example_scenario();
    let err = compute_player_stats(&players, &matches, &"zed".to_string()).err().unwrap();
    assert_eq!(err.message(), "Player 'zed' not found");
}

#[test]
fn nemesis_example_scenario() {
    let (players, matches) = example_scenario();
    let stats = compute_player_stats(&players, &matches, &"dave".to_string()).ok().unwrap();
    let rival = stats.nemesis.unwrap();
    // dave lost to alice twice, to bob and carol once each.
    assert_eq!(rival.opponent_id, "alice");
    assert_eq!(rival.opponent_name, "Alice");
    assert_eq!((rival.losses_against, rival.wins_against), (2, 0));
    assert_eq!(stats.streak, -2);
}

#[test]
fn best_partner_needs_two_games_together() {
    let players = vec![player("a", "A"), player("b", "B")];
    let one = vec![game("m1", "a", "b", "c", "d", 1_000)];
    assert!(best_partner(&players, &one, &"a".to_string()).is_none());

    let two = vec![
        game("m2", "a", "b", "c", "d", 2_000),
        game("m1", "a", "b", "c", "d", 1_000),
    ];
    let best = best_partner(&players, &two, &"a".to_string()).unwrap();
    assert_eq!(best.partner_id, "b");
    assert_eq!(best.partner_name, "B");
    assert_eq!((best.wins, best.losses), (2, 0));
}

#[test]
fn best_partner_tie_breaks_on_losses_then_id() {
    let players = vec![player("a", "A")];
    // a+b: two wins and a loss; a+c: two wins, no loss => c wins the tie.
    let matches = vec![
        game("m5", "a", "c", "x", "y", 5_000),
        game("m4", "a", "c", "x", "y", 4_000),
        game("m3", "x", "y", "a", "b", 3_000),
        game("m2", "a", "b", "x", "y", 2_000),
        game("m1", "a", "b", "x", "y", 1_000),
    ];
    let best = best_partner(&players, &matches, &"a".to_string()).unwrap();
    assert_eq!(best.partner_id, "c");
    assert_eq!((best.wins, best.losses), (2, 0));
    // the partner is not on the roster: the name falls back to the
    // placeholder.
    assert_eq!(best.partner_name, "Unknown");

    // b and d with identical records: the smaller identifier wins.
    let tied = vec![
        game("m4", "a", "d", "x", "y", 4_000),
        game("m3", "a", "d", "x", "y", 3_000),
        game("m2", "a", "b", "x", "y", 2_000),
        game("m1", "a", "b", "x", "y", 1_000),
    ];
    let best = best_partner(&players, &tied, &"a".to_string()).unwrap();
    assert_eq!(best.partner_id, "b");
}

#[test]
fn nemesis_tie_breaks_on_wins_against_then_id() {
    let players = vec![player("a", "A")];
    // a loses twice to each of x and w; a also beat x once, never w.
    let matches = vec![
        game("m5", "a", "b", "x", "z", 5_000),
        game("m4", "x", "z", "a", "b", 4_000),
        game("m3", "x", "z", "a", "b", 3_000),
        game("m2", "w", "v", "a", "b", 2_000),
        game("m1", "w", "v", "a", "b", 1_000),
    ];
    let rival = nemesis(&players, &matches, &"a".to_string()).unwrap();
    // x and w both beat a twice; a's one win over x breaks the tie for x.
    assert_eq!(rival.opponent_id, "x");
    assert_eq!((rival.losses_against, rival.wins_against), (2, 1));
}

#[test]
fn rivalry_totals_are_symmetric_in_the_example() {
    let (players, matches) = example_scenario();
    let rivalries = compute_rivalries(&players, &matches);
    for e in rivalries.iter() {
        // each entry's total equals the number of matches where the pair
        // stood on opposite teams
        let meetings = matches
            .iter()
            .filter(|m| {
                let on_winning = |id: &str| m.winner1_id == id || m.winner2_id == id;
                let on_losing = |id: &str| m.loser1_id == id || m.loser2_id == id;
                (on_winning(&e.player1_id) && on_losing(&e.player2_id))
                    || (on_winning(&e.player2_id) && on_losing(&e.player1_id))
            })
            .count() as u32;
        assert_eq!(e.player1_wins + e.player2_wins, meetings);
    }
}

#[test]
fn leaderboard_compares_win_rates_exactly() {
    // two thirds beats one half beats one third
    let players = vec![player("ann", "Ann"), player("ben", "Ben"), player("cam", "Cam")];
    let matches = vec![
        game("m9", "ann", "x", "cam", "y", 9_000),
        game("m8", "ann", "x", "cam", "y", 8_000),
        game("m7", "x", "y", "ann", "z", 7_000),
        game("m6", "cam", "x", "q", "y", 6_000),
        game("m5", "x", "y", "cam", "z", 5_000),
        game("m4", "x", "y", "cam", "z", 4_000),
        game("m3", "cam", "x", "y", "z", 3_000),
        game("m2", "ben", "x", "y", "z", 2_000),
        game("m1", "x", "y", "ben", "z", 1_000),
    ];
    let board = compute_leaderboard(&players, &matches);
    let ids: Vec<&str> = board.iter().map(|e| e.player_id.as_str()).collect();
    // ann: 2/3, ben: 1/2, cam: 2/6 — ranked by exact rate
    assert_eq!(ids, vec!["ann", "ben", "cam"]);
    assert_eq!((board[0].wins, board[0].losses), (2, 1));
    assert_eq!((board[1].wins, board[1].losses), (1, 1));
    assert_eq!((board[2].wins, board[2].losses), (2, 4));
}

#[test]
fn streak_of_single_result() {
    assert_eq!(calculate_streak(&[true]), 1);
    assert_eq!(calculate_streak(&[false]), -1);
    assert_eq!(calculate_streak(&[true, true, true]), 3);
}
