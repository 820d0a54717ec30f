use rocknrolla::ids::Identity;
use rocknrolla::progression::{
    ensure_owner, ensure_unopened, grants_first_completion_rewards, pick_weighted, successor_inserts,
    unlocks_character,
};

fn ids(list: &[&str]) -> Vec<String> {
    list.iter().map(|s| s.to_string()).collect()
}

#[test]
fn completion_rewards_only_once() {
    assert!(grants_first_completion_rewards(false));
    assert!(!grants_first_completion_rewards(true));
}

#[test]
fn progression_successors_unlock_only_missing_targets() {
    let configured = ids(&["riverside-run", "tutorial-hill", "riverside-run"]);
    let enabled = ids(&["tutorial-hill"]);
    assert_eq!(successor_inserts(&configured, &enabled), ids(&["riverside-run"]));
    assert!(successor_inserts(&configured, &ids(&["tutorial-hill", "riverside-run"])).is_empty());
}

#[test]
fn progression_unauthorized_owner_is_rejected() {
    let alice = Identity::from_u128(1);
    let bob = Identity::from_u128(2);
    assert!(ensure_owner(alice, alice).is_ok());
    assert!(ensure_owner(bob, alice).is_err());
}

#[test]
fn opened_lootbox_is_consumed() {
    assert!(ensure_unopened(false).is_ok());
    assert!(ensure_unopened(true).is_err());
}

#[test]
fn progression_weighted_pick_covers_every_band_and_rejects_overflow() {
    let weighted = vec![
        ("stone-chip-a".to_string(), 3u64),
        ("paper-scrap-a".to_string(), 0u64),
        ("paper-scrap-b".to_string(), 2u64),
    ];
    assert_eq!(pick_weighted(&weighted, 0), Some("stone-chip-a"));
    assert_eq!(pick_weighted(&weighted, 2), Some("stone-chip-a"));
    assert_eq!(pick_weighted(&weighted, 3), Some("paper-scrap-b"));
    assert_eq!(pick_weighted(&weighted, 4), Some("paper-scrap-b"));
    assert_eq!(pick_weighted(&weighted, 5), None);
}

#[test]
fn progression_duplicate_pieces_count_toward_a_single_ownership() {
    let required = ids(&["paper-scrap-a", "paper-scrap-b", "paper-scrap-c"]);
    let owned_with_duplicates = ids(&["paper-scrap-a", "paper-scrap-b"]);
    assert!(!unlocks_character(&required, &owned_with_duplicates));
    let owned_all = ids(&["paper-scrap-b", "paper-scrap-a", "stone-chip-a", "paper-scrap-c"]);
    assert!(unlocks_character(&required, &owned_all));
}

#[test]
fn progression_characters_without_pieces_never_unlock_from_drops() {
    assert!(!unlocks_character(&[], &ids(&["anything"])));
}

#[test]
fn guard_texts() {
    assert_eq!(ensure_owner(Identity::from_u128(2), Identity::from_u128(1)).unwrap_err(), "row is owned by another player");
    assert_eq!(ensure_unopened(true).unwrap_err(), "lootbox already opened");
}

#[test]
fn successor_inserts_keep_first_occurrence_order() {
    let configured = ids(&["c", "a", "b", "a", "c", "d"]);
    let enabled = ids(&["b"]);
    assert_eq!(successor_inserts(&configured, &enabled), ids(&["c", "a", "d"]));
}

#[test]
fn weighted_pick_on_empty_and_all_zero_tables() {
    let none: Vec<(String, u64)> = Vec::new();
    assert_eq!(pick_weighted(&none, 0), None);
    let zeros = vec![("a".to_string(), 0u64), ("b".to_string(), 0u64)];
    assert_eq!(pick_weighted(&zeros, 0), None);
    let big = vec![("a".to_string(), u64::MAX), ("b".to_string(), u64::MAX)];
    assert_eq!(pick_weighted(&big, u64::MAX), Some("b"));
}
