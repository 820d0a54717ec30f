use rocknrolla::ids::{Identity, Timestamp, Uuid};
use rocknrolla::repository::access::ensure_owner;
use rocknrolla::repository::character::CharacterDef;
use rocknrolla::repository::level::{Level, LevelServicesImpl, LevelSuccessor, Vec2};
use rocknrolla::repository::lootbox::{pick_weighted, DropImportV1, LootboxDef, LootboxServicesImpl};
use rocknrolla::repository::player::{unlocks_character, PlayerServicesImpl};
use rocknrolla::repository::progression::{successor_inserts, PlayerEnabledLevel, ProgressionServices};
use rocknrolla::repository::table::UuidGen;
use rocknrolla::repository::Database;

fn ids(list: &[u128]) -> Vec<Uuid> {
    list.iter().map(|&n| Uuid::from_u128(n)).collect()
}

#[test]
fn services_weighted_pick_covers_every_band_and_rejects_overflow() {
    let stone_chip = Uuid::from_u128(1);
    let paper_scrap_a = Uuid::from_u128(2);
    let paper_scrap_b = Uuid::from_u128(3);
    let weighted = vec![(stone_chip, 3u64), (paper_scrap_a, 0u64), (paper_scrap_b, 2u64)];
    assert_eq!(pick_weighted(&weighted, 0), Some(stone_chip));
    assert_eq!(pick_weighted(&weighted, 2), Some(stone_chip));
    assert_eq!(pick_weighted(&weighted, 3), Some(paper_scrap_b));
    assert_eq!(pick_weighted(&weighted, 4), Some(paper_scrap_b));
    assert_eq!(pick_weighted(&weighted, 5), None);
}

#[test]
fn services_duplicate_pieces_count_toward_a_single_ownership() {
    let required = ids(&[1, 2, 3]);
    let owned_partial = ids(&[1, 2]);
    assert!(!unlocks_character(&required, &owned_partial));
    let owned_all = ids(&[2, 1, 9, 3]);
    assert!(unlocks_character(&required, &owned_all));
}

#[test]
fn services_characters_without_pieces_never_unlock_from_drops() {
    assert!(!unlocks_character(&[], &ids(&[7])));
}

#[test]
fn services_successors_unlock_only_missing_targets() {
    let riverside = Uuid::from_u128(2);
    let configured = ids(&[2, 1, 2]);
    let enabled = ids(&[1]);
    assert_eq!(successor_inserts(&configured, &enabled), vec![riverside]);
    assert!(successor_inserts(&configured, &ids(&[1, 2])).is_empty());
}

#[test]
fn access_unauthorized_owner_is_rejected() {
    let alice = Identity::from_u128(1);
    let bob = Identity::from_u128(2);
    assert!(ensure_owner(alice, alice).is_ok());
    assert!(ensure_owner(bob, alice).is_err());
}

fn character(id: u128, starter: bool) -> CharacterDef {
    CharacterDef {
        id: Uuid::from_u128(id),
        name: format!("character {id}"),
        style: format!("style-{id}"),
        rarity_weight: 1,
        density_bits: 0,
        jump_speed_bits: 0,
        flight_time_ms: 0,
        buoyancy_bits: 0,
        fire_resistance_bits: 0,
        starter,
    }
}

fn level(id: u128, starting: bool, active: bool, reward: Option<u128>) -> Level {
    Level {
        id: Uuid::from_u128(id),
        slug: format!("level-{id}"),
        name: format!("Level {id}"),
        is_starting: starting,
        active,
        reward_lootbox_id: reward.map(Uuid::from_u128),
        backdrop_id: Uuid::from_u128(900),
        spawn: Vec2 { x: 0, y: 0 },
        finish: Vec2 { x: 1, y: 0 },
    }
}

#[test]
fn connecting_twice_is_the_same_as_connecting_once() {
    let mut db = Database::new(1000);
    db.characters.import_character(character(5, true)).unwrap();
    db.characters.import_character(character(3, true)).unwrap();
    db.characters.import_character(character(4, false)).unwrap();
    db.levels.levels.push(level(20, true, true, None));
    db.levels.levels.push(level(21, true, false, None));
    let alice = Identity::from_u128(7);

    db.identity_connected(alice).unwrap();
    assert_eq!(db.players.unlocked_character_ids(alice), ids(&[5, 3]));
    assert_eq!(db.progression.enabled_level_ids(alice), ids(&[20]));
    assert_eq!(db.players.players.len(), 1);
    assert_eq!(db.players.players[0].selected_character_id, Some(Uuid::from_u128(3)));
    assert_eq!(db.ids.next, 1003);

    db.identity_connected(alice).unwrap();
    assert_eq!(db.players.unlocked_character_ids(alice), ids(&[5, 3]));
    assert_eq!(db.progression.enabled_level_ids(alice), ids(&[20]));
    assert_eq!(db.players.players.len(), 1);
    assert_eq!(db.ids.next, 1003);
}

#[test]
fn connecting_picks_up_content_imported_later() {
    let mut db = Database::new(1);
    let alice = Identity::from_u128(7);
    db.identity_connected(alice).unwrap();
    assert_eq!(db.players.players[0].selected_character_id, None);
    db.characters.import_character(character(9, true)).unwrap();
    db.identity_connected(alice).unwrap();
    assert_eq!(db.players.unlocked_character_ids(alice), ids(&[9]));
    assert_eq!(db.players.players[0].selected_character_id, Some(Uuid::from_u128(9)));
}

#[test]
fn connecting_without_uuids_left_fails_and_changes_nothing() {
    let mut db = Database::new(u128::MAX);
    db.characters.import_character(character(5, true)).unwrap();
    let alice = Identity::from_u128(7);
    assert!(db.identity_connected(alice).is_err());
    assert!(db.players.players.is_empty());
    assert!(db.players.unlocked.is_empty());
}

#[test]
fn completing_a_level_twice_records_it_once() {
    let alice = Identity::from_u128(7);
    let mut levels = LevelServicesImpl::new();
    levels.levels.push(level(20, true, true, Some(50)));
    levels.levels.push(level(21, false, true, None));
    levels.successors.push(LevelSuccessor {
        id: Uuid::from_u128(60),
        level_id: Uuid::from_u128(20),
        successor_id: Uuid::from_u128(21),
    });
    let mut lootboxes = LootboxServicesImpl::new();
    lootboxes.defs.push(LootboxDef { id: Uuid::from_u128(50), name: "Crate".to_string() });
    let mut progression = ProgressionServices::new();
    progression.enabled.push(PlayerEnabledLevel {
        id: Uuid::from_u128(70),
        owner: alice,
        level_id: Uuid::from_u128(20),
    });
    let mut gen = UuidGen::new(100);
    let now = Timestamp { micros_since_epoch: 5 };

    progression
        .complete_level(&levels, &mut lootboxes, &mut gen, alice, Uuid::from_u128(20), now)
        .unwrap();
    assert_eq!(progression.completed.len(), 1);
    assert_eq!(progression.enabled_level_ids(alice), ids(&[20, 21]));
    assert_eq!(lootboxes.granted.len(), 1);
    assert_eq!(lootboxes.granted[0].lootbox_id, Uuid::from_u128(50));
    assert!(!lootboxes.granted[0].opened);
    assert_eq!(gen.next, 103);

    progression
        .complete_level(&levels, &mut lootboxes, &mut gen, alice, Uuid::from_u128(20), now)
        .unwrap();
    assert_eq!(progression.completed.len(), 1);
    assert_eq!(progression.enabled_level_ids(alice), ids(&[20, 21]));
    assert_eq!(lootboxes.granted.len(), 1);
    assert_eq!(gen.next, 103);
}

#[test]
fn completing_refuses_unknown_inactive_and_disabled_levels() {
    let alice = Identity::from_u128(7);
    let mut levels = LevelServicesImpl::new();
    levels.levels.push(level(20, true, false, None));
    levels.levels.push(level(21, true, true, None));
    let mut lootboxes = LootboxServicesImpl::new();
    let mut progression = ProgressionServices::new();
    let mut gen = UuidGen::new(100);
    let now = Timestamp { micros_since_epoch: 5 };
    let unknown = progression
        .complete_level(&levels, &mut lootboxes, &mut gen, alice, Uuid::from_u128(99), now)
        .unwrap_err();
    assert!(unknown.message().contains("unknown level"), "{}", unknown.message());
    let inactive = progression
        .complete_level(&levels, &mut lootboxes, &mut gen, alice, Uuid::from_u128(20), now)
        .unwrap_err();
    assert!(inactive.message().contains("level-20"), "{}", inactive.message());
    let disabled = progression
        .complete_level(&levels, &mut lootboxes, &mut gen, alice, Uuid::from_u128(21), now)
        .unwrap_err();
    assert_eq!(disabled.message(), "level 'level-21' is not enabled for this player");
    assert!(progression.completed.is_empty());
}

#[test]
fn granting_a_piece_twice_counts_two_copies() {
    let alice = Identity::from_u128(7);
    let mut players = PlayerServicesImpl::new();
    let mut gen = UuidGen::new(1);
    assert_eq!(players.grant_piece(&mut gen, alice, Uuid::from_u128(30)), Ok(1));
    assert_eq!(players.grant_piece(&mut gen, alice, Uuid::from_u128(30)), Ok(2));
    assert_eq!(players.grant_piece(&mut gen, alice, Uuid::from_u128(31)), Ok(1));
    assert_eq!(players.pieces.len(), 2);
    assert_eq!(gen.next, 3);
    assert_eq!(players.owned_piece_ids(alice), ids(&[30, 31]));
}

#[test]
fn unlocking_twice_records_one_unlock() {
    let alice = Identity::from_u128(7);
    let mut players = PlayerServicesImpl::new();
    let mut gen = UuidGen::new(1);
    players.unlock_character_if_absent(&mut gen, alice, Uuid::from_u128(3)).unwrap();
    players.unlock_character_if_absent(&mut gen, alice, Uuid::from_u128(3)).unwrap();
    assert!(players.has_unlocked(alice, Uuid::from_u128(3)));
    assert_eq!(players.unlocked.len(), 1);
    assert_eq!(gen.next, 2);
}

#[test]
fn owning_every_piece_unlocks_the_character() {
    let alice = Identity::from_u128(7);
    let mut players = PlayerServicesImpl::new();
    let mut gen = UuidGen::new(1);
    let required = ids(&[30, 31]);
    players.grant_piece(&mut gen, alice, Uuid::from_u128(30)).unwrap();
    players.unlock_character_when_owned(&mut gen, alice, Uuid::from_u128(3), &required).unwrap();
    assert!(!players.has_unlocked(alice, Uuid::from_u128(3)));
    players.grant_piece(&mut gen, alice, Uuid::from_u128(31)).unwrap();
    players.unlock_character_when_owned(&mut gen, alice, Uuid::from_u128(3), &required).unwrap();
    assert!(players.has_unlocked(alice, Uuid::from_u128(3)));
}

#[test]
fn only_the_module_owner_imports_content() {
    let owner = Identity::from_u128(1);
    let stranger = Identity::from_u128(2);
    let mut db = Database::new(100);
    let err = db.import_piece_v1(owner, Uuid::from_u128(30), "Chip".to_string(), Uuid::from_u128(5)).unwrap_err();
    assert_eq!(err.message(), "module owner not initialized");
    db.init(owner);
    db.characters.import_character(character(5, true)).unwrap();
    let err = db.import_piece_v1(stranger, Uuid::from_u128(30), "Chip".to_string(), Uuid::from_u128(5)).unwrap_err();
    assert_eq!(err.message(), "only the module owner may import content");
    assert!(db.characters.pieces.is_empty());
    let err = db.import_piece_v1(owner, Uuid::from_u128(30), String::new(), Uuid::from_u128(5)).unwrap_err();
    assert_eq!(err.message(), "'name' is required");
    let err = db.import_piece_v1(owner, Uuid::from_u128(30), "x".repeat(129), Uuid::from_u128(5)).unwrap_err();
    assert_eq!(err.message(), "'name' must be at most 128 bytes");
    assert!(db.import_piece_v1(owner, Uuid::from_u128(31), "Chip".to_string(), Uuid::from_u128(6)).is_err());
    db.import_piece_v1(owner, Uuid::from_u128(30), "Chip".to_string(), Uuid::from_u128(5)).unwrap();
    assert_eq!(db.characters.pieces.len(), 1);

    let drops = vec![DropImportV1 { piece_id: Uuid::from_u128(30), weight: 3 }];
    let err = db.import_lootbox_v1(stranger, Uuid::from_u128(50), "Crate".to_string(), drops).unwrap_err();
    assert_eq!(err.message(), "only the module owner may import content");
    assert!(db.lootboxes.defs.is_empty());
    let drops = vec![DropImportV1 { piece_id: Uuid::from_u128(30), weight: 3 }];
    db.import_lootbox_v1(owner, Uuid::from_u128(50), "Crate".to_string(), drops).unwrap();
    assert_eq!(db.lootboxes.defs.len(), 1);
    assert_eq!(db.lootboxes.drops.len(), 1);
    assert_eq!(db.ids.next, 101);
}

#[test]
fn successor_inserts_settle_at_once() {
    let configured = ids(&[3, 1, 3, 2]);
    let enabled = ids(&[1]);
    let inserts = successor_inserts(&configured, &enabled);
    assert_eq!(inserts, ids(&[3, 2]));
    assert_eq!(successor_inserts(&inserts, &enabled), inserts);
    let mut all = enabled.clone();
    all.extend(inserts.iter().copied());
    assert!(successor_inserts(&configured, &all).is_empty());
}

#[test]
fn ensuring_a_player_twice_is_ensuring_once() {
    let alice = Identity::from_u128(7);
    let mut players = PlayerServicesImpl::new();
    let mut gen = UuidGen::new(1);
    let starters = ids(&[5, 6]);
    players.ensure_player(&mut gen, alice, &starters, Some(Uuid::from_u128(5))).unwrap();
    assert_eq!(players.players[0].selected_character_id, Some(Uuid::from_u128(5)));
    assert_eq!(players.unlocked.len(), 2);
    assert_eq!(gen.next, 3);
    players.ensure_player(&mut gen, alice, &starters, Some(Uuid::from_u128(5))).unwrap();
    assert_eq!(players.players.len(), 1);
    assert_eq!(players.unlocked.len(), 2);
    assert_eq!(gen.next, 3);
}
