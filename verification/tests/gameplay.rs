use rocknrolla::ids::{Identity, Timestamp, Uuid};
use rocknrolla::repository::character::CharacterDef;
use rocknrolla::repository::level::{Level, Vec2};
use rocknrolla::repository::lootbox::DropImportV1;
use rocknrolla::repository::progression::PlayerEnabledLevel;
use rocknrolla::repository::views::{
    vw_character_v1, vw_my_completed_level_v1, vw_my_enabled_level_v1, vw_my_unlocked_character_v1,
    vw_piece_v1, MyEnabledLevelViewV1, MyUnlockedCharacterViewV1,
};
use rocknrolla::repository::Database;

fn uuid(n: u128) -> Uuid {
    Uuid::from_u128(n)
}

fn character(id: u128, starter: bool) -> CharacterDef {
    CharacterDef {
        id: uuid(id),
        name: format!("char-{id}"),
        style: format!("style-{id}"),
        rarity_weight: 1,
        density_bits: 0x3f00_0000,
        jump_speed_bits: 0x4120_0000,
        flight_time_ms: 250,
        buoyancy_bits: 0,
        fire_resistance_bits: 0,
        starter,
    }
}

/// Owner 1; starter character 5 with piece 30; character 6 with piece 31;
/// lootbox 50 dropping piece 30 (weight 1) and piece 31 (weight 3).
fn world() -> (Database, Identity) {
    let owner = Identity::from_u128(1);
    let mut db = Database::new(1000);
    db.init(owner);
    db.characters.import_character(character(5, true)).unwrap();
    db.characters.import_character(character(6, false)).unwrap();
    db.import_piece_v1(owner, uuid(30), "Chip".to_string(), uuid(5)).unwrap();
    db.import_piece_v1(owner, uuid(31), "Scrap".to_string(), uuid(6)).unwrap();
    let drops = vec![
        DropImportV1 { piece_id: uuid(30), weight: 1 },
        DropImportV1 { piece_id: uuid(31), weight: 3 },
    ];
    db.import_lootbox_v1(owner, uuid(50), "Crate".to_string(), drops).unwrap();
    (db, owner)
}

#[test]
fn opening_a_lootbox_awards_a_piece_and_unlocks_a_completed_character() {
    let (mut db, _) = world();
    let alice = Identity::from_u128(7);
    let bob = Identity::from_u128(8);
    db.identity_connected(alice).unwrap();
    let now = Timestamp { micros_since_epoch: 9 };
    db.lootboxes.grant_lootbox(&mut db.ids, alice, uuid(50), now).unwrap();
    let granted = db.lootboxes.granted[0].id;

    let err = db
        .lootboxes
        .open_lootbox(&db.characters, &mut db.players, &mut db.ids, bob, granted, 0)
        .unwrap_err();
    assert_eq!(err.message(), "row is owned by another player");
    assert!(!db.lootboxes.granted[0].opened);

    // Roll 2 falls in the band of piece 31, the only piece of character 6.
    db.lootboxes.open_lootbox(&db.characters, &mut db.players, &mut db.ids, alice, granted, 2).unwrap();
    assert!(db.lootboxes.granted[0].opened);
    assert_eq!(db.lootboxes.granted[0].awarded_piece_id, Some(uuid(31)));
    assert_eq!(db.players.owned_piece_ids(alice), vec![uuid(31)]);
    assert!(db.players.has_unlocked(alice, uuid(6)));
    assert_eq!(
        vw_my_unlocked_character_v1(&db.players, alice),
        vec![
            MyUnlockedCharacterViewV1 { character_id: uuid(5) },
            MyUnlockedCharacterViewV1 { character_id: uuid(6) },
        ]
    );
    assert!(vw_my_unlocked_character_v1(&db.players, bob).is_empty());

    let err = db
        .lootboxes
        .open_lootbox(&db.characters, &mut db.players, &mut db.ids, alice, granted, 0)
        .unwrap_err();
    assert!(err.message().contains("already opened"), "{}", err.message());
    assert_eq!(db.players.owned_piece_ids(alice), vec![uuid(31)]);
}

#[test]
fn a_roll_outside_the_weights_is_refused() {
    let (mut db, _) = world();
    let alice = Identity::from_u128(7);
    db.identity_connected(alice).unwrap();
    let now = Timestamp { micros_since_epoch: 9 };
    db.lootboxes.grant_lootbox(&mut db.ids, alice, uuid(50), now).unwrap();
    let granted = db.lootboxes.granted[0].id;
    assert!(db.lootboxes.open_lootbox(&db.characters, &mut db.players, &mut db.ids, alice, granted, 4).is_err());
    assert!(!db.lootboxes.granted[0].opened);
    assert!(db.players.owned_piece_ids(alice).is_empty());
}

#[test]
fn selecting_a_character_needs_a_player_and_an_unlock() {
    let (mut db, _) = world();
    let alice = Identity::from_u128(7);
    let err = db.players.select_character(alice, uuid(5)).unwrap_err();
    assert!(err.message().contains("not initialized"), "{}", err.message());
    db.identity_connected(alice).unwrap();
    assert_eq!(db.players.players[0].selected_character_id, Some(uuid(5)));
    let err = db.players.select_character(alice, uuid(6)).unwrap_err();
    assert!(err.message().contains("not unlocked"), "{}", err.message());
    db.players.select_character(alice, uuid(5)).unwrap();
    assert_eq!(db.players.players[0].selected_character_id, Some(uuid(5)));
}

#[test]
fn selecting_a_level_needs_it_active_and_enabled() {
    let (mut db, _) = world();
    let alice = Identity::from_u128(7);
    let level = |id: u128, active: bool| Level {
        id: uuid(id),
        slug: format!("level-{id}"),
        name: format!("Level {id}"),
        is_starting: false,
        active,
        reward_lootbox_id: None,
        backdrop_id: uuid(90),
        spawn: Vec2 { x: 1, y: 1 },
        finish: Vec2 { x: 2, y: 2 },
    };
    db.levels.levels.push(level(20, true));
    db.levels.levels.push(level(21, false));
    assert!(db.progression.select_level(&db.levels, alice, uuid(99)).is_err());
    assert!(db.progression.select_level(&db.levels, alice, uuid(21)).is_err());
    let err = db.progression.select_level(&db.levels, alice, uuid(20)).unwrap_err();
    assert_eq!(err.message(), "level 'level-20' is not enabled for this player");
    db.progression.enabled.push(PlayerEnabledLevel { id: uuid(70), owner: alice, level_id: uuid(20) });
    db.progression.select_level(&db.levels, alice, uuid(20)).unwrap();
    db.progression.select_level(&db.levels, alice, uuid(20)).unwrap();
    assert_eq!(db.progression.selected.len(), 1);
    assert_eq!(db.progression.selected[0].level_id, uuid(20));
    assert_eq!(vw_my_enabled_level_v1(&db.progression, alice), vec![MyEnabledLevelViewV1 { level_id: uuid(20) }]);
    assert!(vw_my_completed_level_v1(&db.progression, alice).is_empty());
}

#[test]
fn content_views_list_every_piece_and_character() {
    let (db, _) = world();
    let pieces = vw_piece_v1(&db.characters);
    assert_eq!(pieces.len(), 2);
    assert_eq!(pieces[1].id, uuid(31));
    assert_eq!(pieces[1].character_id, uuid(6));
    let characters = vw_character_v1(&db.characters);
    assert_eq!(characters.len(), 2);
    assert_eq!(characters[0].id, uuid(5));
    assert_eq!(characters[0].name, "char-5");
    assert_eq!(characters[1].flight_time_ms, 250);
}

#[test]
fn player_requests_act_for_their_sender() {
    let (mut db, _) = world();
    let alice = Identity::from_u128(7);
    let level = Level {
        id: uuid(20),
        slug: "meadow".to_string(),
        name: "Meadow".to_string(),
        is_starting: true,
        active: true,
        reward_lootbox_id: Some(uuid(50)),
        backdrop_id: uuid(90),
        spawn: Vec2 { x: 1, y: 1 },
        finish: Vec2 { x: 2, y: 2 },
    };
    db.levels.levels.push(level);
    assert!(db.complete_level_v1(alice, uuid(20), Timestamp { micros_since_epoch: 1 }).is_err());
    db.identity_connected(alice).unwrap();
    db.select_level_v1(alice, uuid(20)).unwrap();
    assert_eq!(db.progression.selected[0].owner, alice);
    db.complete_level_v1(alice, uuid(20), Timestamp { micros_since_epoch: 1 }).unwrap();
    let next = db.ids.next;
    db.complete_level_v1(alice, uuid(20), Timestamp { micros_since_epoch: 2 }).unwrap();
    assert_eq!(db.ids.next, next);
    assert_eq!(db.progression.completed.len(), 1);
    assert_eq!(db.lootboxes.granted.len(), 1);
    let granted = db.lootboxes.granted[0].id;
    db.open_lootbox_v1(alice, granted, 0).unwrap();
    assert_eq!(db.lootboxes.granted[0].awarded_piece_id, Some(uuid(30)));
    let err = db.select_character_v1(alice, uuid(6)).unwrap_err();
    assert!(err.message().contains("not unlocked"), "{}", err.message());
    db.select_character_v1(alice, uuid(5)).unwrap();
    assert_eq!(db.players.players[0].selected_character_id, Some(uuid(5)));
}
