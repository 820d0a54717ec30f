use rocknrolla::ids::{Identity, Timestamp, Uuid};
use rocknrolla::repository::component::{Component, ComponentServicesImpl};
use rocknrolla::repository::level::{Level, LevelPlacement, LevelServicesImpl, Vec2, Vec3};
use rocknrolla::repository::lootbox::{LootboxDef, LootboxServicesImpl, PlayerLootbox};
use rocknrolla::repository::player::{Player, PlayerPiece, PlayerServicesImpl};
use rocknrolla::repository::progression::{PlayerSelectedLevel, ProgressionServices};
use rocknrolla::repository::views::{
    vw_component_v1, vw_level_placement_v1, vw_level_v1, vw_me_v1, vw_my_lootbox, vw_my_piece_v1,
    MyPieceViewV1,
};

fn uuid(n: u128) -> Uuid {
    Uuid::from_u128(n)
}

fn level(id: u128, active: bool) -> Level {
    Level {
        id: uuid(id),
        slug: format!("level-{id}"),
        name: format!("Level {id}"),
        is_starting: false,
        active,
        reward_lootbox_id: None,
        backdrop_id: uuid(900),
        spawn: Vec2 { x: 1, y: 2 },
        finish: Vec2 { x: 3, y: 4 },
    }
}

fn placement(id: u128, level_id: u128, component_id: u128) -> LevelPlacement {
    LevelPlacement {
        id: uuid(id),
        level_id: uuid(level_id),
        component_id: uuid(component_id),
        position: Vec3 { x: 0, y: 0, z: 0 },
        flip_x: false,
        scale_bits: 1.0f32.to_bits(),
        order: 0,
    }
}

fn component(id: u128) -> Component {
    Component {
        id: uuid(id),
        slug: format!("component-{id}"),
        width_px: 64,
        height_px: 64,
        content_hash: format!("hash-{id}"),
        data: vec![1, 2, 3],
    }
}

#[test]
fn player_views_show_only_the_callers_rows() {
    let alice = Identity::from_u128(1);
    let bob = Identity::from_u128(2);
    let mut players = PlayerServicesImpl::new();
    players.players.push(Player { identity: bob, selected_character_id: None });
    players.players.push(Player { identity: alice, selected_character_id: Some(uuid(5)) });
    players.pieces.push(PlayerPiece { id: uuid(10), owner: alice, piece_id: uuid(30), count: 2 });
    players.pieces.push(PlayerPiece { id: uuid(11), owner: bob, piece_id: uuid(31), count: 1 });
    players.pieces.push(PlayerPiece { id: uuid(12), owner: alice, piece_id: uuid(32), count: 1 });

    let me = vw_me_v1(&players, alice).unwrap();
    assert_eq!(me.identity, alice);
    assert_eq!(me.selected_character_id, Some(uuid(5)));
    assert!(vw_me_v1(&players, Identity::from_u128(3)).is_none());
    assert_eq!(
        vw_my_piece_v1(&players, alice),
        vec![MyPieceViewV1 { piece_id: uuid(30), count: 2 }, MyPieceViewV1 { piece_id: uuid(32), count: 1 }]
    );
    assert_eq!(vw_my_piece_v1(&players, bob), vec![MyPieceViewV1 { piece_id: uuid(31), count: 1 }]);
}

#[test]
fn lootbox_view_names_each_grant_and_skips_missing_definitions() {
    let alice = Identity::from_u128(1);
    let mut lootboxes = LootboxServicesImpl::new();
    lootboxes.defs.push(LootboxDef { id: uuid(50), name: "Trail Cache".to_string() });
    let grant = |id: u128, owner: Identity, lootbox: u128| PlayerLootbox {
        id: uuid(id),
        owner,
        lootbox_id: uuid(lootbox),
        granted_at: Timestamp { micros_since_epoch: 0 },
        opened: false,
        awarded_piece_id: None,
    };
    lootboxes.granted.push(grant(60, alice, 50));
    lootboxes.granted.push(grant(61, Identity::from_u128(2), 50));
    lootboxes.granted.push(grant(62, alice, 51));
    let mine = vw_my_lootbox(&lootboxes, alice);
    assert_eq!(mine.len(), 1);
    assert_eq!(mine[0].id, uuid(60));
    assert_eq!(mine[0].name, "Trail Cache");
}

#[test]
fn level_views_expose_active_levels_and_the_selected_levels_placements() {
    let alice = Identity::from_u128(1);
    let mut levels = LevelServicesImpl::new();
    levels.levels.push(level(20, true));
    levels.levels.push(level(21, false));
    levels.placements.push(placement(70, 20, 41));
    levels.placements.push(placement(71, 21, 40));
    levels.placements.push(placement(72, 20, 40));
    levels.placements.push(placement(73, 20, 41));

    let shown = vw_level_v1(&levels);
    assert_eq!(shown.len(), 1);
    assert_eq!(shown[0].slug, "level-20");

    let mut progression = ProgressionServices::new();
    assert!(vw_level_placement_v1(&levels, &progression, alice).is_empty());
    progression.selected.push(PlayerSelectedLevel { owner: alice, level_id: uuid(21) });
    let placements = vw_level_placement_v1(&levels, &progression, alice);
    assert_eq!(placements.len(), 1);
    assert_eq!(placements[0].component_id, uuid(40));

    let mut components = ComponentServicesImpl::new();
    components.components.push(component(41));
    components.components.push(component(40));
    components.components.push(component(42));
    let library = vw_component_v1(&levels, &components);
    let ids: Vec<Uuid> = library.iter().map(|c| c.id).collect();
    assert_eq!(ids, vec![uuid(40), uuid(41)]);
    assert_eq!(library[0].data, vec![1, 2, 3]);
    assert_eq!(library[1].slug, "component-41");
}
