use rocknrolla::tiled::{parse_level, split_successors, PropValue, TiledLayer, TiledMap, TiledProperty, TiledTileset};
use rocknrolla::tiles::TileIds;

const LEVEL_ID: &str = "0195c8f1-0000-7000-8000-000000000001";
const NEXT_ID: &str = "0195c8f1-0000-7000-8000-000000000002";
const OTHER_ID: &str = "0195c8f1-0000-7000-8000-000000000003";
const GAMEPLAY_Z: u8 = 127;
const SOLID: u8 = 1;
const SPAWN: u8 = 10;
const FINISH: u8 = 11;

fn tile_ids() -> TileIds {
    TileIds {
        empty: 0,
        solid: SOLID,
        slope_up: 2,
        slope_down: 3,
        lethal: 4,
        water: 7,
        fire: 8,
        heavy: 9,
        decor: 5,
        max: 11,
    }
}

fn string(name: &str, value: &str) -> TiledProperty {
    TiledProperty { name: name.to_string(), value: PropValue::Str(value.to_string()), text: format!("\"{value}\"") }
}

fn boolean(name: &str, value: bool) -> TiledProperty {
    TiledProperty { name: name.to_string(), value: PropValue::Bool(value), text: value.to_string() }
}

fn integer(name: &str, value: u64) -> TiledProperty {
    TiledProperty { name: name.to_string(), value: PropValue::Number(Some(value)), text: value.to_string() }
}

fn gameplay_layer(z: u64, extra_flags: u32) -> TiledLayer {
    let mut data = vec![0u32; 12];
    data[0] = 1 + SPAWN as u32;
    data[4] = (1 + SOLID as u32) | extra_flags;
    data[11] = 1 + FINISH as u32;
    TiledLayer {
        kind: "tilelayer".to_string(),
        name: "gameplay".to_string(),
        width: 4,
        height: 3,
        data,
        properties: vec![integer("z", z)],
    }
}

fn map_with(id: &str, successors: &str, layer: TiledLayer) -> TiledMap {
    TiledMap {
        kind: "map".to_string(),
        orientation: "orthogonal".to_string(),
        infinite: false,
        tilewidth: 64,
        tileheight: 64,
        properties: vec![
            string("id", id),
            string("slug", "test-level"),
            string("name", "Test Level"),
            boolean("starting", true),
            string("successors", successors),
        ],
        tilesets: vec![TiledTileset { firstgid: 1 }],
        layers: vec![layer],
    }
}

fn sample(gameplay_z: u64, extra_flags: u32) -> TiledMap {
    map_with(LEVEL_ID, &format!("{NEXT_ID}, {OTHER_ID}"), gameplay_layer(gameplay_z, extra_flags))
}

fn err(map: &TiledMap) -> String {
    parse_level(map, &tile_ids(), GAMEPLAY_Z).unwrap_err()
}

#[test]
fn parses_a_valid_map() {
    let level = parse_level(&sample(127, 0), &tile_ids(), GAMEPLAY_Z).unwrap();
    assert_eq!(level.id, LEVEL_ID);
    assert_eq!(level.slug, "test-level");
    assert!(level.is_starting);
    assert_eq!(level.reward_lootbox_id, None);
    assert_eq!(level.successors, vec![NEXT_ID, OTHER_ID]);
    assert_eq!(level.layers.len(), 1);
    assert_eq!(level.layers[0].z, GAMEPLAY_Z);
}

#[test]
fn rejects_non_uuid_ids_and_references() {
    let e = err(&map_with("tutorial-hill", &format!("{NEXT_ID}, {OTHER_ID}"), gameplay_layer(127, 0)));
    assert!(e.contains("not a valid UUID"), "{e}");
    let e = err(&map_with(LEVEL_ID, &format!("next-level, {OTHER_ID}"), gameplay_layer(127, 0)));
    assert!(e.contains("not a valid UUID"), "{e}");
}

#[test]
fn rejects_self_and_duplicate_successors() {
    let e = err(&map_with(LEVEL_ID, &format!("{LEVEL_ID}, {OTHER_ID}"), gameplay_layer(127, 0)));
    assert!(e.contains("itself"), "{e}");
    let e = err(&map_with(LEVEL_ID, &format!("{NEXT_ID}, {NEXT_ID}"), gameplay_layer(127, 0)));
    assert!(e.contains("twice"), "{e}");
}

#[test]
fn rejects_flip_flags() {
    let e = err(&sample(127, 0x8000_0000));
    assert!(e.contains("flip/rotation"), "{e}");
}

#[test]
fn converts_gids_into_tile_ids() {
    let level = parse_level(&sample(127, 0), &tile_ids(), GAMEPLAY_Z).unwrap();
    let layer = &level.layers[0];
    assert_eq!(layer.tiles, vec![SPAWN, 0, 0, 0, SOLID, 0, 0, 0, 0, 0, 0, FINISH]);
    assert_eq!((layer.width, layer.height, layer.cell_width, layer.cell_height), (4, 3, 64, 64));
    assert!(level.active);
    assert_eq!(level.name, "Test Level");
}

#[test]
fn reports_exact_messages_for_bad_maps() {
    let mut map = sample(127, 0);
    map.kind = "tileset".to_string();
    assert_eq!(err(&map), "expected a Tiled map, got type 'tileset'");
    let mut map = sample(127, 0);
    map.orientation = "isometric".to_string();
    assert_eq!(err(&map), "unsupported orientation 'isometric'");
    let mut map = sample(127, 0);
    map.infinite = true;
    assert_eq!(err(&map), "infinite maps are not supported");
    let mut map = sample(127, 0);
    map.tilesets.clear();
    assert_eq!(err(&map), "map has no tileset");
    let mut map = sample(127, 0);
    map.tilesets.push(TiledTileset { firstgid: 50 });
    assert_eq!(err(&map), "map must use exactly one tileset");
    let mut map = sample(127, 0);
    map.properties.remove(1);
    assert_eq!(err(&map), "map is missing the 'slug' string property");
    let mut map = sample(127, 0);
    map.properties[2] = string("name", "");
    assert_eq!(err(&map), "map is missing the 'name' string property");
    let mut map = sample(127, 0);
    map.properties[3] = string("starting", "yes");
    assert_eq!(err(&map), "property 'starting' must be a bool, got \"yes\"");
    let mut map = sample(127, 0);
    map.properties.push(string("reward_lootbox_id", "crate"));
    assert_eq!(err(&map), "reward_lootbox_id 'crate' is not a valid UUID");
    let map = map_with("tutorial-hill", "", gameplay_layer(127, 0));
    assert_eq!(err(&map), "level id 'tutorial-hill' is not a valid UUID");
}

#[test]
fn reports_exact_messages_for_bad_layers() {
    let mut layer = gameplay_layer(127, 0);
    layer.kind = "objectgroup".to_string();
    assert_eq!(
        err(&map_with(LEVEL_ID, "", layer)),
        "layer 'gameplay' has unsupported type 'objectgroup'; only tile layers are allowed"
    );
    let mut layer = gameplay_layer(127, 0);
    layer.properties.clear();
    assert_eq!(err(&map_with(LEVEL_ID, "", layer)), "layer 'gameplay' is missing the 'z' int property");
    assert_eq!(err(&map_with(LEVEL_ID, "", gameplay_layer(300, 0))), "layer 'gameplay' z 300 is out of 0..=255");
    assert_eq!(err(&map_with(LEVEL_ID, "", gameplay_layer(70000, 0))), "property 'z' out of range");
    let mut layer = gameplay_layer(127, 0);
    layer.properties.push(string("role", "visual"));
    assert_eq!(
        err(&map_with(LEVEL_ID, "", layer)),
        "layer 'gameplay' role 'visual' contradicts z 127 (expected 'gameplay')"
    );
    let mut layer = gameplay_layer(127, 0);
    layer.width = 0;
    assert_eq!(err(&map_with(LEVEL_ID, "", layer)), "layer 'gameplay' has zero dimensions");
    let mut layer = gameplay_layer(127, 0);
    layer.data.pop();
    assert_eq!(err(&map_with(LEVEL_ID, "", layer)), "layer 'gameplay' has 11 tiles, expected 12");
    let mut layer = gameplay_layer(127, 0);
    layer.data[2] = 40;
    assert_eq!(err(&map_with(LEVEL_ID, "", layer)), "layer 'gameplay' tile 2 has unknown tile id 39");
    let mut map = map_with(LEVEL_ID, "", gameplay_layer(127, 0));
    map.tilesets[0].firstgid = 5;
    assert_eq!(err(&map), "layer 'gameplay' tile 4 gid 2 below firstgid");
}

#[test]
fn layer_properties_override_the_map_cell_size_and_roles_agree() {
    let mut layer = gameplay_layer(40, 0);
    layer.properties.push(string("role", "visual"));
    layer.properties.push(integer("cell_width", 32));
    let level = parse_level(&map_with(LEVEL_ID, "", layer), &tile_ids(), GAMEPLAY_Z).unwrap();
    assert_eq!(level.layers[0].z, 40);
    assert_eq!(level.layers[0].cell_width, 32);
    assert_eq!(level.layers[0].cell_height, 64);
    assert!(level.successors.is_empty());
}

#[test]
fn successor_lists_are_trimmed_and_compared_ignoring_case() {
    assert_eq!(split_successors(" a , ,b,, c "), vec!["a", "b", "c"]);
    assert!(split_successors("").is_empty());
    let upper = NEXT_ID.to_uppercase();
    let e = err(&map_with(LEVEL_ID, &format!("{NEXT_ID},{upper}"), gameplay_layer(127, 0)));
    assert_eq!(e, format!("level 'test-level' lists successor '{upper}' twice"));
    let e = err(&map_with(LEVEL_ID, &LEVEL_ID.to_uppercase(), gameplay_layer(127, 0)));
    assert_eq!(e, "level 'test-level' lists itself as a successor");
}
