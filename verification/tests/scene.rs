use rocknrolla::scene::{open_svg, parse_scene, tile_for};
use rocknrolla::tiles::TileIds;

fn ids() -> TileIds {
    TileIds { empty: 0, solid: 1, slope_up: 2, slope_down: 3, lethal: 4, water: 7, fire: 8, heavy: 9, decor: 5, max: 11 }
}

#[test]
fn maps_authoring_characters_to_tile_ids() {
    let ids = ids();
    let pairs = [('.', 0u8), ('#', 1), ('/', 2), ('\\', 3), ('^', 4), ('~', 7), ('f', 8), ('H', 9), ('d', 5)];
    for (ch, id) in pairs {
        assert_eq!(tile_for(ch, &ids), Ok(id));
    }
    assert_eq!(tile_for('x', &ids), Err("unknown tile character 'x'".to_string()));
}

#[test]
fn parses_rows_into_a_row_major_grid() {
    let scene = parse_scene(64, true, &["..~H", "##~."], &ids()).unwrap();
    assert_eq!((scene.cell, scene.cols, scene.rows, scene.moss_top), (64, 4, 2, true));
    assert_eq!(scene.tiles, vec![0, 0, 7, 9, 1, 1, 7, 0]);
}

#[test]
fn rejects_empty_ragged_and_unknown_grids() {
    assert_eq!(parse_scene(64, true, &[], &ids()).unwrap_err(), "component has no rows");
    assert_eq!(parse_scene(64, true, &["", "#"], &ids()).unwrap_err(), "component has empty rows");
    assert_eq!(parse_scene(64, true, &["##", "#"], &ids()).unwrap_err(), "row 1 has 1 tiles, expected 2");
    assert_eq!(
        parse_scene(64, true, &["##", "#x"], &ids()).unwrap_err(),
        "row 1 column 1: unknown tile character 'x'"
    );
    assert_eq!(
        parse_scene(64, true, &["#?", "#"], &ids()).unwrap_err(),
        "row 0 column 1: unknown tile character '?'"
    );
}

#[test]
fn finds_merged_runs_per_row() {
    let ids = ids();
    let scene = parse_scene(64, true, &["..~H", "##~.", "#.##"], &ids).unwrap();
    let grid = scene.grid();
    assert_eq!(grid.runs(&grid.tile_mask(ids.solid)), vec![(0, 1, 2), (0, 2, 1), (2, 2, 2)]);
    assert_eq!(grid.runs(&grid.tile_mask(ids.water)), vec![(2, 0, 1), (2, 1, 1)]);
    assert_eq!(grid.runs(&grid.tile_mask(ids.fire)), vec![]);
    assert_eq!(grid.at(3, 0), ids.heavy);
    assert!(!grid.terrain_above(0, 1, &ids));
    assert!(grid.terrain_above(0, 2, &ids));
    assert!(!grid.terrain_above(0, 0, &ids));
}

#[test]
fn moss_caps_only_sky_facing_solid_cells() {
    let ids = ids();
    let scene = parse_scene(64, true, &["#./", "###"], &ids).unwrap();
    let grid = scene.grid();
    assert_eq!(grid.moss_mask(&ids), vec![true, false, false, false, true, false]);
    assert_eq!(grid.runs(&grid.moss_mask(&ids)), vec![(0, 0, 1), (1, 1, 1)]);
}

#[test]
fn opens_a_standalone_document() {
    assert_eq!(
        open_svg(256, 128),
        "<svg xmlns=\"http://www.w3.org/2000/svg\" width=\"256\" height=\"128\" viewBox=\"0 0 256 128\">"
    );
}
