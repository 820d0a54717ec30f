use rocknrolla::markers::{close_svg, push_markers};
use rocknrolla::scene::parse_scene;
use rocknrolla::tiles::TileIds;

fn ids() -> TileIds {
    TileIds { empty: 0, solid: 1, slope_up: 2, slope_down: 3, lethal: 4, water: 7, fire: 8, heavy: 9, decor: 5, max: 11 }
}

fn markers(rows: &[&str], cell: u32) -> String {
    let scene = parse_scene(cell, true, rows, &ids()).unwrap();
    let mut out = String::new();
    push_markers(&mut out, &scene.grid(), &ids(), cell);
    out
}

#[test]
fn renders_markers_and_merged_terrain() {
    let scene = parse_scene(64, true, &["..~H", "##~."], &ids()).unwrap();
    assert_eq!(scene.cols * scene.cell, 256);
    assert_eq!(scene.rows * scene.cell, 128);
    let svg = markers(&["..~H", "##~."], 64);
    assert!(svg.contains("data-t=\"1\" x=\"0\" y=\"64\" width=\"128\""), "{svg}");
    assert!(svg.contains("data-t=\"7\""));
    assert_eq!(svg.matches("data-t=\"9\"").count(), 1);
    assert_eq!(
        svg,
        [
            "<rect data-t=\"1\" x=\"0\" y=\"64\" width=\"128\" height=\"64\"/>",
            "<rect data-t=\"7\" x=\"128\" y=\"0\" width=\"64\" height=\"64\"/>",
            "<rect data-t=\"9\" x=\"192\" y=\"0\" width=\"64\" height=\"64\"/>",
            "<rect data-t=\"7\" x=\"128\" y=\"64\" width=\"64\" height=\"64\"/>",
        ].concat()
    );
}

#[test]
fn slopes_get_triangles_and_decor_gets_nothing() {
    assert_eq!(
        markers(&["/\\d"], 10),
        [
            "<polygon data-t=\"2\" points=\"0,10 10,10 10,0\"/>",
            "<polygon data-t=\"3\" points=\"10,0 20,10 10,10\"/>",
        ].concat()
    );
    assert_eq!(markers(&["d."], 64), "");
}

#[test]
fn solid_runs_split_at_gaps_and_rows() {
    assert_eq!(
        markers(&["##.#", "####"], 2),
        [
            "<rect data-t=\"1\" x=\"0\" y=\"0\" width=\"4\" height=\"2\"/>",
            "<rect data-t=\"1\" x=\"6\" y=\"0\" width=\"2\" height=\"2\"/>",
            "<rect data-t=\"1\" x=\"0\" y=\"2\" width=\"8\" height=\"2\"/>",
        ].concat()
    );
}

#[test]
fn decor_only_components_have_no_marker_group() {
    let marks = markers(&["d"], 64);
    let mut svg = "<svg>".to_string();
    close_svg(&mut svg, &marks);
    assert!(!svg.contains("visibility=\"hidden\""), "{svg}");
}

#[test]
fn closing_hides_markers_only_when_there_are_some() {
    let mut bare = "<svg>".to_string();
    close_svg(&mut bare, "");
    assert_eq!(bare, "<svg></svg>");
    let mut marked = "<svg>".to_string();
    close_svg(&mut marked, "<rect/>");
    assert_eq!(marked, "<svg><g visibility=\"hidden\"><rect/></g></svg>");
}
