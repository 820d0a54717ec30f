use rocknrolla::level_source::{parse_level, reject_duplicate_levels, ComponentSize, LevelSource, PlacementSource};
use rocknrolla::repository::level::Vec2;

const LEVEL_ID: &str = "0195c8f1-0000-7000-8000-000000000001";
const NEXT_ID: &str = "0195c8f1-0000-7000-8000-000000000002";

fn components() -> Vec<ComponentSize> {
    vec![
        ComponentSize { slug: "ground-flat".to_string(), width_px: 512, height_px: 128 },
        ComponentSize { slug: "spikes".to_string(), width_px: 64, height_px: 128 },
        ComponentSize { slug: "bush-cluster".to_string(), width_px: 64, height_px: 64 },
    ]
}

fn backdrops() -> Vec<String> {
    vec!["dusk".to_string()]
}

fn placement(component: &str, x: u16, y: u16) -> PlacementSource {
    PlacementSource { component: component.to_string(), x, y, z: 0, flip_x: false, scale_bits: 1.0f32.to_bits() }
}

fn sample() -> LevelSource {
    LevelSource {
        id: LEVEL_ID.to_string(),
        slug: "test-level".to_string(),
        name: "Test Level".to_string(),
        backdrop: "dusk".to_string(),
        starting: true,
        active: true,
        reward_lootbox_id: None,
        successors: vec![NEXT_ID.to_string()],
        spawn: Vec2 { x: 64, y: 32 },
        finish: Vec2 { x: 900, y: 80 },
        placements: vec![
            placement("ground-flat", 0, 128),
            placement("ground-flat", 512, 128),
            PlacementSource {
                component: "bush-cluster".to_string(),
                x: 100,
                y: 64,
                z: -40,
                flip_x: true,
                scale_bits: 1.5f32.to_bits(),
            },
        ],
    }
}

fn problem(src: LevelSource) -> String {
    parse_level(src, &components(), &backdrops()).unwrap_err()
}

#[test]
fn parses_a_valid_level() {
    let level = parse_level(sample(), &components(), &backdrops()).unwrap();
    assert_eq!(level.id, LEVEL_ID);
    assert_eq!(level.slug, "test-level");
    assert!(level.is_starting);
    assert_eq!(level.successors, vec![NEXT_ID]);
    assert_eq!(level.backdrop_slug, "dusk");
    assert_eq!(level.spawn, Vec2 { x: 64, y: 32 });
    assert_eq!(level.placements.len(), 3);
    let decor = &level.placements[2];
    assert!(decor.flip_x);
    assert_eq!(decor.position.z, -40);
    assert_eq!(f32::from_bits(decor.scale_bits), 1.5);
}

#[test]
fn rejects_unknown_components_and_bad_ids() {
    let mut src = sample();
    src.id = "tutorial-hill".to_string();
    let err = problem(src);
    assert!(err.contains("not a valid UUID"), "{err}");

    let mut src = sample();
    for p in src.placements.iter_mut() {
        if p.component == "ground-flat" {
            p.component = "no-such".to_string();
        }
    }
    let err = problem(src);
    assert!(err.contains("unknown component"), "{err}");
}

#[test]
fn rejects_missing_and_unknown_backdrops() {
    let mut src = sample();
    src.backdrop = String::new();
    let err = problem(src);
    assert!(err.contains("backdrop"), "{err}");

    let mut src = sample();
    src.backdrop = "noon".to_string();
    let err = problem(src);
    assert!(err.contains("unknown backdrop 'noon'"), "{err}");
}

#[test]
fn rejects_out_of_bounds_spawn_and_self_successor() {
    let mut src = sample();
    src.successors = vec![LEVEL_ID.to_string()];
    let err = problem(src);
    assert!(err.contains("itself"), "{err}");
}

#[test]
fn resolves_component_sizes_and_reports_exact_problems() {
    let level = parse_level(sample(), &components(), &backdrops()).unwrap();
    assert_eq!((level.placements[0].component_width_px, level.placements[0].component_height_px), (512, 128));
    assert_eq!((level.placements[2].component_width_px, level.placements[2].component_height_px), (64, 64));

    let mut src = sample();
    src.slug = String::new();
    assert_eq!(problem(src), "level is missing the 'slug' property");
    let mut src = sample();
    src.id = String::new();
    assert_eq!(problem(src), "level is missing the 'id' property");
    let mut src = sample();
    src.name = String::new();
    assert_eq!(problem(src), "level is missing the 'name' property");
    let mut src = sample();
    src.backdrop = String::new();
    assert_eq!(problem(src), "level 'test-level' is missing the 'backdrop' property");
    let mut src = sample();
    src.placements.push(placement("no-such", 0, 0));
    assert_eq!(problem(src), "level 'test-level' places unknown component 'no-such'");
    let mut src = sample();
    src.reward_lootbox_id = Some("crate".to_string());
    assert_eq!(problem(src), "reward_lootbox_id 'crate' is not a valid UUID");
    let mut src = sample();
    src.reward_lootbox_id = Some(String::new());
    assert_eq!(parse_level(src, &components(), &backdrops()).unwrap().reward_lootbox_id, None);
    let mut src = sample();
    src.successors = vec![NEXT_ID.to_string(), NEXT_ID.to_string()];
    assert_eq!(problem(src), format!("level 'test-level' lists successor '{NEXT_ID}' twice"));
}

#[test]
fn the_last_component_with_a_slug_gives_its_size() {
    let mut library = components();
    library.push(ComponentSize { slug: "ground-flat".to_string(), width_px: 256, height_px: 64 });
    let level = parse_level(sample(), &library, &backdrops()).unwrap();
    assert_eq!(level.placements[0].component_width_px, 256);
}

#[test]
fn duplicate_levels_are_refused_by_id_ignoring_case_then_by_slug() {
    let first = parse_level(sample(), &components(), &backdrops()).unwrap();
    let mut other = sample();
    other.id = "0195c8f1-0000-7000-8000-00000000000a".to_string();
    other.slug = "other-level".to_string();
    other.successors.clear();
    let second = parse_level(other, &components(), &backdrops()).unwrap();
    assert!(reject_duplicate_levels(&[first, second]).is_ok());

    let first = parse_level(sample(), &components(), &backdrops()).unwrap();
    let mut upper = sample();
    upper.id = LEVEL_ID.to_uppercase();
    upper.slug = "renamed".to_string();
    upper.successors.clear();
    let second = parse_level(upper, &components(), &backdrops()).unwrap();
    assert_eq!(
        reject_duplicate_levels(&[first, second]).unwrap_err(),
        format!("duplicate level id '{}'", LEVEL_ID.to_uppercase())
    );

    let first = parse_level(sample(), &components(), &backdrops()).unwrap();
    let mut same_slug = sample();
    same_slug.id = "0195c8f1-0000-7000-8000-00000000000b".to_string();
    same_slug.successors.clear();
    let second = parse_level(same_slug, &components(), &backdrops()).unwrap();
    assert_eq!(reject_duplicate_levels(&[first, second]).unwrap_err(), "duplicate level slug 'test-level'");
}
