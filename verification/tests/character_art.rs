use rocknrolla::character_art::{pair_art, ArtBody};
use rocknrolla::seed::SeedCharacter;

const BODY: &str = r#"<svg xmlns="http://www.w3.org/2000/svg" width="120" height="120" viewBox="0 0 120 120"><defs><radialGradient id="g"/></defs><circle cx="60" cy="60" r="50" fill="url(#g)"/></svg>"#;

fn seed_character(style: &str) -> SeedCharacter {
    SeedCharacter {
        id: "0195c8f1-0000-7000-8000-0000000000c1".to_string(),
        name: "Rocky".to_string(),
        style: style.to_string(),
        rarity_weight: 100,
        density_bits: 0.004f32.to_bits(),
        jump_speed_bits: 10.0f32.to_bits(),
        flight_time_ms: 300,
        buoyancy_bits: 0.3f32.to_bits(),
        fire_resistance_bits: 0.5f32.to_bits(),
        starter: true,
    }
}

fn body(style: &str) -> ArtBody {
    ArtBody { style: style.to_string(), svg: BODY.to_string(), width_px: 120, height_px: 120 }
}

#[test]
fn pairs_art_with_seed_styles_and_hashes_the_silhouette() {
    let art = pair_art(&[body("rock")], &[seed_character("rock")]).unwrap();
    assert_eq!(art.len(), 1);
    assert_eq!(art[0].style, "rock");
    assert_eq!(art[0].character_id, "0195c8f1-0000-7000-8000-0000000000c1");
    assert_ne!(art[0].silhouette_svg, BODY);
    assert_eq!(art[0].silhouette_slug, "rock-silhouette");
    assert_eq!((art[0].width_px, art[0].height_px), (120, 120));
    assert!(art[0].silhouette_svg.contains(r#"</defs><g filter="url(#sil)">"#));
}

#[test]
fn rejects_orphan_files_and_missing_art() {
    let err = pair_art(&[body("rock")], &[seed_character("pebble")]).unwrap_err();
    assert!(err.contains("matches no seed character"), "{err}");

    let err = pair_art(&[body("pebble")], &[seed_character("pebble"), seed_character("rock")]).unwrap_err();
    assert!(err.contains("has no art file"), "{err}");
}

#[test]
fn reports_exact_pairing_problems_bodies_first() {
    let err = pair_art(&[body("rock")], &[seed_character("pebble")]).unwrap_err();
    assert_eq!(err, "character art 'rock.svg' matches no seed character style");
    let err = pair_art(&[body("pebble")], &[seed_character("pebble"), seed_character("rock")]).unwrap_err();
    assert_eq!(err, "seed character 'Rocky' (style 'rock') has no art file");
    let bare = ArtBody { style: "rock".to_string(), svg: "<svg></svg>".to_string(), width_px: 1, height_px: 1 };
    let err = pair_art(&[bare], &[seed_character("rock")]).unwrap_err();
    assert!(err.starts_with("character 'rock'"), "{err}");
}

#[test]
fn rejects_two_art_files_for_one_character() {
    let err = pair_art(&[body("rock"), body("rock")], &[seed_character("rock")]).unwrap_err();
    assert_eq!(err, "seed character 'Rocky' (style 'rock') has several art files");
}
