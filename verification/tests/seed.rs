use rocknrolla::seed::{parse_seed, SeedCharacter, SeedContent, SeedDrop, SeedLootbox, SeedPiece};

const STONE: &str = "0195c8f1-0000-7000-8000-0000000000c1";
const CHIP: &str = "0195c8f1-0000-7000-8000-0000000000e1";
const CACHE: &str = "0195c8f1-0000-7000-8000-0000000000b1";
const MISSING: &str = "0195c8f1-0000-7000-8000-0000000000ff";

fn character(id: &str, starter: bool) -> SeedCharacter {
    SeedCharacter {
        id: id.to_string(),
        name: "Stone".to_string(),
        style: "#8a8f98".to_string(),
        rarity_weight: 100,
        density_bits: 0.004f32.to_bits(),
        jump_speed_bits: 11.0f32.to_bits(),
        flight_time_ms: 550,
        buoyancy_bits: 0.3f32.to_bits(),
        fire_resistance_bits: 0.9f32.to_bits(),
        starter,
    }
}

fn piece(id: &str, character_id: &str) -> SeedPiece {
    SeedPiece { id: id.to_string(), name: "Stone Chip A".to_string(), character_id: character_id.to_string() }
}

fn lootbox(id: &str, piece_id: &str, weight: u32) -> SeedLootbox {
    SeedLootbox {
        id: id.to_string(),
        name: "Trail Cache".to_string(),
        drops: vec![SeedDrop { piece_id: piece_id.to_string(), weight }],
    }
}

fn valid() -> SeedContent {
    SeedContent {
        characters: vec![character(STONE, true)],
        pieces: vec![piece(CHIP, STONE)],
        lootboxes: vec![lootbox(CACHE, CHIP, 10)],
    }
}

fn problem(content: SeedContent) -> String {
    match parse_seed(content) {
        Ok(_) => panic!("seed content was accepted"),
        Err(e) => e,
    }
}

#[test]
fn parses_valid_seed() {
    let content = match parse_seed(valid()) {
        Ok(c) => c,
        Err(e) => panic!("{e}"),
    };
    assert_eq!(content.characters.len(), 1);
    assert_eq!(content.lootboxes[0].drops[0].weight, 10);
}

#[test]
fn rejects_non_uuid_ids() {
    let mut broken = valid();
    broken.characters[0].id = "stone".to_string();
    broken.pieces[0].character_id = "stone".to_string();
    assert!(problem(broken).contains("not a valid UUID"));
}

#[test]
fn rejects_unknown_references() {
    let mut broken = valid();
    broken.pieces[0].character_id = MISSING.to_string();
    assert!(problem(broken).contains("unknown character"));
    let mut broken = valid();
    broken.lootboxes[0].drops[0].piece_id = MISSING.to_string();
    assert!(problem(broken).contains("unknown piece"));
}

#[test]
fn rejects_zero_weight_and_missing_starter() {
    let mut broken = valid();
    broken.lootboxes[0].drops[0].weight = 0;
    assert!(problem(broken).contains("zero weight"));
    let mut broken = valid();
    broken.characters[0].starter = false;
    assert!(problem(broken).contains("starter"));
}

#[test]
fn reports_exact_seed_problems() {
    let mut broken = valid();
    broken.characters.push(character(STONE, false));
    assert_eq!(problem(broken), format!("duplicate character id '{STONE}'"));
    let mut broken = valid();
    broken.characters[0].rarity_weight = 0;
    assert_eq!(problem(broken), format!("character '{STONE}' has zero rarity_weight"));
    let mut broken = valid();
    broken.pieces.push(piece(CHIP, STONE));
    assert_eq!(problem(broken), format!("duplicate piece id '{CHIP}'"));
    let mut broken = valid();
    broken.lootboxes.push(lootbox(CACHE, CHIP, 1));
    assert_eq!(problem(broken), format!("duplicate lootbox id '{CACHE}'"));
    let mut broken = valid();
    broken.lootboxes[0].drops.clear();
    assert_eq!(problem(broken), format!("lootbox '{CACHE}' has no drops"));
    let mut broken = valid();
    broken.lootboxes[0].id = "cache".to_string();
    assert_eq!(problem(broken), "lootbox id 'cache' is not a valid UUID");
    let mut broken = valid();
    broken.pieces[0].id = "chip".to_string();
    assert_eq!(problem(broken), "piece id 'chip' is not a valid UUID");
}

#[test]
fn density_must_compare_above_zero() {
    for density in [0.0f32, -0.0, -1.5, f32::NEG_INFINITY] {
        let mut broken = valid();
        broken.characters[0].density_bits = density.to_bits();
        assert_eq!(problem(broken), format!("character '{STONE}' needs a positive density"));
    }
    for density in [f32::MIN_POSITIVE, 1.0e-45, 7.5, f32::INFINITY, f32::NAN] {
        let mut ok = valid();
        ok.characters[0].density_bits = density.to_bits();
        assert!(parse_seed(ok).is_ok());
    }
}
