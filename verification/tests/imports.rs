use rocknrolla::error::ServiceError;
use rocknrolla::ids::{Identity, Uuid};
use rocknrolla::repository::character::{CharacterArtImportV1, CharacterDef, FaceImportV1};
use rocknrolla::repository::component::{BackdropImportV1, BackdropLayerV1, ComponentImportV1};
use rocknrolla::repository::level::{PlacementImportV1, Vec2, Vec3};
use rocknrolla::repository::views::{vw_backdrop_v1, vw_character_art_v1, vw_face_v1};
use rocknrolla::repository::Database;

fn owned_db() -> (Database, Identity) {
    let owner = Identity::from_u128(1);
    let mut db = Database::new(100);
    db.init(owner);
    (db, owner)
}

fn component(slug: &str) -> ComponentImportV1 {
    ComponentImportV1 {
        slug: slug.to_string(),
        width_px: 64,
        height_px: 32,
        content_hash: "h".to_string(),
        data: vec![1, 2, 3],
    }
}

fn layer() -> BackdropLayerV1 {
    BackdropLayerV1 { width_px: 10, height_px: 10, content_hash: "h".to_string(), data: vec![7] }
}

fn backdrop(slug: &str) -> BackdropImportV1 {
    BackdropImportV1 { slug: slug.to_string(), sky: layer(), far: layer(), mid: layer() }
}

fn refused(message: &str) -> Result<(), ServiceError> {
    Err(ServiceError::Validation { message: message.to_string() })
}

#[test]
fn component_imports_keep_their_uuid_across_overwrites() {
    let (mut db, owner) = owned_db();
    let err = db.import_component(Identity::from_u128(9), component("rock"), Ok(())).unwrap_err();
    assert_eq!(err.message(), "only the module owner may import content");
    let err = db.import_component(owner, component(""), Ok(())).unwrap_err();
    assert_eq!(err.message(), "'slug' is required");
    let verdict = "component 'rock' has no svg wrapper";
    assert_eq!(db.import_component(owner, component("rock"), refused(verdict)), refused(verdict));
    assert!(db.components.components.is_empty());
    db.import_component(owner, component("rock"), Ok(())).unwrap();
    db.import_component(owner, component("rock"), Ok(())).unwrap();
    assert_eq!(db.components.components.len(), 1);
    assert_eq!(db.components.components[0].id, Uuid::from_u128(100));
    assert_eq!(db.ids.next, 101);
}

#[test]
fn character_art_must_be_body_or_silhouette_of_a_known_character() {
    let (mut db, owner) = owned_db();
    let art = |kind: &str| CharacterArtImportV1 {
        character_id: Uuid::from_u128(5),
        kind: kind.to_string(),
        width_px: 10,
        height_px: 20,
        content_hash: "h".to_string(),
        data: vec![1],
    };
    let err = db.import_character_art_v1(owner, art("face"), Ok(())).unwrap_err();
    assert_eq!(err.message(), "character art kind must be 'body' or 'silhouette', got 'face'");
    let err = db.import_character_art_v1(owner, art("body"), Ok(())).unwrap_err();
    assert!(matches!(err, ServiceError::NotFound { .. }));
    db.characters
        .import_character(CharacterDef {
            id: Uuid::from_u128(5),
            name: "Pebble".to_string(),
            style: "round".to_string(),
            rarity_weight: 1,
            density_bits: 0x3f00_0000,
            jump_speed_bits: 0,
            flight_time_ms: 0,
            buoyancy_bits: 0,
            fire_resistance_bits: 0,
            starter: true,
        })
        .unwrap();
    let verdict = "character art is not an svg";
    assert_eq!(db.import_character_art_v1(owner, art("body"), refused(verdict)), refused(verdict));
    db.import_character_art_v1(owner, art("body"), Ok(())).unwrap();
    db.import_character_art_v1(owner, art("silhouette"), Ok(())).unwrap();
    db.import_character_art_v1(owner, art("body"), Ok(())).unwrap();
    assert_eq!(db.characters.art.len(), 2);
    assert_eq!(db.characters.art[0].id, Uuid::from_u128(100));
    assert_eq!(db.characters.art[0].kind, "body");
    assert_eq!(db.ids.next, 102);
}

#[test]
fn faces_are_keyed_by_slug() {
    let (mut db, owner) = owned_db();
    let face = |slug: &str| FaceImportV1 {
        slug: slug.to_string(),
        width_px: 4,
        height_px: 4,
        content_hash: "h".to_string(),
        data: vec![],
    };
    let err = db.import_face_v1(owner, face(&"f".repeat(65)), Ok(())).unwrap_err();
    assert_eq!(err.message(), "'slug' must be at most 64 bytes");
    db.import_face_v1(owner, face("grin"), Ok(())).unwrap();
    db.import_face_v1(owner, face("frown"), Ok(())).unwrap();
    db.import_face_v1(owner, face("grin"), Ok(())).unwrap();
    assert_eq!(db.characters.faces.len(), 2);
    assert_eq!(db.characters.faces[0].id, Uuid::from_u128(100));
}

#[test]
fn backdrop_layers_are_checked_sky_far_mid() {
    let (mut db, owner) = owned_db();
    let got = db.import_backdrop_v1(owner, backdrop("dusk"), Ok(()), refused("far"), refused("mid"));
    assert_eq!(got, refused("far"));
    let got = db.import_backdrop_v1(owner, backdrop("dusk"), refused("sky"), refused("far"), refused("mid"));
    assert_eq!(got, refused("sky"));
    let got = db.import_backdrop_v1(owner, backdrop("dusk"), Ok(()), Ok(()), refused("mid"));
    assert_eq!(got, refused("mid"));
    assert!(db.backdrops.backdrops.is_empty());
    db.import_backdrop_v1(owner, backdrop("dusk"), Ok(()), Ok(()), Ok(())).unwrap();
    assert_eq!(db.backdrops.backdrops.len(), 1);
    let first = db.backdrops.backdrops[0].id;
    db.import_backdrop_v1(owner, backdrop("dusk"), Ok(()), Ok(()), Ok(())).unwrap();
    assert_eq!(db.backdrops.backdrops.len(), 1);
    assert_eq!(db.backdrops.backdrops[0].id, first);
    assert_eq!(db.backdrops.backdrops[0].slug, "dusk");
    assert_eq!(db.backdrops.backdrops[0].sky.data, vec![7]);
    assert_eq!(db.ids.next, 101);
}

#[test]
fn level_imports_check_the_caller_and_texts_first() {
    let (mut db, owner) = owned_db();
    db.import_component(owner, component("rock"), Ok(())).unwrap();
    db.import_backdrop_v1(owner, backdrop("dusk"), Ok(()), Ok(()), Ok(())).unwrap();
    let placements = || {
        vec![PlacementImportV1 {
            component_slug: "rock".to_string(),
            position: Vec3 { x: 3, y: 4, z: 0 },
            flip_x: false,
            scale_bits: 0x3f80_0000,
        }]
    };
    let spot = Vec2 { x: 1, y: 1 };
    let import = |db: &mut Database, sender: Identity, slug: &str, name: &str, backdrop: &str| {
        db.import_level_v1(
            sender,
            Uuid::from_u128(7),
            slug.to_string(),
            name.to_string(),
            true,
            true,
            None,
            vec![Uuid::from_u128(8)],
            backdrop.to_string(),
            spot,
            spot,
            placements(),
            Ok(()),
        )
    };
    let err = import(&mut db, Identity::from_u128(2), "meadow", "Meadow", "dusk").unwrap_err();
    assert_eq!(err.message(), "only the module owner may import content");
    let err = import(&mut db, owner, "", "Meadow", "dusk").unwrap_err();
    assert_eq!(err.message(), "'slug' is required");
    let err = import(&mut db, owner, "meadow", "", "dusk").unwrap_err();
    assert_eq!(err.message(), "'name' is required");
    let err = import(&mut db, owner, "meadow", "Meadow", "").unwrap_err();
    assert_eq!(err.message(), "'backdrop_slug' is required");
    assert!(db.levels.levels.is_empty());
    import(&mut db, owner, "meadow", "Meadow", "dusk").unwrap();
    assert_eq!(db.levels.levels.len(), 1);
    assert_eq!(db.levels.placements.len(), 1);
    assert_eq!(db.levels.successors.len(), 1);
    assert_eq!(db.levels.levels[0].backdrop_id, db.backdrops.backdrops[0].id);
}

fn import_character(
    db: &mut Database,
    owner: Identity,
    name: &str,
    rarity: u32,
    density: f32,
    jump: f32,
    buoyancy: f32,
    fire: f32,
) -> Result<(), ServiceError> {
    db.import_character_v1(
        owner,
        Uuid::from_u128(5),
        name.to_string(),
        "round".to_string(),
        rarity,
        density.to_bits(),
        jump.to_bits(),
        250,
        buoyancy.to_bits(),
        fire.to_bits(),
        true,
    )
}

#[test]
fn character_imports_check_texts_weights_and_tuning_ranges() {
    let (mut db, owner) = owned_db();
    let message = |r: Result<(), ServiceError>| r.unwrap_err().message().clone();
    let err = import_character(&mut db, Identity::from_u128(2), "Pebble", 1, 0.5, 10.0, 1.0, 0.5);
    assert_eq!(message(err), "only the module owner may import content");
    assert_eq!(message(import_character(&mut db, owner, "", 1, 0.5, 10.0, 1.0, 0.5)), "'name' is required");
    assert_eq!(
        message(import_character(&mut db, owner, "Pebble", 0, 0.5, 10.0, 1.0, 0.5)),
        "'rarity_weight' must be positive"
    );
    assert_eq!(
        message(import_character(&mut db, owner, "Pebble", 1, 0.0, 10.0, 1.0, 0.5)),
        format!("'density' must be between {} and {}", f32::MIN_POSITIVE, 1.0f32)
    );
    assert_eq!(
        message(import_character(&mut db, owner, "Pebble", 1, 0.5, f32::NAN, 1.0, 0.5)),
        "'jump_speed' must be finite"
    );
    assert_eq!(
        message(import_character(&mut db, owner, "Pebble", 1, 0.5, 100.5, 1.0, 0.5)),
        format!("'jump_speed' must be between {} and {}", 0.0f32, 100.0f32)
    );
    assert_eq!(
        message(import_character(&mut db, owner, "Pebble", 1, 0.5, 10.0, -0.1, 0.5)),
        "'buoyancy' must be between 0 and 10"
    );
    assert_eq!(
        message(import_character(&mut db, owner, "Pebble", 1, 0.5, 10.0, 1.0, f32::INFINITY)),
        "'fire_resistance' must be finite"
    );
    assert_eq!(
        message(import_character(&mut db, owner, "Pebble", 1, 0.5, 10.0, 1.0, 1.01)),
        "'fire_resistance' must be between 0 and 1"
    );
    assert!(db.characters.characters.is_empty());
    import_character(&mut db, owner, "Pebble", 1, 1.0, 100.0, -0.0, 0.0).unwrap();
    assert_eq!(db.characters.characters.len(), 1);
    assert_eq!(db.characters.characters[0].density_bits, 1.0f32.to_bits());
    assert_eq!(db.characters.characters[0].buoyancy_bits, (-0.0f32).to_bits());
}

#[test]
fn asset_views_copy_every_imported_blob() {
    let (mut db, owner) = owned_db();
    db.characters.import_character(character_def()).unwrap();
    let art = CharacterArtImportV1 {
        character_id: Uuid::from_u128(5),
        kind: "silhouette".to_string(),
        width_px: 10,
        height_px: 20,
        content_hash: "sil".to_string(),
        data: vec![9, 8],
    };
    db.import_character_art_v1(owner, art, Ok(())).unwrap();
    let face = FaceImportV1 { slug: "grin".to_string(), width_px: 4, height_px: 5, content_hash: "g".to_string(), data: vec![1] };
    db.import_face_v1(owner, face, Ok(())).unwrap();
    db.import_backdrop_v1(owner, backdrop("dusk"), Ok(()), Ok(()), Ok(())).unwrap();

    let arts = vw_character_art_v1(&db.characters);
    assert_eq!(arts.len(), 1);
    assert_eq!((arts[0].kind.as_str(), arts[0].width_px, arts[0].height_px), ("silhouette", 10, 20));
    assert_eq!((arts[0].content_hash.as_str(), arts[0].data.clone()), ("sil", vec![9, 8]));
    let faces = vw_face_v1(&db.characters);
    assert_eq!((faces[0].slug.as_str(), faces[0].data.clone()), ("grin", vec![1]));
    assert_eq!(faces[0].id, db.characters.faces[0].id);
    let backdrops = vw_backdrop_v1(&db.backdrops);
    assert_eq!(backdrops[0].slug, "dusk");
    assert_eq!(backdrops[0].mid.data, vec![7]);
}

fn character_def() -> CharacterDef {
    CharacterDef {
        id: Uuid::from_u128(5),
        name: "Pebble".to_string(),
        style: "round".to_string(),
        rarity_weight: 1,
        density_bits: 0x3f00_0000,
        jump_speed_bits: 0,
        flight_time_ms: 0,
        buoyancy_bits: 0,
        fire_resistance_bits: 0,
        starter: true,
    }
}
