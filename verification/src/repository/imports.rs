//! The content import requests: each checks its caller and its
//! parameters, then hands the request to one service.

use crate::error::{ServiceError, ServiceResult};
use crate::ids::{Identity, Uuid};
use crate::repository::character::{art_imported, face_imported, CharacterArtImportV1, CharacterDef, FaceImportV1};
use crate::repository::component::{backdrop_imported, component_imported, BackdropImportV1, ComponentImportV1};
use crate::repository::level::{level_imported, LevelImport, PlacementImportV1, Vec2};
use crate::repository::{import_refusal, may_import, text_refusal, valid_text, Database};
use crate::repository::table::upsert;
use crate::text::{append_str, decimal, same_text};
use crate::validate::{f32_finite, f32_lt, validate_f32_range, validate_positive_u32, validate_required_str};
use crate::repository::character::{art_is, face_slug_is, first_where};
use crate::repository::component::{backdrop_slug_is, component_slug_is};
use crate::repository::keys::{
    keys_fresh, lemma_art_import_keys, lemma_backdrop_import_keys, lemma_component_import_keys, lemma_face_import_keys,
};
use vstd::prelude::*;

verus! {

/// Whether `kind` names a kind of character art.
pub open spec fn is_art_kind(kind: Seq<char>) -> bool {
    kind == "body"@ || kind == "silhouette"@
}

/// The refusal of character art of an unknown kind.
pub open spec fn is_bad_art_kind(e: ServiceError, kind: Seq<char>) -> bool {
    e matches ServiceError::Validation { message } && message@ == "character art kind must be 'body' or 'silhouette', got '"@
        + kind + "'"@
}

/// Whether the two databases hold the same tables but for the character
/// art, face, component, backdrop and level tables and the UUID source.
pub open spec fn same_but_content(a: Database, b: Database) -> bool {
    &&& a.owner == b.owner
    &&& a.characters.characters@ == b.characters.characters@
    &&& a.characters.pieces@ == b.characters.pieces@
    &&& a.players == b.players
    &&& a.lootboxes == b.lootboxes
    &&& a.progression == b.progression
}

/// The printed form of the smallest positive normal binary32 value.
pub const MIN_POSITIVE_TEXT: &'static str = "0.000000000000000000000000000000000000011754944";

/// Why a required text `s` named `field` of at most `max` bytes is
/// refused, if it is.
pub open spec fn text_problem(field: Seq<char>, s: Seq<char>, max: nat) -> Option<Seq<char>> {
    if valid_text(s, max) {
        None
    } else if s.len() == 0 {
        Some("'"@ + field + "' is required"@)
    } else {
        Some("'"@ + field + "' must be at most "@ + decimal(max) + " bytes"@)
    }
}

/// Why a binary32 value (bit pattern `v`) named `field` is refused for the
/// inclusive range `min` to `max` printed as `min_text` and `max_text`, if
/// it is.
pub open spec fn range_problem(
    field: Seq<char>,
    v: u32,
    min: u32,
    max: u32,
    min_text: Seq<char>,
    max_text: Seq<char>,
) -> Option<Seq<char>> {
    if !f32_finite(v) {
        Some("'"@ + field + "' must be finite"@)
    } else if f32_lt(v, min) || f32_lt(max, v) {
        Some("'"@ + field + "' must be between "@ + min_text + " and "@ + max_text)
    } else {
        None
    }
}

/// The first of two possible problems.
pub open spec fn either(a: Option<Seq<char>>, b: Option<Seq<char>>) -> Option<Seq<char>> {
    if a is Some {
        a
    } else {
        b
    }
}

/// Why a character definition is refused, if it is: the name and style
/// are required texts of at most 128 bytes, the rarity weight is positive,
/// and the density lies in [smallest positive normal, 1], the jump speed in
/// [0, 100], the buoyancy in [0, 10] and the fire resistance in [0, 1],
/// checked in that order.
pub open spec fn character_problem(
    name: Seq<char>,
    style: Seq<char>,
    rarity_weight: u32,
    density_bits: u32,
    jump_speed_bits: u32,
    buoyancy_bits: u32,
    fire_resistance_bits: u32,
) -> Option<Seq<char>> {
    either(
        text_problem("name"@, name, 128),
        either(
            text_problem("style"@, style, 128),
            either(
                if rarity_weight == 0 {
                    Some("'"@ + "rarity_weight"@ + "' must be positive"@)
                } else {
                    None
                },
                either(
                    range_problem("density"@, density_bits, 0x0080_0000, 0x3f80_0000, MIN_POSITIVE_TEXT@, "1"@),
                    either(
                        range_problem("jump_speed"@, jump_speed_bits, 0, 0x42c8_0000, "0"@, "100"@),
                        either(
                            range_problem("buoyancy"@, buoyancy_bits, 0, 0x4120_0000, "0"@, "10"@),
                            range_problem("fire_resistance"@, fire_resistance_bits, 0, 0x3f80_0000, "0"@, "1"@),
                        ),
                    ),
                ),
            ),
        ),
    )
}

/// Whether the two databases differ at most in the character definitions.
pub open spec fn same_but_characters(a: Database, b: Database) -> bool {
    &&& a.owner == b.owner
    &&& a.characters.pieces@ == b.characters.pieces@
    &&& a.characters.art@ == b.characters.art@
    &&& a.characters.faces@ == b.characters.faces@
    &&& a.players == b.players
    &&& a.lootboxes == b.lootboxes
    &&& a.levels == b.levels
    &&& a.progression == b.progression
    &&& a.components == b.components
    &&& a.backdrops == b.backdrops
    &&& a.ids == b.ids
}

impl Database {
    /// Import one character definition. Module owner only; then the first
    /// of `character_problem` refuses it. The tuning values are binary32 bit
    /// patterns. A refused import changes nothing.
    pub fn import_character_v1(
        &mut self,
        sender: Identity,
        id: Uuid,
        name: String,
        style: String,
        rarity_weight: u32,
        density_bits: u32,
        jump_speed_bits: u32,
        flight_time_ms: u32,
        buoyancy_bits: u32,
        fire_resistance_bits: u32,
        starter: bool,
    ) -> (res: ServiceResult<()>)
        ensures
            !may_import(*old(self), sender) ==> res is Err && import_refusal(*old(self), sender, res->Err_0)
                && *final(self) == *old(self),
            may_import(*old(self), sender) ==> match character_problem(
                name@,
                style@,
                rarity_weight,
                density_bits,
                jump_speed_bits,
                buoyancy_bits,
                fire_resistance_bits,
            ) {
                Some(m) => (res matches Err(ServiceError::Validation { message }) && message@ == m) && *final(self)
                    == *old(self),
                None => res is Ok && final(self).characters.characters@ == upsert(
                    old(self).characters.characters@,
                    CharacterDef {
                        id,
                        name,
                        style,
                        rarity_weight,
                        density_bits,
                        jump_speed_bits,
                        flight_time_ms,
                        buoyancy_bits,
                        fire_resistance_bits,
                        starter,
                    },
                ),
            },
            same_but_characters(*old(self), *final(self)),
            keys_fresh(*old(self)) ==> keys_fresh(*final(self)),
    {
        self.owner.require_module_owner(sender)?;
        validate_required_str(name.as_str(), "name", 128)?;
        validate_required_str(style.as_str(), "style", 128)?;
        validate_positive_u32(rarity_weight, "rarity_weight")?;
        validate_f32_range(density_bits, "density", 0x0080_0000, 0x3f80_0000, MIN_POSITIVE_TEXT, "1")?;
        validate_f32_range(jump_speed_bits, "jump_speed", 0, 0x42c8_0000, "0", "100")?;
        validate_f32_range(buoyancy_bits, "buoyancy", 0, 0x4120_0000, "0", "10")?;
        validate_f32_range(fire_resistance_bits, "fire_resistance", 0, 0x3f80_0000, "0", "1")?;
        self.characters.import_character(
            CharacterDef {
                id,
                name,
                style,
                rarity_weight,
                density_bits,
                jump_speed_bits,
                flight_time_ms,
                buoyancy_bits,
                fire_resistance_bits,
                starter,
            },
        )
    }

    /// Import one component. Module owner only; the slug must be 1 to 64
    /// bytes; `validity` is the shared component check's verdict on it. A
    /// refused import changes nothing.
    pub fn import_component(&mut self, sender: Identity, component: ComponentImportV1, validity: ServiceResult<()>) -> (res:
        ServiceResult<()>)
        ensures
            !may_import(*old(self), sender) ==> res is Err && import_refusal(*old(self), sender, res->Err_0)
                && *final(self) == *old(self),
            may_import(*old(self), sender) && !valid_text(component.slug@, 64) ==> res is Err && text_refusal(
                res->Err_0,
                "slug"@,
                component.slug@,
                64,
            ) && *final(self) == *old(self),
            may_import(*old(self), sender) && valid_text(component.slug@, 64) ==> component_imported(
                old(self).components.components@,
                final(self).components.components@,
                old(self).ids.next,
                final(self).ids.next,
                component,
                validity,
                res,
            ),
            same_but_content(*old(self), *final(self)),
            final(self).characters == old(self).characters,
            final(self).levels == old(self).levels,
            final(self).backdrops == old(self).backdrops,
            keys_fresh(*old(self)) ==> keys_fresh(*final(self)),
            keys_fresh(*old(self)) && res is Ok && first_where(
                old(self).components.components@,
                component_slug_is(component.slug@),
            ) is None ==> final(self).components.components@.len() == old(self).components.components@.len() + 1
                && final(self).components.components@.drop_last() == old(self).components.components@,
    {
        self.owner.require_module_owner(sender)?;
        validate_required_str(component.slug.as_str(), "slug", 64)?;
        let ghost import = component;
        let r = self.components.import_component(&mut self.ids, component, validity);
        proof {
            if keys_fresh(*old(self)) {
                lemma_component_import_keys(
                    old(self).components.components@,
                    self.components.components@,
                    old(self).ids.next,
                    self.ids.next,
                    import,
                    validity,
                    r,
                );
            }
        }
        r
    }

    /// Import one character art blob. Module owner only; the kind must be
    /// "body" or "silhouette"; `asset` is the shared SVG asset check's
    /// verdict on the blob. A refused import changes nothing.
    pub fn import_character_art_v1(&mut self, sender: Identity, art: CharacterArtImportV1, asset: ServiceResult<()>) -> (res:
        ServiceResult<()>)
        ensures
            !may_import(*old(self), sender) ==> res is Err && import_refusal(*old(self), sender, res->Err_0)
                && *final(self) == *old(self),
            may_import(*old(self), sender) && !is_art_kind(art.kind@) ==> res is Err && is_bad_art_kind(
                res->Err_0,
                art.kind@,
            ) && *final(self) == *old(self),
            may_import(*old(self), sender) && is_art_kind(art.kind@) && asset is Err ==> res == asset
                && *final(self) == *old(self),
            may_import(*old(self), sender) && is_art_kind(art.kind@) && asset is Ok ==> art_imported(
                old(self).characters,
                final(self).characters.art@,
                old(self).ids.next,
                final(self).ids.next,
                art,
                res,
            ),
            same_but_content(*old(self), *final(self)),
            final(self).characters.faces@ == old(self).characters.faces@,
            final(self).components == old(self).components,
            final(self).levels == old(self).levels,
            final(self).backdrops == old(self).backdrops,
            keys_fresh(*old(self)) ==> keys_fresh(*final(self)),
            keys_fresh(*old(self)) && res is Ok && first_where(
                old(self).characters.art@,
                art_is(art.character_id, art.kind@),
            ) is None ==> final(self).characters.art@.len() == old(self).characters.art@.len() + 1
                && final(self).characters.art@.drop_last() == old(self).characters.art@,
    {
        self.owner.require_module_owner(sender)?;
        if !same_text(art.kind.as_str(), "body") && !same_text(art.kind.as_str(), "silhouette") {
            let mut m = String::new();
            append_str(&mut m, "character art kind must be 'body' or 'silhouette', got '");
            append_str(&mut m, art.kind.as_str());
            append_str(&mut m, "'");
            return Err(ServiceError::Validation { message: m });
        }
        if asset.is_err() {
            return asset;
        }
        let ghost import = art;
        let r = self.characters.import_character_art(&mut self.ids, art);
        proof {
            if keys_fresh(*old(self)) {
                lemma_art_import_keys(old(self).characters, self.characters.art@, old(self).ids.next, self.ids.next, import, r);
            }
        }
        r
    }

    /// Import one face expression. Module owner only; the slug must be 1 to
    /// 64 bytes; `asset` is the shared SVG asset check's verdict on the
    /// blob. A refused import changes nothing.
    pub fn import_face_v1(&mut self, sender: Identity, face: FaceImportV1, asset: ServiceResult<()>) -> (res:
        ServiceResult<()>)
        ensures
            !may_import(*old(self), sender) ==> res is Err && import_refusal(*old(self), sender, res->Err_0)
                && *final(self) == *old(self),
            may_import(*old(self), sender) && !valid_text(face.slug@, 64) ==> res is Err && text_refusal(
                res->Err_0,
                "slug"@,
                face.slug@,
                64,
            ) && *final(self) == *old(self),
            may_import(*old(self), sender) && valid_text(face.slug@, 64) && asset is Err ==> res == asset
                && *final(self) == *old(self),
            may_import(*old(self), sender) && valid_text(face.slug@, 64) && asset is Ok ==> face_imported(
                old(self).characters.faces@,
                final(self).characters.faces@,
                old(self).ids.next,
                final(self).ids.next,
                face,
                res,
            ),
            same_but_content(*old(self), *final(self)),
            final(self).characters.art@ == old(self).characters.art@,
            final(self).components == old(self).components,
            final(self).levels == old(self).levels,
            final(self).backdrops == old(self).backdrops,
            keys_fresh(*old(self)) ==> keys_fresh(*final(self)),
            keys_fresh(*old(self)) && res is Ok && first_where(old(self).characters.faces@, face_slug_is(face.slug@))
                is None ==> final(self).characters.faces@.len() == old(self).characters.faces@.len() + 1
                && final(self).characters.faces@.drop_last() == old(self).characters.faces@,
    {
        self.owner.require_module_owner(sender)?;
        validate_required_str(face.slug.as_str(), "slug", 64)?;
        if asset.is_err() {
            return asset;
        }
        let ghost import = face;
        let r = self.characters.import_face(&mut self.ids, face);
        proof {
            if keys_fresh(*old(self)) {
                lemma_face_import_keys(old(self).characters.faces@, self.characters.faces@, old(self).ids.next, self.ids.next, import, r);
            }
        }
        r
    }

    /// Import one backdrop. Module owner only; the slug must be 1 to 64
    /// bytes; `sky`, `far` and `mid` are the shared SVG asset check's
    /// verdicts on the three layers, checked in that order. A refused
    /// import changes nothing.
    pub fn import_backdrop_v1(
        &mut self,
        sender: Identity,
        backdrop: BackdropImportV1,
        sky: ServiceResult<()>,
        far: ServiceResult<()>,
        mid: ServiceResult<()>,
    ) -> (res: ServiceResult<()>)
        ensures
            !may_import(*old(self), sender) ==> res is Err && import_refusal(*old(self), sender, res->Err_0)
                && *final(self) == *old(self),
            may_import(*old(self), sender) && !valid_text(backdrop.slug@, 64) ==> res is Err && text_refusal(
                res->Err_0,
                "slug"@,
                backdrop.slug@,
                64,
            ) && *final(self) == *old(self),
            may_import(*old(self), sender) && valid_text(backdrop.slug@, 64) ==> if sky is Err {
                res == sky && *final(self) == *old(self)
            } else if far is Err {
                res == far && *final(self) == *old(self)
            } else if mid is Err {
                res == mid && *final(self) == *old(self)
            } else {
                backdrop_imported(
                    old(self).backdrops.backdrops@,
                    final(self).backdrops.backdrops@,
                    old(self).ids.next,
                    final(self).ids.next,
                    backdrop,
                    res,
                )
            },
            same_but_content(*old(self), *final(self)),
            final(self).characters == old(self).characters,
            final(self).components == old(self).components,
            final(self).levels == old(self).levels,
            keys_fresh(*old(self)) ==> keys_fresh(*final(self)),
            keys_fresh(*old(self)) && res is Ok && first_where(
                old(self).backdrops.backdrops@,
                backdrop_slug_is(backdrop.slug@),
            ) is None ==> final(self).backdrops.backdrops@.len() == old(self).backdrops.backdrops@.len() + 1
                && final(self).backdrops.backdrops@.drop_last() == old(self).backdrops.backdrops@,
    {
        self.owner.require_module_owner(sender)?;
        validate_required_str(backdrop.slug.as_str(), "slug", 64)?;
        if sky.is_err() {
            return sky;
        }
        if far.is_err() {
            return far;
        }
        if mid.is_err() {
            return mid;
        }
        let ghost import = backdrop;
        let r = self.backdrops.import_backdrop(&mut self.ids, backdrop);
        proof {
            if keys_fresh(*old(self)) {
                lemma_backdrop_import_keys(
                    old(self).backdrops.backdrops@,
                    self.backdrops.backdrops@,
                    old(self).ids.next,
                    self.ids.next,
                    import,
                    r,
                );
            }
        }
        r
    }

    /// Import one authored level. Module owner only; the slug must be 1 to
    /// 64 bytes, the name 1 to 128, the backdrop slug 1 to 64; then as
    /// `import_level`, with `geometry` the shared geometry check's verdict.
    /// A refused import changes nothing.
    pub fn import_level_v1(
        &mut self,
        sender: Identity,
        id: Uuid,
        slug: String,
        name: String,
        is_starting: bool,
        active: bool,
        reward_lootbox_id: Option<Uuid>,
        successors: Vec<Uuid>,
        backdrop_slug: String,
        spawn: Vec2,
        finish: Vec2,
        placements: Vec<PlacementImportV1>,
        geometry: ServiceResult<()>,
    ) -> (res: ServiceResult<()>)
        ensures
            !may_import(*old(self), sender) ==> res is Err && import_refusal(*old(self), sender, res->Err_0)
                && *final(self) == *old(self),
            may_import(*old(self), sender) && !valid_text(slug@, 64) ==> res is Err && text_refusal(
                res->Err_0,
                "slug"@,
                slug@,
                64,
            ) && *final(self) == *old(self),
            may_import(*old(self), sender) && valid_text(slug@, 64) && !valid_text(name@, 128) ==> res is Err
                && text_refusal(res->Err_0, "name"@, name@, 128) && *final(self) == *old(self),
            may_import(*old(self), sender) && valid_text(slug@, 64) && valid_text(name@, 128) && !valid_text(
                backdrop_slug@,
                64,
            ) ==> res is Err && text_refusal(res->Err_0, "backdrop_slug"@, backdrop_slug@, 64) && *final(self)
                == *old(self),
            may_import(*old(self), sender) && valid_text(slug@, 64) && valid_text(name@, 128) && valid_text(
                backdrop_slug@,
                64,
            ) ==> level_imported(
                old(self).levels,
                final(self).levels,
                old(self).components,
                old(self).backdrops,
                old(self).ids.next,
                final(self).ids.next,
                (LevelImport {
                    id,
                    slug,
                    name,
                    is_starting,
                    active,
                    reward_lootbox_id,
                    successors,
                    backdrop_slug,
                    spawn,
                    finish,
                    placements,
                }),
                geometry,
                res,
            ),
            same_but_content(*old(self), *final(self)),
            final(self).characters == old(self).characters,
            final(self).components == old(self).components,
            final(self).backdrops == old(self).backdrops,
            keys_fresh(*old(self)) ==> keys_fresh(*final(self)),
    {
        self.owner.require_module_owner(sender)?;
        validate_required_str(slug.as_str(), "slug", 64)?;
        validate_required_str(name.as_str(), "name", 128)?;
        validate_required_str(backdrop_slug.as_str(), "backdrop_slug", 64)?;
        self.levels.import_level(
            &self.components,
            &self.backdrops,
            &mut self.ids,
            LevelImport {
                id,
                slug,
                name,
                is_starting,
                active,
                reward_lootbox_id,
                successors,
                backdrop_slug,
                spawn,
                finish,
                placements,
            },
            geometry,
        )
    }
}

} // verus!
