//! The game's persistent state: content tables, per-player progression
//! tables, and the services that read and change them.

pub mod table;
pub mod character;
pub mod progression;
pub mod player;
pub mod access;
pub mod lootbox;
pub mod component;
pub mod level;
pub mod laws;
pub mod views;
pub mod imports;
pub mod keys;
pub mod play;

use crate::error::{ServiceError, ServiceResult};
use crate::ids::{Identity, Timestamp, Uuid};
use crate::progression::inserts_of;
use crate::repository::access::{is_not_module_owner, is_owner_not_initialized, ModuleOwner};
use crate::repository::character::{
    is_unknown_character_for_piece, min_uuid, starter_ids, CharacterServicesImpl, PieceDef,
};
use crate::repository::component::{BackdropServicesImpl, ComponentServicesImpl};
use crate::repository::level::{active_starting, LevelServicesImpl};
use crate::repository::lootbox::{
    bad_drop, drop_rows, drops_except, is_no_drops, is_unknown_drop_piece, is_zero_weight, DropImportV1,
    LootboxDef, LootboxServicesImpl,
};
use crate::repository::player::{
    player_is, unlock_rows, unlocked_chars, Player, PlayerServicesImpl,
};
use crate::repository::progression::{enable_rows, enabled_of, successor_inserts, ProgressionServices};
use crate::repository::table::{exhausted, upsert, UuidGen};
use crate::text::decimal;
use crate::validate::validate_required_str;
use vstd::utf8::encode_utf8;
use crate::repository::character::first_where;
use crate::repository::keys::keys_fresh;
use vstd::prelude::*;

verus! {

/// Every table of the game, and the source of fresh row UUIDs.
pub struct Database {
    pub owner: ModuleOwner,
    pub characters: CharacterServicesImpl,
    pub players: PlayerServicesImpl,
    pub lootboxes: LootboxServicesImpl,
    pub levels: LevelServicesImpl,
    pub progression: ProgressionServices,
    pub components: ComponentServicesImpl,
    pub backdrops: BackdropServicesImpl,
    pub ids: UuidGen,
}

/// The default character of a player: the lowest starter UUID.
pub open spec fn default_character(starters: Seq<Uuid>) -> Option<Uuid> {
    if starters.len() == 0 {
        None
    } else {
        Some(min_uuid(starters))
    }
}

/// The player table after making sure `owner` has a row with a selected
/// character.
pub open spec fn players_after_connect(players: Seq<Player>, owner: Identity, default: Option<Uuid>) -> Seq<
    Player,
> {
    match first_where(players, player_is(owner)) {
        None => players.push(Player { identity: owner, selected_character_id: default }),
        Some(i) => if players[i].selected_character_id is None {
            players.update(i, Player { identity: owner, selected_character_id: default })
        } else {
            players
        },
    }
}

/// The starter characters `sender` still lacks when connecting to `db`.
pub open spec fn missing_starters(db: Database, sender: Identity) -> Seq<Uuid> {
    inserts_of(starter_ids(db.characters.characters@), unlocked_chars(db.players.unlocked@, sender))
}

/// The active starting levels not yet enabled for `sender` in `db`.
pub open spec fn missing_starting_levels(db: Database, sender: Identity) -> Seq<Uuid> {
    inserts_of(active_starting(db.levels.levels@), enabled_of(db.progression.enabled@, sender))
}

/// Whether enough row UUIDs are left for `sender` to connect to `db`.
pub open spec fn connect_fits(db: Database, sender: Identity) -> bool {
    db.ids.next + missing_starters(db, sender).len() + missing_starting_levels(db, sender).len()
        <= u128::MAX
}

/// The tables of `after` are those of `before` once `sender` has connected:
/// the missing starters unlocked, the player row made and given a character,
/// the missing starting levels enabled, with row UUIDs in that order.
pub open spec fn connected(before: Database, after: Database, sender: Identity) -> bool {
    let chars = missing_starters(before, sender);
    let levels = missing_starting_levels(before, sender);
    let next = before.ids.next;
    &&& after.players.unlocked@ == before.players.unlocked@ + unlock_rows(sender, chars, next)
    &&& after.players.players@ == players_after_connect(
        before.players.players@,
        sender,
        default_character(starter_ids(before.characters.characters@)),
    )
    &&& after.progression.enabled@ == before.progression.enabled@ + enable_rows(
        sender,
        levels,
        (next + chars.len()) as u128,
    )
    &&& after.ids.next == next + chars.len() + levels.len()
}

/// Whether `sender` may import content into `db`: it is the recorded
/// module owner.
pub open spec fn may_import(db: Database, sender: Identity) -> bool {
    db.owner.owner == Some(sender)
}

/// The refusal of an import by `sender` into `db`, which must not be
/// allowed: no owner recorded yet, or someone else's import.
pub open spec fn import_refusal(db: Database, sender: Identity, e: ServiceError) -> bool {
    match db.owner.owner {
        None => is_owner_not_initialized(e),
        Some(_) => is_not_module_owner(e, sender),
    }
}

/// A required text of at most `max` UTF-8 bytes (its byte length as
/// `str::len` reports it).
pub open spec fn valid_text(s: Seq<char>, max: nat) -> bool {
    s.len() > 0 && (encode_utf8(s).len() as usize) <= max
}

/// The refusal of a required text that is empty or longer than `max`
/// bytes.
pub open spec fn text_refusal(e: ServiceError, field: Seq<char>, s: Seq<char>, max: nat) -> bool {
    e matches ServiceError::Validation { message } && message@ == if s.len() == 0 {
        "'"@ + field + "' is required"@
    } else {
        "'"@ + field + "' must be at most "@ + decimal(max) + " bytes"@
    }
}

impl Database {
    /// An empty game whose row UUIDs start at `first_id`.
    pub fn new(first_id: u128) -> (db: Database)
        ensures
            db.owner.owner is None,
            db.ids.next == first_id,
            db.characters.characters@.len() == 0,
            db.characters.pieces@.len() == 0,
            db.characters.art@.len() == 0,
            db.characters.faces@.len() == 0,
            db.players.players@.len() == 0,
            db.players.unlocked@.len() == 0,
            db.players.pieces@.len() == 0,
            db.lootboxes.defs@.len() == 0,
            db.lootboxes.drops@.len() == 0,
            db.lootboxes.granted@.len() == 0,
            db.levels.levels@.len() == 0,
            db.levels.placements@.len() == 0,
            db.levels.successors@.len() == 0,
            db.progression.enabled@.len() == 0,
            db.progression.completed@.len() == 0,
            db.progression.selected@.len() == 0,
            db.components.components@.len() == 0,
            db.backdrops.backdrops@.len() == 0,
            keys_fresh(db),
    {
        Database {
            owner: ModuleOwner::new(),
            characters: CharacterServicesImpl::new(),
            players: PlayerServicesImpl::new(),
            lootboxes: LootboxServicesImpl::new(),
            levels: LevelServicesImpl::new(),
            progression: ProgressionServices::new(),
            components: ComponentServicesImpl::new(),
            backdrops: BackdropServicesImpl::new(),
            ids: UuidGen::new(first_id),
        }
    }

    /// Record the publishing identity as the module owner.
    pub fn init(&mut self, sender: Identity)
        ensures
            final(self).owner.owner == Some(sender),
            keys_fresh(*old(self)) ==> keys_fresh(*final(self)),
    {
        self.owner.record_module_owner(sender);
    }

    /// Bootstrap the connecting player: profile row, starter characters, and
    /// every active starting level. Idempotent so content imported after a
    /// player's first connection is picked up.
    pub fn identity_connected(&mut self, sender: Identity) -> (res: ServiceResult<()>)
        ensures
            if connect_fits(*old(self), sender) {
                res is Ok && connected(*old(self), *final(self), sender)
            } else {
                &&& res is Err
                &&& res->Err_0 is Internal
                &&& final(self).players.unlocked@ == old(self).players.unlocked@
                &&& final(self).players.players@ == old(self).players.players@
                &&& final(self).progression.enabled@ == old(self).progression.enabled@
                &&& final(self).ids.next == old(self).ids.next
            },
            final(self).players.pieces@ == old(self).players.pieces@,
            final(self).progression.completed@ == old(self).progression.completed@,
            final(self).progression.selected@ == old(self).progression.selected@,
            final(self).characters == old(self).characters,
            final(self).levels == old(self).levels,
            final(self).lootboxes == old(self).lootboxes,
            keys_fresh(*old(self)) ==> keys_fresh(*final(self)),
    {
        let starters = self.characters.starter_character_ids();
        let default_character = self.characters.default_starter_character_id();
        let starting = self.levels.active_starting_level_ids();
        let have = self.players.unlocked_character_ids(sender);
        let enabled = self.progression.enabled_level_ids(sender);
        let chars = successor_inserts(starters.as_slice(), have.as_slice());
        let levels = successor_inserts(starting.as_slice(), enabled.as_slice());
        if !self.ids.has_room(chars.len()) || !(levels.len() as u128 <= u128::MAX - self.ids.next
            - chars.len() as u128) {
            return Err(exhausted());
        }
        let r = self.players.ensure_player(&mut self.ids, sender, starters.as_slice(), default_character);
        match r {
            Ok(()) => {},
            Err(e) => return Err(e),
        }
        let r = self.progression.enable_levels_if_absent(&mut self.ids, sender, starting.as_slice());
        match r {
            Ok(()) => {},
            Err(e) => return Err(e),
        }
        Ok(())
    }

    /// Import one piece definition. Module owner only; the name must be
    /// 1 to 128 bytes; the piece's character must exist. A refused import
    /// changes nothing.
    pub fn import_piece_v1(&mut self, sender: Identity, id: Uuid, name: String, character_id: Uuid) -> (res:
        ServiceResult<()>)
        ensures
            !may_import(*old(self), sender) ==> res is Err && import_refusal(*old(self), sender, res->Err_0)
                && *final(self) == *old(self),
            may_import(*old(self), sender) && !valid_text(name@, 128) ==> res is Err && text_refusal(
                res->Err_0,
                "name"@,
                name@,
                128,
            ) && *final(self) == *old(self),
            may_import(*old(self), sender) && valid_text(name@, 128) ==> {
                &&& res is Ok <==> old(self).characters.character(character_id) is Some
                &&& res is Ok ==> final(self).characters.pieces@ == upsert(
                    old(self).characters.pieces@,
                    PieceDef { id, name, character_id },
                )
                &&& res is Err ==> is_unknown_character_for_piece(res->Err_0, character_id)
                    && final(self).characters.pieces@ == old(self).characters.pieces@
            },
            final(self).characters.characters@ == old(self).characters.characters@,
            final(self).characters.art@ == old(self).characters.art@,
            final(self).characters.faces@ == old(self).characters.faces@,
            final(self).owner == old(self).owner,
            final(self).players == old(self).players,
            final(self).lootboxes == old(self).lootboxes,
            final(self).levels == old(self).levels,
            final(self).progression == old(self).progression,
            final(self).components == old(self).components,
            final(self).backdrops == old(self).backdrops,
            final(self).ids == old(self).ids,
            keys_fresh(*old(self)) ==> keys_fresh(*final(self)),
    {
        self.owner.require_module_owner(sender)?;
        validate_required_str(name.as_str(), "name", 128)?;
        self.characters.import_piece(PieceDef { id, name, character_id })
    }

    /// Import one lootbox definition with its drops. Module owner only; the
    /// name must be 1 to 128 bytes; then as `import_lootbox`. A refused
    /// import changes nothing.
    pub fn import_lootbox_v1(&mut self, sender: Identity, id: Uuid, name: String, drops: Vec<DropImportV1>) -> (res:
        ServiceResult<()>)
        ensures
            !may_import(*old(self), sender) ==> res is Err && import_refusal(*old(self), sender, res->Err_0)
                && *final(self) == *old(self),
            may_import(*old(self), sender) && !valid_text(name@, 128) ==> res is Err && text_refusal(
                res->Err_0,
                "name"@,
                name@,
                128,
            ) && *final(self) == *old(self),
            may_import(*old(self), sender) && valid_text(name@, 128) ==> if drops@.len() == 0 {
                res is Err && is_no_drops(res->Err_0) && final(self).lootboxes.defs@ == old(self).lootboxes.defs@
                    && final(self).lootboxes.drops@ == old(self).lootboxes.drops@ && final(self).ids == old(self).ids
            } else if let Some(k) = first_where(drops@, bad_drop(old(self).characters)) {
                res is Err && (if drops@[k].weight == 0 {
                    is_zero_weight(res->Err_0, drops@[k].piece_id)
                } else {
                    is_unknown_drop_piece(res->Err_0, drops@[k].piece_id)
                }) && final(self).lootboxes.defs@ == old(self).lootboxes.defs@
                    && final(self).lootboxes.drops@ == old(self).lootboxes.drops@ && final(self).ids == old(self).ids
            } else if old(self).ids.next + drops@.len() > u128::MAX {
                res is Err && res->Err_0 is Internal && final(self).lootboxes.defs@ == old(self).lootboxes.defs@
                    && final(self).lootboxes.drops@ == old(self).lootboxes.drops@ && final(self).ids == old(self).ids
            } else {
                &&& res is Ok
                &&& final(self).lootboxes.defs@ == upsert(old(self).lootboxes.defs@, LootboxDef { id, name })
                &&& final(self).lootboxes.drops@ == drops_except(old(self).lootboxes.drops@, id) + drop_rows(
                    id,
                    drops@,
                    old(self).ids.next,
                )
                &&& final(self).ids.next == old(self).ids.next + drops@.len()
            },
            final(self).lootboxes.granted@ == old(self).lootboxes.granted@,
            final(self).owner == old(self).owner,
            final(self).characters == old(self).characters,
            final(self).players == old(self).players,
            final(self).levels == old(self).levels,
            final(self).progression == old(self).progression,
            final(self).components == old(self).components,
            final(self).backdrops == old(self).backdrops,
            keys_fresh(*old(self)) ==> keys_fresh(*final(self)),
    {
        self.owner.require_module_owner(sender)?;
        validate_required_str(name.as_str(), "name", 128)?;
        self.lootboxes.import_lootbox(&self.characters, &mut self.ids, id, name, drops)
    }
}

} // verus!
