//! The player requests: each answers its caller, `sender`, through one
//! service.

use crate::error::ServiceResult;
use crate::ids::{Identity, Timestamp, Uuid};
use crate::repository::lootbox::{awarded_piece, opening_outcome};
use crate::repository::player::{character_selection, count_of};
use crate::repository::progression::{completion_outcome, selection_outcome};
use crate::repository::Database;
use crate::repository::keys::keys_fresh;
use vstd::prelude::*;

verus! {

impl Database {
    /// Record the caller's completion of `level_id` at `now`, as
    /// `completion_outcome` says.
    pub fn complete_level_v1(&mut self, sender: Identity, level_id: Uuid, now: Timestamp) -> (res: ServiceResult<
        (),
    >)
        ensures
            completion_outcome(
                old(self).levels,
                old(self).progression,
                final(self).progression,
                old(self).lootboxes,
                final(self).lootboxes,
                old(self).ids.next,
                final(self).ids.next,
                sender,
                level_id,
                now,
                res,
            ),
            final(self).owner == old(self).owner,
            final(self).characters == old(self).characters,
            final(self).players == old(self).players,
            final(self).levels == old(self).levels,
            final(self).components == old(self).components,
            final(self).backdrops == old(self).backdrops,
            keys_fresh(*old(self)) ==> keys_fresh(*final(self)),
    {
        self.progression.complete_level(&self.levels, &mut self.lootboxes, &mut self.ids, sender, level_id, now)
    }

    /// Select one of the caller's enabled levels to play, as
    /// `selection_outcome` says.
    pub fn select_level_v1(&mut self, sender: Identity, level_id: Uuid) -> (res: ServiceResult<()>)
        ensures
            selection_outcome(old(self).levels, old(self).progression, final(self).progression, sender, level_id, res),
            final(self).owner == old(self).owner,
            final(self).characters == old(self).characters,
            final(self).players == old(self).players,
            final(self).lootboxes == old(self).lootboxes,
            final(self).levels == old(self).levels,
            final(self).components == old(self).components,
            final(self).backdrops == old(self).backdrops,
            final(self).ids == old(self).ids,
            keys_fresh(*old(self)) ==> keys_fresh(*final(self)),
    {
        self.progression.select_level(&self.levels, sender, level_id)
    }

    /// Select one of the caller's unlocked characters, as
    /// `character_selection` says.
    pub fn select_character_v1(&mut self, sender: Identity, character_id: Uuid) -> (res: ServiceResult<()>)
        ensures
            character_selection(old(self).players, final(self).players, sender, character_id, res),
            final(self).owner == old(self).owner,
            final(self).characters == old(self).characters,
            final(self).lootboxes == old(self).lootboxes,
            final(self).levels == old(self).levels,
            final(self).progression == old(self).progression,
            final(self).components == old(self).components,
            final(self).backdrops == old(self).backdrops,
            final(self).ids == old(self).ids,
            keys_fresh(*old(self)) ==> keys_fresh(*final(self)),
    {
        self.players.select_character(sender, character_id)
    }

    /// Open one of the caller's lootboxes, `roll` picking the drop, as
    /// `opening_outcome` says. The caller's count of the awarded piece is
    /// below `u32::MAX`.
    pub fn open_lootbox_v1(&mut self, sender: Identity, player_lootbox_id: Uuid, roll: u64) -> (res: ServiceResult<
        (),
    >)
        requires
            awarded_piece(
                old(self).lootboxes.granted@,
                old(self).lootboxes.drops@,
                old(self).characters,
                sender,
                player_lootbox_id,
                roll,
            ) matches Some(p) ==> count_of(old(self).players.pieces@, sender, p) < u32::MAX,
        ensures
            opening_outcome(
                old(self).lootboxes,
                final(self).lootboxes,
                old(self).characters,
                old(self).players,
                final(self).players,
                old(self).ids.next,
                final(self).ids.next,
                sender,
                player_lootbox_id,
                roll,
                res,
            ),
            final(self).owner == old(self).owner,
            final(self).characters == old(self).characters,
            final(self).levels == old(self).levels,
            final(self).progression == old(self).progression,
            final(self).components == old(self).components,
            final(self).backdrops == old(self).backdrops,
            keys_fresh(*old(self)) ==> keys_fresh(*final(self)),
    {
        self.lootboxes.open_lootbox(&self.characters, &mut self.players, &mut self.ids, sender, player_lootbox_id, roll)
    }
}

} // verus!
