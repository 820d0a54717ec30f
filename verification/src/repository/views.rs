//! Read models. Player views show the caller's own rows and never another
//! player's; content views show only what clients may see.

use crate::ids::{Identity, Timestamp, Uuid};
use crate::repository::character::{first_where, lemma_first_where};
use crate::repository::character::{CharacterArt, CharacterDef, CharacterServicesImpl, Face, PieceDef};
use crate::repository::component::{
    copy_bytes, Backdrop, BackdropLayerV1, BackdropServicesImpl, Component, ComponentServicesImpl,
};
use crate::repository::level::{Level, LevelPlacement, LevelServicesImpl, Vec2, Vec3};
use crate::repository::lootbox::{LootboxDef, LootboxServicesImpl, PlayerLootbox};
use crate::repository::player::{player_is, PlayerPiece, PlayerServicesImpl, PlayerUnlockedCharacter};
use crate::repository::progression::{
    selection_of, PlayerCompletedLevel, PlayerEnabledLevel, PlayerSelectedLevel, ProgressionServices,
};
use crate::repository::table::{find_key, position_of};
use vstd::prelude::*;

verus! {

/// `filter` over one more row.
pub proof fn lemma_filter_step<R>(rows: Seq<R>, i: int, p: spec_fn(R) -> bool)
    requires
        0 <= i < rows.len(),
    ensures
        rows.take(i + 1).filter(p) == if p(rows[i]) {
            rows.take(i).filter(p).push(rows[i])
        } else {
            rows.take(i).filter(p)
        },
{
    reveal_with_fuel(Seq::<_>::filter, 1);
    assert(rows.take(i + 1).drop_last() == rows.take(i));
    assert(rows.take(i + 1).last() == rows[i]);
}

/// `map_values` over one more value.
pub proof fn lemma_map_push<A, B>(s: Seq<A>, x: A, f: spec_fn(A) -> B)
    ensures
        s.push(x).map_values(f) == s.map_values(f).push(f(x)),
{
    assert(s.push(x).map_values(f) =~= s.map_values(f).push(f(x)));
}

/// The caller's player row as a view.
#[derive(Debug, Clone, Copy, PartialEq, Eq, Structural)]
pub struct MeViewV1 {
    pub identity: Identity,
    pub selected_character_id: Option<Uuid>,
}

/// One of the caller's pieces and how many copies they hold.
#[derive(Debug, Clone, Copy, PartialEq, Eq, Structural)]
pub struct MyPieceViewV1 {
    pub piece_id: Uuid,
    pub count: u32,
}

/// One of the caller's unlocked characters.
#[derive(Debug, Clone, Copy, PartialEq, Eq, Structural)]
pub struct MyUnlockedCharacterViewV1 {
    pub character_id: Uuid,
}

/// One of the caller's enabled levels.
#[derive(Debug, Clone, Copy, PartialEq, Eq, Structural)]
pub struct MyEnabledLevelViewV1 {
    pub level_id: Uuid,
}

/// One of the caller's completed levels and when.
#[derive(Debug, Clone, Copy, PartialEq, Eq, Structural)]
pub struct MyCompletedLevelViewV1 {
    pub level_id: Uuid,
    pub completed_at: Timestamp,
}

/// Rows owned by `owner`.
pub open spec fn piece_owned_by(owner: Identity) -> spec_fn(PlayerPiece) -> bool {
    |r: PlayerPiece| r.owner == owner
}

/// The view of one piece row.
pub open spec fn piece_view() -> spec_fn(PlayerPiece) -> MyPieceViewV1 {
    |r: PlayerPiece| MyPieceViewV1 { piece_id: r.piece_id, count: r.count }
}

/// Rows owned by `owner`.
pub open spec fn unlock_owned_by(owner: Identity) -> spec_fn(PlayerUnlockedCharacter) -> bool {
    |r: PlayerUnlockedCharacter| r.owner == owner
}

/// The view of one unlock row.
pub open spec fn unlock_view() -> spec_fn(PlayerUnlockedCharacter) -> MyUnlockedCharacterViewV1 {
    |r: PlayerUnlockedCharacter| MyUnlockedCharacterViewV1 { character_id: r.character_id }
}

/// Rows owned by `owner`.
pub open spec fn enabled_owned_by(owner: Identity) -> spec_fn(PlayerEnabledLevel) -> bool {
    |r: PlayerEnabledLevel| r.owner == owner
}

/// The view of one enabled-level row.
pub open spec fn enabled_view() -> spec_fn(PlayerEnabledLevel) -> MyEnabledLevelViewV1 {
    |r: PlayerEnabledLevel| MyEnabledLevelViewV1 { level_id: r.level_id }
}

/// Rows owned by `owner`.
pub open spec fn completed_owned_by(owner: Identity) -> spec_fn(PlayerCompletedLevel) -> bool {
    |r: PlayerCompletedLevel| r.owner == owner
}

/// The view of one completion row.
pub open spec fn completed_view() -> spec_fn(PlayerCompletedLevel) -> MyCompletedLevelViewV1 {
    |r: PlayerCompletedLevel| MyCompletedLevelViewV1 { level_id: r.level_id, completed_at: r.completed_at }
}

/// The caller's own player row; never another player's.
pub fn vw_me_v1(players: &PlayerServicesImpl, sender: Identity) -> (me: Option<MeViewV1>)
    ensures
        match first_where(players.players@, player_is(sender)) {
            None => me is None,
            Some(i) => me == Some(
                MeViewV1 {
                    identity: players.players@[i].identity,
                    selected_character_id: players.players@[i].selected_character_id,
                },
            ),
        },
{
    match players.player_position(sender) {
        None => None,
        Some(i) => Some(
            MeViewV1 {
                identity: players.players[i].identity,
                selected_character_id: players.players[i].selected_character_id,
            },
        ),
    }
}

/// The caller's piece collection, in table order; never another player's.
pub fn vw_my_piece_v1(players: &PlayerServicesImpl, sender: Identity) -> (out: Vec<MyPieceViewV1>)
    ensures
        out@ == players.pieces@.filter(piece_owned_by(sender)).map_values(piece_view()),
        ({
            let shown = players.pieces@.filter(|r: PlayerPiece| r.owner == sender);
            &&& out@.len() == shown.len()
            &&& forall|k: int| 0 <= k < shown.len() ==> (#[trigger] out@[k]).piece_id == shown[k].piece_id
                && out@[k].count == shown[k].count
        }),
{
    proof {
        assert(piece_owned_by(sender) =~= (|r: PlayerPiece| r.owner == sender));
    }
    let ghost rows = players.pieces@;
    let mut out: Vec<MyPieceViewV1> = Vec::new();
    let mut i: usize = 0;
    proof {
        assert(rows.take(0) =~= Seq::<PlayerPiece>::empty());
        reveal_with_fuel(Seq::<_>::filter, 1);
        assert(rows.take(0).filter(piece_owned_by(sender)).map_values(piece_view()) =~= out@);
    }
    while i < players.pieces.len()
        invariant
            i <= rows.len(),
            rows == players.pieces@,
            out@ == rows.take(i as int).filter(piece_owned_by(sender)).map_values(piece_view()),
        decreases players.pieces.len() - i,
    {
        let r = &players.pieces[i];
        proof {
            lemma_filter_step(rows, i as int, piece_owned_by(sender));
            lemma_map_push(rows.take(i as int).filter(piece_owned_by(sender)), rows[i as int], piece_view());
        }
        if r.owner == sender {
            out.push(MyPieceViewV1 { piece_id: r.piece_id, count: r.count });
        }
        i = i + 1;
    }
    proof {
        assert(rows.take(rows.len() as int) == rows);
    }
    out
}

/// The caller's unlocked characters, in table order; never another
/// player's.
pub fn vw_my_unlocked_character_v1(players: &PlayerServicesImpl, sender: Identity) -> (out: Vec<
    MyUnlockedCharacterViewV1,
>)
    ensures
        out@ == players.unlocked@.filter(unlock_owned_by(sender)).map_values(unlock_view()),
        ({
            let shown = players.unlocked@.filter(|r: PlayerUnlockedCharacter| r.owner == sender);
            &&& out@.len() == shown.len()
            &&& forall|k: int| 0 <= k < shown.len() ==> (#[trigger] out@[k]).character_id == shown[k].character_id
        }),
{
    proof {
        assert(unlock_owned_by(sender) =~= (|r: PlayerUnlockedCharacter| r.owner == sender));
    }
    let ghost rows = players.unlocked@;
    let mut out: Vec<MyUnlockedCharacterViewV1> = Vec::new();
    let mut i: usize = 0;
    proof {
        assert(rows.take(0) =~= Seq::<PlayerUnlockedCharacter>::empty());
        reveal_with_fuel(Seq::<_>::filter, 1);
        assert(rows.take(0).filter(unlock_owned_by(sender)).map_values(unlock_view()) =~= out@);
    }
    while i < players.unlocked.len()
        invariant
            i <= rows.len(),
            rows == players.unlocked@,
            out@ == rows.take(i as int).filter(unlock_owned_by(sender)).map_values(unlock_view()),
        decreases players.unlocked.len() - i,
    {
        let r = &players.unlocked[i];
        proof {
            lemma_filter_step(rows, i as int, unlock_owned_by(sender));
            lemma_map_push(rows.take(i as int).filter(unlock_owned_by(sender)), rows[i as int], unlock_view());
        }
        if r.owner == sender {
            out.push(MyUnlockedCharacterViewV1 { character_id: r.character_id });
        }
        i = i + 1;
    }
    proof {
        assert(rows.take(rows.len() as int) == rows);
    }
    out
}

/// The caller's enabled levels, in table order; never another player's.
pub fn vw_my_enabled_level_v1(progression: &ProgressionServices, sender: Identity) -> (out: Vec<
    MyEnabledLevelViewV1,
>)
    ensures
        out@ == progression.enabled@.filter(enabled_owned_by(sender)).map_values(enabled_view()),
        ({
            let shown = progression.enabled@.filter(|r: PlayerEnabledLevel| r.owner == sender);
            &&& out@.len() == shown.len()
            &&& forall|k: int| 0 <= k < shown.len() ==> (#[trigger] out@[k]).level_id == shown[k].level_id
        }),
{
    proof {
        assert(enabled_owned_by(sender) =~= (|r: PlayerEnabledLevel| r.owner == sender));
    }
    let ghost rows = progression.enabled@;
    let mut out: Vec<MyEnabledLevelViewV1> = Vec::new();
    let mut i: usize = 0;
    proof {
        assert(rows.take(0) =~= Seq::<PlayerEnabledLevel>::empty());
        reveal_with_fuel(Seq::<_>::filter, 1);
        assert(rows.take(0).filter(enabled_owned_by(sender)).map_values(enabled_view()) =~= out@);
    }
    while i < progression.enabled.len()
        invariant
            i <= rows.len(),
            rows == progression.enabled@,
            out@ == rows.take(i as int).filter(enabled_owned_by(sender)).map_values(enabled_view()),
        decreases progression.enabled.len() - i,
    {
        let r = &progression.enabled[i];
        proof {
            lemma_filter_step(rows, i as int, enabled_owned_by(sender));
            lemma_map_push(rows.take(i as int).filter(enabled_owned_by(sender)), rows[i as int], enabled_view());
        }
        if r.owner == sender {
            out.push(MyEnabledLevelViewV1 { level_id: r.level_id });
        }
        i = i + 1;
    }
    proof {
        assert(rows.take(rows.len() as int) == rows);
    }
    out
}

/// The caller's completed levels, in table order; never another player's.
pub fn vw_my_completed_level_v1(progression: &ProgressionServices, sender: Identity) -> (out: Vec<
    MyCompletedLevelViewV1,
>)
    ensures
        out@ == progression.completed@.filter(completed_owned_by(sender)).map_values(completed_view()),
        ({
            let shown = progression.completed@.filter(|r: PlayerCompletedLevel| r.owner == sender);
            &&& out@.len() == shown.len()
            &&& forall|k: int| 0 <= k < shown.len() ==> (#[trigger] out@[k]).level_id == shown[k].level_id
                && out@[k].completed_at == shown[k].completed_at
        }),
{
    proof {
        assert(completed_owned_by(sender) =~= (|r: PlayerCompletedLevel| r.owner == sender));
    }
    let ghost rows = progression.completed@;
    let mut out: Vec<MyCompletedLevelViewV1> = Vec::new();
    let mut i: usize = 0;
    proof {
        assert(rows.take(0) =~= Seq::<PlayerCompletedLevel>::empty());
        reveal_with_fuel(Seq::<_>::filter, 1);
        assert(rows.take(0).filter(completed_owned_by(sender)).map_values(completed_view()) =~= out@);
    }
    while i < progression.completed.len()
        invariant
            i <= rows.len(),
            rows == progression.completed@,
            out@ == rows.take(i as int).filter(completed_owned_by(sender)).map_values(completed_view()),
        decreases progression.completed.len() - i,
    {
        let r = &progression.completed[i];
        proof {
            lemma_filter_step(rows, i as int, completed_owned_by(sender));
            lemma_map_push(
                rows.take(i as int).filter(completed_owned_by(sender)),
                rows[i as int],
                completed_view(),
            );
        }
        if r.owner == sender {
            out.push(MyCompletedLevelViewV1 { level_id: r.level_id, completed_at: r.completed_at });
        }
        i = i + 1;
    }
    proof {
        assert(rows.take(rows.len() as int) == rows);
    }
    out
}

/// One of the caller's granted lootboxes with its display name.
#[derive(Debug)]
pub struct MyLootboxView {
    pub id: Uuid,
    pub lootbox_id: Uuid,
    pub name: String,
    pub opened: bool,
    pub awarded_piece_id: Option<Uuid>,
}

/// The caller's granted lootboxes whose definition exists.
pub open spec fn lootbox_shown(owner: Identity, defs: Seq<LootboxDef>) -> spec_fn(PlayerLootbox) -> bool {
    |g: PlayerLootbox| g.owner == owner && find_key(defs, g.lootbox_id) is Some
}

/// The view of one granted lootbox, named by its definition.
pub open spec fn lootbox_view(defs: Seq<LootboxDef>) -> spec_fn(PlayerLootbox) -> MyLootboxView {
    |g: PlayerLootbox|
        MyLootboxView {
            id: g.id,
            lootbox_id: g.lootbox_id,
            name: defs[find_key(defs, g.lootbox_id)->0].name,
            opened: g.opened,
            awarded_piece_id: g.awarded_piece_id,
        }
}

/// The caller's granted lootboxes with their display names, in table
/// order; never another player's. A grant whose definition is gone is left
/// out.
pub fn vw_my_lootbox(lootboxes: &LootboxServicesImpl, sender: Identity) -> (out: Vec<MyLootboxView>)
    ensures
        out@ == lootboxes.granted@.filter(lootbox_shown(sender, lootboxes.defs@)).map_values(
            lootbox_view(lootboxes.defs@),
        ),
        ({
            let defs = lootboxes.defs@;
            let shown = lootboxes.granted@.filter(
                |g: PlayerLootbox| g.owner == sender && find_key(defs, g.lootbox_id) is Some,
            );
            &&& out@.len() == shown.len()
            &&& forall|k: int| 0 <= k < shown.len() ==> (#[trigger] out@[k]).id == shown[k].id
                && out@[k].lootbox_id == shown[k].lootbox_id
                && out@[k].name@ == defs[find_key(defs, shown[k].lootbox_id)->0].name@
                && out@[k].opened == shown[k].opened
                && out@[k].awarded_piece_id == shown[k].awarded_piece_id
        }),
{
    proof {
        assert(lootbox_shown(sender, lootboxes.defs@) =~= (|g: PlayerLootbox| g.owner == sender && find_key(
            lootboxes.defs@,
            g.lootbox_id,
        ) is Some));
    }
    let ghost rows = lootboxes.granted@;
    let ghost defs = lootboxes.defs@;
    let mut out: Vec<MyLootboxView> = Vec::new();
    let mut i: usize = 0;
    proof {
        assert(rows.take(0) =~= Seq::<PlayerLootbox>::empty());
        reveal_with_fuel(Seq::<_>::filter, 1);
        assert(rows.take(0).filter(lootbox_shown(sender, defs)).map_values(lootbox_view(defs)) =~= out@);
    }
    while i < lootboxes.granted.len()
        invariant
            i <= rows.len(),
            rows == lootboxes.granted@,
            defs == lootboxes.defs@,
            out@ == rows.take(i as int).filter(lootbox_shown(sender, defs)).map_values(lootbox_view(defs)),
        decreases lootboxes.granted.len() - i,
    {
        let g = &lootboxes.granted[i];
        proof {
            lemma_filter_step(rows, i as int, lootbox_shown(sender, defs));
            lemma_map_push(rows.take(i as int).filter(lootbox_shown(sender, defs)), rows[i as int], lootbox_view(defs));
        }
        if g.owner == sender {
            match position_of(&lootboxes.defs, g.lootbox_id) {
                Some(d) => {
                    out.push(
                        MyLootboxView {
                            id: g.id,
                            lootbox_id: g.lootbox_id,
                            name: lootboxes.defs[d].name.clone(),
                            opened: g.opened,
                            awarded_piece_id: g.awarded_piece_id,
                        },
                    );
                },
                None => {},
            }
        }
        i = i + 1;
    }
    proof {
        assert(rows.take(rows.len() as int) == rows);
    }
    out
}

/// One active level as clients see it.
#[derive(Debug)]
pub struct LevelViewV1 {
    pub id: Uuid,
    pub slug: String,
    pub name: String,
    pub spawn: Vec2,
    pub finish: Vec2,
}

/// Whether a level is shown: it is active.
pub open spec fn level_shown() -> spec_fn(Level) -> bool {
    |l: Level| l.active
}

/// The view of one level.
pub open spec fn level_view() -> spec_fn(Level) -> LevelViewV1 {
    |l: Level| LevelViewV1 { id: l.id, slug: l.slug, name: l.name, spawn: l.spawn, finish: l.finish }
}

/// Every active level, in table order; inactive levels and internal
/// fields stay private.
pub fn vw_level_v1(levels: &LevelServicesImpl) -> (out: Vec<LevelViewV1>)
    ensures
        out@ == levels.levels@.filter(level_shown()).map_values(level_view()),
        ({
            let shown = levels.levels@.filter(|l: Level| l.active);
            &&& out@.len() == shown.len()
            &&& forall|k: int|
                0 <= k < shown.len() ==> (#[trigger] out@[k]).id == shown[k].id && out@[k].slug@ == shown[k].slug@
                    && out@[k].name@ == shown[k].name@ && out@[k].spawn == shown[k].spawn && out@[k].finish
                    == shown[k].finish
        }),
{
    proof {
        assert(level_shown() =~= (|l: Level| l.active));
    }
    let ghost rows = levels.levels@;
    let mut out: Vec<LevelViewV1> = Vec::new();
    let mut i: usize = 0;
    proof {
        assert(rows.take(0) =~= Seq::<Level>::empty());
        reveal_with_fuel(Seq::<_>::filter, 1);
        assert(rows.take(0).filter(level_shown()).map_values(level_view()) =~= out@);
    }
    while i < levels.levels.len()
        invariant
            i <= rows.len(),
            rows == levels.levels@,
            out@ == rows.take(i as int).filter(level_shown()).map_values(level_view()),
        decreases levels.levels.len() - i,
    {
        let l = &levels.levels[i];
        proof {
            lemma_filter_step(rows, i as int, level_shown());
            lemma_map_push(rows.take(i as int).filter(level_shown()), rows[i as int], level_view());
        }
        if l.active {
            out.push(
                LevelViewV1 {
                    id: l.id,
                    slug: l.slug.clone(),
                    name: l.name.clone(),
                    spawn: l.spawn,
                    finish: l.finish,
                },
            );
        }
        i = i + 1;
    }
    proof {
        assert(rows.take(rows.len() as int) == rows);
    }
    out
}

/// One placement of the caller's selected level.
#[derive(Debug, Clone, Copy, PartialEq, Eq, Structural)]
pub struct LevelPlacementViewV1 {
    pub level_id: Uuid,
    pub component_id: Uuid,
    pub position: Vec3,
    pub flip_x: bool,
    /// The binary32 bit pattern of the scale.
    pub scale_bits: u32,
    pub order: u32,
}

/// Placements of the given level.
pub open spec fn placement_of_level(level_id: Uuid) -> spec_fn(LevelPlacement) -> bool {
    |p: LevelPlacement| p.level_id == level_id
}

/// The view of one placement.
pub open spec fn placement_view() -> spec_fn(LevelPlacement) -> LevelPlacementViewV1 {
    |p: LevelPlacement|
        LevelPlacementViewV1 {
            level_id: p.level_id,
            component_id: p.component_id,
            position: p.position,
            flip_x: p.flip_x,
            scale_bits: p.scale_bits,
            order: p.order,
        }
}

/// Placements for the caller's currently selected level only, in table
/// order; nothing when the caller has selected no level.
pub fn vw_level_placement_v1(levels: &LevelServicesImpl, progression: &ProgressionServices, sender: Identity) -> (out:
    Vec<LevelPlacementViewV1>)
    ensures
        match first_where(progression.selected@, selection_of(sender)) {
            None => out@.len() == 0,
            Some(s) => out@ == levels.placements@.filter(
                placement_of_level(progression.selected@[s].level_id),
            ).map_values(placement_view()),
        },
        first_where(progression.selected@, selection_of(sender)) matches Some(s) ==> {
            let level_id = progression.selected@[s].level_id;
            let shown = levels.placements@.filter(|p: LevelPlacement| p.level_id == level_id);
            &&& progression.selected@[s].owner == sender
            &&& out@.len() == shown.len()
            &&& forall|k: int| 0 <= k < shown.len() ==> (#[trigger] out@[k]).level_id == shown[k].level_id
                && out@[k].component_id == shown[k].component_id
                && out@[k].position == shown[k].position
                && out@[k].flip_x == shown[k].flip_x
                && out@[k].scale_bits == shown[k].scale_bits
                && out@[k].order == shown[k].order
        },
{
    proof {
        lemma_first_where(progression.selected@, selection_of(sender));
        if let Some(s) = first_where(progression.selected@, selection_of(sender)) {
            let level_id = progression.selected@[s].level_id;
            assert(placement_of_level(level_id) =~= (|p: LevelPlacement| p.level_id == level_id));
        }
    }
    let ghost pr = selection_of(sender);
    proof {
        lemma_first_where(progression.selected@, pr);
    }
    let mut s: usize = 0;
    while s < progression.selected.len() && progression.selected[s].owner != sender
        invariant
            s <= progression.selected@.len(),
            pr == selection_of(sender),
            forall|j: int| 0 <= j < s ==> !pr(#[trigger] progression.selected@[j]),
        decreases progression.selected.len() - s,
    {
        s = s + 1;
    }
    if s == progression.selected.len() {
        return Vec::new();
    }
    proof {
        if let Some(k) = first_where(progression.selected@, pr) {
            if k < s {
                assert(!pr(progression.selected@[k]));
            }
            if k > s {
                assert(pr(progression.selected@[s as int]));
            }
        }
    }
    let level_id = progression.selected[s].level_id;
    let ghost rows = levels.placements@;
    let mut out: Vec<LevelPlacementViewV1> = Vec::new();
    let mut i: usize = 0;
    proof {
        assert(rows.take(0) =~= Seq::<LevelPlacement>::empty());
        reveal_with_fuel(Seq::<_>::filter, 1);
        assert(rows.take(0).filter(placement_of_level(level_id)).map_values(placement_view()) =~= out@);
    }
    while i < levels.placements.len()
        invariant
            i <= rows.len(),
            rows == levels.placements@,
            out@ == rows.take(i as int).filter(placement_of_level(level_id)).map_values(placement_view()),
        decreases levels.placements.len() - i,
    {
        let p = &levels.placements[i];
        proof {
            lemma_filter_step(rows, i as int, placement_of_level(level_id));
            lemma_map_push(rows.take(i as int).filter(placement_of_level(level_id)), rows[i as int], placement_view());
        }
        if p.level_id == level_id {
            out.push(
                LevelPlacementViewV1 {
                    level_id: p.level_id,
                    component_id: p.component_id,
                    position: p.position,
                    flip_x: p.flip_x,
                    scale_bits: p.scale_bits,
                    order: p.order,
                },
            );
        }
        i = i + 1;
    }
    proof {
        assert(rows.take(rows.len() as int) == rows);
    }
    out
}

/// One piece definition as clients see it.
#[derive(Debug)]
pub struct PieceViewV1 {
    pub id: Uuid,
    pub name: String,
    pub character_id: Uuid,
}

/// The view of one piece definition.
pub open spec fn piece_def_view() -> spec_fn(PieceDef) -> PieceViewV1 {
    |p: PieceDef| PieceViewV1 { id: p.id, name: p.name, character_id: p.character_id }
}

/// Every piece definition, in table order.
pub fn vw_piece_v1(characters: &CharacterServicesImpl) -> (out: Vec<PieceViewV1>)
    ensures
        out@ == characters.pieces@.map_values(piece_def_view()),
        ({
            let shown = characters.pieces@;
            &&& out@.len() == shown.len()
            &&& forall|k: int| 0 <= k < shown.len() ==> (#[trigger] out@[k]).id == shown[k].id
                && out@[k].name@ == shown[k].name@
                && out@[k].character_id == shown[k].character_id
        }),
{
    let ghost rows = characters.pieces@;
    let mut out: Vec<PieceViewV1> = Vec::new();
    let mut i: usize = 0;
    while i < characters.pieces.len()
        invariant
            i <= rows.len(),
            rows == characters.pieces@,
            out@ == rows.take(i as int).map_values(piece_def_view()),
        decreases characters.pieces.len() - i,
    {
        let p = &characters.pieces[i];
        proof {
            assert(rows.take(i + 1) == rows.take(i as int).push(rows[i as int]));
            lemma_map_push(rows.take(i as int), rows[i as int], piece_def_view());
        }
        out.push(PieceViewV1 { id: p.id, name: p.name.clone(), character_id: p.character_id });
        i = i + 1;
    }
    proof {
        assert(rows.take(rows.len() as int) == rows);
    }
    out
}

/// One character definition as clients see it; the float attributes are
/// binary32 bit patterns.
#[derive(Debug)]
pub struct CharacterViewV1 {
    pub id: Uuid,
    pub name: String,
    pub density_bits: u32,
    pub jump_speed_bits: u32,
    pub flight_time_ms: u32,
    pub buoyancy_bits: u32,
    pub fire_resistance_bits: u32,
}

/// The view of one character definition.
pub open spec fn character_view() -> spec_fn(CharacterDef) -> CharacterViewV1 {
    |c: CharacterDef|
        CharacterViewV1 {
            id: c.id,
            name: c.name,
            density_bits: c.density_bits,
            jump_speed_bits: c.jump_speed_bits,
            flight_time_ms: c.flight_time_ms,
            buoyancy_bits: c.buoyancy_bits,
            fire_resistance_bits: c.fire_resistance_bits,
        }
}

/// Every character definition, in table order; the authored style and the
/// starter flag stay private.
pub fn vw_character_v1(characters: &CharacterServicesImpl) -> (out: Vec<CharacterViewV1>)
    ensures
        out@ == characters.characters@.map_values(character_view()),
        ({
            let shown = characters.characters@;
            &&& out@.len() == shown.len()
            &&& forall|k: int| 0 <= k < shown.len() ==> (#[trigger] out@[k]).id == shown[k].id
                && out@[k].name@ == shown[k].name@
                && out@[k].density_bits == shown[k].density_bits
                && out@[k].jump_speed_bits == shown[k].jump_speed_bits
                && out@[k].flight_time_ms == shown[k].flight_time_ms
                && out@[k].buoyancy_bits == shown[k].buoyancy_bits
                && out@[k].fire_resistance_bits == shown[k].fire_resistance_bits
        }),
{
    let ghost rows = characters.characters@;
    let mut out: Vec<CharacterViewV1> = Vec::new();
    let mut i: usize = 0;
    while i < characters.characters.len()
        invariant
            i <= rows.len(),
            rows == characters.characters@,
            out@ == rows.take(i as int).map_values(character_view()),
        decreases characters.characters.len() - i,
    {
        let c = &characters.characters[i];
        proof {
            assert(rows.take(i + 1) == rows.take(i as int).push(rows[i as int]));
            lemma_map_push(rows.take(i as int), rows[i as int], character_view());
        }
        out.push(
            CharacterViewV1 {
                id: c.id,
                name: c.name.clone(),
                density_bits: c.density_bits,
                jump_speed_bits: c.jump_speed_bits,
                flight_time_ms: c.flight_time_ms,
                buoyancy_bits: c.buoyancy_bits,
                fire_resistance_bits: c.fire_resistance_bits,
            },
        );
        i = i + 1;
    }
    proof {
        assert(rows.take(rows.len() as int) == rows);
    }
    out
}

/// One component placed in an active level, as clients see it.
#[derive(Debug)]
pub struct ComponentViewV1 {
    pub id: Uuid,
    pub slug: String,
    pub width_px: u32,
    pub height_px: u32,
    pub content_hash: String,
    pub data: Vec<u8>,
}

/// Some active level row has the given id.
pub open spec fn is_active_level(levels: Seq<Level>, level_id: Uuid) -> bool {
    exists|l: int| 0 <= l < levels.len() && (#[trigger] levels[l]).active && levels[l].id == level_id
}

/// Component `id` is placed in some active level.
pub open spec fn placed_in_active(levels: LevelServicesImpl, id: Uuid) -> bool {
    exists|p: int|
        0 <= p < levels.placements@.len() && (#[trigger] levels.placements@[p]).component_id == id
            && is_active_level(levels.levels@, levels.placements@[p].level_id)
}

/// `v` is the view of component row `c`.
pub open spec fn shows_component(v: ComponentViewV1, c: Component) -> bool {
    &&& v.id == c.id
    &&& v.slug@ == c.slug@
    &&& v.width_px == c.width_px
    &&& v.height_px == c.height_px
    &&& v.content_hash@ == c.content_hash@
    &&& v.data@ == c.data@
}

/// `v` is the view of the component row its id finds.
pub open spec fn shows_found_component(components: Seq<Component>, v: ComponentViewV1) -> bool {
    find_key(components, v.id) matches Some(c) && shows_component(v, components[c])
}

fn level_is_active(levels: &Vec<Level>, level_id: Uuid) -> (b: bool)
    ensures
        b == is_active_level(levels@, level_id),
{
    let mut i: usize = 0;
    while i < levels.len()
        invariant
            i <= levels@.len(),
            forall|j: int| 0 <= j < i ==> !((#[trigger] levels@[j]).active && levels@[j].id == level_id),
        decreases levels.len() - i,
    {
        if levels[i].active && levels[i].id == level_id {
            return true;
        }
        i = i + 1;
    }
    false
}

/// The components placed in active levels, each once, by ascending id;
/// nothing else of the library is shown.
pub fn vw_component_v1(levels: &LevelServicesImpl, components: &ComponentServicesImpl) -> (out: Vec<ComponentViewV1>)
    ensures
        forall|k1: int, k2: int| 0 <= k1 < k2 < out@.len() ==> (#[trigger] out@[k1]).id.value < (
        #[trigger] out@[k2]).id.value,
        forall|k: int|
            0 <= k < out@.len() ==> placed_in_active(*levels, (#[trigger] out@[k]).id) && shows_found_component(
                components.components@,
                out@[k],
            ),
        forall|id: Uuid|
            placed_in_active(*levels, id) && find_key(components.components@, id) is Some ==> exists|k: int|
                0 <= k < out@.len() && (#[trigger] out@[k]).id == id,
{
    let ghost ps = levels.placements@;
    let mut ids: Vec<Uuid> = Vec::new();
    let mut i: usize = 0;
    while i < levels.placements.len()
        invariant
            i <= ps.len(),
            ps == levels.placements@,
            forall|a: int, b: int| 0 <= a < b < ids@.len() ==> (#[trigger] ids@[a]).value < (#[trigger] ids@[b]).value,
            forall|a: int| 0 <= a < ids@.len() ==> placed_in_active(*levels, #[trigger] ids@[a]),
            forall|p: int|
                0 <= p < i && is_active_level(levels.levels@, (#[trigger] ps[p]).level_id) ==> ids@.contains(
                    ps[p].component_id,
                ),
        decreases levels.placements.len() - i,
    {
        let p = &levels.placements[i];
        if level_is_active(&levels.levels, p.level_id) {
            let id = p.component_id;
            assert(placed_in_active(*levels, id)) by {
                assert(ps[i as int].component_id == id);
            }
            let mut at: usize = 0;
            while at < ids.len() && ids[at].value < id.value
                invariant
                    at <= ids@.len(),
                    forall|a: int| 0 <= a < at ==> (#[trigger] ids@[a]).value < id.value,
                decreases ids.len() - at,
            {
                at = at + 1;
            }
            if at < ids.len() && ids[at].value == id.value {
                assert(ids@[at as int] == id);
            } else {
                let ghost before = ids@;
                ids.insert(at, id);
                proof {
                    assert(ids@ == before.insert(at as int, id));
                    assert forall|a: int, b: int| 0 <= a < b < ids@.len() implies (#[trigger] ids@[a]).value < (
                    #[trigger] ids@[b]).value by {
                        if b < at {
                        } else if a < at && b == at {
                        } else if a < at {
                            assert(ids@[b] == before[b - 1]);
                        } else if a == at {
                            assert(ids@[b] == before[b - 1]);
                            if at < before.len() {
                                assert(before[at as int].value > id.value);
                                if b - 1 > at {
                                    assert(before[at as int].value < before[b - 1].value);
                                }
                            }
                        } else {
                            assert(ids@[a] == before[a - 1]);
                            assert(ids@[b] == before[b - 1]);
                        }
                    }
                    assert forall|a: int| 0 <= a < ids@.len() implies placed_in_active(*levels, #[trigger] ids@[a]) by {
                        if a < at {
                            assert(ids@[a] == before[a]);
                        } else if a > at {
                            assert(ids@[a] == before[a - 1]);
                        }
                    }
                    assert forall|q: int|
                        0 <= q < i && is_active_level(levels.levels@, (#[trigger] ps[q]).level_id) implies ids@.contains(
                        ps[q].component_id,
                    ) by {
                        assert(before.contains(ps[q].component_id));
                        let t = choose|t: int| 0 <= t < before.len() && before[t] == ps[q].component_id;
                        if t < at {
                            assert(ids@[t] == before[t]);
                        } else {
                            assert(ids@[t + 1] == before[t]);
                        }
                    }
                    assert(ids@[at as int] == id);
                }
            }
        }
        i = i + 1;
    }
    let mut out: Vec<ComponentViewV1> = Vec::new();
    let ghost mut idx: Seq<int> = Seq::empty();
    let mut k: usize = 0;
    while k < ids.len()
        invariant
            k <= ids@.len(),
            idx.len() == out@.len(),
            forall|j: int|
                0 <= j < idx.len() ==> 0 <= #[trigger] idx[j] < k && out@[j].id == ids@[idx[j]]
                    && shows_found_component(components.components@, out@[j]),
            forall|j1: int, j2: int| 0 <= j1 < j2 < idx.len() ==> #[trigger] idx[j1] < #[trigger] idx[j2],
            forall|a: int|
                0 <= a < k && find_key(components.components@, #[trigger] ids@[a]) is Some ==> idx.contains(a),
        decreases ids.len() - k,
    {
        let id = ids[k];
        match position_of(&components.components, id) {
            Some(c) => {
                let comp = &components.components[c];
                out.push(
                    ComponentViewV1 {
                        id: comp.id,
                        slug: comp.slug.clone(),
                        width_px: comp.width_px,
                        height_px: comp.height_px,
                        content_hash: comp.content_hash.clone(),
                        data: crate::repository::component::copy_bytes(&comp.data),
                    },
                );
                proof {
                    crate::repository::table::lemma_find_key(components.components@, id);
                    let old_idx = idx;
                    idx = idx.push(k as int);
                    assert forall|a: int|
                        0 <= a < k + 1 && find_key(components.components@, #[trigger] ids@[a]) is Some implies idx.contains(
                        a,
                    ) by {
                        if a < k {
                            let t = choose|t: int| 0 <= t < old_idx.len() && old_idx[t] == a;
                            assert(idx[t] == a);
                        } else {
                            assert(idx[idx.len() - 1] == a);
                        }
                    }
                }
            },
            None => {},
        }
        k = k + 1;
    }
    proof {
        assert forall|k1: int, k2: int| 0 <= k1 < k2 < out@.len() implies (#[trigger] out@[k1]).id.value < (
        #[trigger] out@[k2]).id.value by {
            assert(idx[k1] < idx[k2]);
            assert(ids@[idx[k1]].value < ids@[idx[k2]].value);
        }
        assert forall|j: int| 0 <= j < out@.len() implies placed_in_active(*levels, (#[trigger] out@[j]).id)
            && shows_found_component(components.components@, out@[j]) by {
            assert(0 <= idx[j] < ids@.len());
            assert(placed_in_active(*levels, ids@[idx[j]]));
        }
    }
    proof {
        assert forall|id: Uuid| placed_in_active(*levels, id) && find_key(components.components@, id) is Some implies exists|
            k: int,
        | 0 <= k < out@.len() && (#[trigger] out@[k]).id == id by {
            let p = choose|p: int|
                0 <= p < ps.len() && (#[trigger] ps[p]).component_id == id && is_active_level(
                    levels.levels@,
                    ps[p].level_id,
                );
            assert(ids@.contains(id));
            let a = choose|a: int| 0 <= a < ids@.len() && ids@[a] == id;
            assert(find_key(components.components@, ids@[a]) is Some);
            assert(idx.contains(a));
            let t = choose|t: int| 0 <= t < idx.len() && idx[t] == a;
            assert(out@[t].id == id);
        }
    }
    out
}

/// One character art blob as clients see it.
#[derive(Debug)]
pub struct CharacterArtViewV1 {
    pub id: Uuid,
    pub character_id: Uuid,
    /// "body" or "silhouette".
    pub kind: String,
    pub width_px: u32,
    pub height_px: u32,
    pub content_hash: String,
    pub data: Vec<u8>,
}

/// `v` is the view of art row `a`.
pub open spec fn shows_art(v: CharacterArtViewV1, a: CharacterArt) -> bool {
    &&& v.id == a.id
    &&& v.character_id == a.character_id
    &&& v.kind@ == a.kind@
    &&& v.width_px == a.width_px
    &&& v.height_px == a.height_px
    &&& v.content_hash@ == a.content_hash@
    &&& v.data@ == a.data@
}

/// Every character art blob, in table order.
pub fn vw_character_art_v1(characters: &CharacterServicesImpl) -> (out: Vec<CharacterArtViewV1>)
    ensures
        out@.len() == characters.art@.len(),
        forall|k: int| 0 <= k < out@.len() ==> shows_art(#[trigger] out@[k], characters.art@[k]),
{
    let mut out: Vec<CharacterArtViewV1> = Vec::new();
    let mut i: usize = 0;
    while i < characters.art.len()
        invariant
            i <= characters.art@.len(),
            out@.len() == i,
            forall|k: int| 0 <= k < i ==> shows_art(#[trigger] out@[k], characters.art@[k]),
        decreases characters.art.len() - i,
    {
        let a = &characters.art[i];
        out.push(
            CharacterArtViewV1 {
                id: a.id,
                character_id: a.character_id,
                kind: a.kind.clone(),
                width_px: a.width_px,
                height_px: a.height_px,
                content_hash: a.content_hash.clone(),
                data: copy_bytes(&a.data),
            },
        );
        i = i + 1;
    }
    out
}

/// One face expression as clients see it.
#[derive(Debug)]
pub struct FaceViewV1 {
    pub id: Uuid,
    pub slug: String,
    pub width_px: u32,
    pub height_px: u32,
    pub content_hash: String,
    pub data: Vec<u8>,
}

/// `v` is the view of face row `f`.
pub open spec fn shows_face(v: FaceViewV1, f: Face) -> bool {
    &&& v.id == f.id
    &&& v.slug@ == f.slug@
    &&& v.width_px == f.width_px
    &&& v.height_px == f.height_px
    &&& v.content_hash@ == f.content_hash@
    &&& v.data@ == f.data@
}

/// Every face expression, in table order.
pub fn vw_face_v1(characters: &CharacterServicesImpl) -> (out: Vec<FaceViewV1>)
    ensures
        out@.len() == characters.faces@.len(),
        forall|k: int| 0 <= k < out@.len() ==> shows_face(#[trigger] out@[k], characters.faces@[k]),
{
    let mut out: Vec<FaceViewV1> = Vec::new();
    let mut i: usize = 0;
    while i < characters.faces.len()
        invariant
            i <= characters.faces@.len(),
            out@.len() == i,
            forall|k: int| 0 <= k < i ==> shows_face(#[trigger] out@[k], characters.faces@[k]),
        decreases characters.faces.len() - i,
    {
        let f = &characters.faces[i];
        out.push(
            FaceViewV1 {
                id: f.id,
                slug: f.slug.clone(),
                width_px: f.width_px,
                height_px: f.height_px,
                content_hash: f.content_hash.clone(),
                data: copy_bytes(&f.data),
            },
        );
        i = i + 1;
    }
    out
}

/// One backdrop as clients see it.
#[derive(Debug)]
pub struct BackdropViewV1 {
    pub id: Uuid,
    pub slug: String,
    pub sky: BackdropLayerV1,
    pub far: BackdropLayerV1,
    pub mid: BackdropLayerV1,
}

/// Layer `v` holds what layer `l` holds.
pub open spec fn same_layer(v: BackdropLayerV1, l: BackdropLayerV1) -> bool {
    &&& v.width_px == l.width_px
    &&& v.height_px == l.height_px
    &&& v.content_hash@ == l.content_hash@
    &&& v.data@ == l.data@
}

/// `v` is the view of backdrop row `b`.
pub open spec fn shows_backdrop(v: BackdropViewV1, b: Backdrop) -> bool {
    &&& v.id == b.id
    &&& v.slug@ == b.slug@
    &&& same_layer(v.sky, b.sky)
    &&& same_layer(v.far, b.far)
    &&& same_layer(v.mid, b.mid)
}

fn copy_layer(l: &BackdropLayerV1) -> (c: BackdropLayerV1)
    ensures
        same_layer(c, *l),
{
    BackdropLayerV1 {
        width_px: l.width_px,
        height_px: l.height_px,
        content_hash: l.content_hash.clone(),
        data: copy_bytes(&l.data),
    }
}

/// Every backdrop, in table order: the set is tiny and menus need the
/// default backdrop even when no active level references it.
pub fn vw_backdrop_v1(backdrops: &BackdropServicesImpl) -> (out: Vec<BackdropViewV1>)
    ensures
        out@.len() == backdrops.backdrops@.len(),
        forall|k: int| 0 <= k < out@.len() ==> shows_backdrop(#[trigger] out@[k], backdrops.backdrops@[k]),
{
    let mut out: Vec<BackdropViewV1> = Vec::new();
    let mut i: usize = 0;
    while i < backdrops.backdrops.len()
        invariant
            i <= backdrops.backdrops@.len(),
            out@.len() == i,
            forall|k: int| 0 <= k < i ==> shows_backdrop(#[trigger] out@[k], backdrops.backdrops@[k]),
        decreases backdrops.backdrops.len() - i,
    {
        let b = &backdrops.backdrops[i];
        out.push(
            BackdropViewV1 {
                id: b.id,
                slug: b.slug.clone(),
                sky: copy_layer(&b.sky),
                far: copy_layer(&b.far),
                mid: copy_layer(&b.mid),
            },
        );
        i = i + 1;
    }
    out
}

} // verus!
