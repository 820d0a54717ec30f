//! Lootboxes: definitions, weighted drops, and granted player lootboxes,
//! with the import and opening workflows.

use crate::error::{ServiceError, ServiceResult};
use crate::ids::{hyphenated, Identity, Timestamp, Uuid};
use crate::progression::{lemma_pick_index, pick_index, total_weight, weights_of};
use crate::repository::access::{ensure_owner, is_not_owner};
use crate::repository::character::{
    first_where, is_unknown_character_for_piece, is_unknown_piece, lemma_first_where,
    pieces_of, CharacterServicesImpl,
};
use crate::repository::player::{granted, unlocked_when_owned, count_of, PlayerServicesImpl};
use crate::repository::table::{
    exhausted, find_key, lemma_find_key, position_of, upsert, upsert_row, Row, UuidGen,
};
use crate::text::append_str;
use vstd::prelude::*;

verus! {

/// A lootbox definition.
pub struct LootboxDef {
    pub id: Uuid,
    pub name: String,
}

/// One weighted drop of a lootbox definition.
pub struct LootboxDrop {
    pub id: Uuid,
    pub lootbox_id: Uuid,
    pub piece_id: Uuid,
    pub weight: u32,
}

/// A lootbox granted to a player.
pub struct PlayerLootbox {
    pub id: Uuid,
    pub owner: Identity,
    pub lootbox_id: Uuid,
    pub granted_at: Timestamp,
    pub opened: bool,
    /// Set when the lootbox is opened.
    pub awarded_piece_id: Option<Uuid>,
}

/// The import argument for one drop.
pub struct DropImportV1 {
    pub piece_id: Uuid,
    pub weight: u32,
}

impl Row for LootboxDef {
    open spec fn key(&self) -> Uuid {
        self.id
    }

    fn row_key(&self) -> (k: Uuid) {
        self.id
    }
}

impl Row for PlayerLootbox {
    open spec fn key(&self) -> Uuid {
        self.id
    }

    fn row_key(&self) -> (k: Uuid) {
        self.id
    }
}

/// Lootbox domain failures.
pub enum LootboxError {
    NoDrops,
    ZeroWeight { piece_id: Uuid },
    UnknownDropPiece { piece_id: Uuid },
    UnknownLootbox,
    AlreadyOpened,
    NoWeightedDrops { lootbox_id: Uuid },
    WeightedPickFailed,
}

/// The failure for a lootbox without drops.
pub open spec fn is_no_drops(e: ServiceError) -> bool {
    e is Validation && e.text() == "lootbox must configure at least one drop"@
}

/// The failure for a drop without weight.
pub open spec fn is_zero_weight(e: ServiceError, piece_id: Uuid) -> bool {
    e is Validation && e.text() == "drop '"@ + hyphenated(piece_id.value)
        + "' must have a positive weight"@
}

/// The failure for a drop naming an unknown piece.
pub open spec fn is_unknown_drop_piece(e: ServiceError, piece_id: Uuid) -> bool {
    e is NotFound && e.text() == "drop references unknown piece '"@ + hyphenated(piece_id.value)
        + "'"@
}

/// The failure for an unknown granted lootbox.
pub open spec fn is_unknown_lootbox(e: ServiceError) -> bool {
    e is NotFound && e.text() == "unknown lootbox"@
}

/// The failure for opening a lootbox twice.
pub open spec fn is_already_opened(e: ServiceError) -> bool {
    e is Conflict && e.text() == "lootbox already opened"@
}

/// The failure for a lootbox whose drops weigh nothing.
pub open spec fn is_no_weighted_drops(e: ServiceError, lootbox_id: Uuid) -> bool {
    e is Validation && e.text() == "lootbox '"@ + hyphenated(lootbox_id.value)
        + "' has no weighted drops"@
}

/// The failure for a roll outside the drop table.
pub open spec fn is_weighted_pick_failed(e: ServiceError) -> bool {
    e is Internal && e.text() == "weighted pick failed"@
}

fn with_uuid(prefix: &str, id: Uuid, suffix: &str) -> (m: String)
    ensures
        m@ == prefix@ + hyphenated(id.value) + suffix@,
{
    let mut m = String::new();
    append_str(&mut m, prefix);
    append_str(&mut m, id.to_text().as_str());
    append_str(&mut m, suffix);
    m
}

fn plain(text: &str) -> (m: String)
    ensures
        m@ == text@,
{
    let mut m = String::new();
    append_str(&mut m, text);
    m
}

impl LootboxError {
    pub fn no_drops() -> (e: ServiceError)
        ensures
            is_no_drops(e),
    {
        ServiceError::Validation { message: plain("lootbox must configure at least one drop") }
    }

    pub fn zero_weight(piece_id: Uuid) -> (e: ServiceError)
        ensures
            is_zero_weight(e, piece_id),
    {
        ServiceError::Validation {
            message: with_uuid("drop '", piece_id, "' must have a positive weight"),
        }
    }

    pub fn unknown_drop_piece(piece_id: Uuid) -> (e: ServiceError)
        ensures
            is_unknown_drop_piece(e, piece_id),
    {
        ServiceError::NotFound { message: with_uuid("drop references unknown piece '", piece_id, "'") }
    }

    pub fn unknown_lootbox() -> (e: ServiceError)
        ensures
            is_unknown_lootbox(e),
    {
        ServiceError::NotFound { message: plain("unknown lootbox") }
    }

    pub fn already_opened() -> (e: ServiceError)
        ensures
            is_already_opened(e),
    {
        ServiceError::Conflict { message: plain("lootbox already opened") }
    }

    pub fn no_weighted_drops(lootbox_id: Uuid) -> (e: ServiceError)
        ensures
            is_no_weighted_drops(e, lootbox_id),
    {
        ServiceError::Validation {
            message: with_uuid("lootbox '", lootbox_id, "' has no weighted drops"),
        }
    }

    pub fn weighted_pick_failed() -> (e: ServiceError)
        ensures
            is_weighted_pick_failed(e),
    {
        ServiceError::Internal { message: plain("weighted pick failed") }
    }
}

/// The drops of one lootbox definition, in table order.
pub open spec fn drops_of(drops: Seq<LootboxDrop>, lootbox_id: Uuid) -> Seq<LootboxDrop>
    decreases drops.len(),
{
    if drops.len() == 0 {
        Seq::empty()
    } else if drops.last().lootbox_id == lootbox_id {
        drops_of(drops.drop_last(), lootbox_id).push(drops.last())
    } else {
        drops_of(drops.drop_last(), lootbox_id)
    }
}

/// The drops of every other lootbox definition, in table order.
pub open spec fn drops_except(drops: Seq<LootboxDrop>, lootbox_id: Uuid) -> Seq<LootboxDrop>
    decreases drops.len(),
{
    if drops.len() == 0 {
        Seq::empty()
    } else if drops.last().lootbox_id != lootbox_id {
        drops_except(drops.drop_last(), lootbox_id).push(drops.last())
    } else {
        drops_except(drops.drop_last(), lootbox_id)
    }
}

/// The rarity weight of the character owning a piece, when both exist.
pub open spec fn rarity_of(chars: CharacterServicesImpl, piece_id: Uuid) -> Option<u32> {
    match chars.piece(piece_id) {
        Some(p) => match chars.character(p.character_id) {
            Some(c) => Some(c.rarity_weight),
            None => None,
        },
        None => None,
    }
}

/// The failure `piece_rarity_weight` reports for a piece without rarity.
pub open spec fn is_rarity_error(e: ServiceError, chars: CharacterServicesImpl, piece_id: Uuid) -> bool {
    match chars.piece(piece_id) {
        None => is_unknown_piece(e, piece_id),
        Some(p) => is_unknown_character_for_piece(e, p.character_id),
    }
}

/// The drop without rarity, if any.
pub open spec fn unrated(chars: CharacterServicesImpl) -> spec_fn(LootboxDrop) -> bool {
    |d: LootboxDrop| rarity_of(chars, d.piece_id) is None
}

/// The drop's piece paired with its weight scaled by the rarity weight of
/// the piece's character.
pub open spec fn weighted_of(ds: Seq<LootboxDrop>, chars: CharacterServicesImpl) -> Seq<(Uuid, u64)> {
    Seq::new(
        ds.len(),
        |k: int| (ds[k].piece_id, (ds[k].weight * rarity_of(chars, ds[k].piece_id)->0) as u64),
    )
}

/// Replacing a lootbox's drops keeps exactly the other lootboxes' drop
/// rows, in table order.
pub proof fn lemma_drops_except_is_filter(drops: Seq<LootboxDrop>, lootbox_id: Uuid)
    ensures
        drops_except(drops, lootbox_id) == drops.filter(|d: LootboxDrop| d.lootbox_id != lootbox_id),
    decreases drops.len(),
{
    reveal_with_fuel(Seq::<_>::filter, 1);
    if drops.len() > 0 {
        lemma_drops_except_is_filter(drops.drop_last(), lootbox_id);
    }
}

/// The rarity weight of the character owning piece `piece_id`, looked up
/// in the piece and character tables.
pub open spec fn owner_rarity(chars: CharacterServicesImpl, piece_id: Uuid) -> nat {
    chars.character(chars.piece(piece_id)->0.character_id)->0.rarity_weight as nat
}

/// The drops of a lootbox are exactly its rows of the drop table, in
/// table order.
pub proof fn lemma_drops_of_is_filter(drops: Seq<LootboxDrop>, lootbox_id: Uuid)
    ensures
        drops_of(drops, lootbox_id) == drops.filter(|d: LootboxDrop| d.lootbox_id == lootbox_id),
    decreases drops.len(),
{
    reveal_with_fuel(Seq::<_>::filter, 1);
    if drops.len() > 0 {
        lemma_drops_of_is_filter(drops.drop_last(), lootbox_id);
    }
}

/// Each weight a lootbox pick uses is the drop's weight multiplied by the
/// rarity weight of the character owning the drop's piece, entry by entry
/// and in drop order, whenever every drop's piece and character exist.
pub proof fn lemma_pick_weights(ds: Seq<LootboxDrop>, chars: CharacterServicesImpl)
    requires
        forall|k: int|
            0 <= k < ds.len() ==> chars.piece((#[trigger] ds[k]).piece_id) is Some && chars.character(
                chars.piece(ds[k].piece_id)->0.character_id,
            ) is Some,
    ensures
        weighted_of(ds, chars).len() == ds.len(),
        weights_of(weighted_of(ds, chars)).len() == ds.len(),
        forall|k: int|
            0 <= k < ds.len() ==> (#[trigger] weighted_of(ds, chars)[k]).0 == ds[k].piece_id
                && weighted_of(ds, chars)[k].1 == ds[k].weight * owner_rarity(chars, ds[k].piece_id)
                && weights_of(weighted_of(ds, chars))[k] == ds[k].weight * owner_rarity(chars, ds[k].piece_id),
{
    assert forall|k: int| 0 <= k < ds.len() implies (#[trigger] weighted_of(ds, chars)[k]).0 == ds[k].piece_id
        && weighted_of(ds, chars)[k].1 == ds[k].weight * owner_rarity(chars, ds[k].piece_id)
        && weights_of(weighted_of(ds, chars))[k] == ds[k].weight * owner_rarity(chars, ds[k].piece_id) by {
        let d = ds[k];
        let r = chars.character(chars.piece(d.piece_id)->0.character_id)->0.rarity_weight;
        assert(d.weight as nat * r as nat <= u32::MAX as nat * u32::MAX as nat) by (nonlinear_arith)
            requires
                d.weight <= u32::MAX,
                r <= u32::MAX,
        ;
    }
}

/// The weights a lootbox pick uses, in drop order: each drop's weight
/// times the rarity weight of the character owning its piece.
pub open spec fn pick_weights(ds: Seq<LootboxDrop>, chars: CharacterServicesImpl) -> Seq<nat> {
    Seq::new(ds.len(), |k: int| (ds[k].weight as nat) * owner_rarity(chars, ds[k].piece_id))
}

/// An opening awards the piece of the granted lootbox's drop whose band of
/// pick weights (drop weight times owner rarity, cumulated in drop order)
/// holds the roll.
pub proof fn lemma_awarded_piece_band(
    granted_rows: Seq<PlayerLootbox>,
    drops: Seq<LootboxDrop>,
    chars: CharacterServicesImpl,
    sender: Identity,
    player_lootbox_id: Uuid,
    roll: u64,
)
    requires
        awarded_piece(granted_rows, drops, chars, sender, player_lootbox_id, roll) is Some,
    ensures
        find_key(granted_rows, player_lootbox_id) matches Some(i) && {
            let ds = drops.filter(|d: LootboxDrop| d.lootbox_id == granted_rows[i].lootbox_id);
            let w = pick_weights(ds, chars);
            exists|k: int|
                0 <= k < ds.len() && (#[trigger] ds[k]).piece_id == awarded_piece(
                    granted_rows,
                    drops,
                    chars,
                    sender,
                    player_lootbox_id,
                    roll,
                )->0 && total_weight(w.take(k)) <= roll < total_weight(w.take(k)) + w[k]
        },
{
    let i = find_key(granted_rows, player_lootbox_id)->0;
    let lid = granted_rows[i].lootbox_id;
    lemma_drops_of_is_filter(drops, lid);
    let ds = drops_of(drops, lid);
    lemma_first_where(ds, unrated(chars));
    assert forall|k: int| 0 <= k < ds.len() implies chars.piece((#[trigger] ds[k]).piece_id) is Some
        && chars.character(chars.piece(ds[k].piece_id)->0.character_id) is Some by {
        assert(!unrated(chars)(ds[k]));
    }
    lemma_pick_weights(ds, chars);
    let w = weighted_of(ds, chars);
    assert(weights_of(w) =~= pick_weights(ds, chars));
    lemma_pick_index(weights_of(w), roll as int);
    let p = pick_index(weights_of(w), roll as int)->0;
    assert(ds[p].piece_id == w[p].0);
}

/// A drop to refuse on import: no weight, or an unknown piece.
pub open spec fn bad_drop(chars: CharacterServicesImpl) -> spec_fn(DropImportV1) -> bool {
    |d: DropImportV1| d.weight == 0 || chars.piece(d.piece_id) is None
}

/// Drop rows for lootbox `lootbox_id`, with UUIDs counting up from `start`.
pub open spec fn drop_rows(lootbox_id: Uuid, drops: Seq<DropImportV1>, start: u128) -> Seq<LootboxDrop> {
    Seq::new(
        drops.len(),
        |k: int|
            LootboxDrop {
                id: Uuid { value: (start + k) as u128 },
                lootbox_id,
                piece_id: drops[k].piece_id,
                weight: drops[k].weight,
            },
    )
}

proof fn lemma_drops_of_append(a: Seq<LootboxDrop>, b: Seq<LootboxDrop>, lootbox_id: Uuid)
    ensures
        drops_of(a + b, lootbox_id) == drops_of(a, lootbox_id) + drops_of(b, lootbox_id),
    decreases b.len(),
{
    if b.len() == 0 {
        assert(a + b == a);
        assert(drops_of(a, lootbox_id) + Seq::<LootboxDrop>::empty() == drops_of(a, lootbox_id));
    } else {
        lemma_drops_of_append(a, b.drop_last(), lootbox_id);
        assert((a + b).drop_last() == a + b.drop_last());
        assert((a + b).last() == b.last());
        assert(drops_of(a, lootbox_id) + drops_of(b.drop_last(), lootbox_id).push(b.last())
            == (drops_of(a, lootbox_id) + drops_of(b.drop_last(), lootbox_id)).push(b.last()));
    }
}

proof fn lemma_first_where_append<R>(a: Seq<R>, b: Seq<R>, p: spec_fn(R) -> bool)
    ensures
        first_where(a + b, p) == match first_where(a, p) {
            Some(k) => Some(k),
            None => match first_where(b, p) {
                Some(k) => Some(k + a.len()),
                None => None,
            },
        },
    decreases b.len(),
{
    if b.len() == 0 {
        assert(a + b == a);
    } else {
        lemma_first_where_append(a, b.drop_last(), p);
        assert((a + b).drop_last() == a + b.drop_last());
        assert((a + b).last() == b.last());
    }
}

proof fn lemma_total_push(s: Seq<nat>, x: nat)
    ensures
        total_weight(s.push(x)) == total_weight(s) + x,
    decreases s.len(),
{
    if s.len() > 0 {
        lemma_total_push(s.drop_first(), x);
        assert(s.push(x).drop_first() == s.drop_first().push(x));
        assert(s.push(x)[0] == s[0]);
    } else {
        assert(s.push(x).drop_first() == Seq::<nat>::empty());
        assert(s.push(x)[0] == x);
        assert(total_weight(Seq::<nat>::empty()) == 0);
    }
}

proof fn lemma_total_append(a: Seq<nat>, b: Seq<nat>)
    ensures
        total_weight(a + b) == total_weight(a) + total_weight(b),
    decreases a.len(),
{
    if a.len() > 0 {
        lemma_total_append(a.drop_first(), b);
        assert((a + b).drop_first() == a.drop_first() + b);
    } else {
        assert(a + b == b);
    }
}

/// The lootbox tables.
pub struct LootboxServicesImpl {
    pub defs: Vec<LootboxDef>,
    pub drops: Vec<LootboxDrop>,
    pub granted: Vec<PlayerLootbox>,
}

/// Checked sum of the weights.
fn total_of(weighted: &Vec<(Uuid, u64)>) -> (t: Option<u64>)
    ensures
        match t {
            Some(t) => t == total_weight(weights_of(weighted@)),
            None => total_weight(weights_of(weighted@)) > u64::MAX,
        },
{
    let ghost ws = weights_of(weighted@);
    let mut acc: u64 = 0;
    let mut k: usize = 0;
    while k < weighted.len()
        invariant
            k <= weighted@.len(),
            ws == weights_of(weighted@),
            acc == total_weight(ws.take(k as int)),
        decreases weighted.len() - k,
    {
        let w = weighted[k].1;
        proof {
            assert(ws.take(k + 1) == ws.take(k as int).push(w as nat));
            lemma_total_push(ws.take(k as int), w as nat);
        }
        if w > u64::MAX - acc {
            proof {
                lemma_total_append(ws.take(k + 1), ws.skip(k + 1));
                assert(ws.take(k + 1) + ws.skip(k + 1) == ws);
            }
            return None;
        }
        acc = acc + w;
        k = k + 1;
    }
    assert(ws.take(ws.len() as int) == ws);
    Some(acc)
}

/// Pick one entry from `(id, weight)` pairs given `roll in 0..total_weight`.
/// Zero-weight entries can never be picked.
pub fn pick_weighted(weighted: &[(Uuid, u64)], roll: u64) -> (picked: Option<Uuid>)
    ensures
        match pick_index(weights_of(weighted@), roll as int) {
            Some(i) => picked == Some(weighted@[i].0),
            None => picked is None,
        },
{
    let ghost ws = weights_of(weighted@);
    let mut cursor = roll;
    let mut i: usize = 0;
    assert(ws.skip(0) == ws);
    assert(pick_index(ws, roll as int) == match pick_index(ws.skip(0), cursor as int) {
        Some(j) => Some(j + 0),
        None => None::<int>,
    }) by {
        match pick_index(ws, roll as int) {
            Some(j) => {},
            None => {},
        }
    }
    while i < weighted.len()
        invariant
            i <= weighted.len(),
            ws == weights_of(weighted@),
            pick_index(ws, roll as int) == match pick_index(ws.skip(i as int), cursor as int) {
                Some(j) => Some(j + i),
                None => None::<int>,
            },
        decreases weighted.len() - i,
    {
        let (id, weight) = weighted[i];
        assert(ws.skip(i as int)[0] == weight as nat);
        assert(ws.skip(i as int).drop_first() == ws.skip(i + 1));
        if cursor < weight {
            return Some(id);
        }
        cursor = cursor - weight;
        i = i + 1;
    }
    None
}

impl LootboxServicesImpl {
    /// Empty lootbox tables.
    pub fn new() -> (s: LootboxServicesImpl)
        ensures
            s.defs@.len() == 0,
            s.drops@.len() == 0,
            s.granted@.len() == 0,
    {
        LootboxServicesImpl { defs: Vec::new(), drops: Vec::new(), granted: Vec::new() }
    }

    /// Overwrite one authored lootbox definition and its drop table,
    /// verifying every referenced piece and weight.
    pub fn import_lootbox(
        &mut self,
        chars: &CharacterServicesImpl,
        ids: &mut UuidGen,
        id: Uuid,
        name: String,
        drops: Vec<DropImportV1>,
    ) -> (res: ServiceResult<()>)
        ensures
            if drops@.len() == 0 {
                res is Err && is_no_drops(res->Err_0) && final(self).defs@ == old(self).defs@
                    && final(self).drops@ == old(self).drops@ && final(ids).next == old(ids).next
            } else if let Some(k) = first_where(drops@, bad_drop(*chars)) {
                res is Err && (if drops@[k].weight == 0 {
                    is_zero_weight(res->Err_0, drops@[k].piece_id)
                } else {
                    is_unknown_drop_piece(res->Err_0, drops@[k].piece_id)
                }) && final(self).defs@ == old(self).defs@ && final(self).drops@ == old(self).drops@
                    && final(ids).next == old(ids).next
            } else if old(ids).next + drops@.len() > u128::MAX {
                res is Err && res->Err_0 is Internal && final(self).defs@ == old(self).defs@
                    && final(self).drops@ == old(self).drops@ && final(ids).next == old(ids).next
            } else {
                &&& res is Ok
                &&& final(self).defs@ == upsert(old(self).defs@, LootboxDef { id, name })
                &&& final(self).drops@ == drops_except(old(self).drops@, id) + drop_rows(
                    id,
                    drops@,
                    old(ids).next,
                )
                &&& final(ids).next == old(ids).next + drops@.len()
            },
            final(self).granted@ == old(self).granted@,
    {
        if drops.len() == 0 {
            return Err(LootboxError::no_drops());
        }
        let ghost bad = bad_drop(*chars);
        let mut k: usize = 0;
        while k < drops.len()
            invariant
                k <= drops@.len(),
                bad == bad_drop(*chars),
                forall|j: int| 0 <= j < k ==> !bad(#[trigger] drops@[j]),
            decreases drops.len() - k,
        {
            let d = &drops[k];
            if d.weight == 0 || !chars.piece_exists(d.piece_id) {
                proof {
                    lemma_first_where(drops@, bad);
                    assert(bad(drops@[k as int]));
                    if let Some(f) = first_where(drops@, bad) {
                        if f < k {
                            assert(!bad(drops@[f]));
                        }
                        assert(f <= k);
                    }
                }
                if d.weight == 0 {
                    return Err(LootboxError::zero_weight(d.piece_id));
                }
                return Err(LootboxError::unknown_drop_piece(d.piece_id));
            }
            k = k + 1;
        }
        proof {
            lemma_first_where(drops@, bad);
        }
        if !ids.has_room(drops.len()) {
            return Err(exhausted());
        }
        upsert_row(&mut self.defs, LootboxDef { id, name });
        let mut kept: Vec<LootboxDrop> = Vec::new();
        let mut r: usize = 0;
        let ghost old_drops = self.drops@;
        while r < self.drops.len()
            invariant
                r <= self.drops@.len(),
                self.drops@ == old_drops,
                kept@ == drops_except(old_drops.take(r as int), id),
            decreases self.drops.len() - r,
        {
            assert(old_drops.take(r + 1).drop_last() == old_drops.take(r as int));
            if self.drops[r].lootbox_id != id {
                let d = &self.drops[r];
                kept.push(
                    LootboxDrop {
                        id: d.id,
                        lootbox_id: d.lootbox_id,
                        piece_id: d.piece_id,
                        weight: d.weight,
                    },
                );
            }
            r = r + 1;
        }
        assert(old_drops.take(old_drops.len() as int) == old_drops);
        let ghost start = ids.next;
        let mut n: usize = 0;
        while n < drops.len()
            invariant
                n <= drops@.len(),
                start + drops@.len() <= u128::MAX,
                ids.next == start + n,
                kept@ == drops_except(old_drops, id) + drop_rows(id, drops@.take(n as int), start),
            decreases drops.len() - n,
        {
            let new_id = ids.fresh();
            kept.push(
                LootboxDrop {
                    id: new_id,
                    lootbox_id: id,
                    piece_id: drops[n].piece_id,
                    weight: drops[n].weight,
                },
            );
            assert(drop_rows(id, drops@.take(n + 1), start) == drop_rows(id, drops@.take(n as int), start).push(
                LootboxDrop {
                    id: new_id,
                    lootbox_id: id,
                    piece_id: drops@[n as int].piece_id,
                    weight: drops@[n as int].weight,
                },
            ));
            n = n + 1;
        }
        assert(drops@.take(drops@.len() as int) == drops@);
        self.drops = kept;
        Ok(())
    }

    /// Whether a lootbox definition keyed `lootbox_id` exists.
    pub fn lootbox_exists(&self, lootbox_id: Uuid) -> (b: bool)
        ensures
            b == (find_key(self.defs@, lootbox_id) is Some),
    {
        position_of(&self.defs, lootbox_id).is_some()
    }

    /// Grant `owner` one unopened lootbox of the given definition.
    pub fn grant_lootbox(&mut self, ids: &mut UuidGen, owner: Identity, lootbox_id: Uuid, now: Timestamp)
        -> (res: ServiceResult<()>)
        ensures
            old(ids).next < u128::MAX ==> res is Ok && final(self).granted@ == old(self).granted@.push(
                PlayerLootbox {
                    id: Uuid { value: old(ids).next },
                    owner,
                    lootbox_id,
                    granted_at: now,
                    opened: false,
                    awarded_piece_id: None,
                },
            ) && final(ids).next == old(ids).next + 1,
            old(ids).next == u128::MAX ==> res is Err && res->Err_0 is Internal && final(self).granted@
                == old(self).granted@,
            final(self).defs@ == old(self).defs@,
            final(self).drops@ == old(self).drops@,
    {
        let id = ids.generate_uuid()?;
        self.granted.push(
            PlayerLootbox {
                id,
                owner,
                lootbox_id,
                granted_at: now,
                opened: false,
                awarded_piece_id: None,
            },
        );
        Ok(())
    }

    /// The drops of `lootbox_id` as `(piece, drop weight * rarity weight)`
    /// pairs, in table order; the rarity failure of the first drop without
    /// one.
    pub fn weighted_drops(&self, chars: &CharacterServicesImpl, lootbox_id: Uuid) -> (res:
        ServiceResult<Vec<(Uuid, u64)>>)
        ensures
            match first_where(drops_of(self.drops@, lootbox_id), unrated(*chars)) {
                Some(k) => res is Err && is_rarity_error(
                    res->Err_0,
                    *chars,
                    drops_of(self.drops@, lootbox_id)[k].piece_id,
                ),
                None => res is Ok && res->Ok_0@ == weighted_of(
                    drops_of(self.drops@, lootbox_id),
                    *chars,
                ),
            },
            res matches Ok(w) ==> {
                let ds = self.drops@.filter(|d: LootboxDrop| d.lootbox_id == lootbox_id);
                &&& w@.len() == ds.len()
                &&& forall|k: int|
                    0 <= k < ds.len() ==> (#[trigger] w@[k]).0 == ds[k].piece_id && w@[k].1 == ds[k].weight
                        * owner_rarity(*chars, ds[k].piece_id)
            },
    {
        proof {
            lemma_drops_of_is_filter(self.drops@, lootbox_id);
            let ds = drops_of(self.drops@, lootbox_id);
            lemma_first_where(ds, unrated(*chars));
            if first_where(ds, unrated(*chars)) is None {
                assert forall|k: int| 0 <= k < ds.len() implies chars.piece((#[trigger] ds[k]).piece_id) is Some
                    && chars.character(chars.piece(ds[k].piece_id)->0.character_id) is Some by {
                    assert(!unrated(*chars)(ds[k]));
                }
                lemma_pick_weights(ds, *chars);
            }
        }
        let ghost all = self.drops@;
        let ghost u = unrated(*chars);
        let mut out: Vec<(Uuid, u64)> = Vec::new();
        let mut i: usize = 0;
        while i < self.drops.len()
            invariant
                i <= all.len(),
                all == self.drops@,
                u == unrated(*chars),
                first_where(drops_of(all.take(i as int), lootbox_id), u) is None,
                out@ == weighted_of(drops_of(all.take(i as int), lootbox_id), *chars),
            decreases self.drops.len() - i,
        {
            proof {
                assert(all.take(i + 1).drop_last() == all.take(i as int));
                assert(all.take(i as int) + all.subrange(i as int, i + 1) == all.take(i + 1));
                assert(all.take(i + 1) + all.skip(i + 1) == all);
                lemma_drops_of_append(all.take(i + 1), all.skip(i + 1), lootbox_id);
                lemma_first_where_append(
                    drops_of(all.take(i + 1), lootbox_id),
                    drops_of(all.skip(i + 1), lootbox_id),
                    u,
                );
            }
            if self.drops[i].lootbox_id == lootbox_id {
                let piece_id = self.drops[i].piece_id;
                let weight = self.drops[i].weight;
                let rarity = match chars.piece_rarity_weight(piece_id) {
                    Ok(r) => r,
                    Err(e) => {
                        proof {
                            let pre = drops_of(all.take(i as int), lootbox_id);
                            assert(drops_of(all.take(i + 1), lootbox_id) == pre.push(all[i as int]));
                            lemma_first_where_append(pre, seq![all[i as int]], u);
                            assert(pre.push(all[i as int]) == pre + seq![all[i as int]]);
                            assert(first_where(seq![all[i as int]], u) == Some(0int)) by {
                                assert(seq![all[i as int]].drop_last() =~= Seq::<LootboxDrop>::empty());
                                assert(first_where(Seq::<LootboxDrop>::empty(), u) is None);
                                assert(u(all[i as int]));
                            }
                        }
                        return Err(e);
                    },
                };
                proof {
                    let pre = drops_of(all.take(i as int), lootbox_id);
                    assert(drops_of(all.take(i + 1), lootbox_id) == pre.push(all[i as int]));
                    lemma_first_where_append(pre, seq![all[i as int]], u);
                    assert(pre.push(all[i as int]) == pre + seq![all[i as int]]);
                    assert(first_where(seq![all[i as int]], u) is None) by {
                        assert(seq![all[i as int]].drop_last() =~= Seq::<LootboxDrop>::empty());
                        assert(first_where(Seq::<LootboxDrop>::empty(), u) is None);
                        assert(!u(all[i as int]));
                    }
                    assert(weight as nat * rarity as nat <= u32::MAX as nat * u32::MAX as nat)
                        by (nonlinear_arith)
                        requires
                            weight <= u32::MAX,
                            rarity <= u32::MAX,
                    ;
                }
                out.push((piece_id, weight as u64 * rarity as u64));
                proof {
                    let pre = drops_of(all.take(i as int), lootbox_id);
                    assert(weighted_of(pre.push(all[i as int]), *chars) =~= weighted_of(pre, *chars).push(
                        (piece_id, (weight * rarity) as u64),
                    ));
                }
            } else {
                assert(drops_of(all.take(i + 1), lootbox_id) == drops_of(all.take(i as int), lootbox_id));
            }
            i = i + 1;
        }
        assert(all.take(all.len() as int) == all);
        Ok(out)
    }
    /// Open an unopened lootbox `sender` owns. `roll` is the draw in
    /// `0..total` the reducer takes from its random number generator, where
    /// `total` is the summed weight of [`Self::weighted_drops`]. Picks one
    /// unique piece by that roll over weights of `drop.weight * rarity_weight`
    /// of the piece's character, increments the owner's piece count
    /// (duplicates allowed), persists the award on the lootbox row, and
    /// unlocks the piece's character once every required unique piece is
    /// owned. A failing id generation after the award leaves the changes
    /// made so far for the surrounding transaction to discard.
    pub fn open_lootbox(
        &mut self,
        chars: &CharacterServicesImpl,
        players: &mut PlayerServicesImpl,
        ids: &mut UuidGen,
        sender: Identity,
        player_lootbox_id: Uuid,
        roll: u64,
    ) -> (res: ServiceResult<()>)
        requires
            awarded_piece(old(self).granted@, old(self).drops@, *chars, sender, player_lootbox_id, roll) matches Some(
                p,
            ) ==> count_of(old(players).pieces@, sender, p) < u32::MAX,
        ensures
            opening_outcome(
                *old(self),
                *final(self),
                *chars,
                *old(players),
                *final(players),
                old(ids).next,
                final(ids).next,
                sender,
                player_lootbox_id,
                roll,
                res,
            ),
    {
        let i = match position_of(&self.granted, player_lootbox_id) {
            Some(i) => i,
            None => return Err(LootboxError::unknown_lootbox()),
        };
        ensure_owner(sender, self.granted[i].owner)?;
        if self.granted[i].opened {
            return Err(LootboxError::already_opened());
        }
        let lootbox_id = self.granted[i].lootbox_id;
        let weighted = self.weighted_drops(chars, lootbox_id)?;
        let total = match total_of(&weighted) {
            Some(t) => t,
            None => {
                let mut m = String::new();
                append_str(&mut m, "drop weights overflow");
                return Err(ServiceError::Internal { message: m });
            },
        };
        if total == 0 {
            return Err(LootboxError::no_weighted_drops(lootbox_id));
        }
        let piece_id = match pick_weighted(weighted.as_slice(), roll) {
            Some(p) => p,
            None => return Err(LootboxError::weighted_pick_failed()),
        };
        proof {
            let ds = drops_of(old(self).drops@, lootbox_id);
            let w = weighted_of(ds, *chars);
            lemma_pick_in_table(old(self).drops@, lootbox_id, *chars, roll as int);
        }
        let _count = players.grant_piece(ids, sender, piece_id)?;
        let row = &self.granted[i];
        let updated = PlayerLootbox {
            id: row.id,
            owner: row.owner,
            lootbox_id: row.lootbox_id,
            granted_at: row.granted_at,
            opened: true,
            awarded_piece_id: Some(piece_id),
        };
        self.granted.set(i, updated);
        let piece = chars.find_piece(piece_id)?;
        let required = chars.piece_ids_of_character(piece.character_id);
        players.unlock_character_when_owned(ids, sender, piece.character_id, required.as_slice())?;
        Ok(())
    }
}

/// The tables after a successful opening.
pub struct OpenedTables {
    pub granted: Seq<PlayerLootbox>,
    pub pieces: Seq<crate::repository::player::PlayerPiece>,
    pub unlocked: Seq<crate::repository::player::PlayerUnlockedCharacter>,
    pub next: u128,
}

/// The piece an opening awards: the pick by `roll` over the weighted drops
/// of the granted lootbox's definition, when every step before the award
/// succeeds.
pub open spec fn awarded_piece(
    granted_rows: Seq<PlayerLootbox>,
    drops: Seq<LootboxDrop>,
    chars: CharacterServicesImpl,
    sender: Identity,
    player_lootbox_id: Uuid,
    roll: u64,
) -> Option<Uuid> {
    match find_key(granted_rows, player_lootbox_id) {
        None => None,
        Some(i) => {
            let row = granted_rows[i];
            let ds = drops_of(drops, row.lootbox_id);
            let w = weighted_of(ds, chars);
            let total = total_weight(weights_of(w));
            if row.owner != sender || row.opened || first_where(ds, unrated(chars)) is Some
                || total > u64::MAX || total == 0 {
                None
            } else {
                match pick_index(weights_of(w), roll as int) {
                    Some(p) => Some(w[p].0),
                    None => None,
                }
            }
        },
    }
}

/// The tables after opening, when it succeeds.
pub open spec fn open_outcome(
    granted_rows: Seq<PlayerLootbox>,
    drops: Seq<LootboxDrop>,
    chars: CharacterServicesImpl,
    pieces: Seq<crate::repository::player::PlayerPiece>,
    unlocked: Seq<crate::repository::player::PlayerUnlockedCharacter>,
    next: u128,
    sender: Identity,
    player_lootbox_id: Uuid,
    roll: u64,
) -> Option<OpenedTables> {
    match awarded_piece(granted_rows, drops, chars, sender, player_lootbox_id, roll) {
        None => None,
        Some(piece_id) => {
            let i = find_key(granted_rows, player_lootbox_id)->0;
            let row = granted_rows[i];
            match granted(pieces, next, sender, piece_id) {
                None => None,
                Some(g) => {
                    let character_id = chars.piece(piece_id)->0.character_id;
                    let required = pieces_of(chars.pieces@, character_id);
                    match unlocked_when_owned(
                        unlocked,
                        g.0,
                        g.1,
                        sender,
                        character_id,
                        required,
                    ) {
                        None => None,
                        Some(u) => Some(
                            OpenedTables {
                                granted: granted_rows.update(
                                    i,
                                    PlayerLootbox {
                                        id: row.id,
                                        owner: row.owner,
                                        lootbox_id: row.lootbox_id,
                                        granted_at: row.granted_at,
                                        opened: true,
                                        awarded_piece_id: Some(piece_id),
                                    },
                                ),
                                pieces: g.0,
                                unlocked: u.0,
                                next: u.1,
                            },
                        ),
                    }
                },
            }
        },
    }
}

/// What opening `player_lootbox_id` for `sender` with `roll` does to the
/// lootbox tables `before` (giving `after`), the player tables `p_before`
/// (giving `p_after`) and the next free row UUID, answering `res`: as
/// `open_outcome` says when it succeeds, refused as `open_refusal` says
/// otherwise, and a refusal other than an internal failure changes nothing;
/// the next free row UUID never goes back.
pub open spec fn opening_outcome(
    before: LootboxServicesImpl,
    after: LootboxServicesImpl,
    chars: CharacterServicesImpl,
    p_before: PlayerServicesImpl,
    p_after: PlayerServicesImpl,
    next_before: u128,
    next_after: u128,
    sender: Identity,
    player_lootbox_id: Uuid,
    roll: u64,
    res: ServiceResult<()>,
) -> bool {
    let outcome = open_outcome(
        before.granted@,
        before.drops@,
        chars,
        p_before.pieces@,
        p_before.unlocked@,
        next_before,
        sender,
        player_lootbox_id,
        roll,
    );
    &&& after.defs@ == before.defs@
    &&& after.drops@ == before.drops@
    &&& p_after.players@ == p_before.players@
    &&& outcome matches Some(o) ==> res is Ok && after.granted@ == o.granted && p_after.pieces@ == o.pieces
        && p_after.unlocked@ == o.unlocked && next_after == o.next
    &&& outcome is None ==> res is Err && open_refusal(
        res->Err_0,
        before.granted@,
        before.drops@,
        chars,
        p_before.pieces@,
        p_before.unlocked@,
        next_before,
        sender,
        player_lootbox_id,
        roll,
    )
    &&& res is Err && !(res->Err_0 is Internal) ==> after.granted@ == before.granted@ && p_after.pieces@
        == p_before.pieces@ && p_after.unlocked@ == p_before.unlocked@ && next_after == next_before
    &&& next_before <= next_after
}

/// The refusal an opening answers with, step by step.
pub open spec fn open_refusal(
    e: ServiceError,
    granted_rows: Seq<PlayerLootbox>,
    drops: Seq<LootboxDrop>,
    chars: CharacterServicesImpl,
    pieces: Seq<crate::repository::player::PlayerPiece>,
    unlocked: Seq<crate::repository::player::PlayerUnlockedCharacter>,
    next: u128,
    sender: Identity,
    player_lootbox_id: Uuid,
    roll: u64,
) -> bool {
    match find_key(granted_rows, player_lootbox_id) {
        None => is_unknown_lootbox(e),
        Some(i) => {
            let row = granted_rows[i];
            let ds = drops_of(drops, row.lootbox_id);
            let w = weighted_of(ds, chars);
            let total = total_weight(weights_of(w));
            if row.owner != sender {
                is_not_owner(e, sender)
            } else if row.opened {
                is_already_opened(e)
            } else if let Some(k) = first_where(ds, unrated(chars)) {
                is_rarity_error(e, chars, ds[k].piece_id)
            } else if total > u64::MAX {
                e is Internal
            } else if total == 0 {
                is_no_weighted_drops(e, row.lootbox_id)
            } else if pick_index(weights_of(w), roll as int) is None {
                is_weighted_pick_failed(e)
            } else {
                e is Internal
            }
        },
    }
}

/// An opened lootbox is consumed and can never be opened again: after a
/// successful opening, every further opening of the same lootbox, with any
/// roll, awards nothing and is refused as already opened.
pub proof fn lemma_opened_lootbox_is_consumed(
    granted_rows: Seq<PlayerLootbox>,
    drops: Seq<LootboxDrop>,
    chars: CharacterServicesImpl,
    pieces: Seq<crate::repository::player::PlayerPiece>,
    unlocked: Seq<crate::repository::player::PlayerUnlockedCharacter>,
    next: u128,
    sender: Identity,
    player_lootbox_id: Uuid,
    roll: u64,
    later_roll: u64,
    later_pieces: Seq<crate::repository::player::PlayerPiece>,
    later_unlocked: Seq<crate::repository::player::PlayerUnlockedCharacter>,
    later_next: u128,
    e: ServiceError,
)
    requires
        open_outcome(
            granted_rows,
            drops,
            chars,
            pieces,
            unlocked,
            next,
            sender,
            player_lootbox_id,
            roll,
        ) is Some,
    ensures
        ({
            let after = open_outcome(
                granted_rows,
                drops,
                chars,
                pieces,
                unlocked,
                next,
                sender,
                player_lootbox_id,
                roll,
            )->0.granted;
            &&& open_outcome(
                after,
                drops,
                chars,
                later_pieces,
                later_unlocked,
                later_next,
                sender,
                player_lootbox_id,
                later_roll,
            ) is None
            &&& open_refusal(
                e,
                after,
                drops,
                chars,
                later_pieces,
                later_unlocked,
                later_next,
                sender,
                player_lootbox_id,
                later_roll,
            ) <==> is_already_opened(e)
        }),
{
    let i = find_key(granted_rows, player_lootbox_id)->0;
    let row = granted_rows[i];
    lemma_find_key(granted_rows, player_lootbox_id);
    let piece_id = awarded_piece(granted_rows, drops, chars, sender, player_lootbox_id, roll)->0;
    let updated = PlayerLootbox {
        id: row.id,
        owner: row.owner,
        lootbox_id: row.lootbox_id,
        granted_at: row.granted_at,
        opened: true,
        awarded_piece_id: Some(piece_id),
    };
    crate::repository::table::lemma_find_key_update(granted_rows, i, updated);
    let after = granted_rows.update(i, updated);
    assert(after[i] == updated);
}

/// A picked drop belongs to the lootbox's table and has a rated piece.
proof fn lemma_pick_in_table(drops: Seq<LootboxDrop>, lootbox_id: Uuid, chars: CharacterServicesImpl, roll: int)
    ensures
        ({
            let ds = drops_of(drops, lootbox_id);
            let w = weighted_of(ds, chars);
            first_where(ds, unrated(chars)) is None ==> (pick_index(weights_of(w), roll) matches Some(p)
                ==> 0 <= p < ds.len() && w[p].0 == ds[p].piece_id && rarity_of(chars, ds[p].piece_id) is Some
                && drops.contains(ds[p]))
        }),
{
    let ds = drops_of(drops, lootbox_id);
    let w = weighted_of(ds, chars);
    if roll >= 0 {
        crate::progression::lemma_pick_index(weights_of(w), roll);
    }
    lemma_first_where(ds, unrated(chars));
    lemma_drops_of_contained(drops, lootbox_id);
    if let Some(p) = pick_index(weights_of(w), roll) {
        if 0 <= p < ds.len() && first_where(ds, unrated(chars)) is None {
            assert(!unrated(chars)(ds[p]));
        }
    }
}

proof fn lemma_drops_of_contained(drops: Seq<LootboxDrop>, lootbox_id: Uuid)
    ensures
        forall|k: int| 0 <= k < drops_of(drops, lootbox_id).len() ==> drops.contains(
            #[trigger] drops_of(drops, lootbox_id)[k],
        ),
    decreases drops.len(),
{
    if drops.len() > 0 {
        lemma_drops_of_contained(drops.drop_last(), lootbox_id);
        let ds = drops_of(drops, lootbox_id);
        let prev = drops_of(drops.drop_last(), lootbox_id);
        assert forall|k: int| 0 <= k < ds.len() implies drops.contains(#[trigger] ds[k]) by {
            if k < prev.len() {
                assert(ds[k] == prev[k]);
                let j = choose|j: int| 0 <= j < drops.drop_last().len() && drops.drop_last()[j] == prev[k];
                assert(drops[j] == prev[k]);
            } else {
                assert(ds[k] == drops.last());
                assert(drops[drops.len() - 1] == drops.last());
            }
        }
    }
}

} // verus!
