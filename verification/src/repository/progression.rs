//! Player progression: enabled levels, completions, the selected level,
//! and the first-completion workflow.

use crate::error::{ServiceError, ServiceResult};
use crate::ids::{Identity, Timestamp, Uuid};
use crate::progression::inserts_of;
use crate::repository::character::{first_where, lemma_first_where};
use crate::repository::level::{is_inactive, is_unknown_level, successors_of, LevelServicesImpl};
use crate::repository::lootbox::{LootboxServicesImpl, PlayerLootbox};
use crate::repository::table::{exhausted, find_key, UuidGen};
use crate::text::append_str;
use vstd::prelude::*;

verus! {

/// A level a player may play.
pub struct PlayerEnabledLevel {
    pub id: Uuid,
    pub owner: Identity,
    pub level_id: Uuid,
}

/// A level a player has completed, and when.
pub struct PlayerCompletedLevel {
    pub id: Uuid,
    pub owner: Identity,
    pub level_id: Uuid,
    pub completed_at: Timestamp,
}

/// The level a player has selected to play.
pub struct PlayerSelectedLevel {
    pub owner: Identity,
    pub level_id: Uuid,
}

/// Progression domain failures.
pub enum ProgressionError {
    LevelNotEnabled { owner: Identity, slug: String },
}

/// The failure for playing a level that is not enabled.
pub open spec fn is_level_not_enabled(e: ServiceError, owner: Identity, slug: Seq<char>) -> bool {
    e is Forbidden && e->Forbidden_identity == owner && e.text() == "level '"@ + slug
        + "' is not enabled for this player"@
}

impl ProgressionError {
    pub fn level_not_enabled(owner: Identity, slug: &str) -> (e: ServiceError)
        ensures
            is_level_not_enabled(e, owner, slug@),
    {
        let mut m = String::new();
        append_str(&mut m, "level '");
        append_str(&mut m, slug);
        append_str(&mut m, "' is not enabled for this player");
        ServiceError::Forbidden { identity: owner, message: m }
    }
}

/// The levels enabled for `owner`, in table order.
pub open spec fn enabled_of(rows: Seq<PlayerEnabledLevel>, owner: Identity) -> Seq<Uuid>
    decreases rows.len(),
{
    if rows.len() == 0 {
        Seq::empty()
    } else if rows.last().owner == owner {
        enabled_of(rows.drop_last(), owner).push(rows.last().level_id)
    } else {
        enabled_of(rows.drop_last(), owner)
    }
}

/// The levels enabled for `owner` are exactly the level ids of the
/// enabled-level rows owned by `owner`.
pub proof fn lemma_enabled_of_members(rows: Seq<PlayerEnabledLevel>, owner: Identity)
    ensures
        forall|x: Uuid|
            #![trigger enabled_of(rows, owner).contains(x)]
            enabled_of(rows, owner).contains(x) <==> exists|i: int|
                0 <= i < rows.len() && (#[trigger] rows[i]).owner == owner && rows[i].level_id == x,
    decreases rows.len(),
{
    if rows.len() > 0 {
        let prev = rows.drop_last();
        lemma_enabled_of_members(prev, owner);
        let all = enabled_of(rows, owner);
        let sp = enabled_of(prev, owner);
        assert forall|x: Uuid| all.contains(x) <==> exists|i: int|
            0 <= i < rows.len() && (#[trigger] rows[i]).owner == owner && rows[i].level_id == x by {
            if all.contains(x) {
                let k = choose|k: int| 0 <= k < all.len() && all[k] == x;
                if k < sp.len() {
                    assert(sp[k] == x);
                    assert(sp.contains(x));
                    let i = choose|i: int| 0 <= i < prev.len() && (#[trigger] prev[i]).owner == owner && prev[i].level_id == x;
                    assert(rows[i] == prev[i]);
                } else {
                    assert(rows[rows.len() - 1] == rows.last());
                }
            }
            if exists|i: int| 0 <= i < rows.len() && (#[trigger] rows[i]).owner == owner && rows[i].level_id == x {
                let i = choose|i: int| 0 <= i < rows.len() && (#[trigger] rows[i]).owner == owner && rows[i].level_id == x;
                if i < prev.len() {
                    assert(prev[i] == rows[i]);
                    assert(sp.contains(x));
                    let k = choose|k: int| 0 <= k < sp.len() && sp[k] == x;
                    if rows.last().owner == owner {
                        assert(all[k] == x);
                    }
                } else {
                    assert(rows.last() == rows[i]);
                    assert(all[all.len() - 1] == x);
                }
            }
        }
    }
}

/// Whether `owner` has completed `level_id`.
pub open spec fn completed_in(rows: Seq<PlayerCompletedLevel>, owner: Identity, level_id: Uuid) -> bool {
    exists|i: int| 0 <= i < rows.len() && #[trigger] rows[i].owner == owner && rows[i].level_id == level_id
}

/// How many completion rows record `owner` completing `level_id`.
pub open spec fn completion_count(rows: Seq<PlayerCompletedLevel>, owner: Identity, level_id: Uuid) -> nat
    decreases rows.len(),
{
    if rows.len() == 0 {
        0
    } else {
        completion_count(rows.drop_last(), owner, level_id) + if rows.last().owner == owner
            && rows.last().level_id == level_id {
            1nat
        } else {
            0nat
        }
    }
}

/// Enabled-level rows for `owner` and each of `levels`, with UUIDs counting
/// up from `start`.
pub open spec fn enable_rows(owner: Identity, levels: Seq<Uuid>, start: u128) -> Seq<PlayerEnabledLevel> {
    Seq::new(
        levels.len(),
        |k: int| PlayerEnabledLevel { id: Uuid { value: (start + k) as u128 }, owner, level_id: levels[k] },
    )
}

/// Appending rows adds their levels, for their owner only.
pub proof fn lemma_enabled_of_append(a: Seq<PlayerEnabledLevel>, b: Seq<PlayerEnabledLevel>, owner: Identity)
    ensures
        enabled_of(a + b, owner) == enabled_of(a, owner) + enabled_of(b, owner),
    decreases b.len(),
{
    if b.len() == 0 {
        assert(a + b == a);
        assert(enabled_of(a, owner) + Seq::<Uuid>::empty() == enabled_of(a, owner));
    } else {
        lemma_enabled_of_append(a, b.drop_last(), owner);
        assert((a + b).drop_last() == a + b.drop_last());
        assert((a + b).last() == b.last());
        if b.last().owner == owner {
            assert(enabled_of(a, owner) + enabled_of(b.drop_last(), owner).push(b.last().level_id) == (
            enabled_of(a, owner) + enabled_of(b.drop_last(), owner)).push(b.last().level_id));
        }
    }
}

/// Rows made by `enable_rows` carry exactly their levels for their owner
/// and nothing for anyone else.
pub proof fn lemma_enable_rows_levels(owner: Identity, levels: Seq<Uuid>, start: u128, who: Identity)
    ensures
        enabled_of(enable_rows(owner, levels, start), who) == if who == owner {
            levels
        } else {
            Seq::empty()
        },
    decreases levels.len(),
{
    let rows = enable_rows(owner, levels, start);
    if levels.len() > 0 {
        lemma_enable_rows_levels(owner, levels.drop_last(), start, who);
        assert(rows.drop_last() == enable_rows(owner, levels.drop_last(), start));
        if who == owner {
            assert(levels.drop_last().push(levels.last()) == levels);
        }
    } else {
        assert(rows.len() == 0);
    }
}

/// The selected-level row of `owner`.
pub open spec fn selection_of(owner: Identity) -> spec_fn(PlayerSelectedLevel) -> bool {
    |r: PlayerSelectedLevel| r.owner == owner
}

/// Whether a completion grants a reward lootbox: the level names one and
/// its definition exists.
pub open spec fn grants_reward(reward: Option<Uuid>, lootboxes: LootboxServicesImpl) -> bool {
    reward matches Some(r) && find_key(lootboxes.defs@, r) is Some
}

fn contains_uuid(v: &[Uuid], x: Uuid) -> (b: bool)
    ensures
        b == v@.contains(x),
{
    let mut i: usize = 0;
    while i < v.len()
        invariant
            i <= v.len(),
            forall|j: int| 0 <= j < i ==> v@[j] != x,
        decreases v.len() - i,
    {
        if v[i] == x {
            assert(v@[i as int] == x);
            return true;
        }
        i = i + 1;
    }
    false
}

/// Configured successors to insert: targets not already enabled, deduplicated.
pub fn successor_inserts(configured: &[Uuid], enabled: &[Uuid]) -> (inserts: Vec<Uuid>)
    ensures
        inserts@ == inserts_of(configured@, enabled@),
{
    let mut inserts: Vec<Uuid> = Vec::new();
    let mut i: usize = 0;
    while i < configured.len()
        invariant
            i <= configured.len(),
            inserts@ == inserts_of(configured@.take(i as int), enabled@),
        decreases configured.len() - i,
    {
        let successor = configured[i];
        assert(configured@.take(i + 1).drop_last() == configured@.take(i as int));
        if !contains_uuid(enabled, successor) && !contains_uuid(inserts.as_slice(), successor) {
            inserts.push(successor);
        }
        i = i + 1;
    }
    assert(configured@.take(configured@.len() as int) == configured@);
    inserts
}


/// Whether a completion of `level_id` by `owner` is a first completion of
/// an active, enabled level.
pub open spec fn records_completion(
    levels: LevelServicesImpl,
    progression: ProgressionServices,
    owner: Identity,
    level_id: Uuid,
) -> bool {
    match levels.level(level_id) {
        Some(l) => l.active && enabled_of(progression.enabled@, owner).contains(level_id)
            && !completed_in(progression.completed@, owner, level_id),
        None => false,
    }
}

/// What completing `level_id` for `owner` at `now` does to the progression
/// tables `before` (giving `after`), the lootbox tables `lb_before` (giving
/// `lb_after`) and the next free row UUID, answering `res`: unknown,
/// inactive or not enabled levels are refused; a level already completed
/// is a no-op; the first completion records it, enables the successors not
/// yet enabled and grants the reward lootbox when it exists.
pub open spec fn completion_outcome(
    levels: LevelServicesImpl,
    before: ProgressionServices,
    after: ProgressionServices,
    lb_before: LootboxServicesImpl,
    lb_after: LootboxServicesImpl,
    next_before: u128,
    next_after: u128,
    owner: Identity,
    level_id: Uuid,
    now: Timestamp,
    res: ServiceResult<()>,
) -> bool {
    &&& lb_after.defs@ == lb_before.defs@
    &&& lb_after.drops@ == lb_before.drops@
    &&& after.selected@ == before.selected@
    &&& match levels.level(level_id) {
        None => res is Err && is_unknown_level(res->Err_0, level_id),
        Some(l) => if !l.active {
            res is Err && is_inactive(res->Err_0, l.slug@)
        } else if !enabled_of(before.enabled@, owner).contains(level_id) {
            res is Err && is_level_not_enabled(res->Err_0, owner, l.slug@)
        } else if completed_in(before.completed@, owner, level_id) {
            res is Ok
        } else {
            let fresh = inserts_of(
                successors_of(levels.successors@, level_id),
                enabled_of(before.enabled@, owner),
            );
            let reward: nat = if grants_reward(l.reward_lootbox_id, lb_before) {
                1
            } else {
                0
            };
            if next_before + 1 + fresh.len() + reward > u128::MAX {
                res is Err && res->Err_0 is Internal
            } else {
                &&& res is Ok
                &&& after.completed@ == before.completed@.push(
                    PlayerCompletedLevel {
                        id: Uuid { value: next_before },
                        owner,
                        level_id,
                        completed_at: now,
                    },
                )
                &&& after.enabled@ == before.enabled@ + enable_rows(
                    owner,
                    fresh,
                    (next_before + 1) as u128,
                )
                &&& lb_after.granted@ == if reward == 1 {
                    lb_before.granted@.push(
                        PlayerLootbox {
                            id: Uuid { value: (next_before + 1 + fresh.len()) as u128 },
                            owner,
                            lootbox_id: l.reward_lootbox_id->0,
                            granted_at: now,
                            opened: false,
                            awarded_piece_id: None,
                        },
                    )
                } else {
                    lb_before.granted@
                }
                &&& next_after == next_before + 1 + fresh.len() + reward
            }
        },
    }
    &&& !(res is Ok && records_completion(levels, before, owner, level_id)) ==> after.completed@
        == before.completed@ && after.enabled@ == before.enabled@ && lb_after.granted@ == lb_before.granted@
        && next_after == next_before
}

/// What selecting `level_id` for `owner` does to the progression tables
/// `before`, giving `after`, answering `res`: unknown, inactive or not
/// enabled levels are refused; otherwise the owner's selection row is
/// replaced in place, or one is added.
pub open spec fn selection_outcome(
    levels: LevelServicesImpl,
    before: ProgressionServices,
    after: ProgressionServices,
    owner: Identity,
    level_id: Uuid,
    res: ServiceResult<()>,
) -> bool {
    &&& after.enabled@ == before.enabled@
    &&& after.completed@ == before.completed@
    &&& match levels.level(level_id) {
        None => res is Err && is_unknown_level(res->Err_0, level_id) && after.selected@ == before.selected@,
        Some(l) => if !l.active {
            res is Err && is_inactive(res->Err_0, l.slug@) && after.selected@ == before.selected@
        } else if !enabled_of(before.enabled@, owner).contains(level_id) {
            res is Err && is_level_not_enabled(res->Err_0, owner, l.slug@) && after.selected@
                == before.selected@
        } else {
            res is Ok && after.selected@ == match first_where(before.selected@, selection_of(owner)) {
                Some(i) => before.selected@.update(i, PlayerSelectedLevel { owner, level_id }),
                None => before.selected@.push(PlayerSelectedLevel { owner, level_id }),
            }
        },
    }
}

/// The progression tables.
pub struct ProgressionServices {
    pub enabled: Vec<PlayerEnabledLevel>,
    pub completed: Vec<PlayerCompletedLevel>,
    pub selected: Vec<PlayerSelectedLevel>,
}

impl ProgressionServices {
    /// Empty progression tables.
    pub fn new() -> (s: ProgressionServices)
        ensures
            s.enabled@.len() == 0,
            s.completed@.len() == 0,
            s.selected@.len() == 0,
    {
        ProgressionServices { enabled: Vec::new(), completed: Vec::new(), selected: Vec::new() }
    }

    /// The levels enabled for `owner`, in table order.
    pub fn enabled_level_ids(&self, owner: Identity) -> (ids: Vec<Uuid>)
        ensures
            ids@ == enabled_of(self.enabled@, owner),
            forall|x: Uuid|
                ids@.contains(x) <==> exists|i: int|
                    0 <= i < self.enabled@.len() && (#[trigger] self.enabled@[i]).owner == owner
                        && self.enabled@[i].level_id == x,
    {
        proof {
            lemma_enabled_of_members(self.enabled@, owner);
        }
        let mut ids: Vec<Uuid> = Vec::new();
        let mut i: usize = 0;
        while i < self.enabled.len()
            invariant
                i <= self.enabled@.len(),
                ids@ == enabled_of(self.enabled@.take(i as int), owner),
            decreases self.enabled.len() - i,
        {
            assert(self.enabled@.take(i + 1).drop_last() == self.enabled@.take(i as int));
            if self.enabled[i].owner == owner {
                ids.push(self.enabled[i].level_id);
            }
            i = i + 1;
        }
        assert(self.enabled@.take(self.enabled@.len() as int) == self.enabled@);
        ids
    }

    /// Whether `level_id` is enabled for `owner`.
    pub fn is_enabled(&self, owner: Identity, level_id: Uuid) -> (b: bool)
        ensures
            b == enabled_of(self.enabled@, owner).contains(level_id),
    {
        let ids = self.enabled_level_ids(owner);
        contains_uuid(ids.as_slice(), level_id)
    }

    /// Whether `owner` has completed `level_id`.
    pub fn has_completed(&self, owner: Identity, level_id: Uuid) -> (b: bool)
        ensures
            b == completed_in(self.completed@, owner, level_id),
    {
        let mut i: usize = 0;
        while i < self.completed.len()
            invariant
                i <= self.completed@.len(),
                forall|j: int|
                    0 <= j < i ==> !(#[trigger] self.completed@[j].owner == owner
                        && self.completed@[j].level_id == level_id),
            decreases self.completed.len() - i,
        {
            if self.completed[i].owner == owner && self.completed[i].level_id == level_id {
                assert(self.completed@[i as int].owner == owner);
                return true;
            }
            i = i + 1;
        }
        false
    }

    /// Idempotently enable each of the given levels for `owner`.
    pub fn enable_levels_if_absent(&mut self, ids: &mut UuidGen, owner: Identity, level_ids: &[Uuid])
        -> (res: ServiceResult<()>)
        ensures
            ({
                let fresh = inserts_of(level_ids@, enabled_of(old(self).enabled@, owner));
                if old(ids).next + fresh.len() <= u128::MAX {
                    res is Ok && final(self).enabled@ == old(self).enabled@ + enable_rows(
                        owner,
                        fresh,
                        old(ids).next,
                    ) && final(ids).next == old(ids).next + fresh.len()
                } else {
                    res is Err && res->Err_0 is Internal && final(self).enabled@ == old(self).enabled@
                        && final(ids).next == old(ids).next
                }
            }),
            final(self).completed@ == old(self).completed@,
            final(self).selected@ == old(self).selected@,
    {
        let enabled = self.enabled_level_ids(owner);
        let fresh = successor_inserts(level_ids, enabled.as_slice());
        if !ids.has_room(fresh.len()) {
            return Err(exhausted());
        }
        let ghost start = ids.next;
        let ghost before = self.enabled@;
        let mut k: usize = 0;
        while k < fresh.len()
            invariant
                k <= fresh@.len(),
                start + fresh@.len() <= u128::MAX,
                ids.next == start + k,
                self.enabled@ == before + enable_rows(owner, fresh@.take(k as int), start),
                self.completed@ == old(self).completed@,
                self.selected@ == old(self).selected@,
            decreases fresh.len() - k,
        {
            let id = ids.fresh();
            self.enabled.push(PlayerEnabledLevel { id, owner, level_id: fresh[k] });
            assert(enable_rows(owner, fresh@.take(k + 1), start) =~= enable_rows(
                owner,
                fresh@.take(k as int),
                start,
            ).push(PlayerEnabledLevel { id, owner, level_id: fresh@[k as int] }));
            k = k + 1;
        }
        assert(fresh@.take(fresh@.len() as int) == fresh@);
        Ok(())
    }

    /// Client-reported completion of an enabled level. Idempotent: the first
    /// completion records it, enables configured successors, and grants
    /// exactly one unopened reward lootbox in the same transaction; replays
    /// are no-ops.
    pub fn complete_level(
        &mut self,
        levels: &LevelServicesImpl,
        lootboxes: &mut LootboxServicesImpl,
        ids: &mut UuidGen,
        owner: Identity,
        level_id: Uuid,
        now: Timestamp,
    ) -> (res: ServiceResult<()>)
        ensures
            completion_outcome(
                *levels,
                *old(self),
                *final(self),
                *old(lootboxes),
                *final(lootboxes),
                old(ids).next,
                final(ids).next,
                owner,
                level_id,
                now,
                res,
            ),
    {
        let level = levels.find_active_level(level_id)?;
        if !self.is_enabled(owner, level_id) {
            return Err(ProgressionError::level_not_enabled(owner, level.slug.as_str()));
        }
        if self.has_completed(owner, level_id) {
            return Ok(());
        }
        let successors = levels.successor_ids(level_id);
        let enabled = self.enabled_level_ids(owner);
        let fresh = successor_inserts(successors.as_slice(), enabled.as_slice());
        let reward: Option<Uuid> = match level.reward_lootbox_id {
            Some(r) => if lootboxes.lootbox_exists(r) {
                Some(r)
            } else {
                None
            },
            None => None,
        };
        let needed: usize = if reward.is_some() {
            1
        } else {
            0
        };
        if !ids.has_room(1) || !(fresh.len() as u128 <= u128::MAX - ids.next - 1) || !(
        needed as u128 <= u128::MAX - ids.next - 1 - fresh.len() as u128) {
            return Err(exhausted());
        }
        let id = ids.fresh();
        self.completed.push(PlayerCompletedLevel { id, owner, level_id, completed_at: now });
        let r = self.enable_levels_if_absent(ids, owner, successors.as_slice());
        match r {
            Ok(()) => {},
            Err(e) => return Err(e),
        }
        if let Some(reward_lootbox_id) = reward {
            let g = lootboxes.grant_lootbox(ids, owner, reward_lootbox_id, now);
            match g {
                Ok(()) => {},
                Err(e) => return Err(e),
            }
        }
        Ok(())
    }

    /// Select one of the caller's enabled levels to play, replacing any
    /// previous selection.
    #[verifier::loop_isolation(false)]
    pub fn select_level(&mut self, levels: &LevelServicesImpl, owner: Identity, level_id: Uuid) -> (res:
        ServiceResult<()>)
        ensures
            selection_outcome(*levels, *old(self), *final(self), owner, level_id, res),
    {
        let level = levels.find_active_level(level_id)?;
        if !self.is_enabled(owner, level_id) {
            return Err(ProgressionError::level_not_enabled(owner, level.slug.as_str()));
        }
        let ghost pr = selection_of(owner);
        let mut i: usize = 0;
        while i < self.selected.len()
            invariant
                i <= self.selected@.len(),
                pr == selection_of(owner),
                self.selected@ == old(self).selected@,
                self.enabled@ == old(self).enabled@,
                self.completed@ == old(self).completed@,
                forall|j: int| 0 <= j < i ==> !pr(#[trigger] self.selected@[j]),
            decreases self.selected.len() - i,
        {
            if self.selected[i].owner == owner {
                proof {
                    lemma_first_where(self.selected@, pr);
                    if let Some(k) = first_where(self.selected@, pr) {
                        if k < i {
                            assert(!pr(self.selected@[k]));
                        }
                        assert(pr(self.selected@[i as int]));
                    }
                }
                self.selected.set(i, PlayerSelectedLevel { owner, level_id });
                return Ok(());
            }
            i = i + 1;
        }
        proof {
            lemma_first_where(self.selected@, pr);
        }
        self.selected.push(PlayerSelectedLevel { owner, level_id });
        Ok(())
    }
}

} // verus!
