//! Level content: metadata, component placements, and successor edges,
//! with the level import workflow and level lookups.

use crate::error::{ServiceError, ServiceResult};
use crate::ids::{hyphenated, Uuid};
use crate::repository::character::{first_where, lemma_first_where};
use crate::repository::component::{
    backdrop_slug_is, component_slug_is, BackdropServicesImpl, ComponentServicesImpl,
};
use crate::repository::table::{
    exhausted, find_key, lemma_find_key, position_of, upsert, upsert_row, Row, UuidGen,
};
use crate::text::append_str;
use vstd::prelude::*;

verus! {

/// A point on the gameplay plane.
#[derive(Debug, Clone, Copy, PartialEq, Eq, Structural)]
pub struct Vec2 {
    pub x: u16,
    pub y: u16,
}

/// A point on the gameplay plane with a draw depth.
#[derive(Debug, Clone, Copy, PartialEq, Eq, Structural)]
pub struct Vec3 {
    pub x: u16,
    pub y: u16,
    pub z: i8,
}

/// One level's metadata.
pub struct Level {
    pub id: Uuid,
    /// Readable operator/UI slug; never a foreign key.
    pub slug: String,
    pub name: String,
    pub is_starting: bool,
    pub active: bool,
    pub reward_lootbox_id: Option<Uuid>,
    /// The level's scenery theme, resolved from the authored backdrop slug.
    pub backdrop_id: Uuid,
    pub spawn: Vec2,
    pub finish: Vec2,
}

/// One component placed in a level. `scale_bits` is the IEEE-754 `f32`
/// bit pattern of the scale, stored unchanged.
pub struct LevelPlacement {
    pub id: Uuid,
    pub level_id: Uuid,
    pub component_id: Uuid,
    pub position: Vec3,
    pub flip_x: bool,
    pub scale_bits: u32,
    /// Draw order within the level (import list order).
    pub order: u32,
}

/// A level another level unlocks on completion.
pub struct LevelSuccessor {
    pub id: Uuid,
    pub level_id: Uuid,
    pub successor_id: Uuid,
}

/// The import argument for one placement.
pub struct PlacementImportV1 {
    /// The component's authored identity; resolved to its UUID at import.
    pub component_slug: String,
    pub position: Vec3,
    pub flip_x: bool,
    pub scale_bits: u32,
}

/// A validated request to overwrite one authored level.
pub struct LevelImport {
    pub id: Uuid,
    pub slug: String,
    pub name: String,
    pub is_starting: bool,
    pub active: bool,
    pub reward_lootbox_id: Option<Uuid>,
    pub successors: Vec<Uuid>,
    /// The backdrop's authored identity; resolved to its UUID at import.
    pub backdrop_slug: String,
    pub spawn: Vec2,
    pub finish: Vec2,
    pub placements: Vec<PlacementImportV1>,
}

/// What the shared geometry check reads of one placement.
pub struct PlacementFacts {
    pub position: Vec3,
    pub scale_bits: u32,
    pub component_width_px: u32,
    pub component_height_px: u32,
}

impl Row for Level {
    open spec fn key(&self) -> Uuid {
        self.id
    }

    fn row_key(&self) -> (k: Uuid) {
        self.id
    }
}

/// Level domain failures.
pub enum LevelError {
    UnknownComponent { level_slug: String, component_slug: String },
    UnknownBackdrop { level_slug: String, backdrop_slug: String },
    SelfSuccessor { level_slug: String },
    SlugConflict { slug: String, existing_id: Uuid },
    UnknownLevel { level_id: Uuid },
    Inactive { slug: String },
}

/// The failure for a placement of an unknown component.
pub open spec fn is_unknown_component(e: ServiceError, level_slug: Seq<char>, component_slug: Seq<char>) -> bool {
    e is Validation && e.text() == "level '"@ + level_slug + "' places unknown component '"@
        + component_slug + "'"@
}

/// The failure for an unknown backdrop slug.
pub open spec fn is_unknown_backdrop(e: ServiceError, level_slug: Seq<char>, backdrop_slug: Seq<char>) -> bool {
    e is Validation && e.text() == "level '"@ + level_slug + "' references unknown backdrop '"@
        + backdrop_slug + "'"@
}

/// The failure for a level listed as its own successor.
pub open spec fn is_self_successor(e: ServiceError, level_slug: Seq<char>) -> bool {
    e is Validation && e.text() == "level '"@ + level_slug + "' lists itself as a successor"@
}

/// The failure for a slug taken by another level.
pub open spec fn is_slug_conflict(e: ServiceError, slug: Seq<char>, existing_id: Uuid) -> bool {
    e is Conflict && e.text() == "slug '"@ + slug + "' already belongs to level "@ + hyphenated(
        existing_id.value,
    )
}

/// The failure for an unknown level.
pub open spec fn is_unknown_level(e: ServiceError, level_id: Uuid) -> bool {
    e is NotFound && e.text() == "unknown level '"@ + hyphenated(level_id.value) + "'"@
}

/// The failure for an inactive level.
pub open spec fn is_inactive(e: ServiceError, slug: Seq<char>) -> bool {
    e is Conflict && e.text() == "level '"@ + slug + "' is not active"@
}

fn text3(a: &str, b: &str, c: &str) -> (m: String)
    ensures
        m@ == a@ + b@ + c@,
{
    let mut m = String::new();
    append_str(&mut m, a);
    append_str(&mut m, b);
    append_str(&mut m, c);
    m
}

impl LevelError {
    pub fn unknown_component(level_slug: &str, component_slug: &str) -> (e: ServiceError)
        ensures
            is_unknown_component(e, level_slug@, component_slug@),
    {
        let mut m = text3("level '", level_slug, "' places unknown component '");
        append_str(&mut m, component_slug);
        append_str(&mut m, "'");
        ServiceError::Validation { message: m }
    }

    pub fn unknown_backdrop(level_slug: &str, backdrop_slug: &str) -> (e: ServiceError)
        ensures
            is_unknown_backdrop(e, level_slug@, backdrop_slug@),
    {
        let mut m = text3("level '", level_slug, "' references unknown backdrop '");
        append_str(&mut m, backdrop_slug);
        append_str(&mut m, "'");
        ServiceError::Validation { message: m }
    }

    pub fn self_successor(level_slug: &str) -> (e: ServiceError)
        ensures
            is_self_successor(e, level_slug@),
    {
        ServiceError::Validation {
            message: text3("level '", level_slug, "' lists itself as a successor"),
        }
    }

    pub fn slug_conflict(slug: &str, existing_id: Uuid) -> (e: ServiceError)
        ensures
            is_slug_conflict(e, slug@, existing_id),
    {
        let mut m = text3("slug '", slug, "' already belongs to level ");
        append_str(&mut m, existing_id.to_text().as_str());
        ServiceError::Conflict { message: m }
    }

    pub fn unknown_level(level_id: Uuid) -> (e: ServiceError)
        ensures
            is_unknown_level(e, level_id),
    {
        let mut m = text3("unknown level '", level_id.to_text().as_str(), "'");
        ServiceError::NotFound { message: m }
    }

    pub fn inactive(slug: &str) -> (e: ServiceError)
        ensures
            is_inactive(e, slug@),
    {
        ServiceError::Conflict { message: text3("level '", slug, "' is not active") }
    }
}

/// The level row with the given slug.
pub open spec fn level_slug_is(slug: Seq<char>) -> spec_fn(Level) -> bool {
    |l: Level| l.slug@ == slug
}

/// A placement whose component slug is not in the library.
pub open spec fn unknown_placement(components: Seq<crate::repository::component::Component>) -> spec_fn(
    PlacementImportV1,
) -> bool {
    |p: PlacementImportV1| first_where(components, component_slug_is(p.component_slug@)) is None
}

/// The UUID of the component a placement resolves to.
pub open spec fn resolved_component(
    components: Seq<crate::repository::component::Component>,
    p: PlacementImportV1,
) -> Uuid {
    components[first_where(components, component_slug_is(p.component_slug@))->0].id
}

/// The facts the geometry check reads of each placement, when every
/// placement resolves.
pub open spec fn placement_facts_of(
    components: Seq<crate::repository::component::Component>,
    placements: Seq<PlacementImportV1>,
) -> Seq<PlacementFacts> {
    Seq::new(
        placements.len(),
        |k: int|
            {
                let c = components[first_where(
                    components,
                    component_slug_is(placements[k].component_slug@),
                )->0];
                PlacementFacts {
                    position: placements[k].position,
                    scale_bits: placements[k].scale_bits,
                    component_width_px: c.width_px,
                    component_height_px: c.height_px,
                }
            },
    )
}

/// Placement rows for level `level_id`, in import order, with UUIDs counting
/// up from `start`.
pub open spec fn placement_rows(
    components: Seq<crate::repository::component::Component>,
    level_id: Uuid,
    placements: Seq<PlacementImportV1>,
    start: u128,
) -> Seq<LevelPlacement> {
    Seq::new(
        placements.len(),
        |k: int|
            LevelPlacement {
                id: Uuid { value: (start + k) as u128 },
                level_id,
                component_id: resolved_component(components, placements[k]),
                position: placements[k].position,
                flip_x: placements[k].flip_x,
                scale_bits: placements[k].scale_bits,
                order: k as u32,
            },
    )
}

/// Successor rows for level `level_id`, with UUIDs counting up from `start`.
pub open spec fn successor_rows(level_id: Uuid, successors: Seq<Uuid>, start: u128) -> Seq<LevelSuccessor> {
    Seq::new(
        successors.len(),
        |k: int|
            LevelSuccessor {
                id: Uuid { value: (start + k) as u128 },
                level_id,
                successor_id: successors[k],
            },
    )
}

/// The placements of every other level.
pub open spec fn placements_except(rows: Seq<LevelPlacement>, level_id: Uuid) -> Seq<LevelPlacement>
    decreases rows.len(),
{
    if rows.len() == 0 {
        Seq::empty()
    } else if rows.last().level_id != level_id {
        placements_except(rows.drop_last(), level_id).push(rows.last())
    } else {
        placements_except(rows.drop_last(), level_id)
    }
}

/// The successor edges of every other level.
pub open spec fn successors_except(rows: Seq<LevelSuccessor>, level_id: Uuid) -> Seq<LevelSuccessor>
    decreases rows.len(),
{
    if rows.len() == 0 {
        Seq::empty()
    } else if rows.last().level_id != level_id {
        successors_except(rows.drop_last(), level_id).push(rows.last())
    } else {
        successors_except(rows.drop_last(), level_id)
    }
}

/// Replacing a level's placements keeps exactly the other levels'
/// placement rows, in table order.
pub proof fn lemma_placements_except_is_filter(rows: Seq<LevelPlacement>, level_id: Uuid)
    ensures
        placements_except(rows, level_id) == rows.filter(|p: LevelPlacement| p.level_id != level_id),
    decreases rows.len(),
{
    reveal_with_fuel(Seq::<_>::filter, 1);
    if rows.len() > 0 {
        lemma_placements_except_is_filter(rows.drop_last(), level_id);
    }
}

/// Replacing a level's successor edges keeps exactly the other levels'
/// edges, in table order.
pub proof fn lemma_successors_except_is_filter(rows: Seq<LevelSuccessor>, level_id: Uuid)
    ensures
        successors_except(rows, level_id) == rows.filter(|e: LevelSuccessor| e.level_id != level_id),
    decreases rows.len(),
{
    reveal_with_fuel(Seq::<_>::filter, 1);
    if rows.len() > 0 {
        lemma_successors_except_is_filter(rows.drop_last(), level_id);
    }
}

/// The successors of a level, in table order.
pub open spec fn successors_of(rows: Seq<LevelSuccessor>, level_id: Uuid) -> Seq<Uuid>
    decreases rows.len(),
{
    if rows.len() == 0 {
        Seq::empty()
    } else if rows.last().level_id == level_id {
        successors_of(rows.drop_last(), level_id).push(rows.last().successor_id)
    } else {
        successors_of(rows.drop_last(), level_id)
    }
}

/// The successors of a level are exactly the successor ids of the
/// successor rows that start from it.
pub proof fn lemma_successors_of_members(rows: Seq<LevelSuccessor>, level_id: Uuid)
    ensures
        forall|x: Uuid|
            #![trigger successors_of(rows, level_id).contains(x)]
            successors_of(rows, level_id).contains(x) <==> exists|i: int|
                0 <= i < rows.len() && (#[trigger] rows[i]).level_id == level_id && rows[i].successor_id == x,
    decreases rows.len(),
{
    if rows.len() > 0 {
        let prev = rows.drop_last();
        lemma_successors_of_members(prev, level_id);
        let all = successors_of(rows, level_id);
        let sp = successors_of(prev, level_id);
        assert forall|x: Uuid| all.contains(x) <==> exists|i: int|
            0 <= i < rows.len() && (#[trigger] rows[i]).level_id == level_id && rows[i].successor_id == x by {
            if all.contains(x) {
                let k = choose|k: int| 0 <= k < all.len() && all[k] == x;
                if k < sp.len() {
                    assert(sp[k] == x);
                    assert(sp.contains(x));
                    let i = choose|i: int|
                        0 <= i < prev.len() && (#[trigger] prev[i]).level_id == level_id && prev[i].successor_id == x;
                    assert(rows[i] == prev[i]);
                } else {
                    assert(rows[rows.len() - 1] == rows.last());
                }
            }
            if exists|i: int| 0 <= i < rows.len() && (#[trigger] rows[i]).level_id == level_id && rows[i].successor_id == x {
                let i = choose|i: int|
                    0 <= i < rows.len() && (#[trigger] rows[i]).level_id == level_id && rows[i].successor_id == x;
                if i < prev.len() {
                    assert(prev[i] == rows[i]);
                    assert(sp.contains(x));
                    let k = choose|k: int| 0 <= k < sp.len() && sp[k] == x;
                    if rows.last().level_id == level_id {
                        assert(all[k] == x);
                    }
                } else {
                    assert(rows.last() == rows[i]);
                    assert(all[all.len() - 1] == x);
                }
            }
        }
    }
}

/// The active starting levels are exactly the ids of the level rows that
/// are both active and starting.
pub proof fn lemma_active_starting_members(rows: Seq<Level>)
    ensures
        forall|x: Uuid|
            #![trigger active_starting(rows).contains(x)]
            active_starting(rows).contains(x) <==> exists|i: int|
                0 <= i < rows.len() && (#[trigger] rows[i]).active && (#[trigger] rows[i]).is_starting && rows[i].id == x,
    decreases rows.len(),
{
    if rows.len() > 0 {
        let prev = rows.drop_last();
        lemma_active_starting_members(prev);
        let all = active_starting(rows);
        let sp = active_starting(prev);
        assert forall|x: Uuid| all.contains(x) <==> exists|i: int|
            0 <= i < rows.len() && (#[trigger] rows[i]).active && (#[trigger] rows[i]).is_starting && rows[i].id == x by {
            if all.contains(x) {
                let k = choose|k: int| 0 <= k < all.len() && all[k] == x;
                if k < sp.len() {
                    assert(sp[k] == x);
                    assert(sp.contains(x));
                    let i = choose|i: int| 0 <= i < prev.len() && (#[trigger] prev[i]).active && (#[trigger] prev[i]).is_starting && prev[i].id == x;
                    assert(rows[i] == prev[i]);
                } else {
                    assert(rows[rows.len() - 1] == rows.last());
                }
            }
            if exists|i: int| 0 <= i < rows.len() && (#[trigger] rows[i]).active && (#[trigger] rows[i]).is_starting && rows[i].id == x {
                let i = choose|i: int| 0 <= i < rows.len() && (#[trigger] rows[i]).active && (#[trigger] rows[i]).is_starting && rows[i].id == x;
                if i < prev.len() {
                    assert(prev[i] == rows[i]);
                    assert(sp.contains(x));
                    let k = choose|k: int| 0 <= k < sp.len() && sp[k] == x;
                    if rows.last().active && rows.last().is_starting {
                        assert(all[k] == x);
                    }
                } else {
                    assert(rows.last() == rows[i]);
                    assert(all[all.len() - 1] == x);
                }
            }
        }
    }
}

/// The active starting levels, in table order.
pub open spec fn active_starting(rows: Seq<Level>) -> Seq<Uuid>
    decreases rows.len(),
{
    if rows.len() == 0 {
        Seq::empty()
    } else if rows.last().active && rows.last().is_starting {
        active_starting(rows.drop_last()).push(rows.last().id)
    } else {
        active_starting(rows.drop_last())
    }
}

/// What importing `import` does to the level tables `before`, giving
/// `after`, and to the next free row UUID, where `geometry` says whether
/// the placements fit the gameplay plane. The first unmet condition
/// refuses the import and changes nothing; otherwise the level row is
/// upserted and its placement and successor rows replaced, under fresh
/// row UUIDs.
pub open spec fn level_imported(
    before: LevelServicesImpl,
    after: LevelServicesImpl,
    components: ComponentServicesImpl,
    backdrops: BackdropServicesImpl,
    next_before: u128,
    next_after: u128,
    import: LevelImport,
    geometry: ServiceResult<()>,
    res: ServiceResult<()>,
) -> bool {
    &&& {
        let old_levels = before.levels@;
        let comps = components.components@;
        if let Some(k) = first_where(import.placements@, unknown_placement(comps)) {
            res is Err && is_unknown_component(
                res->Err_0,
                import.slug@,
                import.placements@[k].component_slug@,
            )
        } else if geometry is Err {
            res == geometry
        } else if first_where(backdrops.backdrops@, backdrop_slug_is(import.backdrop_slug@))
            is None {
            res is Err && is_unknown_backdrop(res->Err_0, import.slug@, import.backdrop_slug@)
        } else if import.successors@.contains(import.id) {
            res is Err && is_self_successor(res->Err_0, import.slug@)
        } else if first_where(old_levels, level_slug_is(import.slug@)) is Some
            && old_levels[first_where(old_levels, level_slug_is(import.slug@))->0].id
            != import.id {
            res is Err && is_slug_conflict(
                res->Err_0,
                import.slug@,
                old_levels[first_where(old_levels, level_slug_is(import.slug@))->0].id,
            )
        } else if next_before + import.placements@.len() + import.successors@.len()
            > u128::MAX {
            res is Err && res->Err_0 is Internal
        } else {
            let backdrop = backdrops.backdrops@[first_where(
                backdrops.backdrops@,
                backdrop_slug_is(import.backdrop_slug@),
            )->0];
            let n = import.placements@.len();
            &&& res is Ok
            &&& after.levels@ == upsert(
                old_levels,
                Level {
                    id: import.id,
                    slug: import.slug,
                    name: import.name,
                    is_starting: import.is_starting,
                    active: import.active,
                    reward_lootbox_id: import.reward_lootbox_id,
                    backdrop_id: backdrop.id,
                    spawn: import.spawn,
                    finish: import.finish,
                },
            )
            &&& after.placements@ == placements_except(before.placements@, import.id)
                + placement_rows(comps, import.id, import.placements@, next_before)
            &&& after.successors@ == successors_except(before.successors@, import.id)
                + successor_rows(import.id, import.successors@, (next_before + n) as u128)
            &&& next_after == next_before + n + import.successors@.len()
        }
    }
    &&& res is Err ==> after.levels@ == before.levels@ && after.placements@ == before.placements@
        && after.successors@ == before.successors@ && next_after == next_before
}

/// A copy of a level row.
pub fn copy_level(l: &Level) -> (c: Level)
    ensures
        c == *l,
{
    Level {
        id: l.id,
        slug: l.slug.clone(),
        name: l.name.clone(),
        is_starting: l.is_starting,
        active: l.active,
        reward_lootbox_id: l.reward_lootbox_id,
        backdrop_id: l.backdrop_id,
        spawn: l.spawn,
        finish: l.finish,
    }
}

/// The level tables.
pub struct LevelServicesImpl {
    pub levels: Vec<Level>,
    pub placements: Vec<LevelPlacement>,
    pub successors: Vec<LevelSuccessor>,
}

impl LevelServicesImpl {
    /// Empty level tables.
    pub fn new() -> (s: LevelServicesImpl)
        ensures
            s.levels@.len() == 0,
            s.placements@.len() == 0,
            s.successors@.len() == 0,
    {
        LevelServicesImpl { levels: Vec::new(), placements: Vec::new(), successors: Vec::new() }
    }

    /// The level keyed `id`, if any.
    pub open spec fn level(&self, id: Uuid) -> Option<Level> {
        match find_key(self.levels@, id) {
            Some(i) => Some(self.levels@[i]),
            None => None,
        }
    }

    /// The geometry facts of an import's placements, resolving each
    /// component by slug; the failure for the first unknown component.
    pub fn placement_facts(components: &ComponentServicesImpl, import: &LevelImport) -> (res: ServiceResult<
        Vec<PlacementFacts>,
    >)
        ensures
            match first_where(import.placements@, unknown_placement(components.components@)) {
                Some(k) => res is Err && is_unknown_component(
                    res->Err_0,
                    import.slug@,
                    import.placements@[k].component_slug@,
                ),
                None => res is Ok && res->Ok_0@ == placement_facts_of(
                    components.components@,
                    import.placements@,
                ),
            },
    {
        let ghost u = unknown_placement(components.components@);
        let mut facts: Vec<PlacementFacts> = Vec::new();
        let mut k: usize = 0;
        while k < import.placements.len()
            invariant
                k <= import.placements@.len(),
                u == unknown_placement(components.components@),
                forall|j: int| 0 <= j < k ==> !u(#[trigger] import.placements@[j]),
                facts@ == placement_facts_of(components.components@, import.placements@.take(k as int)),
            decreases import.placements.len() - k,
        {
            let p = &import.placements[k];
            match components.slug_position(&p.component_slug) {
                None => {
                    proof {
                        lemma_first_where(import.placements@, u);
                        assert(u(import.placements@[k as int]));
                        if let Some(f) = first_where(import.placements@, u) {
                            if f < k {
                                assert(!u(import.placements@[f]));
                            }
                            assert(f <= k);
                        }
                    }
                    return Err(
                        LevelError::unknown_component(import.slug.as_str(), p.component_slug.as_str()),
                    );
                },
                Some(i) => {
                    let c = &components.components[i];
                    facts.push(
                        PlacementFacts {
                            position: p.position,
                            scale_bits: p.scale_bits,
                            component_width_px: c.width_px,
                            component_height_px: c.height_px,
                        },
                    );
                    assert(placement_facts_of(
                        components.components@,
                        import.placements@.take(k + 1),
                    ) =~= placement_facts_of(
                        components.components@,
                        import.placements@.take(k as int),
                    ).push(facts@[k as int]));
                },
            }
            k = k + 1;
        }
        proof {
            lemma_first_where(import.placements@, u);
            assert(import.placements@.take(import.placements@.len() as int) == import.placements@);
        }
        Ok(facts)
    }

    /// Atomically overwrite one level's metadata, placements, and successor
    /// edges. Every placement must reference an imported component slug,
    /// `geometry` is the shared geometry check's verdict on the placements'
    /// facts (spawn/finish inside the gameplay-plane bounds), the backdrop
    /// slug must be imported, no successor may be the level itself, and the
    /// slug may not belong to another level. The stable authored UUID is the
    /// replacement key.
    #[verifier::loop_isolation(false)]
    pub fn import_level(
        &mut self,
        components: &ComponentServicesImpl,
        backdrops: &BackdropServicesImpl,
        ids: &mut UuidGen,
        import: LevelImport,
        geometry: ServiceResult<()>,
    ) -> (res: ServiceResult<()>)
        ensures
            level_imported(
                *old(self),
                *final(self),
                *components,
                *backdrops,
                old(ids).next,
                final(ids).next,
                import,
                geometry,
                res,
            ),
    {
        let ghost comps = components.components@;
        let facts = Self::placement_facts(components, &import)?;
        if geometry.is_err() {
            return geometry;
        }
        let backdrop_id = match backdrops.find_by_slug(&import.backdrop_slug) {
            Some(id) => id,
            None => {
                return Err(
                    LevelError::unknown_backdrop(import.slug.as_str(), import.backdrop_slug.as_str()),
                )
            },
        };
        let mut s: usize = 0;
        while s < import.successors.len()
            invariant
                s <= import.successors@.len(),
                forall|j: int| 0 <= j < s ==> import.successors@[j] != import.id,
            decreases import.successors.len() - s,
        {
            if import.successors[s] == import.id {
                assert(import.successors@[s as int] == import.id);
                return Err(LevelError::self_successor(import.slug.as_str()));
            }
            s = s + 1;
        }
        match self.slug_position(&import.slug) {
            Some(j) => {
                if self.levels[j].id != import.id {
                    let other = self.levels[j].id;
                    return Err(LevelError::slug_conflict(import.slug.as_str(), other));
                }
            },
            None => {},
        }
        let n = import.placements.len();
        if !ids.has_room(n) || !(import.successors.len() as u128 <= u128::MAX - ids.next - n as u128) {
            return Err(exhausted());
        }
        proof {
            lemma_first_where(import.placements@, unknown_placement(comps));
        }
        let ghost start = ids.next;
        // Placement rows of the other levels, then the new ones in import order.
        let mut placements: Vec<LevelPlacement> = Vec::new();
        let ghost old_placements = self.placements@;
        let mut r: usize = 0;
        while r < self.placements.len()
            invariant
                r <= self.placements@.len(),
                self.placements@ == old_placements,
                placements@ == placements_except(old_placements.take(r as int), import.id),
            decreases self.placements.len() - r,
        {
            assert(old_placements.take(r + 1).drop_last() == old_placements.take(r as int));
            if self.placements[r].level_id != import.id {
                let p = &self.placements[r];
                placements.push(
                    LevelPlacement {
                        id: p.id,
                        level_id: p.level_id,
                        component_id: p.component_id,
                        position: p.position,
                        flip_x: p.flip_x,
                        scale_bits: p.scale_bits,
                        order: p.order,
                    },
                );
            }
            r = r + 1;
        }
        assert(old_placements.take(old_placements.len() as int) == old_placements);
        let mut k: usize = 0;
        while k < n
            invariant
                k <= n,
                n == import.placements@.len(),
                start + n + import.successors@.len() <= u128::MAX,
                ids.next == start + k,
                forall|j: int|
                    0 <= j < n ==> !unknown_placement(comps)(#[trigger] import.placements@[j]),
                comps == components.components@,
                placements@ == placements_except(old_placements, import.id) + placement_rows(
                    comps,
                    import.id,
                    import.placements@.take(k as int),
                    start,
                ),
            decreases n - k,
        {
            let p = &import.placements[k];
            let i = match components.slug_position(&p.component_slug) {
                Some(i) => i,
                None => {
                    assert(!unknown_placement(comps)(import.placements@[k as int]));
                    return Err(exhausted());
                },
            };
            let id = ids.fresh();
            placements.push(
                LevelPlacement {
                    id,
                    level_id: import.id,
                    component_id: components.components[i].id,
                    position: p.position,
                    flip_x: p.flip_x,
                    scale_bits: p.scale_bits,
                    order: k as u32,
                },
            );
            assert(placement_rows(comps, import.id, import.placements@.take(k + 1), start)
                =~= placement_rows(comps, import.id, import.placements@.take(k as int), start).push(
                placements@.last(),
            ));
            k = k + 1;
        }
        assert(import.placements@.take(n as int) == import.placements@);
        let mut edges: Vec<LevelSuccessor> = Vec::new();
        let ghost old_edges = self.successors@;
        let mut e: usize = 0;
        while e < self.successors.len()
            invariant
                e <= self.successors@.len(),
                self.successors@ == old_edges,
                edges@ == successors_except(old_edges.take(e as int), import.id),
            decreases self.successors.len() - e,
        {
            assert(old_edges.take(e + 1).drop_last() == old_edges.take(e as int));
            if self.successors[e].level_id != import.id {
                let edge = &self.successors[e];
                edges.push(
                    LevelSuccessor {
                        id: edge.id,
                        level_id: edge.level_id,
                        successor_id: edge.successor_id,
                    },
                );
            }
            e = e + 1;
        }
        assert(old_edges.take(old_edges.len() as int) == old_edges);
        let ghost mid = ids.next;
        let mut t: usize = 0;
        while t < import.successors.len()
            invariant
                t <= import.successors@.len(),
                mid == start + n,
                mid + import.successors@.len() <= u128::MAX,
                ids.next == mid + t,
                edges@ == successors_except(old_edges, import.id) + successor_rows(
                    import.id,
                    import.successors@.take(t as int),
                    mid,
                ),
            decreases import.successors.len() - t,
        {
            let id = ids.fresh();
            edges.push(LevelSuccessor { id, level_id: import.id, successor_id: import.successors[t] });
            assert(successor_rows(import.id, import.successors@.take(t + 1), mid) =~= successor_rows(
                import.id,
                import.successors@.take(t as int),
                mid,
            ).push(edges@.last()));
            t = t + 1;
        }
        assert(import.successors@.take(import.successors@.len() as int) == import.successors@);
        upsert_row(
            &mut self.levels,
            Level {
                id: import.id,
                slug: import.slug,
                name: import.name,
                is_starting: import.is_starting,
                active: import.active,
                reward_lootbox_id: import.reward_lootbox_id,
                backdrop_id,
                spawn: import.spawn,
                finish: import.finish,
            },
        );
        self.placements = placements;
        self.successors = edges;
        Ok(())
    }

    fn slug_position(&self, slug: &String) -> (p: Option<usize>)
        ensures
            match p {
                Some(i) => first_where(self.levels@, level_slug_is(slug@)) == Some(i as int) && i
                    < self.levels@.len(),
                None => first_where(self.levels@, level_slug_is(slug@)) is None,
            },
    {
        let ghost pr = level_slug_is(slug@);
        let mut i: usize = 0;
        while i < self.levels.len()
            invariant
                i <= self.levels@.len(),
                pr == level_slug_is(slug@),
                forall|j: int| 0 <= j < i ==> !pr(#[trigger] self.levels@[j]),
            decreases self.levels.len() - i,
        {
            if self.levels[i].slug == *slug {
                proof {
                    lemma_first_where(self.levels@, pr);
                    if let Some(k) = first_where(self.levels@, pr) {
                        if k < i {
                            assert(!pr(self.levels@[k]));
                        }
                        assert(pr(self.levels@[i as int]));
                    }
                }
                return Some(i);
            }
            i = i + 1;
        }
        proof {
            lemma_first_where(self.levels@, pr);
        }
        None
    }

    /// The level keyed `level_id`, provided it is active.
    pub fn find_active_level(&self, level_id: Uuid) -> (res: ServiceResult<Level>)
        ensures
            match self.level(level_id) {
                None => res is Err && is_unknown_level(res->Err_0, level_id),
                Some(l) => if l.active {
                    res == Ok::<Level, ServiceError>(l)
                } else {
                    res is Err && is_inactive(res->Err_0, l.slug@)
                },
            },
    {
        let i = match position_of(&self.levels, level_id) {
            Some(i) => i,
            None => return Err(LevelError::unknown_level(level_id)),
        };
        if !self.levels[i].active {
            return Err(LevelError::inactive(self.levels[i].slug.as_str()));
        }
        Ok(copy_level(&self.levels[i]))
    }

    /// The ids of the active starting levels, in table order.
    pub fn active_starting_level_ids(&self) -> (ids: Vec<Uuid>)
        ensures
            ids@ == active_starting(self.levels@),
            forall|x: Uuid|
                ids@.contains(x) <==> exists|i: int|
                    0 <= i < self.levels@.len() && (#[trigger] self.levels@[i]).active && self.levels@[i].is_starting
                        && self.levels@[i].id == x,
    {
        proof {
            lemma_active_starting_members(self.levels@);
        }
        let mut ids: Vec<Uuid> = Vec::new();
        let mut i: usize = 0;
        while i < self.levels.len()
            invariant
                i <= self.levels@.len(),
                ids@ == active_starting(self.levels@.take(i as int)),
            decreases self.levels.len() - i,
        {
            assert(self.levels@.take(i + 1).drop_last() == self.levels@.take(i as int));
            if self.levels[i].active && self.levels[i].is_starting {
                ids.push(self.levels[i].id);
            }
            i = i + 1;
        }
        assert(self.levels@.take(self.levels@.len() as int) == self.levels@);
        ids
    }

    /// The configured successors of a level, in table order.
    pub fn successor_ids(&self, level_id: Uuid) -> (ids: Vec<Uuid>)
        ensures
            ids@ == successors_of(self.successors@, level_id),
            forall|x: Uuid|
                ids@.contains(x) <==> exists|i: int|
                    0 <= i < self.successors@.len() && (#[trigger] self.successors@[i]).level_id == level_id
                        && self.successors@[i].successor_id == x,
    {
        proof {
            lemma_successors_of_members(self.successors@, level_id);
        }
        let mut ids: Vec<Uuid> = Vec::new();
        let mut i: usize = 0;
        while i < self.successors.len()
            invariant
                i <= self.successors@.len(),
                ids@ == successors_of(self.successors@.take(i as int), level_id),
            decreases self.successors.len() - i,
        {
            assert(self.successors@.take(i + 1).drop_last() == self.successors@.take(i as int));
            if self.successors[i].level_id == level_id {
                ids.push(self.successors[i].successor_id);
            }
            i = i + 1;
        }
        assert(self.successors@.take(self.successors@.len() as int) == self.successors@);
        ids
    }
}

} // verus!
