//! Authored level documents: a placement list over the component library,
//! a spawn and finish, and a required backdrop slug. These checks resolve
//! every reference; the shared geometry check runs on the result.

use crate::progression::views;
use crate::repository::level::{Vec2, Vec3};
use crate::text::{append_str, lowercase, to_lowercase};
use crate::tiled::{check_successors, successor_error};
use crate::uuid::{invalid_uuid_message, is_canonical_uuid, validate_uuid};
use vstd::prelude::*;

verus! {

/// One placement as the document gives it.
pub struct PlacementSource {
    pub component: String,
    pub x: u16,
    pub y: u16,
    pub z: i8,
    pub flip_x: bool,
    /// The binary32 bit pattern of the scale.
    pub scale_bits: u32,
}

/// A level document as it is written.
pub struct LevelSource {
    pub id: String,
    pub slug: String,
    pub name: String,
    pub backdrop: String,
    pub starting: bool,
    pub active: bool,
    pub reward_lootbox_id: Option<String>,
    pub successors: Vec<String>,
    pub spawn: Vec2,
    pub finish: Vec2,
    pub placements: Vec<PlacementSource>,
}

/// The default of the `active` flag of a level document: levels are
/// active unless they say otherwise.
pub fn default_true() -> (b: bool)
    ensures
        b,
{
    true
}

/// The size of one library component.
#[derive(Debug)]
pub struct ComponentSize {
    pub slug: String,
    pub width_px: u32,
    pub height_px: u32,
}

/// One resolved placement, with the size of the component it places.
#[derive(Debug)]
pub struct ImportedPlacement {
    pub component_slug: String,
    pub position: Vec3,
    pub flip_x: bool,
    pub scale_bits: u32,
    pub component_width_px: u32,
    pub component_height_px: u32,
}

/// A checked level ready for the geometry check and import.
#[derive(Debug)]
pub struct ImportedLevel {
    /// Stable authored UUID.
    pub id: String,
    /// Readable operator/UI slug; never a foreign key.
    pub slug: String,
    pub name: String,
    pub is_starting: bool,
    pub active: bool,
    pub reward_lootbox_id: Option<String>,
    pub successors: Vec<String>,
    /// The backdrop's authored identity; the module resolves it to a UUID.
    pub backdrop_slug: String,
    pub spawn: Vec2,
    pub finish: Vec2,
    pub placements: Vec<ImportedPlacement>,
}

/// A resolved placement as a mathematical value.
pub struct ImportedPlacementView {
    pub component_slug: Seq<char>,
    pub position: Vec3,
    pub flip_x: bool,
    pub scale_bits: u32,
    pub component_width_px: u32,
    pub component_height_px: u32,
}

impl View for ImportedPlacement {
    type V = ImportedPlacementView;

    open spec fn view(&self) -> ImportedPlacementView {
        ImportedPlacementView {
            component_slug: self.component_slug@,
            position: self.position,
            flip_x: self.flip_x,
            scale_bits: self.scale_bits,
            component_width_px: self.component_width_px,
            component_height_px: self.component_height_px,
        }
    }
}

/// A checked level as a mathematical value.
pub struct ImportedLevelView {
    pub id: Seq<char>,
    pub slug: Seq<char>,
    pub name: Seq<char>,
    pub is_starting: bool,
    pub active: bool,
    pub reward_lootbox_id: Option<Seq<char>>,
    pub successors: Seq<Seq<char>>,
    pub backdrop_slug: Seq<char>,
    pub spawn: Vec2,
    pub finish: Vec2,
    pub placements: Seq<ImportedPlacementView>,
}

/// The views of a sequence of placements.
pub open spec fn placement_views(p: Seq<ImportedPlacement>) -> Seq<ImportedPlacementView> {
    p.map_values(|x: ImportedPlacement| x@)
}

impl View for ImportedLevel {
    type V = ImportedLevelView;

    open spec fn view(&self) -> ImportedLevelView {
        ImportedLevelView {
            id: self.id@,
            slug: self.slug@,
            name: self.name@,
            is_starting: self.is_starting,
            active: self.active,
            reward_lootbox_id: match self.reward_lootbox_id {
                Some(r) => Some(r@),
                None => None,
            },
            successors: views(self.successors@),
            backdrop_slug: self.backdrop_slug@,
            spawn: self.spawn,
            finish: self.finish,
            placements: placement_views(self.placements@),
        }
    }
}

/// The size of the component called `slug`; the last such entry wins.
pub open spec fn size_of(components: Seq<ComponentSize>, slug: Seq<char>) -> Option<(u32, u32)>
    decreases components.len(),
{
    if components.len() == 0 {
        None
    } else if components.last().slug@ == slug {
        Some((components.last().width_px, components.last().height_px))
    } else {
        size_of(components.drop_last(), slug)
    }
}

/// The resolved placements, in order, or the first unknown component.
pub open spec fn placements_of(level_slug: Seq<char>, ps: Seq<PlacementSource>, components: Seq<ComponentSize>) -> Result<
    Seq<ImportedPlacementView>,
    Seq<char>,
>
    decreases ps.len(),
{
    if ps.len() == 0 {
        Ok(Seq::empty())
    } else {
        match placements_of(level_slug, ps.drop_last(), components) {
            Err(e) => Err(e),
            Ok(done) => {
                let p = ps.last();
                match size_of(components, p.component@) {
                    None => Err("level '"@ + level_slug + "' places unknown component '"@ + p.component@ + "'"@),
                    Some(size) => Ok(
                        done.push(
                            ImportedPlacementView {
                                component_slug: p.component@,
                                position: Vec3 { x: p.x, y: p.y, z: p.z },
                                flip_x: p.flip_x,
                                scale_bits: p.scale_bits,
                                component_width_px: size.0,
                                component_height_px: size.1,
                            },
                        ),
                    ),
                }
            },
        }
    }
}

/// The optional reward lootbox: absent or empty means none, anything else
/// must be a UUID.
pub open spec fn reward_of(reward: Option<String>) -> Result<Option<Seq<char>>, Seq<char>> {
    match reward {
        None => Ok(None),
        Some(r) => if r@.len() == 0 {
            Ok(None)
        } else if is_canonical_uuid(r@) {
            Ok(Some(r@))
        } else {
            Err(invalid_uuid_message("reward_lootbox_id"@, r@))
        },
    }
}

/// The message for a missing or empty required property.
pub open spec fn missing_message(what: Seq<char>) -> Seq<char> {
    "level is missing the '"@ + what + "' property"@
}

/// The importable level a document describes, or its first problem: the
/// required `id` (a UUID), `slug`, `name` and `backdrop` (a known one), the
/// optional reward lootbox, the successors, and each placement's component.
pub open spec fn source_level(src: LevelSource, components: Seq<ComponentSize>, backdrops: Seq<Seq<char>>) -> Result<
    ImportedLevelView,
    Seq<char>,
> {
    let slug = src.slug@;
    if src.id@.len() == 0 {
        Err(missing_message("id"@))
    } else if !is_canonical_uuid(src.id@) {
        Err(invalid_uuid_message("level id"@, src.id@))
    } else if slug.len() == 0 {
        Err(missing_message("slug"@))
    } else if src.name@.len() == 0 {
        Err(missing_message("name"@))
    } else if src.backdrop@.len() == 0 {
        Err("level '"@ + slug + "' is missing the 'backdrop' property"@)
    } else if !backdrops.contains(src.backdrop@) {
        Err("level '"@ + slug + "' references unknown backdrop '"@ + src.backdrop@ + "'"@)
    } else {
        match reward_of(src.reward_lootbox_id) {
            Err(e) => Err(e),
            Ok(reward) => match successor_error(views(src.successors@), src.id@, slug) {
                Some(e) => Err(e),
                None => match placements_of(slug, src.placements@, components) {
                    Err(e) => Err(e),
                    Ok(placements) => Ok(
                        ImportedLevelView {
                            id: src.id@,
                            slug,
                            name: src.name@,
                            is_starting: src.starting,
                            active: src.active,
                            reward_lootbox_id: reward,
                            successors: views(src.successors@),
                            backdrop_slug: src.backdrop@,
                            spawn: src.spawn,
                            finish: src.finish,
                            placements,
                        },
                    ),
                },
            },
        }
    }
}

fn component_size(components: &[ComponentSize], slug: &String) -> (r: Option<(u32, u32)>)
    ensures
        r == size_of(components@, slug@),
{
    let mut found: Option<(u32, u32)> = None;
    let mut i: usize = 0;
    while i < components.len()
        invariant
            i <= components@.len(),
            found == size_of(components@.take(i as int), slug@),
        decreases components.len() - i,
    {
        assert(components@.take(i + 1).drop_last() == components@.take(i as int));
        assert(components@.take(i + 1).last() == components@[i as int]);
        if components[i].slug == *slug {
            found = Some((components[i].width_px, components[i].height_px));
        }
        i = i + 1;
    }
    assert(components@.take(components@.len() as int) == components@);
    found
}

fn knows_backdrop(backdrops: &[String], backdrop: &String) -> (b: bool)
    ensures
        b == views(backdrops@).contains(backdrop@),
{
    let mut i: usize = 0;
    while i < backdrops.len()
        invariant
            i <= backdrops@.len(),
            forall|j: int| 0 <= j < i ==> views(backdrops@)[j] != backdrop@,
        decreases backdrops.len() - i,
    {
        if backdrops[i] == *backdrop {
            assert(views(backdrops@)[i as int] == backdrop@);
            return true;
        }
        i = i + 1;
    }
    false
}

proof fn lemma_placements_of_prefix(slug: Seq<char>, ps: Seq<PlacementSource>, components: Seq<ComponentSize>, n: int)
    requires
        0 <= n <= ps.len(),
    ensures
        placements_of(slug, ps.take(n), components) is Err ==> placements_of(slug, ps, components)
            == placements_of(slug, ps.take(n), components),
    decreases ps.len() - n,
{
    if n < ps.len() {
        lemma_placements_of_prefix(slug, ps, components, n + 1);
        assert(ps.take(n + 1).drop_last() == ps.take(n));
    } else {
        assert(ps.take(n) == ps);
    }
}

fn resolve_placements(slug: &String, ps: &Vec<PlacementSource>, components: &[ComponentSize]) -> (r: Result<
    Vec<ImportedPlacement>,
    String,
>)
    ensures
        match placements_of(slug@, ps@, components@) {
            Ok(v) => r matches Ok(x) && placement_views(x@) == v,
            Err(e) => r matches Err(m) && m@ == e,
        },
{
    let mut out: Vec<ImportedPlacement> = Vec::new();
    let mut i: usize = 0;
    proof {
        assert(ps@.take(0) =~= Seq::<PlacementSource>::empty());
        assert(placement_views(out@) =~= Seq::<ImportedPlacementView>::empty());
    }
    while i < ps.len()
        invariant
            i <= ps@.len(),
            placements_of(slug@, ps@.take(i as int), components@) == Ok::<Seq<ImportedPlacementView>, Seq<char>>(
                placement_views(out@),
            ),
        decreases ps.len() - i,
    {
        assert(ps@.take(i + 1).drop_last() == ps@.take(i as int));
        assert(ps@.take(i + 1).last() == ps@[i as int]);
        let p = &ps[i];
        match component_size(components, &p.component) {
            None => {
                let mut m = String::new();
                append_str(&mut m, "level '");
                append_str(&mut m, slug.as_str());
                append_str(&mut m, "' places unknown component '");
                append_str(&mut m, p.component.as_str());
                append_str(&mut m, "'");
                proof {
                    lemma_placements_of_prefix(slug@, ps@, components@, i + 1);
                }
                return Err(m);
            },
            Some((w, h)) => {
                let ghost before = out@;
                out.push(
                    ImportedPlacement {
                        component_slug: p.component.clone(),
                        position: Vec3 { x: p.x, y: p.y, z: p.z },
                        flip_x: p.flip_x,
                        scale_bits: p.scale_bits,
                        component_width_px: w,
                        component_height_px: h,
                    },
                );
                assert(placement_views(out@) =~= placement_views(before).push(out@.last()@));
            },
        }
        i = i + 1;
    }
    assert(ps@.take(ps@.len() as int) == ps@);
    Ok(out)
}

/// The result of a level check as a mathematical value.
pub open spec fn level_result(r: Result<ImportedLevel, String>) -> Result<ImportedLevelView, Seq<char>> {
    match r {
        Ok(l) => Ok(l@),
        Err(m) => Err(m@),
    }
}

fn missing(what: &str) -> (m: String)
    ensures
        m@ == missing_message(what@),
{
    let mut m = String::new();
    append_str(&mut m, "level is missing the '");
    append_str(&mut m, what);
    append_str(&mut m, "' property");
    m
}

/// Check one authored level document against the component library and
/// the authored backdrop slugs.
pub fn parse_level(src: LevelSource, components: &[ComponentSize], backdrops: &[String]) -> (res: Result<
    ImportedLevel,
    String,
>)
    ensures
        level_result(res) == source_level(src, components@, views(backdrops@)),
{
    if src.id.as_str().is_empty() {
        return Err(missing("id"));
    }
    validate_uuid(src.id.as_str(), "level id")?;
    if src.slug.as_str().is_empty() {
        return Err(missing("slug"));
    }
    if src.name.as_str().is_empty() {
        return Err(missing("name"));
    }
    if src.backdrop.as_str().is_empty() {
        let mut m = String::new();
        append_str(&mut m, "level '");
        append_str(&mut m, src.slug.as_str());
        append_str(&mut m, "' is missing the 'backdrop' property");
        return Err(m);
    }
    if !knows_backdrop(backdrops, &src.backdrop) {
        let mut m = String::new();
        append_str(&mut m, "level '");
        append_str(&mut m, src.slug.as_str());
        append_str(&mut m, "' references unknown backdrop '");
        append_str(&mut m, src.backdrop.as_str());
        append_str(&mut m, "'");
        return Err(m);
    }
    let reward_lootbox_id = match src.reward_lootbox_id {
        None => None,
        Some(r) => if r.as_str().is_empty() {
            None
        } else {
            validate_uuid(r.as_str(), "reward_lootbox_id")?;
            Some(r)
        },
    };
    check_successors(&src.successors, &src.id, &src.slug)?;
    let placements = resolve_placements(&src.slug, &src.placements, components)?;
    Ok(
        ImportedLevel {
            id: src.id,
            slug: src.slug,
            name: src.name,
            is_starting: src.starting,
            active: src.active,
            reward_lootbox_id,
            successors: src.successors,
            backdrop_slug: src.backdrop,
            spawn: src.spawn,
            finish: src.finish,
            placements,
        },
    )
}

/// The first level, in order, whose id equals an earlier one up to case,
/// or else whose slug equals an earlier one, and what is wrong with it.
pub open spec fn duplicate_problem(levels: Seq<ImportedLevel>) -> Option<Seq<char>>
    decreases levels.len(),
{
    if levels.len() == 0 {
        None
    } else {
        match duplicate_problem(levels.drop_last()) {
            Some(e) => Some(e),
            None => {
                let l = levels.last();
                let n = levels.len() - 1;
                if exists|j: int| 0 <= j < n && lowercase(#[trigger] levels[j].id@) == lowercase(l.id@) {
                    Some("duplicate level id '"@ + l.id@ + "'"@)
                } else if exists|j: int| 0 <= j < n && (#[trigger] levels[j]).slug@ == l.slug@ {
                    Some("duplicate level slug '"@ + l.slug@ + "'"@)
                } else {
                    None
                }
            },
        }
    }
}

proof fn lemma_duplicate_problem_prefix(levels: Seq<ImportedLevel>, n: int)
    requires
        0 <= n <= levels.len(),
    ensures
        duplicate_problem(levels.take(n)) is Some ==> duplicate_problem(levels) == duplicate_problem(
            levels.take(n),
        ),
    decreases levels.len() - n,
{
    if n < levels.len() {
        lemma_duplicate_problem_prefix(levels, n + 1);
        assert(levels.take(n + 1).drop_last() == levels.take(n));
    } else {
        assert(levels.take(n) == levels);
    }
}

/// Refuse a set of levels in which two share an id (up to case) or a slug.
#[verifier::loop_isolation(false)]
pub fn reject_duplicate_levels(levels: &[ImportedLevel]) -> (res: Result<(), String>)
    ensures
        match duplicate_problem(levels@) {
            None => res is Ok,
            Some(e) => res matches Err(m) && m@ == e,
        },
{
    let ghost all = levels@;
    let mut lowered: Vec<String> = Vec::new();
    let mut i: usize = 0;
    while i < levels.len()
        invariant
            i <= all.len(),
            all == levels@,
            lowered@.len() == i,
            forall|j: int| 0 <= j < i ==> (#[trigger] lowered@[j])@ == lowercase(all[j].id@),
            duplicate_problem(all.take(i as int)) is None,
        decreases levels.len() - i,
    {
        let level = &levels[i];
        let ghost pre = all.take(i + 1);
        assert(pre.drop_last() == all.take(i as int));
        assert(pre.last() == all[i as int]);
        assert forall|j: int| 0 <= j < i implies pre[j] == all[j] by {}
        let id = to_lowercase(level.id.as_str());
        let mut j: usize = 0;
        while j < i
            invariant
                j <= i < all.len(),
                all == levels@,
                lowered@.len() == i,
                forall|k: int| 0 <= k < i ==> (#[trigger] lowered@[k])@ == lowercase(all[k].id@),
                id@ == lowercase(all[i as int].id@),
                forall|k: int| 0 <= k < j ==> lowercase(all[k].id@) != id@,
            decreases i - j,
        {
            if lowered[j] == id {
                let mut m = String::new();
                append_str(&mut m, "duplicate level id '");
                append_str(&mut m, level.id.as_str());
                append_str(&mut m, "'");
                proof {
                    assert(pre[j as int] == all[j as int]);
                    assert(lowercase(pre[j as int].id@) == lowercase(pre.last().id@));
                    lemma_duplicate_problem_prefix(all, i + 1);
                }
                return Err(m);
            }
            j = j + 1;
        }
        let mut j: usize = 0;
        while j < i
            invariant
                j <= i < all.len(),
                all == levels@,
                forall|k: int| 0 <= k < j ==> all[k].slug@ != all[i as int].slug@,
            decreases i - j,
        {
            if levels[j].slug == level.slug {
                let mut m = String::new();
                append_str(&mut m, "duplicate level slug '");
                append_str(&mut m, level.slug.as_str());
                append_str(&mut m, "'");
                proof {
                    assert(pre[j as int] == all[j as int]);
                    assert(!exists|k: int| 0 <= k < i && lowercase(#[trigger] pre[k].id@) == lowercase(pre.last().id@));
                    lemma_duplicate_problem_prefix(all, i + 1);
                }
                return Err(m);
            }
            j = j + 1;
        }
        proof {
            assert(!exists|k: int| 0 <= k < i && lowercase(#[trigger] pre[k].id@) == lowercase(pre.last().id@));
            assert(!exists|k: int| 0 <= k < i && (#[trigger] pre[k]).slug@ == pre.last().slug@);
        }
        lowered.push(id);
        i = i + 1;
    }
    proof {
        assert(all.take(all.len() as int) == all);
    }
    Ok(())
}

} // verus!
