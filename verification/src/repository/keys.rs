//! Fresh row UUIDs: the tables whose rows are upserted under generated
//! UUIDs keep their keys unique and below the next UUID the counter hands
//! out, so a fresh UUID never names, and never overwrites, an existing row.

use crate::error::ServiceResult;
use crate::ids::Uuid;
use crate::repository::character::{
    art_imported, art_is, face_imported, face_slug_is, first_where, lemma_first_where, CharacterArt,
    CharacterArtImportV1, CharacterServicesImpl, Face, FaceImportV1,
};
use crate::repository::component::{
    backdrop_imported, backdrop_slug_is, component_imported, component_slug_is, Backdrop, BackdropImportV1,
    Component, ComponentImportV1,
};
use crate::repository::table::{has_key, keys_below, lemma_upsert_keeps_keys, unique_keys, Row};
use crate::repository::Database;
use vstd::prelude::*;

verus! {

/// The component, backdrop, face and character art tables of `db` hold
/// unique keys, all below the next UUID `db.ids` hands out.
pub open spec fn keys_fresh(db: Database) -> bool {
    &&& unique_keys(db.components.components@)
    &&& keys_below(db.components.components@, db.ids.next)
    &&& unique_keys(db.backdrops.backdrops@)
    &&& keys_below(db.backdrops.backdrops@, db.ids.next)
    &&& unique_keys(db.characters.faces@)
    &&& keys_below(db.characters.faces@, db.ids.next)
    &&& unique_keys(db.characters.art@)
    &&& keys_below(db.characters.art@, db.ids.next)
}

/// Keys below a counter stay below it as it advances.
pub proof fn lemma_keys_below_grow<R: Row>(rows: Seq<R>, next: u128, later: u128)
    requires
        keys_below(rows, next),
        next <= later,
    ensures
        keys_below(rows, later),
{
}

/// A row of `rows` is keyed by its own key.
proof fn lemma_has_own_key<R: Row>(rows: Seq<R>, i: int)
    requires
        0 <= i < rows.len(),
    ensures
        has_key(rows, rows[i].key()),
{
}

/// A component import keeps fresh keys; a new slug appends its row.
pub proof fn lemma_component_import_keys(
    before: Seq<Component>,
    after: Seq<Component>,
    n0: u128,
    n1: u128,
    import: ComponentImportV1,
    validity: ServiceResult<()>,
    res: ServiceResult<()>,
)
    requires
        component_imported(before, after, n0, n1, import, validity, res),
        unique_keys(before),
        keys_below(before, n0),
    ensures
        n0 <= n1,
        unique_keys(after),
        keys_below(after, n1),
        res is Ok && first_where(before, component_slug_is(import.slug@)) is None ==> after.len() == before.len()
            + 1 && after.drop_last() == before,
{
    let p = component_slug_is(import.slug@);
    lemma_first_where(before, p);
    if validity is Ok {
        let row = |id: Uuid|
            Component {
                id,
                slug: import.slug,
                width_px: import.width_px,
                height_px: import.height_px,
                content_hash: import.content_hash,
                data: import.data,
            };
        match first_where(before, p) {
            Some(i) => {
                lemma_has_own_key(before, i);
                assert(row(before[i].id).key() == before[i].key());
                lemma_upsert_keeps_keys(before, row(before[i].id), n0, n1);
            },
            None => {
                if n0 < u128::MAX {
                    lemma_upsert_keeps_keys(before, row(Uuid { value: n0 }), n0, n1);
                    assert(before.push(row(Uuid { value: n0 })).drop_last() == before);
                }
            },
        }
    }
}

/// A backdrop import keeps fresh keys; a new slug appends its row.
pub proof fn lemma_backdrop_import_keys(
    before: Seq<Backdrop>,
    after: Seq<Backdrop>,
    n0: u128,
    n1: u128,
    import: BackdropImportV1,
    res: ServiceResult<()>,
)
    requires
        backdrop_imported(before, after, n0, n1, import, res),
        unique_keys(before),
        keys_below(before, n0),
    ensures
        n0 <= n1,
        unique_keys(after),
        keys_below(after, n1),
        res is Ok && first_where(before, backdrop_slug_is(import.slug@)) is None ==> after.len() == before.len()
            + 1 && after.drop_last() == before,
{
    let p = backdrop_slug_is(import.slug@);
    lemma_first_where(before, p);
    let row = |id: Uuid| Backdrop { id, slug: import.slug, sky: import.sky, far: import.far, mid: import.mid };
    match first_where(before, p) {
        Some(i) => {
            lemma_has_own_key(before, i);
            assert(row(before[i].id).key() == before[i].key());
            lemma_upsert_keeps_keys(before, row(before[i].id), n0, n1);
        },
        None => {
            if n0 < u128::MAX {
                lemma_upsert_keeps_keys(before, row(Uuid { value: n0 }), n0, n1);
                assert(before.push(row(Uuid { value: n0 })).drop_last() == before);
            }
        },
    }
}

/// A face import keeps fresh keys; a new slug appends its row.
pub proof fn lemma_face_import_keys(
    before: Seq<Face>,
    after: Seq<Face>,
    n0: u128,
    n1: u128,
    import: FaceImportV1,
    res: ServiceResult<()>,
)
    requires
        face_imported(before, after, n0, n1, import, res),
        unique_keys(before),
        keys_below(before, n0),
    ensures
        n0 <= n1,
        unique_keys(after),
        keys_below(after, n1),
        res is Ok && first_where(before, face_slug_is(import.slug@)) is None ==> after.len() == before.len() + 1
            && after.drop_last() == before,
{
    let p = face_slug_is(import.slug@);
    lemma_first_where(before, p);
    let row = |id: Uuid|
        Face {
            id,
            slug: import.slug,
            width_px: import.width_px,
            height_px: import.height_px,
            content_hash: import.content_hash,
            data: import.data,
        };
    match first_where(before, p) {
        Some(i) => {
            lemma_has_own_key(before, i);
            assert(row(before[i].id).key() == before[i].key());
            lemma_upsert_keeps_keys(before, row(before[i].id), n0, n1);
        },
        None => {
            if n0 < u128::MAX {
                lemma_upsert_keeps_keys(before, row(Uuid { value: n0 }), n0, n1);
                assert(before.push(row(Uuid { value: n0 })).drop_last() == before);
            }
        },
    }
}

/// A character art import keeps fresh keys; a new character and kind
/// appends its row.
pub proof fn lemma_art_import_keys(
    before: CharacterServicesImpl,
    after: Seq<CharacterArt>,
    n0: u128,
    n1: u128,
    import: CharacterArtImportV1,
    res: ServiceResult<()>,
)
    requires
        art_imported(before, after, n0, n1, import, res),
        unique_keys(before.art@),
        keys_below(before.art@, n0),
    ensures
        n0 <= n1,
        unique_keys(after),
        keys_below(after, n1),
        res is Ok && first_where(before.art@, art_is(import.character_id, import.kind@)) is None ==> after.len()
            == before.art@.len() + 1 && after.drop_last() == before.art@,
{
    let rows = before.art@;
    let p = art_is(import.character_id, import.kind@);
    lemma_first_where(rows, p);
    if before.character(import.character_id) is Some {
        let row = |id: Uuid|
            CharacterArt {
                id,
                character_id: import.character_id,
                kind: import.kind,
                width_px: import.width_px,
                height_px: import.height_px,
                content_hash: import.content_hash,
                data: import.data,
            };
        match first_where(rows, p) {
            Some(i) => {
                lemma_has_own_key(rows, i);
                assert(row(rows[i].id).key() == rows[i].key());
                lemma_upsert_keeps_keys(rows, row(rows[i].id), n0, n1);
            },
            None => {
                if n0 < u128::MAX {
                    lemma_upsert_keeps_keys(rows, row(Uuid { value: n0 }), n0, n1);
                    assert(rows.push(row(Uuid { value: n0 })).drop_last() == rows);
                }
            },
        }
    }
}

/// A database whose content tables are untouched and whose counter only
/// advanced keeps fresh keys.
pub proof fn lemma_keys_fresh_grow(before: Database, after: Database)
    requires
        keys_fresh(before),
        after.components == before.components,
        after.backdrops == before.backdrops,
        after.characters.faces@ == before.characters.faces@,
        after.characters.art@ == before.characters.art@,
        before.ids.next <= after.ids.next,
    ensures
        keys_fresh(after),
{
}

} // verus!
