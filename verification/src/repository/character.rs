//! Character content: playable character definitions, their pieces, their
//! art (body + derived silhouette), and the shared face expression set.

use crate::error::{ServiceError, ServiceResult};
use crate::ids::{hyphenated, Uuid};
use crate::repository::table::{
    find_key, lemma_find_key, position_of, upsert, upsert_row, Row, UuidGen,
};
use crate::text::append_str;
use vstd::prelude::*;

verus! {

/// Art kinds stored per character; the silhouette is derived from the body
/// by the importer, never authored.
pub const ART_KIND_BODY: &'static str = "body";

/// See [`ART_KIND_BODY`].
pub const ART_KIND_SILHOUETTE: &'static str = "silhouette";

/// A playable character. The physics tuning values are IEEE-754 `f32`
/// bit patterns, stored and returned unchanged.
pub struct CharacterDef {
    pub id: Uuid,
    pub name: String,
    /// Authored identity: the character's art filename.
    pub style: String,
    pub rarity_weight: u32,
    pub density_bits: u32,
    pub jump_speed_bits: u32,
    pub flight_time_ms: u32,
    pub buoyancy_bits: u32,
    pub fire_resistance_bits: u32,
    pub starter: bool,
}

/// One collectible piece of a character.
pub struct PieceDef {
    pub id: Uuid,
    pub name: String,
    pub character_id: Uuid,
}

/// One art blob of a character: its body or its silhouette.
pub struct CharacterArt {
    pub id: Uuid,
    pub character_id: Uuid,
    /// [`ART_KIND_BODY`] or [`ART_KIND_SILHOUETTE`].
    pub kind: String,
    pub width_px: u32,
    pub height_px: u32,
    pub content_hash: String,
    pub data: Vec<u8>,
}

/// One face expression, keyed by its authored slug.
pub struct Face {
    pub id: Uuid,
    pub slug: String,
    pub width_px: u32,
    pub height_px: u32,
    pub content_hash: String,
    pub data: Vec<u8>,
}

/// The import argument for one character art blob.
pub struct CharacterArtImportV1 {
    pub character_id: Uuid,
    /// "body" or "silhouette".
    pub kind: String,
    pub width_px: u32,
    pub height_px: u32,
    pub content_hash: String,
    pub data: Vec<u8>,
}

/// The import argument for one face expression.
pub struct FaceImportV1 {
    pub slug: String,
    pub width_px: u32,
    pub height_px: u32,
    pub content_hash: String,
    pub data: Vec<u8>,
}

impl Row for CharacterDef {
    open spec fn key(&self) -> Uuid {
        self.id
    }

    fn row_key(&self) -> (k: Uuid) {
        self.id
    }
}

impl Row for PieceDef {
    open spec fn key(&self) -> Uuid {
        self.id
    }

    fn row_key(&self) -> (k: Uuid) {
        self.id
    }
}

impl Row for CharacterArt {
    open spec fn key(&self) -> Uuid {
        self.id
    }

    fn row_key(&self) -> (k: Uuid) {
        self.id
    }
}

impl Row for Face {
    open spec fn key(&self) -> Uuid {
        self.id
    }

    fn row_key(&self) -> (k: Uuid) {
        self.id
    }
}

/// Character domain failures.
pub enum CharacterError {
    UnknownCharacterForPiece { character_id: Uuid },
    UnknownCharacterForArt { character_id: Uuid },
    UnknownPiece { piece_id: Uuid },
}

/// A not-found failure whose text quotes a UUID between `prefix` and `suffix`.
pub open spec fn not_found_about(e: ServiceError, prefix: Seq<char>, id: Uuid, suffix: Seq<char>) -> bool {
    e is NotFound && e.text() == prefix + hyphenated(id.value) + suffix
}

/// The failure for a piece that names an unknown character.
pub open spec fn is_unknown_character_for_piece(e: ServiceError, character_id: Uuid) -> bool {
    not_found_about(e, "piece references unknown character '"@, character_id, "'"@)
}

/// The failure for an art blob that names an unknown character.
pub open spec fn is_unknown_character_for_art(e: ServiceError, character_id: Uuid) -> bool {
    not_found_about(e, "art references unknown character '"@, character_id, "'"@)
}

/// The failure for an unknown piece.
pub open spec fn is_unknown_piece(e: ServiceError, piece_id: Uuid) -> bool {
    not_found_about(e, "unknown piece '"@, piece_id, "'"@)
}

fn not_found(prefix: &str, id: Uuid, suffix: &str) -> (e: ServiceError)
    ensures
        not_found_about(e, prefix@, id, suffix@),
{
    let mut m = String::new();
    append_str(&mut m, prefix);
    append_str(&mut m, id.to_text().as_str());
    append_str(&mut m, suffix);
    ServiceError::NotFound { message: m }
}

impl CharacterError {
    /// A piece names a character that does not exist.
    pub fn unknown_character_for_piece(character_id: Uuid) -> (e: ServiceError)
        ensures
            is_unknown_character_for_piece(e, character_id),
    {
        not_found("piece references unknown character '", character_id, "'")
    }

    /// An art blob names a character that does not exist.
    pub fn unknown_character_for_art(character_id: Uuid) -> (e: ServiceError)
        ensures
            is_unknown_character_for_art(e, character_id),
    {
        not_found("art references unknown character '", character_id, "'")
    }

    /// A piece that does not exist.
    pub fn unknown_piece(piece_id: Uuid) -> (e: ServiceError)
        ensures
            is_unknown_piece(e, piece_id),
    {
        not_found("unknown piece '", piece_id, "'")
    }
}

/// The first position whose row satisfies `p`.
pub open spec fn first_where<R>(rows: Seq<R>, p: spec_fn(R) -> bool) -> Option<int>
    decreases rows.len(),
{
    if rows.len() == 0 {
        None
    } else {
        match first_where(rows.drop_last(), p) {
            Some(i) => Some(i),
            None => if p(rows.last()) {
                Some(rows.len() - 1)
            } else {
                None
            },
        }
    }
}

/// `first_where` yields the first satisfying position, or nothing when no
/// row satisfies the predicate.
pub proof fn lemma_first_where<R>(rows: Seq<R>, p: spec_fn(R) -> bool)
    ensures
        first_where(rows, p) matches Some(i) ==> 0 <= i < rows.len() && p(rows[i]) && forall|j: int|
            0 <= j < i ==> !p(#[trigger] rows[j]),
        first_where(rows, p) is None ==> forall|j: int| 0 <= j < rows.len() ==> !p(#[trigger] rows[j]),
    decreases rows.len(),
{
    if rows.len() > 0 {
        lemma_first_where(rows.drop_last(), p);
        assert forall|j: int| 0 <= j < rows.len() - 1 implies rows.drop_last()[j] == rows[j] by {}
    }
}

/// The face row with the given slug, if any.
pub open spec fn face_slug_is(slug: Seq<char>) -> spec_fn(Face) -> bool {
    |f: Face| f.slug@ == slug
}

/// The art row of the given character and kind, if any.
pub open spec fn art_is(character_id: Uuid, kind: Seq<char>) -> spec_fn(CharacterArt) -> bool {
    |a: CharacterArt| a.character_id == character_id && a.kind@ == kind
}

/// Rows of characters that are starters.
pub open spec fn starter_ids(chars: Seq<CharacterDef>) -> Seq<Uuid>
    decreases chars.len(),
{
    if chars.len() == 0 {
        Seq::empty()
    } else if chars.last().starter {
        starter_ids(chars.drop_last()).push(chars.last().id)
    } else {
        starter_ids(chars.drop_last())
    }
}

/// The ids of the pieces that belong to a character, in table order.
pub open spec fn pieces_of(pieces: Seq<PieceDef>, character_id: Uuid) -> Seq<Uuid>
    decreases pieces.len(),
{
    if pieces.len() == 0 {
        Seq::empty()
    } else if pieces.last().character_id == character_id {
        pieces_of(pieces.drop_last(), character_id).push(pieces.last().id)
    } else {
        pieces_of(pieces.drop_last(), character_id)
    }
}

/// The smallest UUID of a non-empty list.
pub open spec fn min_uuid(ids: Seq<Uuid>) -> Uuid
    decreases ids.len(),
{
    if ids.len() <= 1 {
        ids[0]
    } else if ids.last().value < min_uuid(ids.drop_last()).value {
        ids.last()
    } else {
        min_uuid(ids.drop_last())
    }
}

/// The starter ids are exactly the ids of the character rows marked
/// starter.
pub proof fn lemma_starter_ids_members(chars: Seq<CharacterDef>)
    ensures
        forall|x: Uuid|
            #![trigger starter_ids(chars).contains(x)]
            starter_ids(chars).contains(x) <==> exists|i: int|
                0 <= i < chars.len() && (#[trigger] chars[i]).starter && chars[i].id == x,
    decreases chars.len(),
{
    if chars.len() > 0 {
        let prev = chars.drop_last();
        lemma_starter_ids_members(prev);
        assert forall|x: Uuid| starter_ids(chars).contains(x) <==> exists|i: int|
            0 <= i < chars.len() && (#[trigger] chars[i]).starter && chars[i].id == x by {
            let sp = starter_ids(prev);
            if starter_ids(chars).contains(x) {
                let k = choose|k: int| 0 <= k < starter_ids(chars).len() && starter_ids(chars)[k] == x;
                if k < sp.len() {
                    assert(sp[k] == x);
                    assert(sp.contains(x));
                    let i = choose|i: int| 0 <= i < prev.len() && (#[trigger] prev[i]).starter && prev[i].id == x;
                    assert(chars[i] == prev[i]);
                } else {
                    assert(chars[chars.len() - 1] == chars.last());
                }
            }
            if exists|i: int| 0 <= i < chars.len() && (#[trigger] chars[i]).starter && chars[i].id == x {
                let i = choose|i: int| 0 <= i < chars.len() && (#[trigger] chars[i]).starter && chars[i].id == x;
                if i < prev.len() {
                    assert(prev[i] == chars[i]);
                    assert(sp.contains(x));
                    let k = choose|k: int| 0 <= k < sp.len() && sp[k] == x;
                    if chars.last().starter {
                        assert(starter_ids(chars)[k] == x);
                    }
                } else {
                    assert(chars.last() == chars[i]);
                    assert(starter_ids(chars)[starter_ids(chars).len() - 1] == x);
                }
            }
        }
    }
}

/// The pieces required to unlock a character are exactly the ids of the
/// piece rows that name it.
pub proof fn lemma_pieces_of_members(pieces: Seq<PieceDef>, character_id: Uuid)
    ensures
        forall|x: Uuid|
            #![trigger pieces_of(pieces, character_id).contains(x)]
            pieces_of(pieces, character_id).contains(x) <==> exists|i: int|
                0 <= i < pieces.len() && (#[trigger] pieces[i]).character_id == character_id && pieces[i].id == x,
    decreases pieces.len(),
{
    if pieces.len() > 0 {
        let prev = pieces.drop_last();
        lemma_pieces_of_members(prev, character_id);
        let all = pieces_of(pieces, character_id);
        let sp = pieces_of(prev, character_id);
        assert forall|x: Uuid| all.contains(x) <==> exists|i: int|
            0 <= i < pieces.len() && (#[trigger] pieces[i]).character_id == character_id && pieces[i].id == x by {
            if all.contains(x) {
                let k = choose|k: int| 0 <= k < all.len() && all[k] == x;
                if k < sp.len() {
                    assert(sp[k] == x);
                    assert(sp.contains(x));
                    let i = choose|i: int|
                        0 <= i < prev.len() && (#[trigger] prev[i]).character_id == character_id && prev[i].id == x;
                    assert(pieces[i] == prev[i]);
                } else {
                    assert(pieces[pieces.len() - 1] == pieces.last());
                }
            }
            if exists|i: int| 0 <= i < pieces.len() && (#[trigger] pieces[i]).character_id == character_id && pieces[i].id == x {
                let i = choose|i: int|
                    0 <= i < pieces.len() && (#[trigger] pieces[i]).character_id == character_id && pieces[i].id == x;
                if i < prev.len() {
                    assert(prev[i] == pieces[i]);
                    assert(sp.contains(x));
                    let k = choose|k: int| 0 <= k < sp.len() && sp[k] == x;
                    if pieces.last().character_id == character_id {
                        assert(all[k] == x);
                    }
                } else {
                    assert(pieces.last() == pieces[i]);
                    assert(all[all.len() - 1] == x);
                }
            }
        }
    }
}

/// The smallest UUID of a non-empty list is one of its UUIDs, and no UUID
/// of the list is smaller.
pub proof fn lemma_min_uuid(ids: Seq<Uuid>)
    requires
        ids.len() > 0,
    ensures
        ids.contains(min_uuid(ids)),
        forall|i: int| 0 <= i < ids.len() ==> min_uuid(ids).value <= (#[trigger] ids[i]).value,
    decreases ids.len(),
{
    if ids.len() == 1 {
        assert(ids[0] == min_uuid(ids));
    } else {
        let prev = ids.drop_last();
        lemma_min_uuid(prev);
        let m = min_uuid(prev);
        let k = choose|k: int| 0 <= k < prev.len() && prev[k] == m;
        assert(ids[k] == m);
        assert(ids[ids.len() - 1] == ids.last());
        assert forall|i: int| 0 <= i < ids.len() implies min_uuid(ids).value <= (#[trigger] ids[i]).value by {
            if i < prev.len() {
                assert(prev[i] == ids[i]);
            }
        }
    }
}

/// What importing `import` does to the art table of `before`, giving
/// `after`, and to the next free row UUID: refused for an unknown
/// character; otherwise the row of the same character and kind is
/// overwritten under its UUID, or a row is added under a fresh one.
pub open spec fn art_imported(
    before: CharacterServicesImpl,
    after: Seq<CharacterArt>,
    next_before: u128,
    next_after: u128,
    import: CharacterArtImportV1,
    res: ServiceResult<()>,
) -> bool {
    if before.character(import.character_id) is None {
        res is Err && is_unknown_character_for_art(res->Err_0, import.character_id) && after == before.art@
            && next_after == next_before
    } else {
        let row = |id: Uuid|
            CharacterArt {
                id,
                character_id: import.character_id,
                kind: import.kind,
                width_px: import.width_px,
                height_px: import.height_px,
                content_hash: import.content_hash,
                data: import.data,
            };
        match first_where(before.art@, art_is(import.character_id, import.kind@)) {
            Some(i) => res is Ok && after == upsert(before.art@, row(before.art@[i].id)) && next_after
                == next_before,
            None => if next_before < u128::MAX {
                res is Ok && after == upsert(before.art@, row(Uuid { value: next_before })) && next_after
                    == next_before + 1
            } else {
                res is Err && res->Err_0 is Internal && after == before.art@ && next_after == next_before
            },
        }
    }
}

/// What importing `import` does to the face table `before`, giving
/// `after`, and to the next free row UUID: the row of the same slug is
/// overwritten under its UUID, or a row is added under a fresh one.
pub open spec fn face_imported(
    before: Seq<Face>,
    after: Seq<Face>,
    next_before: u128,
    next_after: u128,
    import: FaceImportV1,
    res: ServiceResult<()>,
) -> bool {
    let row = |id: Uuid|
        Face {
            id,
            slug: import.slug,
            width_px: import.width_px,
            height_px: import.height_px,
            content_hash: import.content_hash,
            data: import.data,
        };
    match first_where(before, face_slug_is(import.slug@)) {
        Some(i) => res is Ok && after == upsert(before, row(before[i].id)) && next_after == next_before,
        None => if next_before < u128::MAX {
            res is Ok && after == upsert(before, row(Uuid { value: next_before })) && next_after == next_before + 1
        } else {
            res is Err && res->Err_0 is Internal && after == before && next_after == next_before
        },
    }
}

/// A copy of a piece row.
pub fn copy_piece(p: &PieceDef) -> (c: PieceDef)
    ensures
        c == *p,
{
    PieceDef { id: p.id, name: p.name.clone(), character_id: p.character_id }
}

/// The character content tables.
pub struct CharacterServicesImpl {
    pub characters: Vec<CharacterDef>,
    pub pieces: Vec<PieceDef>,
    pub art: Vec<CharacterArt>,
    pub faces: Vec<Face>,
}

impl CharacterServicesImpl {
    /// Empty content tables.
    pub fn new() -> (s: CharacterServicesImpl)
        ensures
            s.characters@.len() == 0,
            s.pieces@.len() == 0,
            s.art@.len() == 0,
            s.faces@.len() == 0,
    {
        CharacterServicesImpl {
            characters: Vec::new(),
            pieces: Vec::new(),
            art: Vec::new(),
            faces: Vec::new(),
        }
    }

    /// The character keyed `id`, if any.
    pub open spec fn character(&self, id: Uuid) -> Option<CharacterDef> {
        match find_key(self.characters@, id) {
            Some(i) => Some(self.characters@[i]),
            None => None,
        }
    }

    /// The piece keyed `id`, if any.
    pub open spec fn piece(&self, id: Uuid) -> Option<PieceDef> {
        match find_key(self.pieces@, id) {
            Some(i) => Some(self.pieces@[i]),
            None => None,
        }
    }

    /// Overwrite one authored character definition by its stable UUID.
    pub fn import_character(&mut self, row: CharacterDef) -> (res: ServiceResult<()>)
        ensures
            res is Ok,
            final(self).characters@ == upsert(old(self).characters@, row),
            final(self).pieces@ == old(self).pieces@,
            final(self).art@ == old(self).art@,
            final(self).faces@ == old(self).faces@,
    {
        upsert_row(&mut self.characters, row);
        Ok(())
    }

    /// Overwrite one authored piece definition, verifying its character.
    pub fn import_piece(&mut self, row: PieceDef) -> (res: ServiceResult<()>)
        ensures
            res is Ok <==> old(self).character(row.character_id) is Some,
            res is Ok ==> final(self).pieces@ == upsert(old(self).pieces@, row),
            res is Err ==> is_unknown_character_for_piece(res->Err_0, row.character_id)
                && final(self).pieces@ == old(self).pieces@,
            final(self).characters@ == old(self).characters@,
            final(self).art@ == old(self).art@,
            final(self).faces@ == old(self).faces@,
    {
        if position_of(&self.characters, row.character_id).is_none() {
            let e = CharacterError::unknown_character_for_piece(row.character_id);
            return Err(e);
        }
        upsert_row(&mut self.pieces, row);
        Ok(())
    }

    /// Atomically overwrite one character's art blob for one kind, verifying
    /// the character. The row UUID is generated on first import and kept
    /// stable by (character, kind) across overwrites.
    pub fn import_character_art(&mut self, ids: &mut UuidGen, import: CharacterArtImportV1) -> (res:
        ServiceResult<()>)
        ensures
            art_imported(*old(self), final(self).art@, old(ids).next, final(ids).next, import, res),
            final(self).characters@ == old(self).characters@,
            final(self).pieces@ == old(self).pieces@,
            final(self).faces@ == old(self).faces@,
    {
        if position_of(&self.characters, import.character_id).is_none() {
            return Err(CharacterError::unknown_character_for_art(import.character_id));
        }
        let ghost p = art_is(import.character_id, import.kind@);
        proof {
            lemma_first_where(self.art@, p);
        }
        let mut existing: Option<Uuid> = None;
        let mut i: usize = 0;
        while i < self.art.len()
            invariant
                i <= self.art@.len(),
                p == art_is(import.character_id, import.kind@),
                existing is None ==> forall|j: int| 0 <= j < i ==> !p(#[trigger] self.art@[j]),
                existing matches Some(id) ==> first_where(self.art@, p) matches Some(k) && self.art@[k].id
                    == id,
            decreases self.art.len() - i,
        {
            if existing.is_none() && self.art[i].character_id == import.character_id
                && self.art[i].kind == import.kind {
                proof {
                    lemma_first_where(self.art@, p);
                    if let Some(k) = first_where(self.art@, p) {
                        if k < i {
                            assert(!p(self.art@[k]));
                        }
                        assert(k <= i);
                    }
                }
                existing = Some(self.art[i].id);
            }
            i = i + 1;
        }
        let id = match existing {
            Some(id) => id,
            None => ids.generate_uuid()?,
        };
        upsert_row(
            &mut self.art,
            CharacterArt {
                id,
                character_id: import.character_id,
                kind: import.kind,
                width_px: import.width_px,
                height_px: import.height_px,
                content_hash: import.content_hash,
                data: import.data,
            },
        );
        Ok(())
    }

    /// Atomically overwrite one face expression by slug. The slug is the
    /// authored identity (filename); the UUID is generated on first import
    /// and kept stable across overwrites.
    pub fn import_face(&mut self, ids: &mut UuidGen, import: FaceImportV1) -> (res: ServiceResult<
        (),
    >)
        ensures
            face_imported(old(self).faces@, final(self).faces@, old(ids).next, final(ids).next, import, res),
            final(self).characters@ == old(self).characters@,
            final(self).pieces@ == old(self).pieces@,
            final(self).art@ == old(self).art@,
    {
        let ghost p = face_slug_is(import.slug@);
        let mut existing: Option<Uuid> = None;
        let mut i: usize = 0;
        while i < self.faces.len()
            invariant
                i <= self.faces@.len(),
                p == face_slug_is(import.slug@),
                existing is None ==> forall|j: int| 0 <= j < i ==> !p(#[trigger] self.faces@[j]),
                existing matches Some(id) ==> first_where(self.faces@, p) matches Some(k)
                    && self.faces@[k].id == id,
            decreases self.faces.len() - i,
        {
            if existing.is_none() && self.faces[i].slug == import.slug {
                proof {
                    lemma_first_where(self.faces@, p);
                    if let Some(k) = first_where(self.faces@, p) {
                        if k < i {
                            assert(!p(self.faces@[k]));
                        }
                        assert(k <= i);
                    }
                }
                existing = Some(self.faces[i].id);
            }
            i = i + 1;
        }
        proof {
            lemma_first_where(self.faces@, p);
        }
        let id = match existing {
            Some(id) => id,
            None => ids.generate_uuid()?,
        };
        upsert_row(
            &mut self.faces,
            Face {
                id,
                slug: import.slug,
                width_px: import.width_px,
                height_px: import.height_px,
                content_hash: import.content_hash,
                data: import.data,
            },
        );
        Ok(())
    }

    /// The ids of every starter character, in table order.
    pub fn starter_character_ids(&self) -> (ids: Vec<Uuid>)
        ensures
            ids@ == starter_ids(self.characters@),
            forall|x: Uuid|
                ids@.contains(x) <==> exists|i: int|
                    0 <= i < self.characters@.len() && (#[trigger] self.characters@[i]).starter
                        && self.characters@[i].id == x,
    {
        proof {
            lemma_starter_ids_members(self.characters@);
        }
        let mut ids: Vec<Uuid> = Vec::new();
        let mut i: usize = 0;
        while i < self.characters.len()
            invariant
                i <= self.characters@.len(),
                ids@ == starter_ids(self.characters@.take(i as int)),
            decreases self.characters.len() - i,
        {
            assert(self.characters@.take(i + 1).drop_last() == self.characters@.take(i as int));
            if self.characters[i].starter {
                ids.push(self.characters[i].id);
            }
            i = i + 1;
        }
        assert(self.characters@.take(self.characters@.len() as int) == self.characters@);
        ids
    }

    /// The starter character every new player should begin with:
    /// deterministically the lowest starter UUID.
    pub fn default_starter_character_id(&self) -> (d: Option<Uuid>)
        ensures
            starter_ids(self.characters@).len() == 0 ==> d is None,
            starter_ids(self.characters@).len() > 0 ==> d == Some(
                min_uuid(starter_ids(self.characters@)),
            ),
            d is None <==> forall|i: int| 0 <= i < self.characters@.len() ==> !(#[trigger] self.characters@[i]).starter,
            d matches Some(m) ==> (exists|i: int|
                0 <= i < self.characters@.len() && (#[trigger] self.characters@[i]).starter
                    && self.characters@[i].id == m) && forall|i: int|
                0 <= i < self.characters@.len() && (#[trigger] self.characters@[i]).starter ==> m.value
                    <= self.characters@[i].id.value,
    {
        proof {
            let sids = starter_ids(self.characters@);
            lemma_starter_ids_members(self.characters@);
            if sids.len() > 0 {
                lemma_min_uuid(sids);
                assert forall|i: int| 0 <= i < self.characters@.len() && (#[trigger] self.characters@[i]).starter
                    implies min_uuid(sids).value <= self.characters@[i].id.value by {
                    assert(sids.contains(self.characters@[i].id));
                }
            } else {
                assert forall|i: int| 0 <= i < self.characters@.len() implies !(#[trigger] self.characters@[i]).starter by {
                    if self.characters@[i].starter {
                        assert(sids.contains(self.characters@[i].id));
                    }
                }
            }
        }
        let ids = self.starter_character_ids();
        if ids.len() == 0 {
            return None;
        }
        let mut best = ids[0];
        let mut i: usize = 1;
        while i < ids.len()
            invariant
                1 <= i <= ids@.len(),
                best == min_uuid(ids@.take(i as int)),
            decreases ids.len() - i,
        {
            assert(ids@.take(i + 1).drop_last() == ids@.take(i as int));
            if ids[i].value < best.value {
                best = ids[i];
            }
            i = i + 1;
        }
        assert(ids@.take(ids@.len() as int) == ids@);
        Some(best)
    }

    /// The piece keyed `piece_id`.
    pub fn find_piece(&self, piece_id: Uuid) -> (res: ServiceResult<PieceDef>)
        ensures
            match self.piece(piece_id) {
                Some(p) => res == Ok::<PieceDef, ServiceError>(p),
                None => res is Err && is_unknown_piece(res->Err_0, piece_id),
            },
    {
        match position_of(&self.pieces, piece_id) {
            Some(i) => Ok(copy_piece(&self.pieces[i])),
            None => Err(CharacterError::unknown_piece(piece_id)),
        }
    }

    /// The rarity weight of the character owning `piece_id`, used to scale
    /// lootbox drop weights.
    pub fn piece_rarity_weight(&self, piece_id: Uuid) -> (res: ServiceResult<u32>)
        ensures
            match self.piece(piece_id) {
                None => res is Err && is_unknown_piece(res->Err_0, piece_id),
                Some(p) => match self.character(p.character_id) {
                    Some(c) => res == Ok::<u32, ServiceError>(c.rarity_weight),
                    None => res is Err && is_unknown_character_for_piece(res->Err_0, p.character_id),
                },
            },
    {
        let piece = self.find_piece(piece_id)?;
        match position_of(&self.characters, piece.character_id) {
            Some(i) => Ok(self.characters[i].rarity_weight),
            None => Err(CharacterError::unknown_character_for_piece(piece.character_id)),
        }
    }

    /// Every unique piece required to unlock `character_id`.
    pub fn piece_ids_of_character(&self, character_id: Uuid) -> (ids: Vec<Uuid>)
        ensures
            ids@ == pieces_of(self.pieces@, character_id),
            forall|x: Uuid|
                ids@.contains(x) <==> exists|i: int|
                    0 <= i < self.pieces@.len() && (#[trigger] self.pieces@[i]).character_id == character_id
                        && self.pieces@[i].id == x,
    {
        proof {
            lemma_pieces_of_members(self.pieces@, character_id);
        }
        let mut ids: Vec<Uuid> = Vec::new();
        let mut i: usize = 0;
        while i < self.pieces.len()
            invariant
                i <= self.pieces@.len(),
                ids@ == pieces_of(self.pieces@.take(i as int), character_id),
            decreases self.pieces.len() - i,
        {
            assert(self.pieces@.take(i + 1).drop_last() == self.pieces@.take(i as int));
            if self.pieces[i].character_id == character_id {
                ids.push(self.pieces[i].id);
            }
            i = i + 1;
        }
        assert(self.pieces@.take(self.pieces@.len() as int) == self.pieces@);
        ids
    }

    /// Whether a piece keyed `piece_id` exists.
    pub fn piece_exists(&self, piece_id: Uuid) -> (b: bool)
        ensures
            b == (self.piece(piece_id) is Some),
    {
        position_of(&self.pieces, piece_id).is_some()
    }
}

} // verus!
