//! The authenticated player: profile, unlocked characters, and owned pieces.

use crate::error::{ServiceError, ServiceResult};
use crate::ids::{hyphenated, Identity, Uuid};
use crate::progression::{inserts_of, unlocks};
use crate::repository::character::{first_where, lemma_first_where};
use crate::repository::progression::successor_inserts;
use crate::repository::table::{exhausted, UuidGen};
use crate::text::append_str;
use vstd::prelude::*;

verus! {

/// A player's profile row.
pub struct Player {
    pub identity: Identity,
    pub selected_character_id: Option<Uuid>,
}

/// One character a player has unlocked.
pub struct PlayerUnlockedCharacter {
    pub id: Uuid,
    pub owner: Identity,
    pub character_id: Uuid,
}

/// How many copies of one piece a player holds.
pub struct PlayerPiece {
    pub id: Uuid,
    pub owner: Identity,
    pub piece_id: Uuid,
    pub count: u32,
}

/// Player domain failures.
pub enum PlayerError {
    NotInitialized,
    CharacterNotUnlocked { owner: Identity, character_id: Uuid },
}

/// The failure for a caller without a player row.
pub open spec fn is_not_initialized(e: ServiceError) -> bool {
    e is Conflict && e.text() == "player not initialized"@
}

/// The failure for selecting a character that is not unlocked.
pub open spec fn is_character_not_unlocked(e: ServiceError, owner: Identity, character_id: Uuid) -> bool {
    e is Forbidden && e->Forbidden_identity == owner && e.text() == "character '"@ + hyphenated(
        character_id.value,
    ) + "' is not unlocked"@
}

impl PlayerError {
    /// The caller has no player row.
    pub fn not_initialized() -> (e: ServiceError)
        ensures
            is_not_initialized(e),
    {
        let mut m = String::new();
        append_str(&mut m, "player not initialized");
        ServiceError::Conflict { message: m }
    }

    /// The character is not among the caller's unlocked characters.
    pub fn character_not_unlocked(owner: Identity, character_id: Uuid) -> (e: ServiceError)
        ensures
            is_character_not_unlocked(e, owner, character_id),
    {
        let mut m = String::new();
        append_str(&mut m, "character '");
        append_str(&mut m, character_id.to_text().as_str());
        append_str(&mut m, "' is not unlocked");
        ServiceError::Forbidden { identity: owner, message: m }
    }
}

/// The characters `owner` has unlocked, in table order.
pub open spec fn unlocked_chars(rows: Seq<PlayerUnlockedCharacter>, owner: Identity) -> Seq<Uuid>
    decreases rows.len(),
{
    if rows.len() == 0 {
        Seq::empty()
    } else if rows.last().owner == owner {
        unlocked_chars(rows.drop_last(), owner).push(rows.last().character_id)
    } else {
        unlocked_chars(rows.drop_last(), owner)
    }
}

/// Whether `owner` has unlocked `character_id`.
pub open spec fn has_unlocked_in(
    rows: Seq<PlayerUnlockedCharacter>,
    owner: Identity,
    character_id: Uuid,
) -> bool {
    unlocked_chars(rows, owner).contains(character_id)
}

/// The characters `owner` has unlocked are exactly the character ids of
/// the unlock rows owned by `owner`.
pub proof fn lemma_unlocked_chars_members(rows: Seq<PlayerUnlockedCharacter>, owner: Identity)
    ensures
        forall|x: Uuid|
            #![trigger unlocked_chars(rows, owner).contains(x)]
            unlocked_chars(rows, owner).contains(x) <==> exists|i: int|
                0 <= i < rows.len() && (#[trigger] rows[i]).owner == owner && rows[i].character_id == x,
    decreases rows.len(),
{
    if rows.len() > 0 {
        let prev = rows.drop_last();
        lemma_unlocked_chars_members(prev, owner);
        let all = unlocked_chars(rows, owner);
        let sp = unlocked_chars(prev, owner);
        assert forall|x: Uuid| all.contains(x) <==> exists|i: int|
            0 <= i < rows.len() && (#[trigger] rows[i]).owner == owner && rows[i].character_id == x by {
            if all.contains(x) {
                let k = choose|k: int| 0 <= k < all.len() && all[k] == x;
                if k < sp.len() {
                    assert(sp[k] == x);
                    assert(sp.contains(x));
                    let i = choose|i: int| 0 <= i < prev.len() && (#[trigger] prev[i]).owner == owner && prev[i].character_id == x;
                    assert(rows[i] == prev[i]);
                } else {
                    assert(rows[rows.len() - 1] == rows.last());
                }
            }
            if exists|i: int| 0 <= i < rows.len() && (#[trigger] rows[i]).owner == owner && rows[i].character_id == x {
                let i = choose|i: int| 0 <= i < rows.len() && (#[trigger] rows[i]).owner == owner && rows[i].character_id == x;
                if i < prev.len() {
                    assert(prev[i] == rows[i]);
                    assert(sp.contains(x));
                    let k = choose|k: int| 0 <= k < sp.len() && sp[k] == x;
                    if rows.last().owner == owner {
                        assert(all[k] == x);
                    }
                } else {
                    assert(rows.last() == rows[i]);
                    assert(all[all.len() - 1] == x);
                }
            }
        }
    }
}

/// The pieces `owner` holds are exactly the piece ids of the piece rows
/// owned by `owner` with at least one copy.
pub proof fn lemma_owned_pieces_members(rows: Seq<PlayerPiece>, owner: Identity)
    ensures
        forall|x: Uuid|
            #![trigger owned_pieces(rows, owner).contains(x)]
            owned_pieces(rows, owner).contains(x) <==> exists|i: int|
                0 <= i < rows.len() && (#[trigger] rows[i]).owner == owner && (#[trigger] rows[i]).count > 0 && rows[i].piece_id == x,
    decreases rows.len(),
{
    if rows.len() > 0 {
        let prev = rows.drop_last();
        lemma_owned_pieces_members(prev, owner);
        let all = owned_pieces(rows, owner);
        let sp = owned_pieces(prev, owner);
        assert forall|x: Uuid| all.contains(x) <==> exists|i: int|
            0 <= i < rows.len() && (#[trigger] rows[i]).owner == owner && (#[trigger] rows[i]).count > 0 && rows[i].piece_id == x by {
            if all.contains(x) {
                let k = choose|k: int| 0 <= k < all.len() && all[k] == x;
                if k < sp.len() {
                    assert(sp[k] == x);
                    assert(sp.contains(x));
                    let i = choose|i: int| 0 <= i < prev.len() && (#[trigger] prev[i]).owner == owner && (#[trigger] prev[i]).count > 0 && prev[i].piece_id == x;
                    assert(rows[i] == prev[i]);
                } else {
                    assert(rows[rows.len() - 1] == rows.last());
                }
            }
            if exists|i: int| 0 <= i < rows.len() && (#[trigger] rows[i]).owner == owner && (#[trigger] rows[i]).count > 0 && rows[i].piece_id == x {
                let i = choose|i: int| 0 <= i < rows.len() && (#[trigger] rows[i]).owner == owner && (#[trigger] rows[i]).count > 0 && rows[i].piece_id == x;
                if i < prev.len() {
                    assert(prev[i] == rows[i]);
                    assert(sp.contains(x));
                    let k = choose|k: int| 0 <= k < sp.len() && sp[k] == x;
                    if rows.last().owner == owner && rows.last().count > 0 {
                        assert(all[k] == x);
                    }
                } else {
                    assert(rows.last() == rows[i]);
                    assert(all[all.len() - 1] == x);
                }
            }
        }
    }
}

/// Unlock rows for `owner` and each of `chars`, with UUIDs counting up from
/// `start`.
pub open spec fn unlock_rows(owner: Identity, chars: Seq<Uuid>, start: u128) -> Seq<
    PlayerUnlockedCharacter,
> {
    Seq::new(
        chars.len(),
        |k: int|
            PlayerUnlockedCharacter {
                id: Uuid { value: (start + k) as u128 },
                owner,
                character_id: chars[k],
            },
    )
}

/// Appending rows adds their characters, for their owner only.
pub proof fn lemma_unlocked_chars_append(
    a: Seq<PlayerUnlockedCharacter>,
    b: Seq<PlayerUnlockedCharacter>,
    owner: Identity,
)
    ensures
        unlocked_chars(a + b, owner) == unlocked_chars(a, owner) + unlocked_chars(b, owner),
    decreases b.len(),
{
    if b.len() == 0 {
        assert(a + b == a);
        assert(unlocked_chars(a, owner) + Seq::<Uuid>::empty() == unlocked_chars(a, owner));
    } else {
        lemma_unlocked_chars_append(a, b.drop_last(), owner);
        assert((a + b).drop_last() == a + b.drop_last());
        assert((a + b).last() == b.last());
        if b.last().owner == owner {
            assert(unlocked_chars(a, owner) + unlocked_chars(b.drop_last(), owner).push(b.last().character_id)
                == (unlocked_chars(a, owner) + unlocked_chars(b.drop_last(), owner)).push(
                b.last().character_id,
            ));
        }
    }
}

/// Rows made by `unlock_rows` carry exactly their characters for their owner
/// and nothing for anyone else.
pub proof fn lemma_unlock_rows_chars(owner: Identity, chars: Seq<Uuid>, start: u128, who: Identity)
    ensures
        unlocked_chars(unlock_rows(owner, chars, start), who) == if who == owner {
            chars
        } else {
            Seq::empty()
        },
    decreases chars.len(),
{
    let rows = unlock_rows(owner, chars, start);
    if chars.len() > 0 {
        lemma_unlock_rows_chars(owner, chars.drop_last(), start, who);
        assert(rows.drop_last() == unlock_rows(owner, chars.drop_last(), start));
        if who == owner {
            assert(chars.drop_last().push(chars.last()) == chars);
        }
    } else {
        assert(rows.len() == 0);
    }
}

/// The position of `owner`'s player row.
pub open spec fn player_is(owner: Identity) -> spec_fn(Player) -> bool {
    |p: Player| p.identity == owner
}

/// The position of `owner`'s row for `piece_id`.
pub open spec fn piece_row_is(owner: Identity, piece_id: Uuid) -> spec_fn(PlayerPiece) -> bool {
    |r: PlayerPiece| r.owner == owner && r.piece_id == piece_id
}

/// How many copies of `piece_id` the first matching row records.
pub open spec fn count_of(rows: Seq<PlayerPiece>, owner: Identity, piece_id: Uuid) -> nat {
    match first_where(rows, piece_row_is(owner, piece_id)) {
        Some(i) => rows[i].count as nat,
        None => 0,
    }
}

/// The pieces `owner` holds at least one copy of, in table order.
pub open spec fn owned_pieces(rows: Seq<PlayerPiece>, owner: Identity) -> Seq<Uuid>
    decreases rows.len(),
{
    if rows.len() == 0 {
        Seq::empty()
    } else if rows.last().owner == owner && rows.last().count > 0 {
        owned_pieces(rows.drop_last(), owner).push(rows.last().piece_id)
    } else {
        owned_pieces(rows.drop_last(), owner)
    }
}

/// The piece table after granting one copy of `piece_id` to `owner`, the
/// next UUID, and the new count; `None` when a new row needs a UUID and
/// none is left.
pub open spec fn granted(pieces: Seq<PlayerPiece>, next: u128, owner: Identity, piece_id: Uuid) -> Option<
    (Seq<PlayerPiece>, u128, u32),
> {
    match first_where(pieces, piece_row_is(owner, piece_id)) {
        Some(i) => Some(
            (
                pieces.update(
                    i,
                    PlayerPiece {
                        id: pieces[i].id,
                        owner,
                        piece_id,
                        count: (pieces[i].count + 1) as u32,
                    },
                ),
                next,
                (pieces[i].count + 1) as u32,
            ),
        ),
        None => if next < u128::MAX {
            Some((pieces.push(PlayerPiece { id: Uuid { value: next }, owner, piece_id, count: 1 }), (next + 1) as u128, 1u32))
        } else {
            None
        },
    }
}

/// The unlock table after recording `character_id` for `owner` unless
/// already recorded, and the next UUID; `None` when a UUID is needed and
/// none is left.
pub open spec fn unlocked_if_absent(
    unlocked: Seq<PlayerUnlockedCharacter>,
    next: u128,
    owner: Identity,
    character_id: Uuid,
) -> Option<(Seq<PlayerUnlockedCharacter>, u128)> {
    if has_unlocked_in(unlocked, owner, character_id) {
        Some((unlocked, next))
    } else if next < u128::MAX {
        Some(
            (
                unlocked.push(
                    PlayerUnlockedCharacter { id: Uuid { value: next }, owner, character_id },
                ),
                (next + 1) as u128,
            ),
        )
    } else {
        None
    }
}

/// The unlock table after unlocking `character_id` if `owner` holds every
/// required piece.
pub open spec fn unlocked_when_owned(
    unlocked: Seq<PlayerUnlockedCharacter>,
    pieces: Seq<PlayerPiece>,
    next: u128,
    owner: Identity,
    character_id: Uuid,
    required: Seq<Uuid>,
) -> Option<(Seq<PlayerUnlockedCharacter>, u128)> {
    if unlocks(required, owned_pieces(pieces, owner)) {
        unlocked_if_absent(unlocked, next, owner, character_id)
    } else {
        Some((unlocked, next))
    }
}

/// What making sure `owner` has a player row does to the player tables
/// `before` (giving `after`) and the next free row UUID, answering `res`:
/// the starters `owner` lacks are unlocked, each once, under fresh row
/// UUIDs; a missing player row is added, and a row without a selected
/// character selects `default`. Without enough UUIDs nothing changes.
pub open spec fn player_ensured(
    before: PlayerServicesImpl,
    after: PlayerServicesImpl,
    next_before: u128,
    next_after: u128,
    owner: Identity,
    starters: Seq<Uuid>,
    default: Option<Uuid>,
    res: ServiceResult<()>,
) -> bool {
    &&& {
        let fresh = inserts_of(
            starters,
            unlocked_chars(before.unlocked@, owner),
        );
        if next_before + fresh.len() <= u128::MAX {
            &&& res is Ok
            &&& after.unlocked@ == before.unlocked@ + unlock_rows(
                owner,
                fresh,
                next_before,
            )
            &&& next_after == next_before + fresh.len()
            &&& after.players@ == match first_where(
                before.players@,
                player_is(owner),
            ) {
                None => before.players@.push(
                    Player { identity: owner, selected_character_id: default },
                ),
                Some(i) => if before.players@[i].selected_character_id is None {
                    before.players@.update(
                        i,
                        Player {
                            identity: owner,
                            selected_character_id: default,
                        },
                    )
                } else {
                    before.players@
                },
            }
        } else {
            &&& res is Err
            &&& res->Err_0 is Internal
            &&& after.unlocked@ == before.unlocked@
            &&& after.players@ == before.players@
            &&& next_after == next_before
        }
    }
    &&& after.pieces@ == before.pieces@
}

/// What selecting `character_id` for `owner` does to the player tables
/// `before`, giving `after`, answering `res`: a player that never connected
/// or that has not unlocked the character is refused; otherwise the
/// player's row selects it.
pub open spec fn character_selection(
    before: PlayerServicesImpl,
    after: PlayerServicesImpl,
    owner: Identity,
    character_id: Uuid,
    res: ServiceResult<()>,
) -> bool {
    &&& match first_where(before.players@, player_is(owner)) {
        None => res is Err && is_not_initialized(res->Err_0) && after.players@ == before.players@,
        Some(i) => if !has_unlocked_in(before.unlocked@, owner, character_id) {
            res is Err && is_character_not_unlocked(res->Err_0, owner, character_id) && after.players@
                == before.players@
        } else {
            res is Ok && after.players@ == before.players@.update(
                i,
                Player { identity: owner, selected_character_id: Some(character_id) },
            )
        },
    }
    &&& after.unlocked@ == before.unlocked@
    &&& after.pieces@ == before.pieces@
}

/// The player tables.
pub struct PlayerServicesImpl {
    pub players: Vec<Player>,
    pub unlocked: Vec<PlayerUnlockedCharacter>,
    pub pieces: Vec<PlayerPiece>,
}

impl PlayerServicesImpl {
    /// Empty player tables.
    pub fn new() -> (s: PlayerServicesImpl)
        ensures
            s.players@.len() == 0,
            s.unlocked@.len() == 0,
            s.pieces@.len() == 0,
    {
        PlayerServicesImpl { players: Vec::new(), unlocked: Vec::new(), pieces: Vec::new() }
    }

    /// The characters `owner` has unlocked, in table order.
    pub fn unlocked_character_ids(&self, owner: Identity) -> (ids: Vec<Uuid>)
        ensures
            ids@ == unlocked_chars(self.unlocked@, owner),
            forall|x: Uuid|
                ids@.contains(x) <==> exists|i: int|
                    0 <= i < self.unlocked@.len() && (#[trigger] self.unlocked@[i]).owner == owner
                        && self.unlocked@[i].character_id == x,
    {
        proof {
            lemma_unlocked_chars_members(self.unlocked@, owner);
        }
        let mut ids: Vec<Uuid> = Vec::new();
        let mut i: usize = 0;
        while i < self.unlocked.len()
            invariant
                i <= self.unlocked@.len(),
                ids@ == unlocked_chars(self.unlocked@.take(i as int), owner),
            decreases self.unlocked.len() - i,
        {
            assert(self.unlocked@.take(i + 1).drop_last() == self.unlocked@.take(i as int));
            if self.unlocked[i].owner == owner {
                ids.push(self.unlocked[i].character_id);
            }
            i = i + 1;
        }
        assert(self.unlocked@.take(self.unlocked@.len() as int) == self.unlocked@);
        ids
    }

    /// Whether `owner` has unlocked `character_id`.
    pub fn has_unlocked(&self, owner: Identity, character_id: Uuid) -> (b: bool)
        ensures
            b == has_unlocked_in(self.unlocked@, owner, character_id),
    {
        let ids = self.unlocked_character_ids(owner);
        let mut i: usize = 0;
        while i < ids.len()
            invariant
                i <= ids@.len(),
                ids@ == unlocked_chars(self.unlocked@, owner),
                forall|j: int| 0 <= j < i ==> ids@[j] != character_id,
            decreases ids.len() - i,
        {
            if ids[i] == character_id {
                assert(ids@[i as int] == character_id);
                return true;
            }
            i = i + 1;
        }
        false
    }

    pub(crate) fn player_position(&self, owner: Identity) -> (p: Option<usize>)
        ensures
            match p {
                Some(i) => first_where(self.players@, player_is(owner)) == Some(i as int) && i
                    < self.players@.len(),
                None => first_where(self.players@, player_is(owner)) is None,
            },
    {
        proof {
            lemma_first_where(self.players@, player_is(owner));
        }
        let mut i: usize = 0;
        while i < self.players.len()
            invariant
                i <= self.players@.len(),
                forall|j: int| 0 <= j < i ==> !player_is(owner)(#[trigger] self.players@[j]),
            decreases self.players.len() - i,
        {
            if self.players[i].identity == owner {
                proof {
                    lemma_first_where(self.players@, player_is(owner));
                    if let Some(k) = first_where(self.players@, player_is(owner)) {
                        if k < i {
                            assert(!player_is(owner)(self.players@[k]));
                        }
                        assert(player_is(owner)(self.players@[i as int]));
                    }
                }
                return Some(i);
            }
            i = i + 1;
        }
        proof {
            lemma_first_where(self.players@, player_is(owner));
        }
        None
    }

    fn piece_position(&self, owner: Identity, piece_id: Uuid) -> (p: Option<usize>)
        ensures
            match p {
                Some(i) => first_where(self.pieces@, piece_row_is(owner, piece_id)) == Some(i as int)
                    && i < self.pieces@.len(),
                None => first_where(self.pieces@, piece_row_is(owner, piece_id)) is None,
            },
    {
        let ghost pr = piece_row_is(owner, piece_id);
        let mut i: usize = 0;
        while i < self.pieces.len()
            invariant
                i <= self.pieces@.len(),
                pr == piece_row_is(owner, piece_id),
                forall|j: int| 0 <= j < i ==> !pr(#[trigger] self.pieces@[j]),
            decreases self.pieces.len() - i,
        {
            if self.pieces[i].owner == owner && self.pieces[i].piece_id == piece_id {
                proof {
                    lemma_first_where(self.pieces@, pr);
                    if let Some(k) = first_where(self.pieces@, pr) {
                        if k < i {
                            assert(!pr(self.pieces@[k]));
                        }
                        assert(pr(self.pieces@[i as int]));
                    }
                }
                return Some(i);
            }
            i = i + 1;
        }
        proof {
            lemma_first_where(self.pieces@, pr);
        }
        None
    }

    /// Idempotently ensure `owner` has a player row, every starter character,
    /// and a selected character. Safe to re-run so content imported after a
    /// player's first connection is picked up.
    pub fn ensure_player(
        &mut self,
        ids: &mut UuidGen,
        owner: Identity,
        starter_character_ids: &[Uuid],
        default_character_id: Option<Uuid>,
    ) -> (res: ServiceResult<()>)
        ensures
            player_ensured(
                *old(self),
                *final(self),
                old(ids).next,
                final(ids).next,
                owner,
                starter_character_ids@,
                default_character_id,
                res,
            ),
    {
        let have = self.unlocked_character_ids(owner);
        let fresh = successor_inserts(starter_character_ids, have.as_slice());
        if !ids.has_room(fresh.len()) {
            return Err(exhausted());
        }
        let ghost start = ids.next;
        let ghost before = self.unlocked@;
        let mut k: usize = 0;
        while k < fresh.len()
            invariant
                k <= fresh@.len(),
                start + fresh@.len() <= u128::MAX,
                ids.next == start + k,
                self.unlocked@ == before + unlock_rows(owner, fresh@.take(k as int), start),
                self.pieces@ == old(self).pieces@,
                self.players@ == old(self).players@,
            decreases fresh.len() - k,
        {
            let id = ids.fresh();
            self.unlocked.push(
                PlayerUnlockedCharacter { id, owner, character_id: fresh[k] },
            );
            assert(unlock_rows(owner, fresh@.take(k + 1), start) == unlock_rows(
                owner,
                fresh@.take(k as int),
                start,
            ).push(PlayerUnlockedCharacter { id, owner, character_id: fresh@[k as int] }));
            k = k + 1;
        }
        assert(fresh@.take(fresh@.len() as int) == fresh@);
        match self.player_position(owner) {
            None => {
                self.players.push(
                    Player { identity: owner, selected_character_id: default_character_id },
                );
            },
            Some(i) => {
                if self.players[i].selected_character_id.is_none() {
                    self.players.set(
                        i,
                        Player { identity: owner, selected_character_id: default_character_id },
                    );
                }
            },
        }
        Ok(())
    }

    /// Select one of the caller's unlocked characters.
    pub fn select_character(&mut self, owner: Identity, character_id: Uuid) -> (res: ServiceResult<()>)
        ensures
            character_selection(*old(self), *final(self), owner, character_id, res),
    {
        let i = match self.player_position(owner) {
            Some(i) => i,
            None => return Err(PlayerError::not_initialized()),
        };
        if !self.has_unlocked(owner, character_id) {
            return Err(PlayerError::character_not_unlocked(owner, character_id));
        }
        self.players.set(i, Player { identity: owner, selected_character_id: Some(character_id) });
        Ok(())
    }

    /// Add one copy of `piece_id` to the owner's collection and return the
    /// new count. Duplicates are allowed.
    pub fn grant_piece(&mut self, ids: &mut UuidGen, owner: Identity, piece_id: Uuid) -> (res:
        ServiceResult<u32>)
        requires
            count_of(old(self).pieces@, owner, piece_id) < u32::MAX,
        ensures
            match granted(old(self).pieces@, old(ids).next, owner, piece_id) {
                Some(g) => res == Ok::<u32, ServiceError>(g.2) && final(self).pieces@ == g.0
                    && final(ids).next == g.1,
                None => res is Err && res->Err_0 is Internal && final(self).pieces@ == old(self).pieces@
                    && final(ids).next == old(ids).next,
            },
            final(self).players@ == old(self).players@,
            final(self).unlocked@ == old(self).unlocked@,
    {
        proof {
            lemma_first_where(self.pieces@, piece_row_is(owner, piece_id));
        }
        match self.piece_position(owner, piece_id) {
            Some(i) => {
                let count = self.pieces[i].count + 1;
                let id = self.pieces[i].id;
                self.pieces.set(i, PlayerPiece { id, owner, piece_id, count });
                Ok(count)
            },
            None => {
                let id = ids.generate_uuid()?;
                self.pieces.push(PlayerPiece { id, owner, piece_id, count: 1 });
                Ok(1)
            },
        }
    }

    /// The pieces `owner` holds at least one copy of, in table order.
    pub fn owned_piece_ids(&self, owner: Identity) -> (owned: Vec<Uuid>)
        ensures
            owned@ == owned_pieces(self.pieces@, owner),
            forall|x: Uuid|
                owned@.contains(x) <==> exists|i: int|
                    0 <= i < self.pieces@.len() && (#[trigger] self.pieces@[i]).owner == owner
                        && self.pieces@[i].count > 0 && self.pieces@[i].piece_id == x,
    {
        proof {
            lemma_owned_pieces_members(self.pieces@, owner);
        }
        let mut owned: Vec<Uuid> = Vec::new();
        let mut i: usize = 0;
        while i < self.pieces.len()
            invariant
                i <= self.pieces@.len(),
                owned@ == owned_pieces(self.pieces@.take(i as int), owner),
            decreases self.pieces.len() - i,
        {
            assert(self.pieces@.take(i + 1).drop_last() == self.pieces@.take(i as int));
            if self.pieces[i].owner == owner && self.pieces[i].count > 0 {
                owned.push(self.pieces[i].piece_id);
            }
            i = i + 1;
        }
        assert(self.pieces@.take(self.pieces@.len() as int) == self.pieces@);
        owned
    }

    /// Unlock `character_id` once the owner holds every required piece.
    pub fn unlock_character_when_owned(
        &mut self,
        ids: &mut UuidGen,
        owner: Identity,
        character_id: Uuid,
        required_piece_ids: &[Uuid],
    ) -> (res: ServiceResult<()>)
        ensures
            match unlocked_when_owned(
                old(self).unlocked@,
                old(self).pieces@,
                old(ids).next,
                owner,
                character_id,
                required_piece_ids@,
            ) {
                Some(u) => res is Ok && final(self).unlocked@ == u.0 && final(ids).next == u.1,
                None => res is Err && res->Err_0 is Internal && final(self).unlocked@ == old(
                    self,
                ).unlocked@ && final(ids).next == old(ids).next,
            },
            final(self).players@ == old(self).players@,
            final(self).pieces@ == old(self).pieces@,
    {
        let owned = self.owned_piece_ids(owner);
        if unlocks_character(required_piece_ids, owned.as_slice()) {
            self.unlock_character_if_absent(ids, owner, character_id)?;
        }
        Ok(())
    }

    /// Record that `owner` unlocked `character_id`, unless already recorded.
    pub fn unlock_character_if_absent(&mut self, ids: &mut UuidGen, owner: Identity, character_id: Uuid)
        -> (res: ServiceResult<()>)
        ensures
            match unlocked_if_absent(old(self).unlocked@, old(ids).next, owner, character_id) {
                Some(u) => res is Ok && final(self).unlocked@ == u.0 && final(ids).next == u.1,
                None => res is Err && res->Err_0 is Internal && final(self).unlocked@ == old(
                    self,
                ).unlocked@ && final(ids).next == old(ids).next,
            },
            final(self).players@ == old(self).players@,
            final(self).pieces@ == old(self).pieces@,
    {
        if !self.has_unlocked(owner, character_id) {
            let id = ids.generate_uuid()?;
            self.unlocked.push(PlayerUnlockedCharacter { id, owner, character_id });
        }
        Ok(())
    }
}

/// A character unlocks when the player owns at least one of every unique
/// piece assigned to it. Characters with no pieces never unlock via drops.
pub fn unlocks_character(required: &[Uuid], owned: &[Uuid]) -> (b: bool)
    ensures
        b == unlocks(required@, owned@),
{
    if required.len() == 0 {
        return false;
    }
    let mut i: usize = 0;
    while i < required.len()
        invariant
            i <= required.len(),
            forall|j: int| 0 <= j < i ==> owned@.contains(#[trigger] required@[j]),
        decreases required.len() - i,
    {
        let piece = required[i];
        let mut found = false;
        let mut k: usize = 0;
        while k < owned.len()
            invariant
                k <= owned.len(),
                found == exists|j: int| 0 <= j < k && owned@[j] == piece,
            decreases owned.len() - k,
        {
            if owned[k] == piece {
                found = true;
            }
            k = k + 1;
        }
        if !found {
            assert(!owned@.contains(required@[i as int]));
            return false;
        }
        i = i + 1;
    }
    true
}

} // verus!
