//! Properties that relate several calls of the game services: replaying a
//! request is harmless, a grant or an unlock shows up where the next
//! request looks for it, and importing content again keeps its UUIDs.

use crate::ids::{Identity, Uuid};
use crate::progression::{inserts_of, lemma_inserts_of};
use crate::repository::character::{first_where, lemma_first_where};
use crate::repository::level::LevelServicesImpl;
use crate::repository::player::{
    count_of, granted, has_unlocked_in, piece_row_is, player_is, unlock_rows, unlocked_chars, unlocked_if_absent, Player,
    lemma_unlock_rows_chars, lemma_unlocked_chars_append, PlayerPiece, PlayerUnlockedCharacter,
};
use crate::repository::progression::{
    completed_in, enable_rows, enabled_of, lemma_enable_rows_levels, lemma_enabled_of_append,
    records_completion, PlayerCompletedLevel, ProgressionServices,
};
use crate::repository::{
    connected, default_character, missing_starters, missing_starting_levels, players_after_connect,
    Database,
};
use crate::repository::character::starter_ids;
use crate::repository::level::active_starting;
use crate::repository::lootbox::{LootboxDef, PlayerLootbox};
use crate::repository::progression::PlayerEnabledLevel;
use crate::repository::views::{
    completed_owned_by, completed_view, enabled_owned_by, enabled_view, lootbox_shown, lootbox_view,
    piece_owned_by, piece_view, unlock_owned_by, unlock_view,
};
use crate::error::ServiceResult;
use crate::repository::character::{
    art_imported, art_is, face_imported, face_slug_is, CharacterArt, CharacterArtImportV1, CharacterServicesImpl,
    Face, FaceImportV1,
};
use crate::repository::component::{
    backdrop_imported, backdrop_slug_is, component_imported, component_slug_is, Backdrop, BackdropImportV1,
    Component, ComponentImportV1,
};
use crate::repository::table::{find_key, has_key, lemma_find_key, lemma_upsert, unique_keys, upsert, Row};
use crate::repository::level::{lemma_successors_of_members, successors_of};
use crate::repository::lootbox::LootboxServicesImpl;
use crate::repository::progression::{completion_count, completion_outcome, grants_reward};
use crate::repository::player::{lemma_owned_pieces_members, owned_pieces, player_ensured, unlocked_when_owned, PlayerServicesImpl};
use crate::repository::character::{lemma_pieces_of_members, pieces_of, PieceDef};
use crate::ids::Timestamp;
use vstd::prelude::*;

verus! {

/// `first_where` is pinned down by its characterisation.
proof fn lemma_first_where_is<R>(rows: Seq<R>, p: spec_fn(R) -> bool, i: Option<int>)
    requires
        i matches Some(k) ==> 0 <= k < rows.len() && p(rows[k]) && forall|j: int|
            0 <= j < k ==> !p(#[trigger] rows[j]),
        i is None ==> forall|j: int| 0 <= j < rows.len() ==> !p(#[trigger] rows[j]),
    ensures
        first_where(rows, p) == i,
{
    lemma_first_where(rows, p);
    match first_where(rows, p) {
        Some(f) => match i {
            Some(k) => {
                if f < k {
                    assert(!p(rows[f]));
                } else if k < f {
                    assert(!p(rows[k]));
                }
            },
            None => {
                assert(!p(rows[f]));
            },
        },
        None => match i {
            Some(k) => {
                assert(!p(rows[k]));
            },
            None => {},
        },
    }
}

/// Every configured target is in the enabled list once its inserts are
/// appended.
proof fn lemma_inserts_cover<T>(configured: Seq<T>, enabled: Seq<T>)
    ensures
        forall|x: T| configured.contains(x) ==> #[trigger] (enabled + inserts_of(configured, enabled)).contains(x),
{
    lemma_inserts_of(configured, enabled);
    let ins = inserts_of(configured, enabled);
    assert forall|x: T| configured.contains(x) implies #[trigger] (enabled + ins).contains(x) by {
        if enabled.contains(x) {
            let k = choose|k: int| 0 <= k < enabled.len() && enabled[k] == x;
            assert((enabled + ins)[k] == x);
        } else {
            assert(ins.contains(x));
            let k = choose|k: int| 0 <= k < ins.len() && ins[k] == x;
            assert((enabled + ins)[enabled.len() + k] == x);
        }
    }
}

/// Nothing is inserted when every configured target is already enabled.
proof fn lemma_inserts_of_covered<T>(configured: Seq<T>, enabled: Seq<T>)
    requires
        forall|x: T| configured.contains(x) ==> #[trigger] enabled.contains(x),
    ensures
        inserts_of(configured, enabled) == Seq::<T>::empty(),
{
    lemma_inserts_of(configured, enabled);
    let ins = inserts_of(configured, enabled);
    if ins.len() > 0 {
        assert(ins.contains(ins[0]));
    }
    assert(ins =~= Seq::<T>::empty());
}

/// A list without repeats and without enabled targets is its own inserts.
proof fn lemma_inserts_fixed<T>(s: Seq<T>, enabled: Seq<T>)
    requires
        s.no_duplicates(),
        forall|x: T| s.contains(x) ==> !enabled.contains(x),
    ensures
        inserts_of(s, enabled) == s,
    decreases s.len(),
{
    if s.len() == 0 {
        assert(s =~= Seq::<T>::empty());
    } else {
        let p = s.drop_last();
        let x = s.last();
        assert forall|y: T| p.contains(y) implies !enabled.contains(y) by {
            let k = choose|k: int| 0 <= k < p.len() && p[k] == y;
            assert(s[k] == y);
        }
        assert forall|i: int, j: int| 0 <= i < p.len() && 0 <= j < p.len() && i != j implies p[i] != p[j] by {
            assert(p[i] == s[i] && p[j] == s[j]);
        }
        lemma_inserts_fixed(p, enabled);
        assert(s[s.len() - 1] == x);
        assert(!enabled.contains(x));
        if p.contains(x) {
            let k = choose|k: int| 0 <= k < p.len() && p[k] == x;
            assert(s[k] == s[s.len() - 1]);
        }
        assert(p.push(x) =~= s);
    }
}

/// The successor inserts settle at once: once they are enabled, running
/// the same configuration again inserts nothing, and running the inserts
/// themselves against the same enabled list gives them back unchanged.
pub proof fn lemma_inserts_settle<T>(configured: Seq<T>, enabled: Seq<T>)
    ensures
        inserts_of(configured, enabled + inserts_of(configured, enabled)) == Seq::<T>::empty(),
        inserts_of(inserts_of(configured, enabled), enabled) == inserts_of(configured, enabled),
{
    lemma_inserts_cover(configured, enabled);
    lemma_inserts_of_covered(configured, enabled + inserts_of(configured, enabled));
    lemma_inserts_of(configured, enabled);
    lemma_inserts_fixed(inserts_of(configured, enabled), enabled);
}

/// Connecting is idempotent: once `sender` has connected, connecting again
/// unlocks nothing, enables nothing, uses no row UUID and leaves the player
/// row as it is.
pub proof fn lemma_connect_is_idempotent(before: Database, after: Database, sender: Identity)
    requires
        connected(before, after, sender),
        after.characters == before.characters,
        after.levels == before.levels,
    ensures
        missing_starters(after, sender) == Seq::<Uuid>::empty(),
        missing_starting_levels(after, sender) == Seq::<Uuid>::empty(),
        connected(after, after, sender),
{
    let starters = starter_ids(before.characters.characters@);
    let chars = missing_starters(before, sender);
    let starting = active_starting(before.levels.levels@);
    let levels = missing_starting_levels(before, sender);
    let next = before.ids.next;
    let have = unlocked_chars(before.players.unlocked@, sender);
    let enabled = enabled_of(before.progression.enabled@, sender);

    lemma_unlocked_chars_append(before.players.unlocked@, unlock_rows(sender, chars, next), sender);
    lemma_unlock_rows_chars(sender, chars, next, sender);
    assert(unlocked_chars(after.players.unlocked@, sender) == have + chars);
    lemma_inserts_cover(starters, have);
    lemma_inserts_of_covered(starters, have + chars);

    lemma_enabled_of_append(
        before.progression.enabled@,
        enable_rows(sender, levels, (next + chars.len()) as u128),
        sender,
    );
    lemma_enable_rows_levels(sender, levels, (next + chars.len()) as u128, sender);
    assert(enabled_of(after.progression.enabled@, sender) == enabled + levels);
    lemma_inserts_cover(starting, enabled);
    lemma_inserts_of_covered(starting, enabled + levels);

    let d = default_character(starters);
    let p0 = before.players.players@;
    let p1 = after.players.players@;
    lemma_first_where(p0, player_is(sender));
    match first_where(p0, player_is(sender)) {
        None => {
            lemma_first_where_is(p1, player_is(sender), Some(p0.len() as int));
            assert(p1[p0.len() as int] == Player { identity: sender, selected_character_id: d });
            if d is None {
                assert(p1.update(p0.len() as int, p1[p0.len() as int]) =~= p1);
            }
        },
        Some(i) => {
            if p0[i].selected_character_id is None {
                lemma_first_where_is(p1, player_is(sender), Some(i));
                if d is None {
                    assert(p1.update(i, p1[i]) =~= p1);
                }
            } else {
                assert(p1 == p0);
            }
        },
    }
    assert(players_after_connect(p1, sender, d) == p1);
    assert(after.players.unlocked@ + unlock_rows(sender, Seq::empty(), after.ids.next)
        =~= after.players.unlocked@);
    assert(after.progression.enabled@ + enable_rows(sender, Seq::empty(), after.ids.next) =~= after.progression.enabled@);
}

/// Completing a level twice records it once: after a first completion the
/// level is still active and enabled and is now completed, so a replay is
/// no first completion and `complete_level` answers it with `Ok` and leaves
/// every table as it is.
pub proof fn lemma_completion_replay_is_noop(
    levels: LevelServicesImpl,
    before: ProgressionServices,
    after: ProgressionServices,
    owner: Identity,
    level_id: Uuid,
    row: PlayerCompletedLevel,
    fresh: Seq<Uuid>,
    start: u128,
)
    requires
        records_completion(levels, before, owner, level_id),
        row.owner == owner,
        row.level_id == level_id,
        after.completed@ == before.completed@.push(row),
        after.enabled@ == before.enabled@ + enable_rows(owner, fresh, start),
    ensures
        levels.level(level_id) matches Some(l) && l.active,
        enabled_of(after.enabled@, owner).contains(level_id),
        completed_in(after.completed@, owner, level_id),
        !records_completion(levels, after, owner, level_id),
{
    let n = before.completed@.len() as int;
    assert(after.completed@[n] == row);
    lemma_enabled_of_append(before.enabled@, enable_rows(owner, fresh, start), owner);
    let e0 = enabled_of(before.enabled@, owner);
    let e1 = enabled_of(enable_rows(owner, fresh, start), owner);
    let k = choose|k: int| 0 <= k < e0.len() && e0[k] == level_id;
    assert((e0 + e1)[k] == level_id);
}

/// Each grant adds exactly one copy: the count of the granted piece goes up
/// by one and is what the grant reports, and every other count stays.
pub proof fn lemma_grant_adds_one_copy(
    pieces: Seq<PlayerPiece>,
    next: u128,
    owner: Identity,
    piece_id: Uuid,
    other_owner: Identity,
    other_piece_id: Uuid,
)
    requires
        granted(pieces, next, owner, piece_id) is Some,
        count_of(pieces, owner, piece_id) < u32::MAX,
    ensures
        ({
            let g = granted(pieces, next, owner, piece_id)->0;
            &&& count_of(g.0, owner, piece_id) == count_of(pieces, owner, piece_id) + 1
            &&& g.2 == count_of(g.0, owner, piece_id)
            &&& (other_owner != owner || other_piece_id != piece_id) ==> count_of(
                g.0,
                other_owner,
                other_piece_id,
            ) == count_of(pieces, other_owner, other_piece_id)
        }),
{
    let g = granted(pieces, next, owner, piece_id)->0;
    let p = piece_row_is(owner, piece_id);
    let q = piece_row_is(other_owner, other_piece_id);
    let other = other_owner != owner || other_piece_id != piece_id;
    lemma_first_where(pieces, p);
    lemma_first_where(pieces, q);
    match first_where(pieces, p) {
        Some(i) => {
            let rows = g.0;
            lemma_first_where_is(rows, p, Some(i));
            if other {
                assert(!q(pieces[i]));
                assert(!q(rows[i]));
                assert forall|j: int| 0 <= j < rows.len() && j != i implies rows[j] == pieces[j] by {}
                lemma_first_where_is(rows, q, first_where(pieces, q));
            }
        },
        None => {
            let rows = g.0;
            lemma_first_where_is(rows, p, Some(pieces.len() as int));
            if other {
                assert(!q(rows[pieces.len() as int]));
                assert forall|j: int| 0 <= j < pieces.len() implies rows[j] == pieces[j] by {}
                lemma_first_where_is(rows, q, first_where(pieces, q));
            }
        },
    }
}

/// Unlocking is idempotent and visible: after an unlock the character counts
/// as unlocked, and unlocking it again changes nothing and uses no UUID.
pub proof fn lemma_unlock_is_idempotent(
    unlocked: Seq<PlayerUnlockedCharacter>,
    next: u128,
    owner: Identity,
    character_id: Uuid,
)
    requires
        unlocked_if_absent(unlocked, next, owner, character_id) is Some,
    ensures
        ({
            let u = unlocked_if_absent(unlocked, next, owner, character_id)->0;
            &&& has_unlocked_in(u.0, owner, character_id)
            &&& unlocked_if_absent(u.0, u.1, owner, character_id) == Some(u)
        }),
{
    let u = unlocked_if_absent(unlocked, next, owner, character_id)->0;
    if !has_unlocked_in(unlocked, owner, character_id) {
        let row = PlayerUnlockedCharacter { id: Uuid { value: next }, owner, character_id };
        assert(u.0 == unlocked.push(row));
        assert(u.0.drop_last() == unlocked);
        let chars = unlocked_chars(u.0, owner);
        assert(chars == unlocked_chars(unlocked, owner).push(character_id));
        assert(chars[chars.len() - 1] == character_id);
    }
}

/// Rows the predicate rejects add nothing to a filter.
proof fn lemma_filter_ignores<R>(a: Seq<R>, b: Seq<R>, p: spec_fn(R) -> bool)
    requires
        forall|i: int| 0 <= i < b.len() ==> !p(#[trigger] b[i]),
    ensures
        (a + b).filter(p) == a.filter(p),
{
    Seq::filter_distributes_over_add(a, b, p);
    b.lemma_all_neg_filter_empty(p);
    assert(a.filter(p) + b.filter(p) =~= a.filter(p));
}

/// What a player's own views show never depends on other players' rows:
/// adding rows of other players to the piece, unlock, enabled-level,
/// completion and granted-lootbox tables leaves the caller's views as they
/// were.
pub proof fn lemma_views_ignore_other_players(
    sender: Identity,
    pieces: Seq<PlayerPiece>,
    other_pieces: Seq<PlayerPiece>,
    unlocked: Seq<PlayerUnlockedCharacter>,
    other_unlocked: Seq<PlayerUnlockedCharacter>,
    enabled: Seq<PlayerEnabledLevel>,
    other_enabled: Seq<PlayerEnabledLevel>,
    completed: Seq<PlayerCompletedLevel>,
    other_completed: Seq<PlayerCompletedLevel>,
    granted: Seq<PlayerLootbox>,
    other_granted: Seq<PlayerLootbox>,
    defs: Seq<LootboxDef>,
)
    requires
        forall|i: int| 0 <= i < other_pieces.len() ==> (#[trigger] other_pieces[i]).owner != sender,
        forall|i: int| 0 <= i < other_unlocked.len() ==> (#[trigger] other_unlocked[i]).owner != sender,
        forall|i: int| 0 <= i < other_enabled.len() ==> (#[trigger] other_enabled[i]).owner != sender,
        forall|i: int| 0 <= i < other_completed.len() ==> (#[trigger] other_completed[i]).owner != sender,
        forall|i: int| 0 <= i < other_granted.len() ==> (#[trigger] other_granted[i]).owner != sender,
    ensures
        (pieces + other_pieces).filter(piece_owned_by(sender)).map_values(piece_view()) == pieces.filter(
            piece_owned_by(sender),
        ).map_values(piece_view()),
        (unlocked + other_unlocked).filter(unlock_owned_by(sender)).map_values(unlock_view()) == unlocked.filter(
            unlock_owned_by(sender),
        ).map_values(unlock_view()),
        (enabled + other_enabled).filter(enabled_owned_by(sender)).map_values(enabled_view()) == enabled.filter(
            enabled_owned_by(sender),
        ).map_values(enabled_view()),
        (completed + other_completed).filter(completed_owned_by(sender)).map_values(completed_view())
            == completed.filter(completed_owned_by(sender)).map_values(completed_view()),
        (granted + other_granted).filter(lootbox_shown(sender, defs)).map_values(lootbox_view(defs))
            == granted.filter(lootbox_shown(sender, defs)).map_values(lootbox_view(defs)),
{
    lemma_filter_ignores(pieces, other_pieces, piece_owned_by(sender));
    lemma_filter_ignores(unlocked, other_unlocked, unlock_owned_by(sender));
    lemma_filter_ignores(enabled, other_enabled, enabled_owned_by(sender));
    lemma_filter_ignores(completed, other_completed, completed_owned_by(sender));
    lemma_filter_ignores(granted, other_granted, lootbox_shown(sender, defs));
}

/// Every row a player's piece view shows is one of that player's rows.
pub proof fn lemma_piece_view_shows_own_rows(pieces: Seq<PlayerPiece>, sender: Identity)
    ensures
        forall|k: int|
            0 <= k < pieces.filter(piece_owned_by(sender)).len() ==> (#[trigger] pieces.filter(
                piece_owned_by(sender),
            )[k]).owner == sender && pieces.contains(pieces.filter(piece_owned_by(sender))[k]),
{
    #[allow(deprecated)]
    pieces.filter_lemma(piece_owned_by(sender));
    assert forall|k: int| 0 <= k < pieces.filter(piece_owned_by(sender)).len() implies pieces.contains(
        #[trigger] pieces.filter(piece_owned_by(sender))[k],
    ) by {
        lemma_filter_member(pieces, piece_owned_by(sender), k);
    }
}

/// Each element of a filter comes from the filtered sequence.
proof fn lemma_filter_member<R>(rows: Seq<R>, p: spec_fn(R) -> bool, k: int)
    requires
        0 <= k < rows.filter(p).len(),
    ensures
        rows.contains(rows.filter(p)[k]),
    decreases rows.len(),
{
    reveal_with_fuel(Seq::<_>::filter, 1);
    if rows.len() > 0 {
        let prev = rows.drop_last().filter(p);
        if k < prev.len() {
            lemma_filter_member(rows.drop_last(), p, k);
            let j = choose|j: int| 0 <= j < rows.drop_last().len() && rows.drop_last()[j] == prev[k];
            assert(rows[j] == prev[k]);
            if p(rows.last()) {
                assert(rows.filter(p)[k] == prev[k]);
            }
        } else {
            assert(rows.filter(p)[k] == rows.last());
            assert(rows[rows.len() - 1] == rows.last());
        }
    }
}

/// Upserting a row that satisfies `p`, keyed like the first row that
/// satisfies `p` when there is one, makes it the first such row.
proof fn lemma_upsert_first_where<R: Row>(rows: Seq<R>, row: R, p: spec_fn(R) -> bool)
    requires
        p(row),
        first_where(rows, p) matches Some(i) ==> rows[i].key() == row.key(),
    ensures
        first_where(upsert(rows, row), p) matches Some(j) && upsert(rows, row)[j] == row,
{
    lemma_first_where(rows, p);
    lemma_find_key(rows, row.key());
    let out = upsert(rows, row);
    match find_key(rows, row.key()) {
        Some(j) => {
            assert forall|k: int| 0 <= k < j implies !p(#[trigger] out[k]) by {
                assert(out[k] == rows[k]);
                if let Some(i) = first_where(rows, p) {
                    if i <= k {
                        assert(rows[i].key() == row.key());
                    }
                }
            }
            lemma_first_where_is(out, p, Some(j));
        },
        None => {
            if let Some(i) = first_where(rows, p) {
                assert(rows[i].key() == row.key());
            }
            assert forall|k: int| 0 <= k < rows.len() implies !p(#[trigger] out[k]) by {
                assert(out[k] == rows[k]);
            }
            lemma_first_where_is(out, p, Some(rows.len() as int));
        },
    }
}

/// Upserting a row under a key the table holds keeps the row count;
/// upserting a table's own row back, with keys unique, changes nothing.
proof fn lemma_upsert_existing<R: Row>(rows: Seq<R>, j: int, row: R)
    requires
        0 <= j < rows.len(),
        rows[j].key() == row.key(),
    ensures
        upsert(rows, row).len() == rows.len(),
        unique_keys(rows) && row == rows[j] ==> upsert(rows, row) == rows,
{
    lemma_find_key(rows, row.key());
    assert(has_key(rows, row.key()));
    if unique_keys(rows) && row == rows[j] {
        let k = find_key(rows, row.key())->0;
        if k != j {
            assert(rows[k].key() != rows[j].key());
        }
        assert(rows.update(j, rows[j]) =~= rows);
    }
}

/// Importing a component again under the same slug keeps the UUID its row
/// got the first time, draws no new one and keeps the row count; an
/// identical import, with the row keys unique (as `keys_fresh` keeps them in
/// every database), leaves the table as it was.
pub proof fn lemma_component_reimport_keeps_uuid(
    before: Seq<Component>,
    mid: Seq<Component>,
    after: Seq<Component>,
    n0: u128,
    n1: u128,
    n2: u128,
    first: ComponentImportV1,
    second: ComponentImportV1,
    r1: ServiceResult<()>,
    r2: ServiceResult<()>,
)
    requires
        component_imported(before, mid, n0, n1, first, Ok(()), r1),
        r1 is Ok,
        component_imported(mid, after, n1, n2, second, Ok(()), r2),
        second.slug@ == first.slug@,
    ensures
        r2 is Ok,
        n2 == n1,
        first_where(mid, component_slug_is(first.slug@)) matches Some(i) && first_where(
            after,
            component_slug_is(first.slug@),
        ) matches Some(j) && after[j].id == mid[i].id,
        after.len() == mid.len(),
        unique_keys(before) && second == first ==> after == mid,
{
    let p = component_slug_is(first.slug@);
    let row1 = |id: Uuid|
        Component {
            id,
            slug: first.slug,
            width_px: first.width_px,
            height_px: first.height_px,
            content_hash: first.content_hash,
            data: first.data,
        };
    let id1 = match first_where(before, p) {
        Some(i) => before[i].id,
        None => Uuid { value: n0 },
    };
    lemma_upsert_first_where(before, row1(id1), p);
    if unique_keys(before) {
        lemma_upsert(before, row1(id1));
    }
    let i = first_where(mid, p)->0;
    let row2 = Component {
        id: mid[i].id,
        slug: second.slug,
        width_px: second.width_px,
        height_px: second.height_px,
        content_hash: second.content_hash,
        data: second.data,
    };
    lemma_upsert_first_where(mid, row2, p);
    lemma_first_where(mid, p);
    lemma_upsert_existing(mid, i, row2);
}

/// Importing a backdrop again under the same slug keeps the UUID its row
/// got the first time, draws no new one and keeps the row count; an
/// identical import, with the row keys unique (as `keys_fresh` keeps them in
/// every database), leaves the table as it was.
pub proof fn lemma_backdrop_reimport_keeps_uuid(
    before: Seq<Backdrop>,
    mid: Seq<Backdrop>,
    after: Seq<Backdrop>,
    n0: u128,
    n1: u128,
    n2: u128,
    first: BackdropImportV1,
    second: BackdropImportV1,
    r1: ServiceResult<()>,
    r2: ServiceResult<()>,
)
    requires
        backdrop_imported(before, mid, n0, n1, first, r1),
        r1 is Ok,
        backdrop_imported(mid, after, n1, n2, second, r2),
        second.slug@ == first.slug@,
    ensures
        r2 is Ok,
        n2 == n1,
        first_where(mid, backdrop_slug_is(first.slug@)) matches Some(i) && first_where(
            after,
            backdrop_slug_is(first.slug@),
        ) matches Some(j) && after[j].id == mid[i].id,
        after.len() == mid.len(),
        unique_keys(before) && second == first ==> after == mid,
{
    let p = backdrop_slug_is(first.slug@);
    let row1 = |id: Uuid| Backdrop { id, slug: first.slug, sky: first.sky, far: first.far, mid: first.mid };
    let id1 = match first_where(before, p) {
        Some(i) => before[i].id,
        None => Uuid { value: n0 },
    };
    lemma_upsert_first_where(before, row1(id1), p);
    if unique_keys(before) {
        lemma_upsert(before, row1(id1));
    }
    let i = first_where(mid, p)->0;
    let row2 = Backdrop { id: mid[i].id, slug: second.slug, sky: second.sky, far: second.far, mid: second.mid };
    lemma_upsert_first_where(mid, row2, p);
    lemma_first_where(mid, p);
    lemma_upsert_existing(mid, i, row2);
}

/// Importing a face again under the same slug keeps the UUID its row
/// got the first time, draws no new one and keeps the row count; an
/// identical import, with the row keys unique (as `keys_fresh` keeps them in
/// every database), leaves the table as it was.
pub proof fn lemma_face_reimport_keeps_uuid(
    before: Seq<Face>,
    mid: Seq<Face>,
    after: Seq<Face>,
    n0: u128,
    n1: u128,
    n2: u128,
    first: FaceImportV1,
    second: FaceImportV1,
    r1: ServiceResult<()>,
    r2: ServiceResult<()>,
)
    requires
        face_imported(before, mid, n0, n1, first, r1),
        r1 is Ok,
        face_imported(mid, after, n1, n2, second, r2),
        second.slug@ == first.slug@,
    ensures
        r2 is Ok,
        n2 == n1,
        first_where(mid, face_slug_is(first.slug@)) matches Some(i) && first_where(
            after,
            face_slug_is(first.slug@),
        ) matches Some(j) && after[j].id == mid[i].id,
        after.len() == mid.len(),
        unique_keys(before) && second == first ==> after == mid,
{
    let p = face_slug_is(first.slug@);
    let row1 = |id: Uuid|
        Face {
            id,
            slug: first.slug,
            width_px: first.width_px,
            height_px: first.height_px,
            content_hash: first.content_hash,
            data: first.data,
        };
    let id1 = match first_where(before, p) {
        Some(i) => before[i].id,
        None => Uuid { value: n0 },
    };
    lemma_upsert_first_where(before, row1(id1), p);
    if unique_keys(before) {
        lemma_upsert(before, row1(id1));
    }
    let i = first_where(mid, p)->0;
    let row2 = Face {
        id: mid[i].id,
        slug: second.slug,
        width_px: second.width_px,
        height_px: second.height_px,
        content_hash: second.content_hash,
        data: second.data,
    };
    lemma_upsert_first_where(mid, row2, p);
    lemma_first_where(mid, p);
    lemma_upsert_existing(mid, i, row2);
}

/// Importing a character's art of one kind again keeps the UUID its row
/// got the first time, draws no new one and keeps the row count; an
/// identical import, with the row keys unique (as `keys_fresh` keeps them in
/// every database), leaves the table as it was.
pub proof fn lemma_art_reimport_keeps_uuid(
    before: CharacterServicesImpl,
    between: CharacterServicesImpl,
    after: Seq<CharacterArt>,
    n0: u128,
    n1: u128,
    n2: u128,
    first: CharacterArtImportV1,
    second: CharacterArtImportV1,
    r1: ServiceResult<()>,
    r2: ServiceResult<()>,
)
    requires
        art_imported(before, between.art@, n0, n1, first, r1),
        r1 is Ok,
        between.characters@ == before.characters@,
        art_imported(between, after, n1, n2, second, r2),
        second.character_id == first.character_id,
        second.kind@ == first.kind@,
    ensures
        r2 is Ok,
        n2 == n1,
        first_where(between.art@, art_is(first.character_id, first.kind@)) matches Some(i) && first_where(
            after,
            art_is(first.character_id, first.kind@),
        ) matches Some(j) && after[j].id == between.art@[i].id,
        after.len() == between.art@.len(),
        unique_keys(before.art@) && second == first ==> after == between.art@,
{
    let p = art_is(first.character_id, first.kind@);
    let mid = between.art@;
    let row1 = |id: Uuid|
        CharacterArt {
            id,
            character_id: first.character_id,
            kind: first.kind,
            width_px: first.width_px,
            height_px: first.height_px,
            content_hash: first.content_hash,
            data: first.data,
        };
    let id1 = match first_where(before.art@, p) {
        Some(i) => before.art@[i].id,
        None => Uuid { value: n0 },
    };
    lemma_upsert_first_where(before.art@, row1(id1), p);
    if unique_keys(before.art@) {
        lemma_upsert(before.art@, row1(id1));
    }
    let i = first_where(mid, p)->0;
    let row2 = CharacterArt {
        id: mid[i].id,
        character_id: second.character_id,
        kind: second.kind,
        width_px: second.width_px,
        height_px: second.height_px,
        content_hash: second.content_hash,
        data: second.data,
    };
    lemma_upsert_first_where(mid, row2, p);
    lemma_first_where(mid, p);
    lemma_upsert_existing(mid, i, row2);
}

/// Completing a level a second time succeeds and changes nothing: no
/// second record, no second reward, no UUID drawn.
pub proof fn lemma_completing_twice_is_completing_once(
    levels: LevelServicesImpl,
    p0: ProgressionServices,
    p1: ProgressionServices,
    p2: ProgressionServices,
    lb0: LootboxServicesImpl,
    lb1: LootboxServicesImpl,
    lb2: LootboxServicesImpl,
    n0: u128,
    n1: u128,
    n2: u128,
    owner: Identity,
    level_id: Uuid,
    now1: Timestamp,
    now2: Timestamp,
    r1: ServiceResult<()>,
    r2: ServiceResult<()>,
)
    requires
        completion_outcome(levels, p0, p1, lb0, lb1, n0, n1, owner, level_id, now1, r1),
        r1 is Ok,
        completion_outcome(levels, p1, p2, lb1, lb2, n1, n2, owner, level_id, now2, r2),
    ensures
        r2 is Ok,
        p2.completed@ == p1.completed@,
        p2.enabled@ == p1.enabled@,
        p2.selected@ == p1.selected@,
        lb2.granted@ == lb1.granted@,
        lb2.defs@ == lb1.defs@,
        lb2.drops@ == lb1.drops@,
        n2 == n1,
{
    if records_completion(levels, p0, owner, level_id) {
        let fresh = inserts_of(successors_of(levels.successors@, level_id), enabled_of(p0.enabled@, owner));
        let row = PlayerCompletedLevel { id: Uuid { value: n0 }, owner, level_id, completed_at: now1 };
        lemma_completion_replay_is_noop(levels, p0, p1, owner, level_id, row, fresh, (n0 + 1) as u128);
    }
}

/// No completion row for `owner` and `level_id` means a count of zero.
proof fn lemma_no_completion_count(rows: Seq<PlayerCompletedLevel>, owner: Identity, level_id: Uuid)
    requires
        !completed_in(rows, owner, level_id),
    ensures
        completion_count(rows, owner, level_id) == 0,
    decreases rows.len(),
{
    if rows.len() > 0 {
        assert forall|i: int| 0 <= i < rows.drop_last().len() implies !(#[trigger] rows.drop_last()[i].owner
            == owner && rows.drop_last()[i].level_id == level_id) by {
            assert(rows.drop_last()[i] == rows[i]);
        }
        lemma_no_completion_count(rows.drop_last(), owner, level_id);
        assert(rows[rows.len() - 1] == rows.last());
    }
}

/// The inserts are no longer than the configuration.
proof fn lemma_inserts_len<T>(configured: Seq<T>, enabled: Seq<T>)
    ensures
        inserts_of(configured, enabled).len() <= configured.len(),
    decreases configured.len(),
{
    if configured.len() > 0 {
        lemma_inserts_len(configured.drop_last(), enabled);
    }
}

/// Completing an active, enabled level not completed yet, with row UUIDs
/// left, succeeds: it records exactly one completion, enables every
/// successor for the owner without adding a repeat, grants one unopened
/// reward lootbox exactly when the level's reward lootbox exists, and a
/// second identical completion succeeds and changes nothing.
pub proof fn lemma_completing_a_level(
    levels: LevelServicesImpl,
    p0: ProgressionServices,
    p1: ProgressionServices,
    p2: ProgressionServices,
    lb0: LootboxServicesImpl,
    lb1: LootboxServicesImpl,
    lb2: LootboxServicesImpl,
    n0: u128,
    n1: u128,
    n2: u128,
    owner: Identity,
    level_id: Uuid,
    now1: Timestamp,
    now2: Timestamp,
    r1: ServiceResult<()>,
    r2: ServiceResult<()>,
)
    requires
        records_completion(levels, p0, owner, level_id),
        n0 + 2 + successors_of(levels.successors@, level_id).len() <= u128::MAX,
        completion_outcome(levels, p0, p1, lb0, lb1, n0, n1, owner, level_id, now1, r1),
        completion_outcome(levels, p1, p2, lb1, lb2, n1, n2, owner, level_id, now2, r2),
    ensures
        r1 is Ok,
        completion_count(p1.completed@, owner, level_id) == 1,
        forall|x: Uuid|
            successors_of(levels.successors@, level_id).contains(x) ==> #[trigger] enabled_of(p1.enabled@, owner).contains(x),
        forall|j: int|
            0 <= j < levels.successors@.len() && (#[trigger] levels.successors@[j]).level_id == level_id
                ==> enabled_of(p1.enabled@, owner).contains(levels.successors@[j].successor_id),
        enabled_of(p0.enabled@, owner).no_duplicates() ==> enabled_of(p1.enabled@, owner).no_duplicates(),
        grants_reward(levels.level(level_id)->0.reward_lootbox_id, lb0) ==> {
            &&& lb1.granted@.len() == lb0.granted@.len() + 1
            &&& lb1.granted@.drop_last() == lb0.granted@
            &&& lb1.granted@.last().owner == owner
            &&& lb1.granted@.last().lootbox_id == levels.level(level_id)->0.reward_lootbox_id->0
            &&& !lb1.granted@.last().opened
            &&& lb1.granted@.last().awarded_piece_id is None
        },
        !grants_reward(levels.level(level_id)->0.reward_lootbox_id, lb0) ==> lb1.granted@ == lb0.granted@,
        r2 is Ok,
        p2.completed@ == p1.completed@,
        p2.enabled@ == p1.enabled@,
        lb2.granted@ == lb1.granted@,
        n2 == n1,
{
    let succ = successors_of(levels.successors@, level_id);
    lemma_successors_of_members(levels.successors@, level_id);
    let e0 = enabled_of(p0.enabled@, owner);
    let fresh = inserts_of(succ, e0);
    lemma_inserts_len(succ, e0);
    lemma_inserts_of(succ, e0);
    lemma_inserts_cover(succ, e0);
    let row = PlayerCompletedLevel { id: Uuid { value: n0 }, owner, level_id, completed_at: now1 };
    assert(p1.completed@ == p0.completed@.push(row));
    lemma_no_completion_count(p0.completed@, owner, level_id);
    assert(p1.completed@.drop_last() == p0.completed@);
    lemma_enabled_of_append(p0.enabled@, enable_rows(owner, fresh, (n0 + 1) as u128), owner);
    lemma_enable_rows_levels(owner, fresh, (n0 + 1) as u128, owner);
    assert(enabled_of(p1.enabled@, owner) == e0 + fresh);
    if e0.no_duplicates() {
        let all = e0 + fresh;
        assert forall|i: int, j: int| 0 <= i < all.len() && 0 <= j < all.len() && i != j implies all[i]
            != all[j] by {
            if i < e0.len() && j >= e0.len() {
                assert(fresh.contains(all[j]));
                assert(e0.contains(all[i]));
            } else if j < e0.len() && i >= e0.len() {
                assert(fresh.contains(all[i]));
                assert(e0.contains(all[j]));
            } else if i >= e0.len() {
                assert(all[i] == fresh[i - e0.len()] && all[j] == fresh[j - e0.len()]);
            }
        }
    }
    if grants_reward(levels.level(level_id)->0.reward_lootbox_id, lb0) {
        assert(lb1.granted@.drop_last() =~= lb0.granted@);
    }
    lemma_completing_twice_is_completing_once(
        levels,
        p0,
        p1,
        p2,
        lb0,
        lb1,
        lb2,
        n0,
        n1,
        n2,
        owner,
        level_id,
        now1,
        now2,
        r1,
        r2,
    );
}

/// The character a player row selects after `ensure_player`: the earlier
/// selection when there is one, else `default`.
pub open spec fn selection_after_ensure(players: Seq<Player>, owner: Identity, default: Option<Uuid>) -> Option<Uuid> {
    match first_where(players, player_is(owner)) {
        Some(j) => if players[j].selected_character_id is Some {
            players[j].selected_character_id
        } else {
            default
        },
        None => default,
    }
}

/// Making sure a player exists twice is making sure once: after a
/// successful call the owner's player row exists and selects its earlier
/// choice or else `default`, every starter is unlocked for the owner
/// without a repeat added, and a second identical call succeeds and
/// changes no table and draws no UUID.
pub proof fn lemma_ensure_player_is_idempotent(
    p0: PlayerServicesImpl,
    p1: PlayerServicesImpl,
    p2: PlayerServicesImpl,
    n0: u128,
    n1: u128,
    n2: u128,
    owner: Identity,
    starters: Seq<Uuid>,
    default: Option<Uuid>,
    r1: ServiceResult<()>,
    r2: ServiceResult<()>,
)
    requires
        player_ensured(p0, p1, n0, n1, owner, starters, default, r1),
        r1 is Ok,
        player_ensured(p1, p2, n1, n2, owner, starters, default, r2),
    ensures
        first_where(p1.players@, player_is(owner)) matches Some(i) && p1.players@[i].selected_character_id
            == selection_after_ensure(p0.players@, owner, default),
        forall|x: Uuid| starters.contains(x) ==> #[trigger] unlocked_chars(p1.unlocked@, owner).contains(x),
        unlocked_chars(p0.unlocked@, owner).no_duplicates() ==> unlocked_chars(p1.unlocked@, owner).no_duplicates(),
        r2 is Ok,
        p2.players@ == p1.players@,
        p2.unlocked@ == p1.unlocked@,
        p2.pieces@ == p1.pieces@,
        n2 == n1,
{
    let have = unlocked_chars(p0.unlocked@, owner);
    let fresh = inserts_of(starters, have);
    lemma_unlocked_chars_append(p0.unlocked@, unlock_rows(owner, fresh, n0), owner);
    lemma_unlock_rows_chars(owner, fresh, n0, owner);
    assert(unlocked_chars(p1.unlocked@, owner) == have + fresh);
    lemma_inserts_of(starters, have);
    lemma_inserts_cover(starters, have);
    lemma_inserts_settle(starters, have);
    if have.no_duplicates() {
        let all = have + fresh;
        assert forall|i: int, j: int| 0 <= i < all.len() && 0 <= j < all.len() && i != j implies all[i]
            != all[j] by {
            if i < have.len() && j >= have.len() {
                assert(fresh.contains(all[j]));
                assert(have.contains(all[i]));
            } else if j < have.len() && i >= have.len() {
                assert(fresh.contains(all[i]));
                assert(have.contains(all[j]));
            } else if i >= have.len() {
                assert(all[i] == fresh[i - have.len()] && all[j] == fresh[j - have.len()]);
            }
        }
    }
    assert(p1.unlocked@ + unlock_rows(owner, Seq::empty(), n1) =~= p1.unlocked@);
    let q0 = p0.players@;
    let q1 = p1.players@;
    lemma_first_where(q0, player_is(owner));
    match first_where(q0, player_is(owner)) {
        None => {
            lemma_first_where_is(q1, player_is(owner), Some(q0.len() as int));
            if default is None {
                assert(q1.update(q0.len() as int, q1[q0.len() as int]) =~= q1);
            }
        },
        Some(i) => {
            if q0[i].selected_character_id is None {
                lemma_first_where_is(q1, player_is(owner), Some(i));
                if default is None {
                    assert(q1.update(i, q1[i]) =~= q1);
                }
            } else {
                assert(q1 == q0);
            }
        },
    }
}

/// A character is unlocked by its pieces only when it has at least one
/// piece and the player holds a copy of every piece whose row names it.
pub proof fn lemma_unlock_needs_every_piece(
    unlocked: Seq<PlayerUnlockedCharacter>,
    held: Seq<PlayerPiece>,
    next: u128,
    owner: Identity,
    character_id: Uuid,
    pieces: Seq<PieceDef>,
)
    requires
        !has_unlocked_in(unlocked, owner, character_id),
        unlocked_when_owned(unlocked, held, next, owner, character_id, pieces_of(pieces, character_id)) matches Some(
            u,
        ) && has_unlocked_in(u.0, owner, character_id),
    ensures
        exists|j: int| 0 <= j < pieces.len() && (#[trigger] pieces[j]).character_id == character_id,
        forall|j: int|
            0 <= j < pieces.len() && (#[trigger] pieces[j]).character_id == character_id ==> exists|i: int|
                0 <= i < held.len() && (#[trigger] held[i]).owner == owner && held[i].count > 0 && held[i].piece_id
                    == pieces[j].id,
{
    let required = pieces_of(pieces, character_id);
    let owned = owned_pieces(held, owner);
    lemma_pieces_of_members(pieces, character_id);
    lemma_owned_pieces_members(held, owner);
    assert(required.contains(required[0]));
    assert forall|j: int| 0 <= j < pieces.len() && (#[trigger] pieces[j]).character_id == character_id implies exists|
        i: int,
    | 0 <= i < held.len() && (#[trigger] held[i]).owner == owner && held[i].count > 0 && held[i].piece_id
        == pieces[j].id by {
        assert(required.contains(pieces[j].id));
        let k = choose|k: int| 0 <= k < required.len() && required[k] == pieces[j].id;
        assert(owned.contains(required[k]));
    }
}

} // verus!
