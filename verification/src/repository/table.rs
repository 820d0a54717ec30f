//! Keyed row tables: a table is a sequence of rows, each with a UUID key,
//! searched front to back. Upserting by key replaces the keyed row in
//! place or appends a new one.

use crate::error::{ServiceError, ServiceResult};
use crate::ids::Uuid;
use crate::text::append_str;
use vstd::prelude::*;

verus! {

/// A table row with a primary UUID key.
pub trait Row: Sized {
    /// The row's primary key.
    spec fn key(&self) -> Uuid;

    /// The row's primary key (executable).
    fn row_key(&self) -> (k: Uuid)
        ensures
            k == self.key(),
    ;
}

/// The first position of the row keyed `k`.
pub open spec fn find_key<R: Row>(rows: Seq<R>, k: Uuid) -> Option<int>
    decreases rows.len(),
{
    if rows.len() == 0 {
        None
    } else {
        match find_key(rows.drop_last(), k) {
            Some(i) => Some(i),
            None => if rows.last().key() == k {
                Some(rows.len() - 1)
            } else {
                None
            },
        }
    }
}

/// No two rows share a key.
pub open spec fn unique_keys<R: Row>(rows: Seq<R>) -> bool {
    forall|i: int, j: int|
        0 <= i < rows.len() && 0 <= j < rows.len() && i != j ==> #[trigger] rows[i].key()
            != #[trigger] rows[j].key()
}

/// Whether some row is keyed `k`.
pub open spec fn has_key<R: Row>(rows: Seq<R>, k: Uuid) -> bool {
    exists|i: int| 0 <= i < rows.len() && #[trigger] rows[i].key() == k
}

/// The table after an upsert: the row keyed like `row` replaced in place,
/// or `row` appended.
pub open spec fn upsert<R: Row>(rows: Seq<R>, row: R) -> Seq<R> {
    match find_key(rows, row.key()) {
        Some(i) => rows.update(i, row),
        None => rows.push(row),
    }
}

/// `find_key` yields the first row with the key, and nothing when no row
/// has it.
pub proof fn lemma_find_key<R: Row>(rows: Seq<R>, k: Uuid)
    ensures
        find_key(rows, k) matches Some(i) ==> 0 <= i < rows.len() && rows[i].key() == k && forall|
            j: int,
        |
            0 <= j < i ==> #[trigger] rows[j].key() != k,
        find_key(rows, k) is None ==> forall|j: int|
            0 <= j < rows.len() ==> #[trigger] rows[j].key() != k,
        find_key(rows, k) is Some <==> has_key(rows, k),
    decreases rows.len(),
{
    if rows.len() > 0 {
        lemma_find_key(rows.drop_last(), k);
        assert forall|j: int| 0 <= j < rows.len() - 1 implies rows.drop_last()[j] == rows[j] by {}
    }
    if find_key(rows, k) is None {
        assert(!has_key(rows, k));
    } else {
        let i = find_key(rows, k)->0;
        assert(rows[i].key() == k);
    }
}

/// Upserting keeps keys unique, leaves every other key's row alone, and
/// makes the upserted row the one found under its key.
pub proof fn lemma_upsert<R: Row>(rows: Seq<R>, row: R)
    requires
        unique_keys(rows),
    ensures
        unique_keys(upsert(rows, row)),
        find_key(upsert(rows, row), row.key()) == Some(
            match find_key(rows, row.key()) {
                Some(i) => i,
                None => rows.len() as int,
            },
        ),
        forall|k: Uuid| k != row.key() ==> find_key(#[trigger] upsert(rows, row), k) == find_key(rows, k),
{
    lemma_find_key(rows, row.key());
    let out = upsert(rows, row);
    lemma_find_key(out, row.key());
    assert forall|k: Uuid| k != row.key() implies find_key(#[trigger] upsert(rows, row), k)
        == find_key(rows, k) by {
        lemma_find_key(rows, k);
        lemma_find_key(out, k);
        match find_key(rows, k) {
            Some(i) => {
                assert(out[i].key() == k);
                if let Some(j) = find_key(out, k) {
                    if j < i {
                        assert(rows[j].key() == k);
                    }
                }
            },
            None => {
                if let Some(j) = find_key(out, k) {
                    assert(rows[j].key() == k);
                }
            },
        }
    }
    match find_key(rows, row.key()) {
        Some(i) => {
            assert(out[i].key() == row.key());
            if let Some(j) = find_key(out, row.key()) {
                if j < i {
                    assert(rows[j].key() == row.key());
                }
            }
        },
        None => {
            assert(out[rows.len() as int].key() == row.key());
            if let Some(j) = find_key(out, row.key()) {
                if j < rows.len() {
                    assert(rows[j].key() == row.key());
                }
            }
        },
    }
}

/// Every key of `rows` is below `next`.
pub open spec fn keys_below<R: Row>(rows: Seq<R>, next: u128) -> bool {
    forall|i: int| 0 <= i < rows.len() ==> (#[trigger] rows[i].key()).value < next
}

/// Upserting under a key the table holds, or under the next fresh UUID
/// `next`, keeps the keys unique and below the advanced counter; under
/// the fresh UUID the row is appended and overwrites nothing.
pub proof fn lemma_upsert_keeps_keys<R: Row>(rows: Seq<R>, row: R, next: u128, next_after: u128)
    requires
        unique_keys(rows),
        keys_below(rows, next),
        has_key(rows, row.key()) || (row.key().value == next && next < next_after),
        next <= next_after,
    ensures
        unique_keys(upsert(rows, row)),
        keys_below(upsert(rows, row), next_after),
        !has_key(rows, row.key()) ==> upsert(rows, row) == rows.push(row),
{
    lemma_upsert(rows, row);
    lemma_find_key(rows, row.key());
    let out = upsert(rows, row);
    if has_key(rows, row.key()) {
        let k = choose|k: int| 0 <= k < rows.len() && #[trigger] rows[k].key() == row.key();
        assert(rows[k].key().value < next);
    }
    assert forall|i: int| 0 <= i < out.len() implies (#[trigger] out[i].key()).value < next_after by {
        match find_key(rows, row.key()) {
            Some(j) => {
                if i != j {
                    assert(out[i] == rows[i]);
                }
            },
            None => {
                if i < rows.len() {
                    assert(out[i] == rows[i]);
                }
            },
        }
    }
}

/// Replacing the row found under a key by a row with the same key keeps
/// it the row found under that key.
pub proof fn lemma_find_key_update<R: Row>(rows: Seq<R>, i: int, row: R)
    requires
        find_key(rows, row.key()) == Some(i),
    ensures
        find_key(rows.update(i, row), row.key()) == Some(i),
{
    lemma_find_key(rows, row.key());
    let out = rows.update(i, row);
    lemma_find_key(out, row.key());
    assert(out[i].key() == row.key());
    if let Some(j) = find_key(out, row.key()) {
        if j < i {
            assert(rows[j].key() == row.key());
        }
    }
}

/// The position of the first row keyed `k` (executable).
pub fn position_of<R: Row>(rows: &Vec<R>, k: Uuid) -> (p: Option<usize>)
    ensures
        match p {
            Some(i) => find_key(rows@, k) == Some(i as int) && i < rows@.len(),
            None => find_key(rows@, k) is None,
        },
{
    proof {
        lemma_find_key(rows@, k);
    }
    let mut i: usize = 0;
    while i < rows.len()
        invariant
            i <= rows.len(),
            forall|j: int| 0 <= j < i ==> #[trigger] rows@[j].key() != k,
        decreases rows.len() - i,
    {
        if rows[i].row_key() == k {
            assert(rows@[i as int].key() == k);
            proof {
                lemma_find_key(rows@, k);
            }
            return Some(i);
        }
        i = i + 1;
    }
    proof {
        lemma_find_key(rows@, k);
    }
    None
}

/// Replace the row keyed like `row`, or append it.
pub fn upsert_row<R: Row>(rows: &mut Vec<R>, row: R)
    ensures
        final(rows)@ == upsert(old(rows)@, row),
{
    let k = row.row_key();
    match position_of(rows, k) {
        Some(i) => {
            rows.set(i, row);
        },
        None => {
            rows.push(row);
        },
    }
}

/// The failure when no UUID is left to generate.
pub fn exhausted() -> (e: ServiceError)
    ensures
        e is Internal,
        e.text() == "uuid generation failed: identifier space exhausted"@,
{
    let mut m = String::new();
    append_str(&mut m, "uuid generation failed: identifier space exhausted");
    ServiceError::Internal { message: m }
}

/// A monotone source of fresh row UUIDs.
pub struct UuidGen {
    pub next: u128,
}

impl UuidGen {
    /// A source whose first UUID has the value `start`.
    pub fn new(start: u128) -> (g: UuidGen)
        ensures
            g.next == start,
    {
        UuidGen { next: start }
    }

    /// Whether `k` more UUIDs can be generated.
    pub fn has_room(&self, k: usize) -> (b: bool)
        ensures
            b == (self.next + k <= u128::MAX),
    {
        k as u128 <= u128::MAX - self.next
    }

    /// The next UUID, when the space is known not to be exhausted.
    pub fn fresh(&mut self) -> (id: Uuid)
        requires
            old(self).next < u128::MAX,
        ensures
            id == (Uuid { value: old(self).next }),
            final(self).next == old(self).next + 1,
    {
        let id = Uuid { value: self.next };
        self.next = self.next + 1;
        id
    }

    /// The next UUID, or an internal error once the space is exhausted.
    pub fn generate_uuid(&mut self) -> (res: ServiceResult<Uuid>)
        ensures
            old(self).next < u128::MAX ==> res == Ok::<Uuid, ServiceError>(
                Uuid { value: old(self).next },
            ) && final(self).next == old(self).next + 1,
            old(self).next == u128::MAX ==> res is Err && res->Err_0.kind()
                == crate::error::ErrorKind::Internal && final(self).next == old(self).next,
    {
        if self.next == u128::MAX {
            return Err(exhausted());
        }
        let id = Uuid { value: self.next };
        self.next = self.next + 1;
        Ok(id)
    }
}

} // verus!
