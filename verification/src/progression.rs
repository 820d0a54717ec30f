//! Pure progression decisions used by the services: ownership and
//! single-use guards, successor unlocking, weighted drops, and character
//! unlocks. Each rule is stated once over sequences and shared by the
//! string-keyed and UUID-keyed forms.

use crate::ids::Identity;
use crate::text::append_str;
use vstd::prelude::*;

verus! {

// ---------------------------------------------------------------------------
// Rules over sequences
// ---------------------------------------------------------------------------

/// Configured targets to insert, in configured order: those not already
/// enabled, each once (first occurrence kept).
pub open spec fn inserts_of<T>(configured: Seq<T>, enabled: Seq<T>) -> Seq<T>
    decreases configured.len(),
{
    if configured.len() == 0 {
        Seq::empty()
    } else {
        let prev = inserts_of(configured.drop_last(), enabled);
        let x = configured.last();
        if enabled.contains(x) || prev.contains(x) {
            prev
        } else {
            prev.push(x)
        }
    }
}

/// The inserts never repeat a target, and hold exactly the configured
/// targets that are not yet enabled.
pub proof fn lemma_inserts_of<T>(configured: Seq<T>, enabled: Seq<T>)
    ensures
        inserts_of(configured, enabled).no_duplicates(),
        forall|x: T|
            #![trigger inserts_of(configured, enabled).contains(x)]
            inserts_of(configured, enabled).contains(x) <==> configured.contains(x)
                && !enabled.contains(x),
    decreases configured.len(),
{
    if configured.len() > 0 {
        let prev_cfg = configured.drop_last();
        lemma_inserts_of(prev_cfg, enabled);
        let prev = inserts_of(prev_cfg, enabled);
        let x = configured.last();
        assert forall|y: T| configured.contains(y) <==> prev_cfg.contains(y) || y == x by {
            if configured.contains(y) {
                let k = choose|k: int| 0 <= k < configured.len() && configured[k] == y;
                if k < configured.len() - 1 {
                    assert(prev_cfg[k] == y);
                }
            }
            if prev_cfg.contains(y) {
                let k = choose|k: int| 0 <= k < prev_cfg.len() && prev_cfg[k] == y;
                assert(configured[k] == y);
            }
            if y == x {
                assert(configured[configured.len() - 1] == y);
            }
        }
        if !(enabled.contains(x) || prev.contains(x)) {
            let next = prev.push(x);
            assert forall|y: T| next.contains(y) <==> prev.contains(y) || y == x by {
                if next.contains(y) {
                    let k = choose|k: int| 0 <= k < next.len() && next[k] == y;
                    if k < prev.len() {
                        assert(prev[k] == y);
                    }
                }
                if prev.contains(y) {
                    let k = choose|k: int| 0 <= k < prev.len() && prev[k] == y;
                    assert(next[k] == y);
                }
                if y == x {
                    assert(next[prev.len() as int] == y);
                }
            }
            assert forall|i: int, j: int|
                0 <= i < next.len() && 0 <= j < next.len() && i != j implies next[i]
                != next[j] by {
                if i < prev.len() && j < prev.len() {
                } else if i < prev.len() {
                    assert(prev.contains(next[i]));
                } else if j < prev.len() {
                    assert(prev.contains(next[j]));
                }
            }
        }
    }
}

/// The sum of a list of weights.
pub open spec fn total_weight(weights: Seq<nat>) -> nat
    decreases weights.len(),
{
    if weights.len() == 0 {
        0
    } else {
        weights[0] + total_weight(weights.drop_first())
    }
}

/// The total weight is the sum of the weights: nothing for no entries,
/// the weight itself for one entry, and it adds up over concatenation.
pub proof fn lemma_total_weight_sum(a: Seq<nat>, b: Seq<nat>, x: nat)
    ensures
        total_weight(Seq::<nat>::empty()) == 0,
        total_weight(seq![x]) == x,
        total_weight(a + b) == total_weight(a) + total_weight(b),
    decreases a.len(),
{
    let one = seq![x];
    assert(one.drop_first() =~= Seq::<nat>::empty());
    assert(one[0] == x);
    assert(total_weight(Seq::<nat>::empty()) == 0);
    assert(total_weight(one) == one[0] + total_weight(one.drop_first()));
    if a.len() == 0 {
        assert(a + b =~= b);
    } else {
        lemma_total_weight_sum(a.drop_first(), b, x);
        assert((a + b).drop_first() =~= a.drop_first() + b);
        assert((a + b)[0] == a[0]);
    }
}

/// The entry whose band `[w0 + .. + w(i-1), w0 + .. + wi)` contains `roll`.
pub open spec fn pick_index(weights: Seq<nat>, roll: int) -> Option<int>
    decreases weights.len(),
{
    if weights.len() == 0 || roll < 0 {
        None
    } else if roll < weights[0] {
        Some(0)
    } else {
        match pick_index(weights.drop_first(), roll - weights[0]) {
            Some(i) => Some(i + 1),
            None => None,
        }
    }
}

/// A pick exists exactly for rolls below the total weight; the picked entry
/// has a positive weight and its band contains the roll. Zero-weight entries
/// can never be picked.
pub proof fn lemma_pick_index(weights: Seq<nat>, roll: int)
    requires
        roll >= 0,
    ensures
        pick_index(weights, roll) is Some <==> roll < total_weight(weights),
        pick_index(weights, roll) matches Some(i) ==> 0 <= i < weights.len() && weights[i] > 0
            && total_weight(weights.take(i)) <= roll < total_weight(weights.take(i)) + weights[i],
    decreases weights.len(),
{
    if weights.len() > 0 && roll >= weights[0] {
        let rest = weights.drop_first();
        lemma_pick_index(rest, roll - weights[0]);
        if let Some(j) = pick_index(rest, roll - weights[0]) {
            lemma_total_take_cons(weights, j + 1);
            assert(weights.take(j + 1 + 1) == weights.take(j + 1 + 1));
            assert(weights[j + 1] == rest[j]);
        }
    } else if weights.len() > 0 {
        assert(weights.take(0) =~= Seq::<nat>::empty());
    }
}

proof fn lemma_total_take_cons(weights: Seq<nat>, k: int)
    requires
        1 <= k <= weights.len(),
    ensures
        total_weight(weights.take(k)) == weights[0] + total_weight(weights.drop_first().take(k - 1)),
{
    assert(weights.take(k).drop_first() =~= weights.drop_first().take(k - 1));
}

/// A character unlocks when every one of its (at least one) required
/// pieces is owned.
pub open spec fn unlocks<T>(required: Seq<T>, owned: Seq<T>) -> bool {
    required.len() > 0 && forall|i: int| 0 <= i < required.len() ==> owned.contains(#[trigger] required[i])
}

// ---------------------------------------------------------------------------
// Guards
// ---------------------------------------------------------------------------

/// Ownership guard shared by every reducer touching player-owned rows.
pub fn ensure_owner(sender: Identity, owner: Identity) -> (res: Result<(), String>)
    ensures
        res is Ok <==> sender == owner,
        res matches Err(m) ==> m@ == "row is owned by another player"@,
{
    if sender == owner {
        Ok(())
    } else {
        let mut m = String::new();
        append_str(&mut m, "row is owned by another player");
        Err(m)
    }
}

/// An opened lootbox is consumed and can never be opened again.
pub fn ensure_unopened(opened: bool) -> (res: Result<(), String>)
    ensures
        res is Ok <==> !opened,
        res matches Err(m) ==> m@ == "lootbox already opened"@,
{
    if opened {
        let mut m = String::new();
        append_str(&mut m, "lootbox already opened");
        Err(m)
    } else {
        Ok(())
    }
}

/// Completion is idempotent: only the first completion grants rewards.
pub fn grants_first_completion_rewards(already_completed: bool) -> (grants: bool)
    ensures
        grants == !already_completed,
{
    !already_completed
}

// ---------------------------------------------------------------------------
// String-keyed forms
// ---------------------------------------------------------------------------

/// The views of a list of strings.
pub open spec fn views(v: Seq<String>) -> Seq<Seq<char>> {
    v.map_values(|s: String| s@)
}

fn contains_string(v: &[String], x: &String) -> (b: bool)
    ensures
        b == views(v@).contains(x@),
{
    let mut i: usize = 0;
    while i < v.len()
        invariant
            i <= v.len(),
            forall|j: int| 0 <= j < i ==> views(v@)[j] != x@,
        decreases v.len() - i,
    {
        if v[i] == *x {
            assert(views(v@)[i as int] == x@);
            return true;
        }
        i = i + 1;
    }
    false
}

/// Configured successors to insert: targets not already enabled, deduplicated.
pub fn successor_inserts(configured: &[String], enabled: &[String]) -> (inserts: Vec<String>)
    ensures
        views(inserts@) == inserts_of(views(configured@), views(enabled@)),
{
    let mut inserts: Vec<String> = Vec::new();
    let mut i: usize = 0;
    while i < configured.len()
        invariant
            i <= configured.len(),
            views(inserts@) == inserts_of(views(configured@).take(i as int), views(enabled@)),
        decreases configured.len() - i,
    {
        let successor = &configured[i];
        let ghost cfg = views(configured@);
        assert(cfg.take(i + 1).drop_last() == cfg.take(i as int));
        assert(cfg.take(i + 1).last() == successor@);
        if !contains_string(enabled, successor) && !contains_string(inserts.as_slice(), successor) {
            let ghost before = inserts@;
            inserts.push(successor.clone());
            assert(views(inserts@) =~= views(before).push(successor@));
        }
        i = i + 1;
    }
    assert(views(configured@).take(configured@.len() as int) == views(configured@));
    inserts
}

/// The weights of `(id, weight)` pairs.
pub open spec fn weights_of<K>(weighted: Seq<(K, u64)>) -> Seq<nat> {
    weighted.map_values(|p: (K, u64)| p.1 as nat)
}

/// Pick one entry from `(id, weight)` pairs given `roll in 0..total_weight`.
/// Zero-weight entries can never be picked.
pub fn pick_weighted(weighted: &[(String, u64)], roll: u64) -> (picked: Option<&str>)
    ensures
        match pick_index(weights_of(weighted@), roll as int) {
            Some(i) => picked is Some && picked.unwrap()@ == weighted@[i].0@,
            None => picked is None,
        },
{
    let ghost ws = weights_of(weighted@);
    let mut cursor = roll;
    let mut i: usize = 0;
    assert(ws.skip(0) == ws);
    assert(pick_index(ws, roll as int) == match pick_index(ws.skip(0), cursor as int) {
        Some(j) => Some(j + 0),
        None => None::<int>,
    }) by {
        match pick_index(ws, roll as int) {
            Some(j) => {},
            None => {},
        }
    }
    while i < weighted.len()
        invariant
            i <= weighted.len(),
            ws == weights_of(weighted@),
            pick_index(ws, roll as int) == match pick_index(ws.skip(i as int), cursor as int) {
                Some(j) => Some(j + i),
                None => None::<int>,
            },
        decreases weighted.len() - i,
    {
        let (id, weight) = &weighted[i];
        assert(ws.skip(i as int)[0] == *weight as nat);
        assert(ws.skip(i as int).drop_first() == ws.skip(i + 1));
        if cursor < *weight {
            return Some(id.as_str());
        }
        cursor = cursor - *weight;
        i = i + 1;
    }
    None
}

/// A character unlocks when the player owns at least one of every unique
/// piece assigned to it. Characters with no pieces never unlock via drops.
pub fn unlocks_character(required: &[String], owned: &[String]) -> (b: bool)
    ensures
        b == unlocks(views(required@), views(owned@)),
{
    if required.len() == 0 {
        return false;
    }
    let mut i: usize = 0;
    while i < required.len()
        invariant
            i <= required.len(),
            forall|j: int| 0 <= j < i ==> views(owned@).contains(#[trigger] views(required@)[j]),
        decreases required.len() - i,
    {
        assert(views(required@)[i as int] == required@[i as int]@);
        if !contains_string(owned, &required[i]) {
            return false;
        }
        i = i + 1;
    }
    true
}

} // verus!
