//! Seed content (characters, pieces, lootboxes) and its cross-validation.
//! Float attributes are carried as their IEEE-754 binary32 bit patterns.

use crate::text::append_str;
use crate::uuid::{invalid_uuid_message, is_canonical_uuid, validate_uuid};
use vstd::prelude::*;

verus! {

/// One seed character.
pub struct SeedCharacter {
    pub id: String,
    pub name: String,
    pub style: String,
    pub rarity_weight: u32,
    pub density_bits: u32,
    pub jump_speed_bits: u32,
    pub flight_time_ms: u32,
    pub buoyancy_bits: u32,
    pub fire_resistance_bits: u32,
    pub starter: bool,
}

/// One seed piece of a character.
pub struct SeedPiece {
    pub id: String,
    pub name: String,
    pub character_id: String,
}

/// One weighted drop of a seed lootbox.
pub struct SeedDrop {
    pub piece_id: String,
    pub weight: u32,
}

/// One seed lootbox.
pub struct SeedLootbox {
    pub id: String,
    pub name: String,
    pub drops: Vec<SeedDrop>,
}

/// A whole seed content file.
pub struct SeedContent {
    pub characters: Vec<SeedCharacter>,
    pub pieces: Vec<SeedPiece>,
    pub lootboxes: Vec<SeedLootbox>,
}

/// Whether the binary32 value with these bits compares `<= 0.0`: a zero of
/// either sign or a negative number, infinity included; no NaN does.
pub open spec fn at_most_zero(bits: u32) -> bool {
    bits == 0 || (0x8000_0000 <= bits && bits <= 0xff80_0000)
}

/// Whether some entry before position `n` has the key `key`.
pub open spec fn seen_before(keys: Seq<Seq<char>>, n: int, key: Seq<char>) -> bool {
    exists|j: int| 0 <= j < n && #[trigger] keys[j] == key
}

/// The character ids, in order.
pub open spec fn character_ids(chars: Seq<SeedCharacter>) -> Seq<Seq<char>> {
    chars.map_values(|c: SeedCharacter| c.id@)
}

/// The piece ids, in order.
pub open spec fn piece_ids(pieces: Seq<SeedPiece>) -> Seq<Seq<char>> {
    pieces.map_values(|p: SeedPiece| p.id@)
}

/// The lootbox ids, in order.
pub open spec fn lootbox_ids(lootboxes: Seq<SeedLootbox>) -> Seq<Seq<char>> {
    lootboxes.map_values(|l: SeedLootbox| l.id@)
}

/// The problem with the character at position `i`, if any: a non-UUID id,
/// an id seen before, a zero rarity weight, or a density that is not
/// positive.
pub open spec fn character_problem(chars: Seq<SeedCharacter>, i: int) -> Option<Seq<char>> {
    let c = chars[i];
    if !is_canonical_uuid(c.id@) {
        Some(invalid_uuid_message("character id"@, c.id@))
    } else if seen_before(character_ids(chars), i, c.id@) {
        Some("duplicate character id '"@ + c.id@ + "'"@)
    } else if c.rarity_weight == 0 {
        Some("character '"@ + c.id@ + "' has zero rarity_weight"@)
    } else if at_most_zero(c.density_bits) {
        Some("character '"@ + c.id@ + "' needs a positive density"@)
    } else {
        None
    }
}

/// The problem with the piece at position `i`, if any: a non-UUID id, an
/// id seen before, or an unknown character.
pub open spec fn piece_problem(pieces: Seq<SeedPiece>, i: int, chars: Seq<SeedCharacter>) -> Option<Seq<char>> {
    let p = pieces[i];
    if !is_canonical_uuid(p.id@) {
        Some(invalid_uuid_message("piece id"@, p.id@))
    } else if seen_before(piece_ids(pieces), i, p.id@) {
        Some("duplicate piece id '"@ + p.id@ + "'"@)
    } else if !character_ids(chars).contains(p.character_id@) {
        Some("piece '"@ + p.id@ + "' references unknown character '"@ + p.character_id@ + "'"@)
    } else {
        None
    }
}

/// The problem with the drop at position `k` of lootbox `lootbox_id`, if
/// any: a zero weight or an unknown piece.
pub open spec fn drop_problem(lootbox_id: Seq<char>, d: SeedDrop, pieces: Seq<SeedPiece>) -> Option<Seq<char>> {
    if d.weight == 0 {
        Some("lootbox '"@ + lootbox_id + "' drop '"@ + d.piece_id@ + "' has zero weight"@)
    } else if !piece_ids(pieces).contains(d.piece_id@) {
        Some("lootbox '"@ + lootbox_id + "' references unknown piece '"@ + d.piece_id@ + "'"@)
    } else {
        None
    }
}

/// The first problem among the first `n` drops.
pub open spec fn drops_problem(lootbox_id: Seq<char>, drops: Seq<SeedDrop>, n: int, pieces: Seq<SeedPiece>) -> Option<
    Seq<char>,
>
    decreases n,
{
    if n <= 0 {
        None
    } else {
        match drops_problem(lootbox_id, drops, n - 1, pieces) {
            Some(e) => Some(e),
            None => drop_problem(lootbox_id, drops[n - 1], pieces),
        }
    }
}

/// The problem with the lootbox at position `i`, if any: a non-UUID id, an
/// id seen before, no drops, or the first bad drop.
pub open spec fn lootbox_problem(lootboxes: Seq<SeedLootbox>, i: int, pieces: Seq<SeedPiece>) -> Option<Seq<char>> {
    let l = lootboxes[i];
    if !is_canonical_uuid(l.id@) {
        Some(invalid_uuid_message("lootbox id"@, l.id@))
    } else if seen_before(lootbox_ids(lootboxes), i, l.id@) {
        Some("duplicate lootbox id '"@ + l.id@ + "'"@)
    } else if l.drops@.len() == 0 {
        Some("lootbox '"@ + l.id@ + "' has no drops"@)
    } else {
        drops_problem(l.id@, l.drops@, l.drops@.len() as int, pieces)
    }
}

/// The first problem among the first `n` entries, for a per-entry check.
pub open spec fn first_problem(problem: spec_fn(int) -> Option<Seq<char>>, n: int) -> Option<Seq<char>>
    decreases n,
{
    if n <= 0 {
        None
    } else {
        match first_problem(problem, n - 1) {
            Some(e) => Some(e),
            None => problem(n - 1),
        }
    }
}

/// The first problem of a seed file, checking characters, then the starter
/// rule, then pieces, then lootboxes, each in file order.
pub open spec fn seed_problem(content: SeedContent) -> Option<Seq<char>> {
    let chars = content.characters@;
    let pieces = content.pieces@;
    let lootboxes = content.lootboxes@;
    match first_problem(|i: int| character_problem(chars, i), chars.len() as int) {
        Some(e) => Some(e),
        None => if !(exists|i: int| 0 <= i < chars.len() && #[trigger] chars[i].starter) {
            Some("at least one character must be a starter"@)
        } else {
            match first_problem(|i: int| piece_problem(pieces, i, chars), pieces.len() as int) {
                Some(e) => Some(e),
                None => first_problem(|i: int| lootbox_problem(lootboxes, i, pieces), lootboxes.len() as int),
            }
        },
    }
}

/// A problem on a prefix is the first problem of any longer run.
proof fn lemma_first_problem_prefix(problem: spec_fn(int) -> Option<Seq<char>>, k: int, n: int)
    requires
        0 <= k <= n,
        first_problem(problem, k) is Some,
    ensures
        first_problem(problem, n) == first_problem(problem, k),
    decreases n - k,
{
    if k < n {
        lemma_first_problem_prefix(problem, k, n - 1);
    }
}

fn at_most_zero_bits(bits: u32) -> (b: bool)
    ensures
        b == at_most_zero(bits),
{
    bits == 0 || (0x8000_0000 <= bits && bits <= 0xff80_0000)
}

fn quoted(prefix: &str, value: &str, suffix: &str) -> (m: String)
    ensures
        m@ == prefix@ + value@ + suffix@,
{
    let mut m = String::new();
    append_str(&mut m, prefix);
    append_str(&mut m, value);
    append_str(&mut m, suffix);
    m
}

fn seen_character(chars: &Vec<SeedCharacter>, n: usize, id: &String) -> (b: bool)
    requires
        n <= chars@.len(),
    ensures
        b == seen_before(character_ids(chars@), n as int, id@),
{
    let ghost keys = character_ids(chars@);
    let mut j: usize = 0;
    while j < n
        invariant
            j <= n <= chars@.len(),
            keys == character_ids(chars@),
            forall|k: int| 0 <= k < j ==> keys[k] != id@,
        decreases n - j,
    {
        assert(keys[j as int] == chars@[j as int].id@);
        if chars[j].id == *id {
            return true;
        }
        j = j + 1;
    }
    false
}

fn seen_piece(pieces: &Vec<SeedPiece>, n: usize, id: &String) -> (b: bool)
    requires
        n <= pieces@.len(),
    ensures
        b == seen_before(piece_ids(pieces@), n as int, id@),
{
    let ghost keys = piece_ids(pieces@);
    let mut j: usize = 0;
    while j < n
        invariant
            j <= n <= pieces@.len(),
            keys == piece_ids(pieces@),
            forall|k: int| 0 <= k < j ==> keys[k] != id@,
        decreases n - j,
    {
        assert(keys[j as int] == pieces@[j as int].id@);
        if pieces[j].id == *id {
            return true;
        }
        j = j + 1;
    }
    false
}

fn seen_lootbox(lootboxes: &Vec<SeedLootbox>, n: usize, id: &String) -> (b: bool)
    requires
        n <= lootboxes@.len(),
    ensures
        b == seen_before(lootbox_ids(lootboxes@), n as int, id@),
{
    let ghost keys = lootbox_ids(lootboxes@);
    let mut j: usize = 0;
    while j < n
        invariant
            j <= n <= lootboxes@.len(),
            keys == lootbox_ids(lootboxes@),
            forall|k: int| 0 <= k < j ==> keys[k] != id@,
        decreases n - j,
    {
        assert(keys[j as int] == lootboxes@[j as int].id@);
        if lootboxes[j].id == *id {
            return true;
        }
        j = j + 1;
    }
    false
}

proof fn lemma_seen_all(keys: Seq<Seq<char>>, key: Seq<char>)
    ensures
        seen_before(keys, keys.len() as int, key) == keys.contains(key),
{
    if keys.contains(key) {
        let j = choose|j: int| 0 <= j < keys.len() && keys[j] == key;
        assert(seen_before(keys, keys.len() as int, key));
    }
}

fn character_check(chars: &Vec<SeedCharacter>, i: usize) -> (r: Option<String>)
    requires
        i < chars@.len(),
    ensures
        match character_problem(chars@, i as int) {
            None => r is None,
            Some(e) => r matches Some(m) && m@ == e,
        },
{
    let c = &chars[i];
    match validate_uuid(c.id.as_str(), "character id") {
        Err(m) => return Some(m),
        Ok(()) => {},
    }
    if seen_character(chars, i, &c.id) {
        return Some(quoted("duplicate character id '", c.id.as_str(), "'"));
    }
    if c.rarity_weight == 0 {
        return Some(quoted("character '", c.id.as_str(), "' has zero rarity_weight"));
    }
    if at_most_zero_bits(c.density_bits) {
        return Some(quoted("character '", c.id.as_str(), "' needs a positive density"));
    }
    None
}

fn piece_check(pieces: &Vec<SeedPiece>, i: usize, chars: &Vec<SeedCharacter>) -> (r: Option<String>)
    requires
        i < pieces@.len(),
    ensures
        match piece_problem(pieces@, i as int, chars@) {
            None => r is None,
            Some(e) => r matches Some(m) && m@ == e,
        },
{
    let p = &pieces[i];
    match validate_uuid(p.id.as_str(), "piece id") {
        Err(m) => return Some(m),
        Ok(()) => {},
    }
    if seen_piece(pieces, i, &p.id) {
        return Some(quoted("duplicate piece id '", p.id.as_str(), "'"));
    }
    proof {
        lemma_seen_all(character_ids(chars@), p.character_id@);
    }
    if !seen_character(chars, chars.len(), &p.character_id) {
        let mut m = quoted("piece '", p.id.as_str(), "' references unknown character '");
        append_str(&mut m, p.character_id.as_str());
        append_str(&mut m, "'");
        return Some(m);
    }
    None
}

fn drops_check(lootbox_id: &String, drops: &Vec<SeedDrop>, pieces: &Vec<SeedPiece>) -> (r: Option<String>)
    ensures
        match drops_problem(lootbox_id@, drops@, drops@.len() as int, pieces@) {
            None => r is None,
            Some(e) => r matches Some(m) && m@ == e,
        },
{
    let mut k: usize = 0;
    while k < drops.len()
        invariant
            k <= drops@.len(),
            drops_problem(lootbox_id@, drops@, k as int, pieces@) is None,
        decreases drops.len() - k,
    {
        let d = &drops[k];
        if d.weight == 0 {
            let mut m = quoted("lootbox '", lootbox_id.as_str(), "' drop '");
            append_str(&mut m, d.piece_id.as_str());
            append_str(&mut m, "' has zero weight");
            proof {
                lemma_drops_problem_prefix(lootbox_id@, drops@, pieces@, k + 1, drops@.len() as int);
            }
            return Some(m);
        }
        proof {
            lemma_seen_all(piece_ids(pieces@), d.piece_id@);
        }
        if !seen_piece(pieces, pieces.len(), &d.piece_id) {
            let mut m = quoted("lootbox '", lootbox_id.as_str(), "' references unknown piece '");
            append_str(&mut m, d.piece_id.as_str());
            append_str(&mut m, "'");
            proof {
                lemma_drops_problem_prefix(lootbox_id@, drops@, pieces@, k + 1, drops@.len() as int);
            }
            return Some(m);
        }
        k = k + 1;
    }
    None
}

proof fn lemma_drops_problem_prefix(lootbox_id: Seq<char>, drops: Seq<SeedDrop>, pieces: Seq<SeedPiece>, k: int, n: int)
    requires
        0 <= k <= n,
        drops_problem(lootbox_id, drops, k, pieces) is Some,
    ensures
        drops_problem(lootbox_id, drops, n, pieces) == drops_problem(lootbox_id, drops, k, pieces),
    decreases n - k,
{
    if k < n {
        lemma_drops_problem_prefix(lootbox_id, drops, pieces, k, n - 1);
    }
}

fn lootbox_check(lootboxes: &Vec<SeedLootbox>, i: usize, pieces: &Vec<SeedPiece>) -> (r: Option<String>)
    requires
        i < lootboxes@.len(),
    ensures
        match lootbox_problem(lootboxes@, i as int, pieces@) {
            None => r is None,
            Some(e) => r matches Some(m) && m@ == e,
        },
{
    let l = &lootboxes[i];
    match validate_uuid(l.id.as_str(), "lootbox id") {
        Err(m) => return Some(m),
        Ok(()) => {},
    }
    if seen_lootbox(lootboxes, i, &l.id) {
        return Some(quoted("duplicate lootbox id '", l.id.as_str(), "'"));
    }
    if l.drops.len() == 0 {
        return Some(quoted("lootbox '", l.id.as_str(), "' has no drops"));
    }
    drops_check(&l.id, &l.drops, pieces)
}

/// Cross-validate seed content: every id a UUID and unique within its kind,
/// every character with a rarity weight and a positive density, at least
/// one starter, every piece of a known character, every lootbox with drops
/// of positive weight and known pieces. Returns the content unchanged when
/// it passes, else the first problem in file order.
pub fn parse_seed(content: SeedContent) -> (res: Result<SeedContent, String>)
    ensures
        match seed_problem(content) {
            None => res matches Ok(c) && c == content,
            Some(e) => res matches Err(m) && m@ == e,
        },
{
    let ghost chars = content.characters@;
    let ghost pieces = content.pieces@;
    let ghost lootboxes = content.lootboxes@;
    let ghost cp = |i: int| character_problem(chars, i);
    let ghost pp = |i: int| piece_problem(pieces, i, chars);
    let ghost lp = |i: int| lootbox_problem(lootboxes, i, pieces);

    let mut i: usize = 0;
    while i < content.characters.len()
        invariant
            i <= chars.len(),
            chars == content.characters@,
            cp == (|i: int| character_problem(chars, i)),
            first_problem(cp, i as int) is None,
        decreases content.characters.len() - i,
    {
        match character_check(&content.characters, i) {
            Some(m) => {
                proof {
                    lemma_first_problem_prefix(cp, i + 1, chars.len() as int);
                }
                return Err(m);
            },
            None => {},
        }
        i = i + 1;
    }
    let mut any_starter = false;
    let mut i: usize = 0;
    while i < content.characters.len()
        invariant
            i <= chars.len(),
            chars == content.characters@,
            any_starter == exists|k: int| 0 <= k < i && #[trigger] chars[k].starter,
        decreases content.characters.len() - i,
    {
        if content.characters[i].starter {
            any_starter = true;
        }
        i = i + 1;
    }
    if !any_starter {
        return Err("at least one character must be a starter".to_string());
    }
    let mut i: usize = 0;
    while i < content.pieces.len()
        invariant
            i <= pieces.len(),
            chars == content.characters@,
            pieces == content.pieces@,
            pp == (|i: int| piece_problem(pieces, i, chars)),
            first_problem(pp, i as int) is None,
            cp == (|i: int| character_problem(chars, i)),
            first_problem(cp, chars.len() as int) is None,
            exists|k: int| 0 <= k < chars.len() && #[trigger] chars[k].starter,
        decreases content.pieces.len() - i,
    {
        match piece_check(&content.pieces, i, &content.characters) {
            Some(m) => {
                proof {
                    lemma_first_problem_prefix(pp, i + 1, pieces.len() as int);
                }
                return Err(m);
            },
            None => {},
        }
        i = i + 1;
    }
    let mut i: usize = 0;
    while i < content.lootboxes.len()
        invariant
            i <= lootboxes.len(),
            pieces == content.pieces@,
            lootboxes == content.lootboxes@,
            lp == (|i: int| lootbox_problem(lootboxes, i, pieces)),
            first_problem(lp, i as int) is None,
            chars == content.characters@,
            pp == (|i: int| piece_problem(pieces, i, chars)),
            first_problem(pp, pieces.len() as int) is None,
            cp == (|i: int| character_problem(chars, i)),
            first_problem(cp, chars.len() as int) is None,
            exists|k: int| 0 <= k < chars.len() && #[trigger] chars[k].starter,
        decreases content.lootboxes.len() - i,
    {
        match lootbox_check(&content.lootboxes, i, &content.pieces) {
            Some(m) => {
                proof {
                    lemma_first_problem_prefix(lp, i + 1, lootboxes.len() as int);
                }
                return Err(m);
            },
            None => {},
        }
        i = i + 1;
    }
    Ok(content)
}

} // verus!
