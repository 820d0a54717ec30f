//! Identifier types: player identities and row UUIDs, held as plain
//! integers.

use crate::text::push_char;
use vstd::prelude::*;

verus! {

/// The lowercase hexadecimal digit character for `d < 16`.
pub open spec fn hex_char(d: nat) -> char {
    if d < 10 {
        (48 + d) as char
    } else {
        (87 + d) as char
    }
}

/// The lowest `count` hexadecimal digits of `n`, zero-padded, most
/// significant first.
pub open spec fn hex_digits(n: nat, count: nat) -> Seq<char>
    decreases count,
{
    if count == 0 {
        Seq::empty()
    } else {
        hex_digits(n / 16, (count - 1) as nat).push(hex_char(n % 16))
    }
}

/// The hyphenated lowercase `8-4-4-4-12` rendering of a 128-bit value.
pub open spec fn hyphenated(n: u128) -> Seq<char> {
    let h = hex_digits(n as nat, 32);
    h.subrange(0, 8) + seq!['-'] + h.subrange(8, 12) + seq!['-'] + h.subrange(12, 16) + seq!['-']
        + h.subrange(16, 20) + seq!['-'] + h.subrange(20, 32)
}

proof fn lemma_hex_digits_len(n: nat, count: nat)
    ensures
        hex_digits(n, count).len() == count,
    decreases count,
{
    if count > 0 {
        lemma_hex_digits_len(n / 16, (count - 1) as nat);
    }
}

fn hex_digit_char(d: u128) -> (c: char)
    requires
        d < 16,
    ensures
        c == hex_char(d as nat),
{
    if d < 10 {
        let b: u8 = 48 + d as u8;
        b as char
    } else {
        let b: u8 = 87 + d as u8;
        b as char
    }
}

fn push_hex_digits(out: &mut Vec<char>, n: u128, count: u32)
    ensures
        final(out)@ == old(out)@ + hex_digits(n as nat, count as nat),
    decreases count,
{
    if count > 0 {
        push_hex_digits(out, n / 16, count - 1);
        out.push(hex_digit_char(n % 16));
    }
    assert(old(out)@ + hex_digits(n as nat, count as nat) == (if count > 0 {
        (old(out)@ + hex_digits((n / 16) as nat, (count - 1) as nat)).push(hex_char((n % 16) as nat))
    } else {
        old(out)@
    }));
}

/// A caller identity: a 256-bit value, held as its high and low halves.
#[derive(Debug, Clone, Copy, PartialEq, Eq, Structural, Hash, PartialOrd, Ord)]
pub struct Identity {
    pub high: u128,
    pub low: u128,
}

impl Identity {
    /// The identity whose 256-bit value is `n`.
    pub fn from_u128(n: u128) -> (id: Identity)
        ensures
            id.high == 0,
            id.low == n,
    {
        Identity { high: 0, low: n }
    }
}

/// The first `i` hex digits of `h`, with a dash before digits 8, 12, 16
/// and 20.
pub open spec fn dashed_prefix(h: Seq<char>, i: int) -> Seq<char>
    decreases i,
{
    if i <= 0 {
        Seq::empty()
    } else {
        let prev = dashed_prefix(h, i - 1);
        let k = i - 1;
        if k == 8 || k == 12 || k == 16 || k == 20 {
            prev.push('-').push(h[k])
        } else {
            prev.push(h[k])
        }
    }
}

proof fn lemma_dashed_full(h: Seq<char>)
    requires
        h.len() == 32,
    ensures
        dashed_prefix(h, 32) == h.subrange(0, 8) + seq!['-'] + h.subrange(8, 12) + seq!['-']
            + h.subrange(12, 16) + seq!['-'] + h.subrange(16, 20) + seq!['-'] + h.subrange(20, 32),
{
    reveal_with_fuel(dashed_prefix, 33);
    assert(dashed_prefix(h, 32) =~= h.subrange(0, 8) + seq!['-'] + h.subrange(8, 12) + seq!['-']
        + h.subrange(12, 16) + seq!['-'] + h.subrange(16, 20) + seq!['-'] + h.subrange(20, 32));
}

/// A point in time: microseconds since the Unix epoch.
#[derive(Debug, Clone, Copy, PartialEq, Eq, Structural, Hash, PartialOrd, Ord)]
pub struct Timestamp {
    pub micros_since_epoch: i64,
}

/// A row or content UUID, held as its 128-bit value.
#[derive(Debug, Clone, Copy, PartialEq, Eq, Structural, Hash, PartialOrd, Ord)]
pub struct Uuid {
    pub value: u128,
}

impl Uuid {
    /// The UUID whose 128-bit value is `n`.
    pub fn from_u128(n: u128) -> (id: Uuid)
        ensures
            id.value == n,
    {
        Uuid { value: n }
    }

    /// The hyphenated lowercase rendering of this UUID.
    pub fn to_text(&self) -> (s: String)
        ensures
            s@ == hyphenated(self.value),
    {
        proof {
            lemma_hex_digits_len(self.value as nat, 32);
        }
        let mut h: Vec<char> = Vec::new();
        push_hex_digits(&mut h, self.value, 32);
        proof {
            lemma_hex_digits_len(self.value as nat, 32);
        }
        let ghost hs = h@;
        let mut s = String::new();
        let mut i: usize = 0;
        while i < 32
            invariant
                h@ == hs,
                hs.len() == 32,
                i <= 32,
                s@ == dashed_prefix(hs, i as int),
            decreases 32 - i,
        {
            if i == 8 || i == 12 || i == 16 || i == 20 {
                push_char(&mut s, '-');
            }
            push_char(&mut s, h[i]);
            i = i + 1;
        }
        proof {
            lemma_dashed_full(hs);
        }
        s
    }

    /// The 128-bit value of this UUID.
    pub fn as_u128(&self) -> (n: u128)
        ensures
            n == self.value,
    {
        self.value
    }
}

} // verus!
