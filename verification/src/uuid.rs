//! Minimal UUID string validation for authored content, and the rendering
//! of UUIDs as reducer-call arguments.
//!
//! Authored entity IDs are stable UUIDs committed in seed and level files.
//! This validates the canonical `8-4-4-4-12` hex form; parsing into a typed
//! value happens server-side.

use crate::text::{append_str, decimal, push_decimal};
use vstd::prelude::*;

verus! {

/// An ASCII hexadecimal digit (`u8::is_ascii_hexdigit`).
pub open spec fn is_hex(c: char) -> bool {
    ('0' <= c && c <= '9') || ('a' <= c && c <= 'f') || ('A' <= c && c <= 'F')
}

/// The positions of the four dashes of the canonical form.
pub open spec fn is_dash_position(i: int) -> bool {
    i == 8 || i == 13 || i == 18 || i == 23
}

/// The canonical `8-4-4-4-12` form: 36 characters, dashes at positions
/// 8, 13, 18 and 23 and hexadecimal digits (either case) elsewhere.
pub open spec fn is_canonical_uuid(s: Seq<char>) -> bool {
    &&& s.len() == 36
    &&& forall|i: int|
        #![trigger s[i]]
        0 <= i < 36 ==> (is_dash_position(i) ==> s[i] == '-') && (!is_dash_position(i) ==> is_hex(
            s[i],
        ))
}

/// The error text for a value that is not a UUID.
pub open spec fn invalid_uuid_message(what: Seq<char>, value: Seq<char>) -> Seq<char> {
    what + " '"@ + value + "' is not a valid UUID"@
}

fn is_hex_exec(c: char) -> (b: bool)
    ensures
        b == is_hex(c),
{
    ('0' <= c && c <= '9') || ('a' <= c && c <= 'f') || ('A' <= c && c <= 'F')
}

/// Validate the canonical lowercase-or-uppercase hex UUID form.
pub fn validate_uuid(value: &str, what: &str) -> (res: Result<(), String>)
    ensures
        res is Ok <==> is_canonical_uuid(value@),
        res matches Err(m) ==> m@ == invalid_uuid_message(what@, value@),
{
    let chars = crate::text::chars_of(value);
    let mut well_formed = chars.len() == 36;
    if well_formed {
        let mut i: usize = 0;
        while i < 36
            invariant
                chars@ == value@,
                chars@.len() == 36,
                i <= 36,
                well_formed == forall|j: int|
                    #![trigger chars@[j]]
                    0 <= j < i ==> (is_dash_position(j) ==> chars@[j] == '-') && (!is_dash_position(
                        j,
                    ) ==> is_hex(chars@[j])),
            decreases 36 - i,
        {
            let ok = if i == 8 || i == 13 || i == 18 || i == 23 {
                chars[i] == '-'
            } else {
                is_hex_exec(chars[i])
            };
            proof {
                let k = i as int;
                if !ok {
                    assert(!((is_dash_position(k) ==> chars@[k] == '-') && (!is_dash_position(k)
                        ==> is_hex(chars@[k]))));
                }
            }
            well_formed = well_formed && ok;
            i = i + 1;
        }
    }
    if well_formed {
        Ok(())
    } else {
        let mut m = String::new();
        append_str(&mut m, what);
        append_str(&mut m, " '");
        append_str(&mut m, value);
        append_str(&mut m, "' is not a valid UUID");
        Err(m)
    }
}

/// The numeric value of one hexadecimal digit.
pub open spec fn hex_digit_value(c: char) -> nat {
    if '0' <= c && c <= '9' {
        (c as nat - '0' as nat) as nat
    } else if 'a' <= c && c <= 'f' {
        (c as nat - 'a' as nat + 10) as nat
    } else {
        (c as nat - 'A' as nat + 10) as nat
    }
}

/// The value of a string of hexadecimal digits, most significant first.
pub open spec fn hex_value(s: Seq<char>) -> nat
    decreases s.len(),
{
    if s.len() == 0 {
        0
    } else {
        hex_value(s.drop_last()) * 16 + hex_digit_value(s.last())
    }
}

/// The digits of a `from_str_radix` input: everything after an optional
/// leading `+`.
pub open spec fn unsigned_digits(s: Seq<char>) -> Seq<char> {
    if s.len() > 0 && s[0] == '+' {
        s.drop_first()
    } else {
        s
    }
}

/// Every character is a hexadecimal digit.
pub open spec fn all_hex(d: Seq<char>) -> bool {
    forall|i: int| 0 <= i < d.len() ==> is_hex(#[trigger] d[i])
}

/// `u128::from_str_radix(s, 16)`: an optional `+` followed by at least one
/// hexadecimal digit, with a value that fits in 128 bits.
pub open spec fn parse_hex_u128(s: Seq<char>) -> Option<u128> {
    let d = unsigned_digits(s);
    if d.len() > 0 && all_hex(d) && hex_value(d) <= u128::MAX {
        Some(hex_value(d) as u128)
    } else {
        None
    }
}

/// The characters of a UUID string with every dash removed.
pub open spec fn without_dashes(s: Seq<char>) -> Seq<char> {
    s.filter(|c: char| c != '-')
}

/// The 128-bit value a UUID string denotes, if any.
pub open spec fn uuid_value(s: Seq<char>) -> Option<u128> {
    parse_hex_u128(without_dashes(s))
}

proof fn lemma_hex_value_grows(d: Seq<char>, j: int, m: int)
    requires
        0 <= j <= m <= d.len(),
    ensures
        hex_value(d.take(j)) <= hex_value(d.take(m)),
    decreases m - j,
{
    if j < m {
        lemma_hex_value_grows(d, j, m - 1);
        assert(d.take(m).drop_last() == d.take(m - 1));
    }
}

fn hex_digit(c: char) -> (v: u128)
    requires
        is_hex(c),
    ensures
        v == hex_digit_value(c),
        v < 16,
{
    if '0' <= c && c <= '9' {
        (c as u32 - '0' as u32) as u128
    } else if 'a' <= c && c <= 'f' {
        (c as u32 - 'a' as u32 + 10) as u128
    } else {
        (c as u32 - 'A' as u32 + 10) as u128
    }
}

fn parse_hex_digits(s: &Vec<char>) -> (r: Option<u128>)
    ensures
        r == parse_hex_u128(s@),
{
    let start: usize = if s.len() > 0 && s[0] == '+' {
        1
    } else {
        0
    };
    let ghost d = unsigned_digits(s@);
    assert(d == s@.skip(start as int));
    if start >= s.len() {
        return None;
    }
    let mut acc: u128 = 0;
    let mut k: usize = start;
    while k < s.len()
        invariant
            start <= k <= s.len(),
            d == s@.skip(start as int),
            d == unsigned_digits(s@),
            forall|i: int| 0 <= i < k - start ==> is_hex(#[trigger] d[i]),
            acc == hex_value(d.take(k - start)),
        decreases s.len() - k,
    {
        let c = s[k];
        assert(c == d[k - start]);
        if !is_hex_exec(c) {
            assert(!is_hex(d[k - start]));
            return None;
        }
        let v = hex_digit(c);
        assert(d.take(k - start + 1).drop_last() == d.take(k - start));
        assert(d.take(k - start + 1).last() == c);
        assert(hex_value(d.take(k - start + 1)) == acc * 16 + v);
        if acc > (u128::MAX - v) / 16 {
            proof {
                assert(acc * 16 + v > u128::MAX) by (nonlinear_arith)
                    requires
                        acc > (u128::MAX - v) / 16,
                        v < 16,
                ;
                lemma_hex_value_grows(d, k - start + 1, d.len() as int);
                assert(d.take(d.len() as int) == d);
            }
            return None;
        }
        assert(acc * 16 + v <= u128::MAX) by (nonlinear_arith)
            requires
                acc <= (u128::MAX - v) / 16,
                v < 16,
        ;
        acc = acc * 16 + v;
        k = k + 1;
    }
    assert(d.take(d.len() as int) == d);
    Some(acc)
}

fn strip_dashes(value: &str) -> (out: Vec<char>)
    ensures
        out@ == without_dashes(value@),
{
    let chars = crate::text::chars_of(value);
    let mut out: Vec<char> = Vec::new();
    let mut i: usize = 0;
    while i < chars.len()
        invariant
            chars@ == value@,
            i <= chars.len(),
            out@ == chars@.take(i as int).filter(|c: char| c != '-'),
        decreases chars.len() - i,
    {
        proof {
            reveal_with_fuel(Seq::<_>::filter, 1);
            assert(chars@.take(i + 1).drop_last() == chars@.take(i as int));
        }
        if chars[i] != '-' {
            out.push(chars[i]);
        }
        i = i + 1;
    }
    assert(chars@.take(chars@.len() as int) == chars@);
    out
}

/// The error text for a value whose hex digits do not form a `u128`.
pub open spec fn unparsable_uuid_message(value: Seq<char>) -> Seq<char> {
    "'"@ + value + "' is not a valid UUID"@
}

/// The `u128` denoted by a UUID string: its characters without dashes read
/// as a hexadecimal number.
pub fn to_u128(value: &str) -> (res: Result<u128, String>)
    ensures
        res matches Ok(n) ==> uuid_value(value@) == Some(n),
        res is Err ==> uuid_value(value@) is None,
        res matches Err(m) ==> m@ == unparsable_uuid_message(value@),
{
    let hex = strip_dashes(value);
    match parse_hex_digits(&hex) {
        Some(n) => Ok(n),
        None => {
            let mut m = String::new();
            append_str(&mut m, "'");
            append_str(&mut m, value);
            append_str(&mut m, "' is not a valid UUID");
            Err(m)
        },
    }
}

/// The reducer-call JSON for one UUID: `[<decimal u128>]`, or the error text.
pub open spec fn uuid_arg_spec(value: Seq<char>) -> Result<Seq<char>, Seq<char>> {
    match uuid_value(value) {
        Some(n) => Ok("["@ + decimal(n as nat) + "]"@),
        None => Err(unparsable_uuid_message(value)),
    }
}

/// The view of a string result.
pub open spec fn result_view(r: Result<String, String>) -> Result<Seq<char>, Seq<char>> {
    match r {
        Ok(s) => Ok(s@),
        Err(e) => Err(e@),
    }
}

/// Render a canonical UUID string as the reducer-call JSON SpacetimeDB expects:
/// `spacetimedb::Uuid` is a single `__uuid__: u128` field, which SATS serializes
/// as an unnamed 1-element tuple, i.e. a JSON array holding the u128 value.
pub fn uuid_arg(value: &str) -> (res: Result<String, String>)
    ensures
        result_view(res) == uuid_arg_spec(value@),
{
    let n = match to_u128(value) {
        Ok(n) => n,
        Err(e) => return Err(e),
    };
    let mut s = String::new();
    append_str(&mut s, "[");
    push_decimal(&mut s, n);
    append_str(&mut s, "]");
    Ok(s)
}

/// The reducer-call JSON for an optional UUID.
pub open spec fn uuid_opt_arg_spec(value: Option<Seq<char>>) -> Result<Seq<char>, Seq<char>> {
    match value {
        Some(v) => match uuid_arg_spec(v) {
            Ok(a) => Ok("{\"some\":"@ + a + "}"@),
            Err(e) => Err(e),
        },
        None => Ok("null"@),
    }
}

/// Same as [`uuid_arg`], but for an `Option<Uuid>` argument (`null` when absent,
/// `{"some": [u128]}` when present — SATS tags `Some` explicitly in JSON).
pub fn uuid_opt_arg(value: Option<&str>) -> (res: Result<String, String>)
    ensures
        result_view(res) == uuid_opt_arg_spec(
            match value {
                Some(v) => Some(v@),
                None => None,
            },
        ),
{
    match value {
        Some(v) => {
            let a = match uuid_arg(v) {
                Ok(a) => a,
                Err(e) => return Err(e),
            };
            let mut s = String::new();
            append_str(&mut s, "{\"some\":");
            append_str(&mut s, a.as_str());
            append_str(&mut s, "}");
            Ok(s)
        },
        None => {
            let mut s = String::new();
            append_str(&mut s, "null");
            assert(s@ == "null"@);
            Ok(s)
        },
    }
}

/// `items` joined by `sep` (`[S]::join`).
pub open spec fn join(items: Seq<Seq<char>>, sep: Seq<char>) -> Seq<char>
    decreases items.len(),
{
    if items.len() == 0 {
        Seq::empty()
    } else if items.len() == 1 {
        items[0]
    } else {
        join(items.drop_last(), sep) + sep + items.last()
    }
}

/// The arguments of every value in order, or the error of the first value
/// that has none.
pub open spec fn uuid_args_spec(values: Seq<Seq<char>>) -> Result<Seq<Seq<char>>, Seq<char>>
    decreases values.len(),
{
    if values.len() == 0 {
        Ok(Seq::empty())
    } else {
        match uuid_args_spec(values.drop_last()) {
            Err(e) => Err(e),
            Ok(args) => match uuid_arg_spec(values.last()) {
                Ok(a) => Ok(args.push(a)),
                Err(e) => Err(e),
            },
        }
    }
}

/// The reducer-call JSON for a list of UUIDs.
pub open spec fn uuid_vec_arg_spec(values: Seq<Seq<char>>) -> Result<Seq<char>, Seq<char>> {
    match uuid_args_spec(values) {
        Ok(args) => Ok("["@ + join(args, ","@) + "]"@),
        Err(e) => Err(e),
    }
}

/// Same as [`uuid_arg`], but for a `Vec<Uuid>` argument.
pub fn uuid_vec_arg(values: &[&str]) -> (res: Result<String, String>)
    ensures
        result_view(res) == uuid_vec_arg_spec(values@.map_values(|v: &str| v@)),
{
    let ghost vs = values@.map_values(|v: &str| v@);
    let mut s = String::new();
    append_str(&mut s, "[");
    let ghost mut args: Seq<Seq<char>> = Seq::empty();
    let mut i: usize = 0;
    while i < values.len()
        invariant
            i <= values.len(),
            vs == values@.map_values(|v: &str| v@),
            uuid_args_spec(vs.take(i as int)) == Ok::<Seq<Seq<char>>, Seq<char>>(args),
            s@ == "["@ + join(args, ","@),
            args.len() == i,
        decreases values.len() - i,
    {
        assert(vs.take(i + 1).drop_last() == vs.take(i as int));
        assert(vs.take(i + 1).last() == values@[i as int]@);
        let a = match uuid_arg(values[i]) {
            Ok(a) => a,
            Err(e) => {
                proof {
                    lemma_args_error_propagates(vs, i as int + 1);
                }
                return Err(e);
            },
        };
        if i > 0 {
            append_str(&mut s, ",");
        }
        append_str(&mut s, a.as_str());
        proof {
            let old_args = args;
            args = args.push(a@);
            assert(args.drop_last() == old_args);
            if i == 0 {
                assert(join(args, ","@) == a@);
            }
        }
        i = i + 1;
    }
    append_str(&mut s, "]");
    assert(vs.take(vs.len() as int) == vs);
    Ok(s)
}

proof fn lemma_args_error_propagates(vs: Seq<Seq<char>>, k: int)
    requires
        0 <= k <= vs.len(),
        uuid_args_spec(vs.take(k)) is Err,
    ensures
        uuid_args_spec(vs) == uuid_args_spec(vs.take(k)),
    decreases vs.len() - k,
{
    if k < vs.len() {
        assert(vs.take(k + 1).drop_last() == vs.take(k));
        lemma_args_error_propagates(vs, k + 1);
    } else {
        assert(vs.take(k) == vs);
    }
}

} // verus!
