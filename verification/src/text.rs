//! Character-level text helpers shared by the parsers and renderers:
//! whitespace classification, decimal rendering, and substring search.

use vstd::prelude::*;
use vstd::string::StringExecFns;

verus! {

/// Appends one character to a string (`String::push`).
#[verifier::external_body]
pub(crate) fn push_char(s: &mut String, c: char)
    ensures
        final(s)@ == old(s)@.push(c),
{
    s.push(c);
}

/// The characters of `s`, in order.
pub fn chars_of(s: &str) -> (out: Vec<char>)
    ensures
        out@ == s@,
{
    let mut out: Vec<char> = Vec::new();
    for c in it: s.chars()
        invariant
            out@ == it.seq().take(it.index() as int),
            it.seq() == s@,
    {
        out.push(c);
        assert(it.seq().take(it.index() + 1) == it.seq().take(it.index() as int).push(c));
    }
    assert(s@.take(s@.len() as int) == s@);
    out
}

/// A string holding exactly the given characters.
pub fn string_of(chars: &Vec<char>) -> (s: String)
    ensures
        s@ == chars@,
{
    let mut s = String::new();
    let mut i: usize = 0;
    while i < chars.len()
        invariant
            i <= chars.len(),
            s@ == chars@.take(i as int),
        decreases chars.len() - i,
    {
        push_char(&mut s, chars[i]);
        assert(chars@.take(i + 1) == chars@.take(i as int).push(chars@[i as int]));
        i = i + 1;
    }
    assert(chars@.take(chars@.len() as int) == chars@);
    s
}

/// Appends `other` to `s`.
pub fn append_str(s: &mut String, other: &str)
    ensures
        final(s)@ == old(s)@ + other@,
{
    s.append(other);
}

/// Whether two texts are equal, character by character.
pub fn same_text(a: &str, b: &str) -> (r: bool)
    ensures
        r == (a@ == b@),
{
    let x = chars_of(a);
    let y = chars_of(b);
    if x.len() != y.len() {
        return false;
    }
    let mut i: usize = 0;
    while i < x.len()
        invariant
            x@ == a@,
            y@ == b@,
            x@.len() == y@.len(),
            i <= x@.len(),
            forall|j: int| 0 <= j < i ==> x@[j] == y@[j],
        decreases x.len() - i,
    {
        if x[i] != y[i] {
            return false;
        }
        i = i + 1;
    }
    assert(x@ =~= y@);
    true
}

/// The characters of `s` from position `from` up to, not including, `to`.
pub fn sub_chars(s: &Vec<char>, from: usize, to: usize) -> (out: Vec<char>)
    requires
        from <= to <= s@.len(),
    ensures
        out@ == s@.subrange(from as int, to as int),
{
    let mut out: Vec<char> = Vec::new();
    let mut i: usize = from;
    while i < to
        invariant
            from <= i <= to <= s@.len(),
            out@ == s@.subrange(from as int, i as int),
        decreases to - i,
    {
        out.push(s[i]);
        assert(s@.subrange(from as int, i + 1) == s@.subrange(from as int, i as int).push(s@[i as int]));
        i = i + 1;
    }
    out
}

/// The Unicode lowercase mapping of a text, as `str::to_lowercase` gives it.
pub uninterp spec fn lowercase(s: Seq<char>) -> Seq<char>;

/// `str::to_lowercase`. Its result is named, not stated: the mapping is
/// Unicode's full lowercase table, a function of the text alone.
#[verifier::external_body]
pub(crate) fn to_lowercase(s: &str) -> (r: String)
    ensures
        r@ == lowercase(s@),
{
    s.to_lowercase()
}

/// Unicode `White_Space`, the set `char::is_whitespace` accepts.
pub open spec fn is_ws(c: char) -> bool {
    let u = c as u32;
    ||| 0x09 <= u <= 0x0D
    ||| u == 0x20
    ||| u == 0x85
    ||| u == 0xA0
    ||| u == 0x1680
    ||| 0x2000 <= u <= 0x200A
    ||| u == 0x2028
    ||| u == 0x2029
    ||| u == 0x202F
    ||| u == 0x205F
    ||| u == 0x3000
}

/// Executable form of [`is_ws`].
pub fn is_whitespace(c: char) -> (b: bool)
    ensures
        b == is_ws(c),
{
    let u = c as u32;
    (0x09 <= u && u <= 0x0D) || u == 0x20 || u == 0x85 || u == 0xA0 || u == 0x1680 || (0x2000 <= u
        && u <= 0x200A) || u == 0x2028 || u == 0x2029 || u == 0x202F || u == 0x205F || u == 0x3000
}

/// `s` without its trailing whitespace (`str::trim_end`).
pub open spec fn trim_end(s: Seq<char>) -> Seq<char>
    decreases s.len(),
{
    if s.len() > 0 && is_ws(s.last()) {
        trim_end(s.drop_last())
    } else {
        s
    }
}

/// `s` without its leading whitespace (`str::trim_start`).
pub open spec fn trim_start(s: Seq<char>) -> Seq<char>
    decreases s.len(),
{
    if s.len() > 0 && is_ws(s[0]) {
        trim_start(s.drop_first())
    } else {
        s
    }
}

/// `s` without leading and trailing whitespace (`str::trim`).
pub open spec fn trim(s: Seq<char>) -> Seq<char> {
    trim_start(trim_end(s))
}

proof fn lemma_trim_end_prefix(s: Seq<char>, n: int)
    requires
        0 <= n <= s.len(),
        forall|j: int| n <= j < s.len() ==> is_ws(#[trigger] s[j]),
    ensures
        trim_end(s) == trim_end(s.take(n)),
    decreases s.len(),
{
    if n < s.len() {
        assert(s.drop_last().take(n) == s.take(n));
        lemma_trim_end_prefix(s.drop_last(), n);
    } else {
        assert(s.take(n) == s);
    }
}

proof fn lemma_trim_start_suffix(s: Seq<char>, n: int)
    requires
        0 <= n <= s.len(),
        forall|j: int| 0 <= j < n ==> is_ws(#[trigger] s[j]),
    ensures
        trim_start(s) == trim_start(s.skip(n)),
    decreases n,
{
    if n > 0 {
        assert(s.drop_first().skip(n - 1) == s.skip(n));
        lemma_trim_start_suffix(s.drop_first(), n - 1);
    } else {
        assert(s.skip(0) == s);
    }
}

/// Executable `str::trim_end` over characters.
pub fn trim_end_chars(s: &Vec<char>) -> (out: Vec<char>)
    ensures
        out@ == trim_end(s@),
{
    let mut n = s.len();
    while n > 0 && is_whitespace(s[n - 1])
        invariant
            n <= s.len(),
            forall|j: int| n <= j < s.len() ==> is_ws(#[trigger] s@[j]),
        decreases n,
    {
        n = n - 1;
    }
    proof {
        lemma_trim_end_prefix(s@, n as int);
        assert(s@.take(n as int).len() == 0 || !is_ws(s@.take(n as int).last()));
    }
    let mut out: Vec<char> = Vec::new();
    let mut i: usize = 0;
    while i < n
        invariant
            i <= n <= s.len(),
            out@ == s@.take(i as int),
        decreases n - i,
    {
        out.push(s[i]);
        assert(s@.take(i + 1) == s@.take(i as int).push(s@[i as int]));
        i = i + 1;
    }
    out
}

/// Executable `str::trim` over characters.
pub fn trim_chars(s: &Vec<char>) -> (out: Vec<char>)
    ensures
        out@ == trim(s@),
{
    let e = trim_end_chars(s);
    let mut k: usize = 0;
    while k < e.len() && is_whitespace(e[k])
        invariant
            k <= e.len(),
            forall|j: int| 0 <= j < k ==> is_ws(#[trigger] e@[j]),
        decreases e.len() - k,
    {
        k = k + 1;
    }
    proof {
        lemma_trim_start_suffix(e@, k as int);
        assert(e@.skip(k as int).len() == 0 || !is_ws(e@.skip(k as int)[0]));
    }
    let mut out: Vec<char> = Vec::new();
    let mut i: usize = k;
    while i < e.len()
        invariant
            k <= i <= e.len(),
            out@ == e@.subrange(k as int, i as int),
        decreases e.len() - i,
    {
        out.push(e[i]);
        assert(e@.subrange(k as int, i + 1) == e@.subrange(k as int, i as int).push(e@[i as int]));
        i = i + 1;
    }
    assert(e@.subrange(k as int, e@.len() as int) == e@.skip(k as int));
    out
}

/// The decimal digit character for `d < 10`.
pub open spec fn digit_char(d: nat) -> char {
    (48 + d) as char
}

/// The decimal rendering of `n`, without sign or leading zeros.
pub open spec fn decimal(n: nat) -> Seq<char>
    decreases n,
{
    if n < 10 {
        seq![digit_char(n)]
    } else {
        decimal(n / 10).push(digit_char(n % 10))
    }
}

fn digit(d: u128) -> (c: char)
    requires
        d < 10,
    ensures
        c == digit_char(d as nat),
{
    let b: u8 = 48 + d as u8;
    b as char
}

/// Appends the decimal rendering of `n` to `s`.
pub fn push_decimal(s: &mut String, n: u128)
    ensures
        final(s)@ == old(s)@ + decimal(n as nat),
    decreases n,
{
    if n >= 10 {
        push_decimal(s, n / 10);
    }
    push_char(s, digit(n % 10));
    assert(old(s)@ + decimal(n as nat) == (if n >= 10 {
        old(s)@ + decimal((n / 10) as nat)
    } else {
        old(s)@
    }).push(digit_char((n % 10) as nat)));
}

/// Whether `pat` occurs in `s` starting at position `i`.
pub open spec fn matches_at(s: Seq<char>, pat: Seq<char>, i: int) -> bool {
    0 <= i && i + pat.len() <= s.len() && s.subrange(i, i + pat.len()) == pat
}

/// Whether `pat` occurs anywhere in `s` (`str::contains`).
pub open spec fn contains_seq(s: Seq<char>, pat: Seq<char>) -> bool {
    exists|i: int| matches_at(s, pat, i)
}

/// Whether `s` ends with `pat` (`str::ends_with`).
pub open spec fn ends_with(s: Seq<char>, pat: Seq<char>) -> bool {
    pat.len() <= s.len() && matches_at(s, pat, s.len() - pat.len())
}

/// The first position at or after `from` where `pat` occurs in `s`.
pub open spec fn find_from(s: Seq<char>, pat: Seq<char>, from: int) -> Option<int>
    decreases s.len() + 1 - from,
{
    if from < 0 || from + pat.len() > s.len() {
        None
    } else if matches_at(s, pat, from) {
        Some(from)
    } else {
        find_from(s, pat, from + 1)
    }
}

/// The number of positions at or after `from` where `pat` occurs in `s`.
pub open spec fn occurrences_from(s: Seq<char>, pat: Seq<char>, from: int) -> nat
    decreases s.len() + 1 - from,
{
    if from < 0 || from + pat.len() > s.len() {
        0
    } else {
        (if matches_at(s, pat, from) {
            1nat
        } else {
            0nat
        }) + occurrences_from(s, pat, from + 1)
    }
}

/// The number of positions where `pat` occurs in `s`. For a pattern that
/// cannot overlap itself this is `str::matches(..).count()`.
pub open spec fn occurrences(s: Seq<char>, pat: Seq<char>) -> nat {
    occurrences_from(s, pat, 0)
}

/// `s` with its first occurrence of `pat` replaced by `to`
/// (`str::replacen(pat, to, 1)`); `s` itself when `pat` does not occur.
pub open spec fn replace_first(s: Seq<char>, pat: Seq<char>, to: Seq<char>) -> Seq<char> {
    match find_from(s, pat, 0) {
        Some(i) => s.subrange(0, i) + to + s.subrange(i + pat.len(), s.len() as int),
        None => s,
    }
}

pub proof fn lemma_find_from_some(s: Seq<char>, pat: Seq<char>, from: int)
    requires
        0 <= from,
    ensures
        find_from(s, pat, from) matches Some(i) ==> from <= i && matches_at(s, pat, i) && forall|
            j: int,
        |
            from <= j < i ==> !matches_at(s, pat, j),
        find_from(s, pat, from) is None ==> forall|j: int| from <= j ==> !matches_at(s, pat, j),
    decreases s.len() + 1 - from,
{
    if from + pat.len() <= s.len() {
        lemma_find_from_some(s, pat, from + 1);
    }
}

/// `contains_seq` holds exactly when a first occurrence exists.
pub proof fn lemma_contains_find(s: Seq<char>, pat: Seq<char>)
    ensures
        contains_seq(s, pat) <==> find_from(s, pat, 0) is Some,
{
    lemma_find_from_some(s, pat, 0);
    if let Some(i) = find_from(s, pat, 0) {
        assert(matches_at(s, pat, i));
    }
}

/// Whether `pat` occurs in `s` at position `i` (executable).
pub fn matches_at_exec(s: &Vec<char>, pat: &Vec<char>, i: usize) -> (b: bool)
    ensures
        b == matches_at(s@, pat@, i as int),
{
    if i > s.len() || pat.len() > s.len() - i {
        return false;
    }
    let mut k: usize = 0;
    while k < pat.len()
        invariant
            k <= pat.len(),
            i + pat.len() <= s.len(),
            forall|j: int| 0 <= j < k ==> s@[i + j] == pat@[j],
        decreases pat.len() - k,
    {
        if s[i + k] != pat[k] {
            assert(s@.subrange(i as int, i + pat@.len())[k as int] != pat@[k as int]);
            return false;
        }
        k = k + 1;
    }
    assert(s@.subrange(i as int, i + pat@.len()) =~= pat@);
    true
}

/// The first position at or after `from` where `pat` occurs (executable).
pub fn find_from_exec(s: &Vec<char>, pat: &Vec<char>, from: usize) -> (r: Option<usize>)
    requires
        pat@.len() > 0,
    ensures
        r matches Some(i) ==> find_from(s@, pat@, from as int) == Some(i as int),
        r is None ==> find_from(s@, pat@, from as int) is None,
{
    if from > s.len() {
        return None;
    }
    let mut i: usize = from;
    while pat.len() <= s.len() - i
        invariant
            from <= i <= s@.len(),
            pat@.len() > 0,
            find_from(s@, pat@, from as int) == find_from(s@, pat@, i as int),
        decreases s.len() - i,
    {
        if matches_at_exec(s, pat, i) {
            return Some(i);
        }
        i = i + 1;
    }
    None
}

/// Number of positions at or after `from` where `pat` occurs (executable).
pub fn occurrences_exec(s: &Vec<char>, pat: &Vec<char>) -> (n: usize)
    requires
        pat@.len() > 0,
    ensures
        n == occurrences(s@, pat@),
{
    let mut n: usize = 0;
    let mut i: usize = s.len();
    // Count from the back so that the running total is `occurrences_from(i)`.
    while i > 0
        invariant
            i <= s.len(),
            pat@.len() > 0,
            n <= s.len() - i,
            n == occurrences_from(s@, pat@, i as int),
        decreases i,
    {
        i = i - 1;
        if matches_at_exec(s, pat, i) {
            n = n + 1;
        }
    }
    n
}

/// Executable `replace_first`.
pub fn replace_first_exec(s: &Vec<char>, pat: &Vec<char>, to: &Vec<char>) -> (out: Vec<char>)
    requires
        pat@.len() > 0,
    ensures
        out@ == replace_first(s@, pat@, to@),
{
    match find_from_exec(s, pat, 0) {
        None => s.clone(),
        Some(i) => {
            proof {
                lemma_find_from_some(s@, pat@, 0);
            }
            let mut out: Vec<char> = Vec::new();
            let mut k: usize = 0;
            while k < i
                invariant
                    k <= i,
                    i + pat.len() <= s.len(),
                    out@ == s@.subrange(0, k as int),
                decreases i - k,
            {
                out.push(s[k]);
                assert(s@.subrange(0, k + 1) == s@.subrange(0, k as int).push(s@[k as int]));
                k = k + 1;
            }
            let mut t: usize = 0;
            while t < to.len()
                invariant
                    t <= to.len(),
                    i + pat.len() <= s.len(),
                    out@ == s@.subrange(0, i as int) + to@.take(t as int),
                decreases to.len() - t,
            {
                out.push(to[t]);
                assert(to@.take(t + 1) == to@.take(t as int).push(to@[t as int]));
                t = t + 1;
            }
            assert(to@.take(to@.len() as int) == to@);
            let start = i + pat.len();
            let mut r: usize = start;
            while r < s.len()
                invariant
                    start <= r <= s.len(),
                    out@ == s@.subrange(0, i as int) + to@ + s@.subrange(start as int, r as int),
                decreases s.len() - r,
            {
                out.push(s[r]);
                assert(s@.subrange(start as int, r + 1) == s@.subrange(start as int, r as int).push(
                    s@[r as int],
                ));
                r = r + 1;
            }
            out
        },
    }
}

} // verus!
