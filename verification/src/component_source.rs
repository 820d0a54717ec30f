//! Authored component files: standalone SVG documents whose root tag's
//! `width` and `height` attributes give the natural pixel size.

use crate::level_source::ComponentSize;
use crate::uuid::unsigned_digits;
use crate::text::{append_str, chars_of, find_from, find_from_exec, string_of, sub_chars};
use vstd::prelude::*;

verus! {

/// Whether `c` is an ASCII decimal digit.
pub open spec fn is_digit(c: char) -> bool {
    '0' <= c && c <= '9'
}

/// The value of a string of decimal digits, most significant first.
pub open spec fn digits_value(d: Seq<char>) -> nat
    decreases d.len(),
{
    if d.len() == 0 {
        0
    } else {
        (digits_value(d.drop_last()) * 10 + (d.last() as int - '0' as int)) as nat
    }
}

/// Every character is a decimal digit.
pub open spec fn all_digits(d: Seq<char>) -> bool {
    forall|i: int| 0 <= i < d.len() ==> is_digit(#[trigger] d[i])
}

/// `u32::from_str`: an optional `+` followed by at least one decimal digit,
/// with a value that fits in 32 bits.
pub open spec fn parse_u32(s: Seq<char>) -> Option<u32> {
    let d = unsigned_digits(s);
    if d.len() > 0 && all_digits(d) && digits_value(d) <= u32::MAX {
        Some(digits_value(d) as u32)
    } else {
        None
    }
}

proof fn lemma_digits_value_grows(d: Seq<char>, j: int, m: int)
    requires
        0 <= j <= m <= d.len(),
        all_digits(d),
    ensures
        digits_value(d.take(j)) <= digits_value(d.take(m)),
    decreases m - j,
{
    if j < m {
        lemma_digits_value_grows(d, j, m - 1);
        assert(d.take(m).drop_last() == d.take(m - 1));
        assert(d.take(m).last() == d[m - 1]);
    }
}

/// Executable `u32::from_str` over characters.
pub fn parse_u32_chars(s: &Vec<char>) -> (r: Option<u32>)
    ensures
        r == parse_u32(s@),
{
    let start: usize = if s.len() > 0 && s[0] == '+' {
        1
    } else {
        0
    };
    let ghost d = unsigned_digits(s@);
    assert(d == s@.skip(start as int));
    if start >= s.len() {
        return None;
    }
    let mut acc: u64 = 0;
    let mut k: usize = start;
    while k < s.len()
        invariant
            start <= k <= s.len(),
            d == s@.skip(start as int),
            d == unsigned_digits(s@),
            forall|i: int| 0 <= i < k - start ==> is_digit(#[trigger] d[i]),
            acc == digits_value(d.take(k - start)),
            acc <= u32::MAX,
        decreases s.len() - k,
    {
        let c = s[k];
        assert(c == d[k - start]);
        if !('0' <= c && c <= '9') {
            assert(!is_digit(d[k - start]));
            assert(!all_digits(d));
            return None;
        }
        let v = (c as u32 - '0' as u32) as u64;
        assert(d.take(k - start + 1).drop_last() == d.take(k - start));
        assert(d.take(k - start + 1).last() == c);
        assert(digits_value(d.take(k - start + 1)) == acc * 10 + v);
        acc = acc * 10 + v;
        if acc > 0xffff_ffff {
            proof {
                if all_digits(d) {
                    lemma_digits_value_grows(d, k - start + 1, d.len() as int);
                    assert(d.take(d.len() as int) == d);
                }
            }
            return None;
        }
        k = k + 1;
    }
    assert(d.take(d.len() as int) == d);
    Some(acc as u32)
}

/// The marker that opens attribute `name` inside a tag.
pub open spec fn attr_marker(name: Seq<char>) -> Seq<char> {
    " "@ + name + "=\""@
}

/// The whole-pixel value of attribute `name` of the root tag (the text
/// before the first `>`), or why it cannot be read.
pub open spec fn px_attr(svg: Seq<char>, name: Seq<char>) -> Result<u32, Seq<char>> {
    match find_from(svg, seq!['>'], 0) {
        None => Err("no root tag"@),
        Some(end) => {
            let root = svg.take(end);
            let marker = attr_marker(name);
            match find_from(root, marker, 0) {
                None => Err("root <svg> tag has no "@ + name + " attribute"@),
                Some(start) => {
                    let value = root.skip(start + marker.len());
                    match find_from(value, seq!['"'], 0) {
                        None => Err("unterminated "@ + name + " attribute"@),
                        Some(q) => match parse_u32(value.take(q)) {
                            None => Err(name + " attribute is not a whole pixel count"@),
                            Some(v) => Ok(v),
                        },
                    }
                },
            }
        },
    }
}

fn message3(a: &str, b: &str, c: &str) -> (m: String)
    ensures
        m@ == a@ + b@ + c@,
{
    let mut m = String::new();
    append_str(&mut m, a);
    append_str(&mut m, b);
    append_str(&mut m, c);
    m
}

/// Extract an integer attribute from the root `<svg>` tag by substring
/// search.
pub fn parse_px_attr(svg: &str, name: &str) -> (res: Result<u32, String>)
    ensures
        match px_attr(svg@, name@) {
            Ok(v) => res == Ok::<u32, String>(v),
            Err(e) => res matches Err(m) && m@ == e,
        },
{
    let chars = chars_of(svg);
    let close = vec!['>'];
    assert(close@ == seq!['>']);
    let end = match find_from_exec(&chars, &close, 0) {
        None => return Err("no root tag".to_string()),
        Some(e) => e,
    };
    proof {
        assert(close@ == seq!['>']);
        crate::text::lemma_find_from_some(chars@, close@, 0);
    }
    let root = sub_chars(&chars, 0, end);
    assert(root@ == chars@.take(end as int));
    let name_chars = chars_of(name);
    let mut marker: Vec<char> = Vec::new();
    marker.push(' ');
    let mut i: usize = 0;
    while i < name_chars.len()
        invariant
            i <= name_chars@.len(),
            marker@ == seq![' '] + name_chars@.take(i as int),
        decreases name_chars.len() - i,
    {
        marker.push(name_chars[i]);
        assert(name_chars@.take(i + 1) == name_chars@.take(i as int).push(name_chars@[i as int]));
        i = i + 1;
    }
    marker.push('=');
    marker.push('"');
    proof {
        assert(name_chars@.take(name_chars@.len() as int) == name@);
        reveal_strlit(" ");
        reveal_strlit("=\"");
        assert(marker@ =~= attr_marker(name@));
    }
    let start = match find_from_exec(&root, &marker, 0) {
        None => return Err(message3("root <svg> tag has no ", name, " attribute")),
        Some(s) => s,
    };
    proof {
        crate::text::lemma_find_from_some(root@, marker@, 0);
    }
    let value = sub_chars(&root, start + marker.len(), root.len());
    assert(value@ == root@.skip(start + marker@.len()));
    let quote = vec!['"'];
    assert(quote@ == seq!['"']);
    let q = match find_from_exec(&value, &quote, 0) {
        None => return Err(message3("unterminated ", name, " attribute")),
        Some(q) => q,
    };
    proof {
        assert(quote@ == seq!['"']);
        crate::text::lemma_find_from_some(value@, quote@, 0);
    }
    let digits = sub_chars(&value, 0, q);
    assert(digits@ == value@.take(q as int));
    match parse_u32_chars(&digits) {
        None => {
            let mut m = String::new();
            append_str(&mut m, name);
            append_str(&mut m, " attribute is not a whole pixel count");
            Err(m)
        },
        Some(v) => Ok(v),
    }
}

/// The slug and natural size of one authored component file; the slug is
/// the file name and must not be empty.
pub open spec fn component_of(slug: Seq<char>, source: Seq<char>) -> Result<(u32, u32), Seq<char>> {
    if slug.len() == 0 {
        Err("component file has an empty name"@)
    } else {
        match px_attr(source, "width"@) {
            Err(e) => Err(e),
            Ok(w) => match px_attr(source, "height"@) {
                Err(e) => Err(e),
                Ok(h) => Ok((w, h)),
            },
        }
    }
}

/// Read the slug and natural size of one authored component file; the
/// shared component checks run on the result.
pub fn parse_component(slug: &str, source: &str) -> (res: Result<ComponentSize, String>)
    ensures
        match component_of(slug@, source@) {
            Ok(size) => res matches Ok(c) && c.slug@ == slug@ && c.width_px == size.0 && c.height_px
                == size.1,
            Err(e) => res matches Err(m) && m@ == e,
        },
{
    if slug.is_empty() {
        return Err("component file has an empty name".to_string());
    }
    let width_px = parse_px_attr(source, "width")?;
    let height_px = parse_px_attr(source, "height")?;
    Ok(ComponentSize { slug: string_of(&chars_of(slug)), width_px, height_px })
}

} // verus!
