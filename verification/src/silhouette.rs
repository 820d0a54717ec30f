//! Locked-card silhouette derivation for character art.
//!
//! Character bodies are committed as standalone SVG documents. The
//! silhouette is never authored: it is derived at import time by injecting
//! a flatten-to-ink color filter, so silhouettes can never drift from
//! bodies.

use crate::text::{
    append_str, chars_of, contains_seq, ends_with, find_from, find_from_exec, lemma_contains_find,
    lemma_find_from_some, matches_at_exec, occurrences, occurrences_exec, replace_first, replace_first_exec,
    string_of, sub_chars, trim_end, trim_end_chars,
};
use vstd::prelude::*;

verus! {

/// Flatten every color to dark ink while keeping the alpha silhouette.
pub const SILHOUETTE_FILTER: &'static str =
    "<filter id=\"sil\"><feColorMatrix type=\"matrix\" values=\"0 0 0 0 0.08 0 0 0 0 0.04 0 0 0 0 0.07 0 0 0 1 0\"/></filter>";

/// The refusal for a body without a plain `<defs>` block.
pub open spec fn missing_defs_message(style: Seq<char>) -> Seq<char> {
    "character '"@ + style + "': body SVG needs a plain <defs> block for silhouette derivation"@
}

/// The refusal for a body that is not a standalone document.
pub open spec fn not_standalone_message(style: Seq<char>) -> Seq<char> {
    "character '"@ + style + "': body SVG is not a standalone document"@
}

/// The refusal for a body with several `<defs>` blocks or a nested `<svg>`.
pub open spec fn not_single_message(style: Seq<char>) -> Seq<char> {
    "character '"@ + style
        + "': body SVG must have exactly one <defs> block and no nested <svg>"@
}

/// The refusal for a body whose `<defs>` block does not come right after
/// the root tag.
pub open spec fn defs_not_first_message(style: Seq<char>) -> Seq<char> {
    "character '"@ + style + "': body SVG must open its <defs> block right after the root tag"@
}

/// The text of `body` before its first `<defs>`.
pub open spec fn before_defs(body: Seq<char>) -> Seq<char> {
    match find_from(body, "<defs>"@, 0) {
        Some(i) => body.take(i),
        None => body,
    }
}

/// The silhouette document: the ink filter injected right after the first
/// `<defs>`, the art after the first `</defs>` wrapped in a filtered group
/// closed before the first `</svg>`.
pub open spec fn silhouette_of(body: Seq<char>) -> Seq<char> {
    let injected = replace_first(body, "<defs>"@, "<defs>"@ + SILHOUETTE_FILTER@);
    let opened = replace_first(injected, "</defs>"@, "</defs><g filter=\"url(#sil)\">"@);
    replace_first(opened, "</svg>"@, "</g></svg>"@)
}

/// What [`derive_silhouette`] yields for a body document.
pub open spec fn derive_silhouette_spec(style: Seq<char>, body: Seq<char>) -> Result<
    Seq<char>,
    Seq<char>,
> {
    if !(contains_seq(body, "<defs>"@) && contains_seq(body, "</defs>"@)) {
        Err(missing_defs_message(style))
    } else if !ends_with(trim_end(body), "</svg>"@) {
        Err(not_standalone_message(style))
    } else if occurrences(body, "</svg>"@) != 1 || occurrences(body, "</defs>"@) != 1 || occurrences(
        body,
        "<defs>"@,
    ) != 1 {
        Err(not_single_message(style))
    } else if occurrences(before_defs(body), "<"@) != 1 {
        Err(defs_not_first_message(style))
    } else {
        Ok(silhouette_of(body))
    }
}

fn contains_exec(s: &Vec<char>, pat: &Vec<char>) -> (b: bool)
    requires
        pat@.len() > 0,
    ensures
        b == contains_seq(s@, pat@),
{
    proof {
        lemma_contains_find(s@, pat@);
    }
    find_from_exec(s, pat, 0).is_some()
}

fn message(prefix: &str, style: &str, suffix: &str) -> (m: String)
    ensures
        m@ == prefix@ + style@ + suffix@,
{
    let mut m = String::new();
    append_str(&mut m, prefix);
    append_str(&mut m, style);
    append_str(&mut m, suffix);
    m
}

/// Derive the silhouette document from a body document by injecting the
/// ink filter into its `<defs>` and wrapping the art in a filtered group.
///
/// The string surgery requires the authored contract: exactly one plain
/// `<defs>` block (no attributes) right after the root tag, before the art,
/// and no nested `<svg>` — anything else fails here instead of producing a
/// corrupt document.
pub fn derive_silhouette(style: &str, body_svg: &str) -> (res: Result<String, String>)
    ensures
        match res {
            Ok(s) => derive_silhouette_spec(style@, body_svg@) == Ok::<Seq<char>, Seq<char>>(s@),
            Err(e) => derive_silhouette_spec(style@, body_svg@) == Err::<Seq<char>, Seq<char>>(e@),
        },
{
    proof {
        reveal_strlit("<defs>");
        reveal_strlit("</defs>");
        reveal_strlit("</svg>");
        reveal_strlit("<");
    }
    let body = chars_of(body_svg);
    let defs_open = chars_of("<defs>");
    let defs_close = chars_of("</defs>");
    let svg_close = chars_of("</svg>");
    if !(contains_exec(&body, &defs_open) && contains_exec(&body, &defs_close)) {
        return Err(
            message(
                "character '",
                style,
                "': body SVG needs a plain <defs> block for silhouette derivation",
            ),
        );
    }
    let trimmed = trim_end_chars(&body);
    let standalone = trimmed.len() >= svg_close.len() && matches_at_exec(
        &trimmed,
        &svg_close,
        trimmed.len() - svg_close.len(),
    );
    if !standalone {
        return Err(message("character '", style, "': body SVG is not a standalone document"));
    }
    if occurrences_exec(&body, &svg_close) != 1 || occurrences_exec(&body, &defs_close) != 1
        || occurrences_exec(&body, &defs_open) != 1 {
        return Err(
            message(
                "character '",
                style,
                "': body SVG must have exactly one <defs> block and no nested <svg>",
            ),
        );
    }
    let first = match find_from_exec(&body, &defs_open, 0) {
        Some(i) => i,
        None => {
            proof {
                lemma_contains_find(body@, defs_open@);
            }
            return Err(
                message(
                    "character '",
                    style,
                    "': body SVG needs a plain <defs> block for silhouette derivation",
                ),
            );
        },
    };
    proof {
        lemma_find_from_some(body@, defs_open@, 0);
    }
    let head = sub_chars(&body, 0, first);
    assert(head@ == before_defs(body@));
    if occurrences_exec(&head, &chars_of("<")) != 1 {
        return Err(
            message("character '", style, "': body SVG must open its <defs> block right after the root tag"),
        );
    }
    let mut injected_to = chars_of("<defs>");
    let filter = chars_of(SILHOUETTE_FILTER);
    let mut k: usize = 0;
    while k < filter.len()
        invariant
            k <= filter.len(),
            injected_to@ == "<defs>"@ + filter@.take(k as int),
        decreases filter.len() - k,
    {
        injected_to.push(filter[k]);
        assert(filter@.take(k + 1) == filter@.take(k as int).push(filter@[k as int]));
        k = k + 1;
    }
    assert(filter@.take(filter@.len() as int) == filter@);
    let injected = replace_first_exec(&body, &defs_open, &injected_to);
    let opened = replace_first_exec(
        &injected,
        &defs_close,
        &chars_of("</defs><g filter=\"url(#sil)\">"),
    );
    let closed = replace_first_exec(&opened, &svg_close, &chars_of("</g></svg>"));
    Ok(string_of(&closed))
}

} // verus!
