//! Authored character art: each body file is paired with the seed
//! character of its style, and its locked-card silhouette is derived.

use crate::seed::SeedCharacter;
use crate::silhouette::{derive_silhouette, derive_silhouette_spec};
use crate::text::append_str;
use vstd::prelude::*;

verus! {

/// One authored body file: its style (the file name), its document and
/// its natural pixel size.
pub struct ArtBody {
    pub style: String,
    pub svg: String,
    pub width_px: u32,
    pub height_px: u32,
}

/// A body paired with its seed character, with the derived silhouette:
/// its slug and document, at the body's size.
#[derive(Debug)]
pub struct PairedArt {
    pub style: String,
    /// The character's stable authored UUID from the seed.
    pub character_id: String,
    pub silhouette_slug: String,
    pub silhouette_svg: String,
    pub width_px: u32,
    pub height_px: u32,
}

/// The slug of the silhouette derived from the body of `style`.
pub open spec fn silhouette_slug(style: Seq<char>) -> Seq<char> {
    style + "-silhouette"@
}

/// The position of the first seed character with the given style.
pub open spec fn character_with_style(characters: Seq<SeedCharacter>, style: Seq<char>) -> Option<int>
    decreases characters.len(),
{
    if characters.len() == 0 {
        None
    } else {
        match character_with_style(characters.drop_last(), style) {
            Some(i) => Some(i),
            None => if characters.last().style@ == style {
                Some(characters.len() - 1)
            } else {
                None
            },
        }
    }
}

/// What pairing one body gives: the character id and silhouette, or the
/// problem with the body.
pub open spec fn paired_body(b: ArtBody, characters: Seq<SeedCharacter>) -> Result<(Seq<char>, Seq<char>), Seq<char>> {
    match character_with_style(characters, b.style@) {
        None => Err("character art '"@ + b.style@ + ".svg' matches no seed character style"@),
        Some(i) => match derive_silhouette_spec(b.style@, b.svg@) {
            Err(e) => Err(e),
            Ok(s) => Ok((characters[i].id@, s)),
        },
    }
}

/// The first body, in order, that cannot be paired, and its problem.
pub open spec fn body_problem(bodies: Seq<ArtBody>, characters: Seq<SeedCharacter>, n: int) -> Option<Seq<char>>
    decreases n,
{
    if n <= 0 {
        None
    } else {
        match body_problem(bodies, characters, n - 1) {
            Some(e) => Some(e),
            None => match paired_body(bodies[n - 1], characters) {
                Err(e) => Some(e),
                Ok(_) => None,
            },
        }
    }
}

/// How many of the first `n` bodies have the given style.
pub open spec fn body_count(bodies: Seq<ArtBody>, style: Seq<char>, n: int) -> nat
    decreases n,
{
    if n <= 0 {
        0
    } else {
        body_count(bodies, style, n - 1) + if bodies[n - 1].style@ == style {
            1nat
        } else {
            0nat
        }
    }
}

/// The first seed character, in order, without exactly one body file, and
/// the message for it.
pub open spec fn orphan_problem(bodies: Seq<ArtBody>, characters: Seq<SeedCharacter>, n: int) -> Option<Seq<char>>
    decreases n,
{
    if n <= 0 {
        None
    } else {
        match orphan_problem(bodies, characters, n - 1) {
            Some(e) => Some(e),
            None => {
                let c = characters[n - 1];
                let count = body_count(bodies, c.style@, bodies.len() as int);
                if count == 0 {
                    Some("seed character '"@ + c.name@ + "' (style '"@ + c.style@ + "') has no art file"@)
                } else if count > 1 {
                    Some("seed character '"@ + c.name@ + "' (style '"@ + c.style@ + "') has several art files"@)
                } else {
                    None
                }
            },
        }
    }
}

proof fn lemma_character_with_style(characters: Seq<SeedCharacter>, style: Seq<char>)
    ensures
        character_with_style(characters, style) matches Some(i) ==> 0 <= i < characters.len()
            && characters[i].style@ == style && forall|j: int| 0 <= j < i ==> (#[trigger] characters[j]).style@ != style,
        character_with_style(characters, style) is None ==> forall|j: int|
            0 <= j < characters.len() ==> (#[trigger] characters[j]).style@ != style,
    decreases characters.len(),
{
    if characters.len() > 0 {
        lemma_character_with_style(characters.drop_last(), style);
        assert forall|j: int| 0 <= j < characters.len() - 1 implies characters.drop_last()[j] == characters[j] by {}
    }
}

fn find_character(characters: &[SeedCharacter], style: &String) -> (r: Option<usize>)
    ensures
        match r {
            Some(i) => character_with_style(characters@, style@) == Some(i as int) && i < characters@.len(),
            None => character_with_style(characters@, style@) is None,
        },
{
    proof {
        lemma_character_with_style(characters@, style@);
    }
    let mut i: usize = 0;
    while i < characters.len()
        invariant
            i <= characters@.len(),
            forall|j: int| 0 <= j < i ==> (#[trigger] characters@[j]).style@ != style@,
            character_with_style(characters@, style@) matches Some(k) ==> 0 <= k < characters@.len()
                && characters@[k].style@ == style@ && forall|j: int|
                0 <= j < k ==> (#[trigger] characters@[j]).style@ != style@,
            character_with_style(characters@, style@) is None ==> forall|j: int|
                0 <= j < characters@.len() ==> (#[trigger] characters@[j]).style@ != style@,
        decreases characters.len() - i,
    {
        if characters[i].style == *style {
            proof {
                if let Some(k) = character_with_style(characters@, style@) {
                    if k > i {
                        assert(characters@[i as int].style@ != style@);
                    }
                }
            }
            return Some(i);
        }
        i = i + 1;
    }
    None
}

proof fn lemma_problem_prefix(bodies: Seq<ArtBody>, characters: Seq<SeedCharacter>, k: int, n: int)
    requires
        0 <= k <= n,
        body_problem(bodies, characters, k) is Some,
    ensures
        body_problem(bodies, characters, n) == body_problem(bodies, characters, k),
    decreases n - k,
{
    if k < n {
        lemma_problem_prefix(bodies, characters, k, n - 1);
    }
}

proof fn lemma_orphan_prefix(bodies: Seq<ArtBody>, characters: Seq<SeedCharacter>, k: int, n: int)
    requires
        0 <= k <= n,
        orphan_problem(bodies, characters, k) is Some,
    ensures
        orphan_problem(bodies, characters, n) == orphan_problem(bodies, characters, k),
    decreases n - k,
{
    if k < n {
        lemma_orphan_prefix(bodies, characters, k, n - 1);
    }
}

fn copy_text(s: &String) -> (c: String)
    ensures
        c@ == s@,
{
    s.clone()
}

/// Pair body files with their seed characters and derive each silhouette,
/// named after the style with `-silhouette` and sized as its body.
/// Every seed character must have exactly one body file and every body
/// file must match a seed character's style; any gap fails, bodies first,
/// each in order. On success there is one pairing per body, in body order.
pub fn pair_art(bodies: &[ArtBody], characters: &[SeedCharacter]) -> (res: Result<Vec<PairedArt>, String>)
    ensures
        match body_problem(bodies@, characters@, bodies@.len() as int) {
            Some(e) => res matches Err(m) && m@ == e,
            None => match orphan_problem(bodies@, characters@, characters@.len() as int) {
                Some(e) => res matches Err(m) && m@ == e,
                None => res matches Ok(art) && art@.len() == bodies@.len() && forall|i: int|
                    0 <= i < bodies@.len() ==> {
                        let p = #[trigger] art@[i];
                        &&& p.style@ == bodies@[i].style@
                        &&& paired_body(bodies@[i], characters@) == Ok::<(Seq<char>, Seq<char>), Seq<char>>(
                            (p.character_id@, p.silhouette_svg@),
                        )
                        &&& p.silhouette_slug@ == silhouette_slug(bodies@[i].style@)
                        &&& p.width_px == bodies@[i].width_px
                        &&& p.height_px == bodies@[i].height_px
                    },
            },
        },
{
    let mut art: Vec<PairedArt> = Vec::new();
    let mut i: usize = 0;
    while i < bodies.len()
        invariant
            i <= bodies@.len(),
            body_problem(bodies@, characters@, i as int) is None,
            art@.len() == i,
            forall|j: int|
                0 <= j < i ==> {
                    let p = #[trigger] art@[j];
                    &&& p.style@ == bodies@[j].style@
                    &&& paired_body(bodies@[j], characters@) == Ok::<(Seq<char>, Seq<char>), Seq<char>>(
                        (p.character_id@, p.silhouette_svg@),
                    )
                    &&& p.silhouette_slug@ == silhouette_slug(bodies@[j].style@)
                    &&& p.width_px == bodies@[j].width_px
                    &&& p.height_px == bodies@[j].height_px
                },
        decreases bodies.len() - i,
    {
        let body = &bodies[i];
        let c = match find_character(characters, &body.style) {
            None => {
                let mut m = String::new();
                append_str(&mut m, "character art '");
                append_str(&mut m, body.style.as_str());
                append_str(&mut m, ".svg' matches no seed character style");
                proof {
                    lemma_problem_prefix(bodies@, characters@, i + 1, bodies@.len() as int);
                }
                return Err(m);
            },
            Some(c) => c,
        };
        let silhouette = match derive_silhouette(body.style.as_str(), body.svg.as_str()) {
            Err(m) => {
                proof {
                    lemma_problem_prefix(bodies@, characters@, i + 1, bodies@.len() as int);
                }
                return Err(m);
            },
            Ok(s) => s,
        };
        let mut slug = copy_text(&body.style);
        append_str(&mut slug, "-silhouette");
        art.push(
            PairedArt {
                style: copy_text(&body.style),
                character_id: copy_text(&characters[c].id),
                silhouette_slug: slug,
                silhouette_svg: silhouette,
                width_px: body.width_px,
                height_px: body.height_px,
            },
        );
        i = i + 1;
    }
    let mut k: usize = 0;
    while k < characters.len()
        invariant
            k <= characters@.len(),
            orphan_problem(bodies@, characters@, k as int) is None,
            body_problem(bodies@, characters@, bodies@.len() as int) is None,
        decreases characters.len() - k,
    {
        let style = &characters[k].style;
        let mut count: usize = 0;
        let mut j: usize = 0;
        while j < bodies.len()
            invariant
                j <= bodies@.len(),
                count == body_count(bodies@, style@, j as int),
                count <= j,
            decreases bodies.len() - j,
        {
            if bodies[j].style == *style {
                count = count + 1;
            }
            j = j + 1;
        }
        if count != 1 {
            let mut m = String::new();
            append_str(&mut m, "seed character '");
            append_str(&mut m, characters[k].name.as_str());
            append_str(&mut m, "' (style '");
            append_str(&mut m, style.as_str());
            if count == 0 {
                append_str(&mut m, "') has no art file");
            } else {
                append_str(&mut m, "') has several art files");
            }
            proof {
                lemma_orphan_prefix(bodies@, characters@, k + 1, characters@.len() as int);
            }
            return Err(m);
        }
        k = k + 1;
    }
    Ok(art)
}

} // verus!
