//! Tiled map documents: the checks that turn an authored Tiled map into an
//! importable level, and the conversion of its gids into tile ids.

use crate::progression::views;
use crate::repository::character::{first_where, lemma_first_where};
use crate::text::{append_str, chars_of, decimal, push_decimal, same_text, string_of, trim, trim_chars};
use crate::tiles::TileIds;
use crate::uuid::{invalid_uuid_message, is_canonical_uuid, validate_uuid};
use vstd::prelude::*;

verus! {

/// The flip and rotation flags Tiled keeps in the top four bits of a gid.
pub const FLIP_FLAGS: u32 = 0xf000_0000;

/// A custom property value.
pub enum PropValue {
    Str(String),
    Bool(bool),
    /// A number: its value when it is an integer in `0..=u64::MAX`.
    Number(Option<u64>),
    /// Null, an array or an object.
    Other,
}

/// A custom property of a map or a layer.
pub struct TiledProperty {
    pub name: String,
    pub value: PropValue,
    /// The value written as JSON, as messages quote it.
    pub text: String,
}

/// A tileset reference.
pub struct TiledTileset {
    pub firstgid: u32,
}

/// A layer as the document gives it (parallax aside).
pub struct TiledLayer {
    pub kind: String,
    pub name: String,
    pub width: u16,
    pub height: u16,
    pub data: Vec<u32>,
    pub properties: Vec<TiledProperty>,
}

/// A map as the document gives it.
pub struct TiledMap {
    pub kind: String,
    pub orientation: String,
    pub infinite: bool,
    pub tilewidth: u16,
    pub tileheight: u16,
    pub properties: Vec<TiledProperty>,
    pub tilesets: Vec<TiledTileset>,
    pub layers: Vec<TiledLayer>,
}

/// A checked tile layer: its depth, size, cell size and tile ids.
#[derive(Debug)]
pub struct TileLayer {
    pub z: u8,
    pub width: u16,
    pub height: u16,
    pub cell_width: u16,
    pub cell_height: u16,
    pub tiles: Vec<u8>,
}

/// A tile layer as a mathematical value.
pub struct TileLayerView {
    pub z: u8,
    pub width: u16,
    pub height: u16,
    pub cell_width: u16,
    pub cell_height: u16,
    pub tiles: Seq<u8>,
}

impl View for TileLayer {
    type V = TileLayerView;

    open spec fn view(&self) -> TileLayerView {
        TileLayerView {
            z: self.z,
            width: self.width,
            height: self.height,
            cell_width: self.cell_width,
            cell_height: self.cell_height,
            tiles: self.tiles@,
        }
    }
}

/// A fully checked level, ready for the shared layer checks and import.
#[derive(Debug)]
pub struct ImportedLevel {
    /// Stable authored UUID.
    pub id: String,
    /// Readable operator/UI slug; never a foreign key.
    pub slug: String,
    pub name: String,
    pub is_starting: bool,
    pub active: bool,
    pub reward_lootbox_id: Option<String>,
    pub successors: Vec<String>,
    pub layers: Vec<TileLayer>,
}

/// A checked level as a mathematical value.
pub struct ImportedLevelView {
    pub id: Seq<char>,
    pub slug: Seq<char>,
    pub name: Seq<char>,
    pub is_starting: bool,
    pub active: bool,
    pub reward_lootbox_id: Option<Seq<char>>,
    pub successors: Seq<Seq<char>>,
    pub layers: Seq<TileLayerView>,
}

/// The views of a sequence of layers.
pub open spec fn layer_views(layers: Seq<TileLayer>) -> Seq<TileLayerView> {
    layers.map_values(|l: TileLayer| l@)
}

impl View for ImportedLevel {
    type V = ImportedLevelView;

    open spec fn view(&self) -> ImportedLevelView {
        ImportedLevelView {
            id: self.id@,
            slug: self.slug@,
            name: self.name@,
            is_starting: self.is_starting,
            active: self.active,
            reward_lootbox_id: match self.reward_lootbox_id {
                Some(r) => Some(r@),
                None => None,
            },
            successors: views(self.successors@),
            layers: layer_views(self.layers@),
        }
    }
}

// ---------------------------------------------------------------------------
// Properties

/// The property with the given name.
pub open spec fn named(name: Seq<char>) -> spec_fn(TiledProperty) -> bool {
    |p: TiledProperty| p.name@ == name
}

/// The message for a property of the wrong type.
pub open spec fn wrong_type(name: Seq<char>, what: Seq<char>, text: Seq<char>) -> Seq<char> {
    "property '"@ + name + "' must be "@ + what + ", got "@ + text
}

/// The message for an integer property outside `0..=65535`.
pub open spec fn out_of_range(name: Seq<char>) -> Seq<char> {
    "property '"@ + name + "' out of range"@
}

/// The first property called `name`, as a string.
pub open spec fn string_prop_of(props: Seq<TiledProperty>, name: Seq<char>) -> Result<
    Option<Seq<char>>,
    Seq<char>,
> {
    match first_where(props, named(name)) {
        None => Ok(None),
        Some(i) => match props[i].value {
            PropValue::Str(s) => Ok(Some(s@)),
            _ => Err(wrong_type(name, "a string"@, props[i].text@)),
        },
    }
}

/// The first property called `name`, as a bool.
pub open spec fn bool_prop_of(props: Seq<TiledProperty>, name: Seq<char>) -> Result<Option<bool>, Seq<char>> {
    match first_where(props, named(name)) {
        None => Ok(None),
        Some(i) => match props[i].value {
            PropValue::Bool(b) => Ok(Some(b)),
            _ => Err(wrong_type(name, "a bool"@, props[i].text@)),
        },
    }
}

/// The first property called `name`, as an integer in `0..=65535`.
pub open spec fn u16_prop_of(props: Seq<TiledProperty>, name: Seq<char>) -> Result<Option<u16>, Seq<char>> {
    match first_where(props, named(name)) {
        None => Ok(None),
        Some(i) => match props[i].value {
            PropValue::Number(n) => match n {
                Some(v) => if v <= u16::MAX {
                    Ok(Some(v as u16))
                } else {
                    Err(out_of_range(name))
                },
                None => Err(out_of_range(name)),
            },
            _ => Err(wrong_type(name, "an integer"@, props[i].text@)),
        },
    }
}

/// The position of the first property called `name`.
fn property_position(props: &Vec<TiledProperty>, name: &str) -> (p: Option<usize>)
    ensures
        match p {
            Some(i) => first_where(props@, named(name@)) == Some(i as int) && i < props@.len(),
            None => first_where(props@, named(name@)) is None,
        },
{
    let ghost pr = named(name@);
    let mut i: usize = 0;
    while i < props.len()
        invariant
            i <= props@.len(),
            pr == named(name@),
            forall|j: int| 0 <= j < i ==> !pr(#[trigger] props@[j]),
        decreases props.len() - i,
    {
        if same_text(props[i].name.as_str(), name) {
            proof {
                lemma_first_where(props@, pr);
                if let Some(k) = first_where(props@, pr) {
                    if k < i {
                        assert(!pr(props@[k]));
                    }
                    assert(pr(props@[i as int]));
                }
            }
            return Some(i);
        }
        i = i + 1;
    }
    proof {
        lemma_first_where(props@, pr);
    }
    None
}

fn wrong_type_message(name: &str, what: &str, text: &String) -> (m: String)
    ensures
        m@ == wrong_type(name@, what@, text@),
{
    let mut m = String::new();
    append_str(&mut m, "property '");
    append_str(&mut m, name);
    append_str(&mut m, "' must be ");
    append_str(&mut m, what);
    append_str(&mut m, ", got ");
    append_str(&mut m, text.as_str());
    m
}

/// The first property called `name`, as a string.
pub fn string_prop(props: &Vec<TiledProperty>, name: &str) -> (r: Result<Option<String>, String>)
    ensures
        match string_prop_of(props@, name@) {
            Ok(None) => r matches Ok(None),
            Ok(Some(s)) => r matches Ok(Some(x)) && x@ == s,
            Err(e) => r matches Err(m) && m@ == e,
        },
{
    match property_position(props, name) {
        None => Ok(None),
        Some(i) => match &props[i].value {
            PropValue::Str(s) => Ok(Some(s.clone())),
            _ => Err(wrong_type_message(name, "a string", &props[i].text)),
        },
    }
}

/// The first property called `name`, as a bool.
pub fn bool_prop(props: &Vec<TiledProperty>, name: &str) -> (r: Result<Option<bool>, String>)
    ensures
        match bool_prop_of(props@, name@) {
            Ok(b) => r == Ok::<Option<bool>, String>(b),
            Err(e) => r matches Err(m) && m@ == e,
        },
{
    match property_position(props, name) {
        None => Ok(None),
        Some(i) => match &props[i].value {
            PropValue::Bool(b) => Ok(Some(*b)),
            _ => Err(wrong_type_message(name, "a bool", &props[i].text)),
        },
    }
}

/// The first property called `name`, as an integer in `0..=65535`.
pub fn u16_prop(props: &Vec<TiledProperty>, name: &str) -> (r: Result<Option<u16>, String>)
    ensures
        match u16_prop_of(props@, name@) {
            Ok(v) => r == Ok::<Option<u16>, String>(v),
            Err(e) => r matches Err(m) && m@ == e,
        },
{
    match property_position(props, name) {
        None => Ok(None),
        Some(i) => match &props[i].value {
            PropValue::Number(n) => match n {
                Some(v) => if *v <= 65535 {
                    Ok(Some(*v as u16))
                } else {
                    let mut m = String::new();
                    append_str(&mut m, "property '");
                    append_str(&mut m, name);
                    append_str(&mut m, "' out of range");
                    Err(m)
                },
                None => {
                    let mut m = String::new();
                    append_str(&mut m, "property '");
                    append_str(&mut m, name);
                    append_str(&mut m, "' out of range");
                    Err(m)
                },
            },
            _ => Err(wrong_type_message(name, "an integer", &props[i].text)),
        },
    }
}


// ---------------------------------------------------------------------------
// Successors

/// `s` cut at every `sep` (`str::split`).
pub open spec fn split_on(s: Seq<char>, sep: char) -> Seq<Seq<char>>
    decreases s.len(),
{
    if s.len() == 0 {
        seq![Seq::empty()]
    } else {
        let parts = split_on(s.drop_last(), sep);
        if s.last() == sep {
            parts.push(Seq::empty())
        } else {
            parts.update(parts.len() - 1, parts.last().push(s.last()))
        }
    }
}

proof fn lemma_split_on_len(s: Seq<char>, sep: char)
    ensures
        split_on(s, sep).len() >= 1,
    decreases s.len(),
{
    if s.len() > 0 {
        lemma_split_on_len(s.drop_last(), sep);
    }
}

/// The trimmed parts that are not empty, in order.
pub open spec fn nonempty_trimmed(parts: Seq<Seq<char>>) -> Seq<Seq<char>>
    decreases parts.len(),
{
    if parts.len() == 0 {
        Seq::empty()
    } else {
        let prev = nonempty_trimmed(parts.drop_last());
        if trim(parts.last()).len() > 0 {
            prev.push(trim(parts.last()))
        } else {
            prev
        }
    }
}

/// The successor list of a comma-separated property: each entry trimmed,
/// empty entries dropped.
pub open spec fn successor_list(s: Seq<char>) -> Seq<Seq<char>> {
    nonempty_trimmed(split_on(s, ','))
}

/// Appends the trimmed `part` to `out` unless it is empty.
fn push_trimmed(out: &mut Vec<String>, part: &Vec<char>)
    ensures
        views(final(out)@) == if trim(part@).len() > 0 {
            views(old(out)@).push(trim(part@))
        } else {
            views(old(out)@)
        },
{
    let t = trim_chars(part);
    if t.len() > 0 {
        let ghost before = out@;
        out.push(string_of(&t));
        assert(views(out@) =~= views(before).push(trim(part@)));
    }
}

/// The successor list of a comma-separated property.
pub fn split_successors(raw: &str) -> (out: Vec<String>)
    ensures
        views(out@) == successor_list(raw@),
{
    let chars = chars_of(raw);
    let mut out: Vec<String> = Vec::new();
    let mut current: Vec<char> = Vec::new();
    let mut i: usize = 0;
    proof {
        assert(chars@.take(0) =~= Seq::<char>::empty());
    }
    while i < chars.len()
        invariant
            chars@ == raw@,
            i <= chars@.len(),
            split_on(chars@.take(i as int), ',').len() >= 1,
            current@ == split_on(chars@.take(i as int), ',').last(),
            views(out@) == nonempty_trimmed(split_on(chars@.take(i as int), ',').drop_last()),
        decreases chars.len() - i,
    {
        let c = chars[i];
        let ghost parts = split_on(chars@.take(i as int), ',');
        assert(chars@.take(i + 1).drop_last() == chars@.take(i as int));
        assert(chars@.take(i + 1).last() == c);
        if c == ',' {
            push_trimmed(&mut out, &current);
            current = Vec::new();
            assert(split_on(chars@.take(i + 1), ',') == parts.push(Seq::empty()));
            assert(parts.push(Seq::<char>::empty()).drop_last() == parts);
            assert(parts.drop_last().push(parts.last()) == parts);
            assert(current@ =~= Seq::<char>::empty());
        } else {
            current.push(c);
            let ghost next = parts.update(parts.len() - 1, parts.last().push(c));
            assert(split_on(chars@.take(i + 1), ',') == next);
            assert(next.drop_last() =~= parts.drop_last());
        }
        i = i + 1;
    }
    proof {
        assert(chars@.take(chars@.len() as int) == raw@);
        let parts = split_on(raw@, ',');
        assert(parts.drop_last().push(parts.last()) == parts);
    }
    push_trimmed(&mut out, &current);
    out
}

/// ASCII lowercase of one character.
pub open spec fn ascii_lower(c: char) -> char {
    if 'A' <= c <= 'Z' {
        ((c as u32) + 32) as char
    } else {
        c
    }
}

/// Equality up to ASCII case (`str::eq_ignore_ascii_case`).
pub open spec fn same_ignoring_ascii_case(a: Seq<char>, b: Seq<char>) -> bool {
    a.len() == b.len() && forall|i: int| 0 <= i < a.len() ==> ascii_lower(#[trigger] a[i]) == ascii_lower(b[i])
}

fn ascii_lower_char(c: char) -> (d: char)
    ensures
        d == ascii_lower(c),
{
    if 'A' <= c && c <= 'Z' {
        let v: u8 = c as u8;
        (v + 32) as char
    } else {
        c
    }
}

fn eq_ignore_ascii_case(a: &str, b: &str) -> (r: bool)
    ensures
        r == same_ignoring_ascii_case(a@, b@),
{
    let x = chars_of(a);
    let y = chars_of(b);
    if x.len() != y.len() {
        return false;
    }
    let mut i: usize = 0;
    while i < x.len()
        invariant
            x@ == a@,
            y@ == b@,
            x@.len() == y@.len(),
            i <= x@.len(),
            forall|j: int| 0 <= j < i ==> ascii_lower(#[trigger] x@[j]) == ascii_lower(y@[j]),
        decreases x.len() - i,
    {
        if ascii_lower_char(x[i]) != ascii_lower_char(y[i]) {
            return false;
        }
        i = i + 1;
    }
    true
}

/// The message for a level listing itself as a successor.
pub open spec fn self_successor(slug: Seq<char>) -> Seq<char> {
    "level '"@ + slug + "' lists itself as a successor"@
}

/// The message for a successor listed twice.
pub open spec fn duplicate_successor(slug: Seq<char>, successor: Seq<char>) -> Seq<char> {
    "level '"@ + slug + "' lists successor '"@ + successor + "' twice"@
}

/// The first problem with the successor list, in list order: an entry that
/// is not a UUID, the level itself, or an entry equal (up to case) to an
/// earlier one.
pub open spec fn successor_error(succs: Seq<Seq<char>>, id: Seq<char>, slug: Seq<char>) -> Option<Seq<char>>
    decreases succs.len(),
{
    if succs.len() == 0 {
        None
    } else {
        match successor_error(succs.drop_last(), id, slug) {
            Some(e) => Some(e),
            None => {
                let s = succs.last();
                if !is_canonical_uuid(s) {
                    Some(invalid_uuid_message("successor"@, s))
                } else if same_ignoring_ascii_case(s, id) {
                    Some(self_successor(slug))
                } else if exists|j: int| 0 <= j < succs.len() - 1 && same_ignoring_ascii_case(#[trigger] succs[j], s) {
                    Some(duplicate_successor(slug, s))
                } else {
                    None
                }
            },
        }
    }
}

pub(crate) fn check_successors(succs: &Vec<String>, id: &String, slug: &String) -> (r: Result<(), String>)
    ensures
        match successor_error(views(succs@), id@, slug@) {
            None => r is Ok,
            Some(e) => r matches Err(m) && m@ == e,
        },
{
    let ghost all = views(succs@);
    let mut i: usize = 0;
    while i < succs.len()
        invariant
            i <= succs@.len(),
            all == views(succs@),
            successor_error(all.take(i as int), id@, slug@) is None,
        decreases succs.len() - i,
    {
        let s = &succs[i];
        let ghost pre = all.take(i as int);
        assert(all.take(i + 1).drop_last() == pre);
        assert(all.take(i + 1).last() == s@);
        match validate_uuid(s.as_str(), "successor") {
            Ok(()) => {},
            Err(m) => {
                proof { lemma_successor_error_prefix(all, id@, slug@, i + 1); }
                return Err(m);
            },
        }
        if eq_ignore_ascii_case(s.as_str(), id.as_str()) {
            let mut m = String::new();
            append_str(&mut m, "level '");
            append_str(&mut m, slug.as_str());
            append_str(&mut m, "' lists itself as a successor");
            proof { lemma_successor_error_prefix(all, id@, slug@, i + 1); }
            return Err(m);
        }
        let mut j: usize = 0;
        while j < i
            invariant
                j <= i < succs@.len(),
                all == views(succs@),
                s@ == all[i as int],
                is_canonical_uuid(s@),
                !same_ignoring_ascii_case(s@, id@),
                successor_error(all.take(i as int), id@, slug@) is None,
                all.take(i + 1).drop_last() == all.take(i as int),
                all.take(i + 1).last() == s@,
                forall|k: int| 0 <= k < j ==> !same_ignoring_ascii_case(#[trigger] all.take(i + 1)[k], s@),
            decreases i - j,
        {
            if eq_ignore_ascii_case(succs[j].as_str(), s.as_str()) {
                let mut m = String::new();
                append_str(&mut m, "level '");
                append_str(&mut m, slug.as_str());
                append_str(&mut m, "' lists successor '");
                append_str(&mut m, s.as_str());
                append_str(&mut m, "' twice");
                proof {
                    assert(all.take(i + 1)[j as int] == all[j as int]);
                    assert(all[j as int] == succs@[j as int]@);
                    assert(same_ignoring_ascii_case(all.take(i + 1)[j as int], s@));
                    lemma_successor_error_prefix(all, id@, slug@, i + 1);
                }
                return Err(m);
            }
            assert(all.take(i + 1)[j as int] == all[j as int]);
            j = j + 1;
        }
        i = i + 1;
    }
    proof {
        assert(all.take(all.len() as int) == all);
    }
    Ok(())
}

/// The first problem of a list is the first problem of any longer list.
proof fn lemma_successor_error_prefix(all: Seq<Seq<char>>, id: Seq<char>, slug: Seq<char>, n: int)
    requires
        0 <= n <= all.len(),
    ensures
        successor_error(all.take(n), id, slug) is Some ==> successor_error(all, id, slug) == successor_error(
            all.take(n),
            id,
            slug,
        ),
    decreases all.len() - n,
{
    if n < all.len() {
        lemma_successor_error_prefix(all, id, slug, n + 1);
        assert(all.take(n + 1).drop_last() == all.take(n));
    } else {
        assert(all.take(n) == all);
    }
}

// ---------------------------------------------------------------------------
// Tiles and layers

/// The tile id of one gid of layer `name` at position `index`: empty for
/// gid 0, else the gid less the tileset's first gid, which must be a known
/// tile id. Gids with flip or rotation flags are refused.
pub open spec fn tile_of(name: Seq<char>, index: int, gid: u32, firstgid: u32, ids: TileIds) -> Result<u8, Seq<char>> {
    if gid >= 0x1000_0000 {
        Err("layer '"@ + name + "' tile "@ + decimal(index as nat) + " uses unsupported flip/rotation flags"@)
    } else if gid == 0 {
        Ok(ids.empty)
    } else if gid < firstgid {
        Err("layer '"@ + name + "' tile "@ + decimal(index as nat) + " gid "@ + decimal(gid as nat)
            + " below firstgid"@)
    } else if gid - firstgid > ids.max {
        Err("layer '"@ + name + "' tile "@ + decimal(index as nat) + " has unknown tile id "@ + decimal(
            (gid - firstgid) as nat,
        ))
    } else {
        Ok((gid - firstgid) as u8)
    }
}

/// The tile ids of a layer's gids, or the problem with the first bad gid.
pub open spec fn tiles_of(name: Seq<char>, data: Seq<u32>, firstgid: u32, ids: TileIds) -> Result<Seq<u8>, Seq<char>>
    decreases data.len(),
{
    if data.len() == 0 {
        Ok(Seq::empty())
    } else {
        match tiles_of(name, data.drop_last(), firstgid, ids) {
            Err(e) => Err(e),
            Ok(t) => match tile_of(name, data.len() - 1, data.last(), firstgid, ids) {
                Err(e) => Err(e),
                Ok(x) => Ok(t.push(x)),
            },
        }
    }
}

fn layer_message(name: &str, middle: &str) -> (m: String)
    ensures
        m@ == "layer '"@ + name@ + middle@,
{
    let mut m = String::new();
    append_str(&mut m, "layer '");
    append_str(&mut m, name);
    append_str(&mut m, middle);
    m
}

fn tile_id(name: &str, index: usize, gid: u32, firstgid: u32, ids: &TileIds) -> (r: Result<u8, String>)
    ensures
        match tile_of(name@, index as int, gid, firstgid, *ids) {
            Ok(t) => r == Ok::<u8, String>(t),
            Err(e) => r matches Err(m) && m@ == e,
        },
{
    assert((gid & 0xf000_0000u32 != 0) == (gid >= 0x1000_0000u32)) by (bit_vector);
    if gid & FLIP_FLAGS != 0 {
        let mut m = layer_message(name, "' tile ");
        push_decimal(&mut m, index as u128);
        append_str(&mut m, " uses unsupported flip/rotation flags");
        return Err(m);
    }
    if gid == 0 {
        return Ok(ids.empty);
    }
    if gid < firstgid {
        let mut m = layer_message(name, "' tile ");
        push_decimal(&mut m, index as u128);
        append_str(&mut m, " gid ");
        push_decimal(&mut m, gid as u128);
        append_str(&mut m, " below firstgid");
        return Err(m);
    }
    let local = gid - firstgid;
    if local > ids.max as u32 {
        let mut m = layer_message(name, "' tile ");
        push_decimal(&mut m, index as u128);
        append_str(&mut m, " has unknown tile id ");
        push_decimal(&mut m, local as u128);
        return Err(m);
    }
    Ok(local as u8)
}

fn tile_ids(name: &str, data: &Vec<u32>, firstgid: u32, ids: &TileIds) -> (r: Result<Vec<u8>, String>)
    ensures
        match tiles_of(name@, data@, firstgid, *ids) {
            Ok(t) => r matches Ok(v) && v@ == t,
            Err(e) => r matches Err(m) && m@ == e,
        },
{
    let mut tiles: Vec<u8> = Vec::new();
    let mut i: usize = 0;
    while i < data.len()
        invariant
            i <= data@.len(),
            tiles_of(name@, data@.take(i as int), firstgid, *ids) == Ok::<Seq<u8>, Seq<char>>(tiles@),
        decreases data.len() - i,
    {
        assert(data@.take(i + 1).drop_last() == data@.take(i as int));
        assert(data@.take(i + 1).last() == data@[i as int]);
        match tile_id(name, i, data[i], firstgid, ids) {
            Ok(t) => tiles.push(t),
            Err(m) => {
                proof { lemma_tiles_of_prefix(name@, data@, firstgid, *ids, i + 1); }
                return Err(m);
            },
        }
        i = i + 1;
    }
    proof {
        assert(data@.take(data@.len() as int) == data@);
    }
    Ok(tiles)
}

/// A failure on a prefix of the gids is the failure of the whole layer.
proof fn lemma_tiles_of_prefix(name: Seq<char>, data: Seq<u32>, firstgid: u32, ids: TileIds, n: int)
    requires
        0 <= n <= data.len(),
    ensures
        tiles_of(name, data.take(n), firstgid, ids) is Err ==> tiles_of(name, data, firstgid, ids) == tiles_of(
            name,
            data.take(n),
            firstgid,
            ids,
        ),
    decreases data.len() - n,
{
    if n < data.len() {
        lemma_tiles_of_prefix(name, data, firstgid, ids, n + 1);
        assert(data.take(n + 1).drop_last() == data.take(n));
    } else {
        assert(data.take(n) == data);
    }
}

/// The role a layer at depth `z` must declare.
pub open spec fn expected_role(z: u8, gameplay_z: u8) -> Seq<char> {
    if z == gameplay_z {
        "gameplay"@
    } else {
        "visual"@
    }
}

/// A checked layer, or the first problem with it: its type, its `z`
/// property and the `role` that must agree with it, its size and tile
/// count, its gids, and its cell-size properties.
pub open spec fn layer_of(layer: TiledLayer, firstgid: u32, tilewidth: u16, tileheight: u16, ids: TileIds, gameplay_z: u8) -> Result<
    TileLayerView,
    Seq<char>,
> {
    let name = layer.name@;
    let props = layer.properties@;
    if layer.kind@ != "tilelayer"@ {
        Err("layer '"@ + name + "' has unsupported type '"@ + layer.kind@ + "'; only tile layers are allowed"@)
    } else {
        match u16_prop_of(props, "z"@) {
            Err(e) => Err(e),
            Ok(None) => Err("layer '"@ + name + "' is missing the 'z' int property"@),
            Ok(Some(zv)) => if zv > 255 {
                Err("layer '"@ + name + "' z "@ + decimal(zv as nat) + " is out of 0..=255"@)
            } else {
                let z = zv as u8;
                match string_prop_of(props, "role"@) {
                    Err(e) => Err(e),
                    Ok(role) => if role matches Some(r) && r != expected_role(z, gameplay_z) {
                        Err("layer '"@ + name + "' role '"@ + role->0 + "' contradicts z "@ + decimal(z as nat)
                            + " (expected '"@ + expected_role(z, gameplay_z) + "')"@)
                    } else if layer.width == 0 || layer.height == 0 {
                        Err("layer '"@ + name + "' has zero dimensions"@)
                    } else if layer.data@.len() != layer.width * layer.height {
                        Err("layer '"@ + name + "' has "@ + decimal(layer.data@.len()) + " tiles, expected "@
                            + decimal((layer.width * layer.height) as nat))
                    } else {
                        match tiles_of(name, layer.data@, firstgid, ids) {
                            Err(e) => Err(e),
                            Ok(tiles) => match u16_prop_of(props, "cell_width"@) {
                                Err(e) => Err(e),
                                Ok(cw) => match u16_prop_of(props, "cell_height"@) {
                                    Err(e) => Err(e),
                                    Ok(ch) => Ok(
                                        TileLayerView {
                                            z,
                                            width: layer.width,
                                            height: layer.height,
                                            cell_width: match cw {
                                                Some(w) => w,
                                                None => tilewidth,
                                            },
                                            cell_height: match ch {
                                                Some(h) => h,
                                                None => tileheight,
                                            },
                                            tiles,
                                        },
                                    ),
                                },
                            },
                        }
                    },
                }
            },
        }
    }
}

fn check_layer(layer: &TiledLayer, firstgid: u32, tilewidth: u16, tileheight: u16, ids: &TileIds, gameplay_z: u8) -> (r: Result<TileLayer, String>)
    ensures
        match layer_of(*layer, firstgid, tilewidth, tileheight, *ids, gameplay_z) {
            Ok(v) => r matches Ok(l) && l@ == v,
            Err(e) => r matches Err(m) && m@ == e,
        },
{
    let name = layer.name.as_str();
    if !same_text(layer.kind.as_str(), "tilelayer") {
        let mut m = layer_message(name, "' has unsupported type '");
        append_str(&mut m, layer.kind.as_str());
        append_str(&mut m, "'; only tile layers are allowed");
        return Err(m);
    }
    let z_value = match u16_prop(&layer.properties, "z") {
        Err(m) => return Err(m),
        Ok(None) => return Err(layer_message(name, "' is missing the 'z' int property")),
        Ok(Some(v)) => v,
    };
    if z_value > 255 {
        let mut m = layer_message(name, "' z ");
        push_decimal(&mut m, z_value as u128);
        append_str(&mut m, " is out of 0..=255");
        return Err(m);
    }
    let z = z_value as u8;
    match string_prop(&layer.properties, "role") {
        Err(m) => return Err(m),
        Ok(Some(role)) => {
            let expected = if z == gameplay_z {
                "gameplay"
            } else {
                "visual"
            };
            if !same_text(role.as_str(), expected) {
                let mut m = layer_message(name, "' role '");
                append_str(&mut m, role.as_str());
                append_str(&mut m, "' contradicts z ");
                push_decimal(&mut m, z as u128);
                append_str(&mut m, " (expected '");
                append_str(&mut m, expected);
                append_str(&mut m, "')");
                return Err(m);
            }
        },
        Ok(None) => {},
    }
    if layer.width == 0 || layer.height == 0 {
        return Err(layer_message(name, "' has zero dimensions"));
    }
    let w = layer.width as usize;
    let h = layer.height as usize;
    assert(w * h <= 65535 * 65535) by (nonlinear_arith)
        requires
            w <= 65535,
            h <= 65535,
    ;
    let expected_len = w * h;
    if layer.data.len() != expected_len {
        let mut m = layer_message(name, "' has ");
        push_decimal(&mut m, layer.data.len() as u128);
        append_str(&mut m, " tiles, expected ");
        push_decimal(&mut m, expected_len as u128);
        return Err(m);
    }
    let tiles = match tile_ids(name, &layer.data, firstgid, ids) {
        Err(m) => return Err(m),
        Ok(t) => t,
    };
    let cell_width = match u16_prop(&layer.properties, "cell_width") {
        Err(m) => return Err(m),
        Ok(Some(w)) => w,
        Ok(None) => tilewidth,
    };
    let cell_height = match u16_prop(&layer.properties, "cell_height") {
        Err(m) => return Err(m),
        Ok(Some(h)) => h,
        Ok(None) => tileheight,
    };
    Ok(TileLayer { z, width: layer.width, height: layer.height, cell_width, cell_height, tiles })
}

/// The checked layers, in order, or the problem with the first bad one.
pub open spec fn layers_of(layers: Seq<TiledLayer>, firstgid: u32, tilewidth: u16, tileheight: u16, ids: TileIds, gameplay_z: u8) -> Result<
    Seq<TileLayerView>,
    Seq<char>,
>
    decreases layers.len(),
{
    if layers.len() == 0 {
        Ok(Seq::empty())
    } else {
        match layers_of(layers.drop_last(), firstgid, tilewidth, tileheight, ids, gameplay_z) {
            Err(e) => Err(e),
            Ok(done) => match layer_of(layers.last(), firstgid, tilewidth, tileheight, ids, gameplay_z) {
                Err(e) => Err(e),
                Ok(l) => Ok(done.push(l)),
            },
        }
    }
}

proof fn lemma_layers_of_prefix(layers: Seq<TiledLayer>, firstgid: u32, tilewidth: u16, tileheight: u16, ids: TileIds, gameplay_z: u8, n: int)
    requires
        0 <= n <= layers.len(),
    ensures
        layers_of(layers.take(n), firstgid, tilewidth, tileheight, ids, gameplay_z) is Err ==> layers_of(
            layers,
            firstgid,
            tilewidth,
            tileheight,
            ids,
            gameplay_z,
        ) == layers_of(layers.take(n), firstgid, tilewidth, tileheight, ids, gameplay_z),
    decreases layers.len() - n,
{
    if n < layers.len() {
        lemma_layers_of_prefix(layers, firstgid, tilewidth, tileheight, ids, gameplay_z, n + 1);
        assert(layers.take(n + 1).drop_last() == layers.take(n));
    } else {
        assert(layers.take(n) == layers);
    }
}

fn check_layers(map: &TiledMap, firstgid: u32, ids: &TileIds, gameplay_z: u8) -> (r: Result<Vec<TileLayer>, String>)
    ensures
        match layers_of(map.layers@, firstgid, map.tilewidth, map.tileheight, *ids, gameplay_z) {
            Ok(v) => r matches Ok(l) && layer_views(l@) == v,
            Err(e) => r matches Err(m) && m@ == e,
        },
{
    let ghost all = map.layers@;
    let mut out: Vec<TileLayer> = Vec::new();
    let mut i: usize = 0;
    proof {
        assert(all.take(0) =~= Seq::<TiledLayer>::empty());
        assert(layer_views(out@) =~= Seq::<TileLayerView>::empty());
    }
    while i < map.layers.len()
        invariant
            i <= all.len(),
            all == map.layers@,
            layers_of(all.take(i as int), firstgid, map.tilewidth, map.tileheight, *ids, gameplay_z)
                == Ok::<Seq<TileLayerView>, Seq<char>>(layer_views(out@)),
        decreases map.layers.len() - i,
    {
        assert(all.take(i + 1).drop_last() == all.take(i as int));
        assert(all.take(i + 1).last() == all[i as int]);
        match check_layer(&map.layers[i], firstgid, map.tilewidth, map.tileheight, ids, gameplay_z) {
            Ok(l) => {
                let ghost before = out@;
                out.push(l);
                assert(layer_views(out@) =~= layer_views(before).push(out@.last()@));
            },
            Err(m) => {
                proof {
                    lemma_layers_of_prefix(all, firstgid, map.tilewidth, map.tileheight, *ids, gameplay_z, i + 1);
                }
                return Err(m);
            },
        }
        i = i + 1;
    }
    proof {
        assert(all.take(all.len() as int) == all);
    }
    Ok(out)
}

// ---------------------------------------------------------------------------
// The map

/// The first gid of the map's only tileset, once the map is an orthogonal,
/// finite Tiled map.
pub open spec fn first_gid(map: TiledMap) -> Result<u32, Seq<char>> {
    if map.kind@ != "map"@ {
        Err("expected a Tiled map, got type '"@ + map.kind@ + "'"@)
    } else if map.orientation@ != "orthogonal"@ {
        Err("unsupported orientation '"@ + map.orientation@ + "'"@)
    } else if map.infinite {
        Err("infinite maps are not supported"@)
    } else if map.tilesets@.len() == 1 {
        Ok(map.tilesets@[0].firstgid)
    } else if map.tilesets@.len() == 0 {
        Err("map has no tileset"@)
    } else {
        Err("map must use exactly one tileset"@)
    }
}

fn check_map(map: &TiledMap) -> (r: Result<u32, String>)
    ensures
        match first_gid(*map) {
            Ok(g) => r == Ok::<u32, String>(g),
            Err(e) => r matches Err(m) && m@ == e,
        },
{
    if !same_text(map.kind.as_str(), "map") {
        let mut m = String::new();
        append_str(&mut m, "expected a Tiled map, got type '");
        append_str(&mut m, map.kind.as_str());
        append_str(&mut m, "'");
        return Err(m);
    }
    if !same_text(map.orientation.as_str(), "orthogonal") {
        let mut m = String::new();
        append_str(&mut m, "unsupported orientation '");
        append_str(&mut m, map.orientation.as_str());
        append_str(&mut m, "'");
        return Err(m);
    }
    if map.infinite {
        return Err("infinite maps are not supported".to_string());
    }
    if map.tilesets.len() == 1 {
        Ok(map.tilesets[0].firstgid)
    } else if map.tilesets.len() == 0 {
        Err("map has no tileset".to_string())
    } else {
        Err("map must use exactly one tileset".to_string())
    }
}

/// The message for a missing or empty required string property.
pub open spec fn missing_prop(name: Seq<char>) -> Seq<char> {
    "map is missing the '"@ + name + "' string property"@
}

/// A required, non-empty string property.
pub open spec fn required_prop_of(props: Seq<TiledProperty>, name: Seq<char>) -> Result<Seq<char>, Seq<char>> {
    match string_prop_of(props, name) {
        Err(e) => Err(e),
        Ok(Some(s)) => if s.len() > 0 {
            Ok(s)
        } else {
            Err(missing_prop(name))
        },
        Ok(None) => Err(missing_prop(name)),
    }
}

fn required_prop(props: &Vec<TiledProperty>, name: &str) -> (r: Result<String, String>)
    ensures
        match required_prop_of(props@, name@) {
            Ok(s) => r matches Ok(x) && x@ == s,
            Err(e) => r matches Err(m) && m@ == e,
        },
{
    match string_prop(props, name) {
        Err(m) => Err(m),
        Ok(Some(s)) => if !s.as_str().is_empty() {
            Ok(s)
        } else {
            Err(missing_prop_message(name))
        },
        Ok(None) => Err(missing_prop_message(name)),
    }
}

fn missing_prop_message(name: &str) -> (m: String)
    ensures
        m@ == missing_prop(name@),
{
    let mut m = String::new();
    append_str(&mut m, "map is missing the '");
    append_str(&mut m, name);
    append_str(&mut m, "' string property");
    m
}

/// The optional reward lootbox: absent or empty means none, anything else
/// must be a UUID.
pub open spec fn reward_of(props: Seq<TiledProperty>) -> Result<Option<Seq<char>>, Seq<char>> {
    match string_prop_of(props, "reward_lootbox_id"@) {
        Err(e) => Err(e),
        Ok(Some(r)) => if r.len() == 0 {
            Ok(None)
        } else if is_canonical_uuid(r) {
            Ok(Some(r))
        } else {
            Err(invalid_uuid_message("reward_lootbox_id"@, r))
        },
        Ok(None) => Ok(None),
    }
}

/// The importable level an authored Tiled map describes, or the first
/// problem with it: the map shape, the `id` (a UUID), `slug` and `name`
/// properties, the `starting` and `active` flags (default off and on), the
/// optional reward lootbox, the successor list, and every layer.
pub open spec fn tiled_level(map: TiledMap, ids: TileIds, gameplay_z: u8) -> Result<ImportedLevelView, Seq<char>> {
    let props = map.properties@;
    match first_gid(map) {
        Err(e) => Err(e),
        Ok(firstgid) => match required_prop_of(props, "id"@) {
            Err(e) => Err(e),
            Ok(id) => if !is_canonical_uuid(id) {
                Err(invalid_uuid_message("level id"@, id))
            } else {
                match required_prop_of(props, "slug"@) {
                    Err(e) => Err(e),
                    Ok(slug) => match required_prop_of(props, "name"@) {
                        Err(e) => Err(e),
                        Ok(name) => match bool_prop_of(props, "starting"@) {
                            Err(e) => Err(e),
                            Ok(starting) => match bool_prop_of(props, "active"@) {
                                Err(e) => Err(e),
                                Ok(active) => match reward_of(props) {
                                    Err(e) => Err(e),
                                    Ok(reward) => match string_prop_of(props, "successors"@) {
                                        Err(e) => Err(e),
                                        Ok(raw) => {
                                            let succs = successor_list(
                                                match raw {
                                                    Some(r) => r,
                                                    None => Seq::empty(),
                                                },
                                            );
                                            match successor_error(succs, id, slug) {
                                                Some(e) => Err(e),
                                                None => match layers_of(
                                                    map.layers@,
                                                    firstgid,
                                                    map.tilewidth,
                                                    map.tileheight,
                                                    ids,
                                                    gameplay_z,
                                                ) {
                                                    Err(e) => Err(e),
                                                    Ok(layers) => Ok(
                                                        ImportedLevelView {
                                                            id,
                                                            slug,
                                                            name,
                                                            is_starting: match starting {
                                                                Some(b) => b,
                                                                None => false,
                                                            },
                                                            active: match active {
                                                                Some(b) => b,
                                                                None => true,
                                                            },
                                                            reward_lootbox_id: reward,
                                                            successors: succs,
                                                            layers,
                                                        },
                                                    ),
                                                },
                                            }
                                        },
                                    },
                                },
                            },
                        },
                    },
                }
            },
        },
    }
}

/// The result of a level check as a mathematical value.
pub open spec fn level_result(r: Result<ImportedLevel, String>) -> Result<ImportedLevelView, Seq<char>> {
    match r {
        Ok(l) => Ok(l@),
        Err(m) => Err(m@),
    }
}

/// Check one authored Tiled map and convert it into an importable level.
/// `ids` are the level format's tile ids and `gameplay_z` the depth of its
/// gameplay layer; the shared whole-level layer checks come after this.
pub fn parse_level(map: &TiledMap, ids: &TileIds, gameplay_z: u8) -> (res: Result<ImportedLevel, String>)
    ensures
        level_result(res) == tiled_level(*map, *ids, gameplay_z),
{
    let firstgid = check_map(map)?;
    let id = required_prop(&map.properties, "id")?;
    validate_uuid(id.as_str(), "level id")?;
    let slug = required_prop(&map.properties, "slug")?;
    let name = required_prop(&map.properties, "name")?;
    let starting = bool_prop(&map.properties, "starting")?;
    let is_starting = match starting {
        Some(b) => b,
        None => false,
    };
    let active_prop = bool_prop(&map.properties, "active")?;
    let active = match active_prop {
        Some(b) => b,
        None => true,
    };
    let reward_lootbox_id = match string_prop(&map.properties, "reward_lootbox_id")? {
        Some(r) => if r.as_str().is_empty() {
            None
        } else {
            validate_uuid(r.as_str(), "reward_lootbox_id")?;
            Some(r)
        },
        None => None,
    };
    let raw = string_prop(&map.properties, "successors")?;
    let successors = match raw {
        Some(r) => split_successors(r.as_str()),
        None => split_successors(""),
    };
    proof {
        reveal_strlit("");
    }
    check_successors(&successors, &id, &slug)?;
    let layers = check_layers(map, firstgid, ids, gameplay_z)?;
    let level = ImportedLevel {
        id,
        slug,
        name,
        is_starting,
        active,
        reward_lootbox_id,
        successors,
        layers,
    };
    Ok(level)
}

} // verus!
