//! Component grids: small ASCII drawings of a component, one character per
//! cell, parsed into tile ids, and the cell queries the renderer asks.

use crate::text::{append_str, chars_of, decimal, push_decimal};
use crate::tiles::TileIds;
use vstd::prelude::*;

verus! {

/// A parsed component grid, row-major.
#[derive(Debug)]
pub struct ComponentScene {
    pub cell: u32,
    pub cols: u32,
    pub rows: u32,
    pub tiles: Vec<u8>,
    /// Cap sky-facing solid runs with moss. Off for underground fills.
    pub moss_top: bool,
}

/// A component grid as a mathematical value.
pub struct SceneView {
    pub cell: u32,
    pub cols: u32,
    pub rows: u32,
    pub tiles: Seq<u8>,
    pub moss_top: bool,
}

impl View for ComponentScene {
    type V = SceneView;

    open spec fn view(&self) -> SceneView {
        SceneView { cell: self.cell, cols: self.cols, rows: self.rows, tiles: self.tiles@, moss_top: self.moss_top }
    }
}

/// The tile id an authoring character stands for.
pub open spec fn tile_char(c: char, ids: TileIds) -> Option<u8> {
    if c == '.' {
        Some(ids.empty)
    } else if c == '#' {
        Some(ids.solid)
    } else if c == '/' {
        Some(ids.slope_up)
    } else if c == '\\' {
        Some(ids.slope_down)
    } else if c == '^' {
        Some(ids.lethal)
    } else if c == '~' {
        Some(ids.water)
    } else if c == 'f' {
        Some(ids.fire)
    } else if c == 'H' {
        Some(ids.heavy)
    } else if c == 'd' {
        Some(ids.decor)
    } else {
        None
    }
}

/// The message for a character that stands for no tile.
pub open spec fn unknown_tile(c: char) -> Seq<char> {
    "unknown tile character '"@ + seq![c] + "'"@
}

/// Map one authoring character onto a semantic tile id.
pub fn tile_for(ch: char, ids: &TileIds) -> (r: Result<u8, String>)
    ensures
        match tile_char(ch, *ids) {
            Some(t) => r == Ok::<u8, String>(t),
            None => r matches Err(m) && m@ == unknown_tile(ch),
        },
{
    if ch == '.' {
        Ok(ids.empty)
    } else if ch == '#' {
        Ok(ids.solid)
    } else if ch == '/' {
        Ok(ids.slope_up)
    } else if ch == '\\' {
        Ok(ids.slope_down)
    } else if ch == '^' {
        Ok(ids.lethal)
    } else if ch == '~' {
        Ok(ids.water)
    } else if ch == 'f' {
        Ok(ids.fire)
    } else if ch == 'H' {
        Ok(ids.heavy)
    } else if ch == 'd' {
        Ok(ids.decor)
    } else {
        let mut m = String::new();
        append_str(&mut m, "unknown tile character '");
        crate::text::push_char(&mut m, ch);
        append_str(&mut m, "'");
        Err(m)
    }
}

/// The tiles of row `y`, or the first character that stands for no tile.
pub open spec fn row_tiles(row: Seq<char>, y: nat, ids: TileIds) -> Result<Seq<u8>, Seq<char>>
    decreases row.len(),
{
    if row.len() == 0 {
        Ok(Seq::empty())
    } else {
        match row_tiles(row.drop_last(), y, ids) {
            Err(e) => Err(e),
            Ok(t) => match tile_char(row.last(), ids) {
                None => Err("row "@ + decimal(y) + " column "@ + decimal((row.len() - 1) as nat) + ": "@
                    + unknown_tile(row.last())),
                Some(x) => Ok(t.push(x)),
            },
        }
    }
}

/// The tiles of every row, row-major, or the first problem: a row whose
/// length is not `cols`, or a character that stands for no tile.
pub open spec fn rows_tiles(rows: Seq<Seq<char>>, cols: nat, ids: TileIds) -> Result<Seq<u8>, Seq<char>>
    decreases rows.len(),
{
    if rows.len() == 0 {
        Ok(Seq::empty())
    } else {
        match rows_tiles(rows.drop_last(), cols, ids) {
            Err(e) => Err(e),
            Ok(t) => {
                let y = (rows.len() - 1) as nat;
                let row = rows.last();
                if row.len() != cols {
                    Err("row "@ + decimal(y) + " has "@ + decimal(row.len()) + " tiles, expected "@ + decimal(cols))
                } else {
                    match row_tiles(row, y, ids) {
                        Err(e) => Err(e),
                        Ok(r) => Ok(t + r),
                    }
                }
            },
        }
    }
}

/// The grid that ASCII rows describe: as wide as the first row, which must
/// not be empty, with every row that wide.
pub open spec fn scene_of(cell: u32, moss_top: bool, rows: Seq<Seq<char>>, ids: TileIds) -> Result<SceneView, Seq<char>> {
    if rows.len() == 0 {
        Err("component has no rows"@)
    } else if rows[0].len() == 0 {
        Err("component has empty rows"@)
    } else {
        match rows_tiles(rows, rows[0].len(), ids) {
            Err(e) => Err(e),
            Ok(tiles) => Ok(
                SceneView { cell, cols: rows[0].len() as u32, rows: rows.len() as u32, tiles, moss_top },
            ),
        }
    }
}

/// The texts of a sequence of rows.
pub open spec fn row_views(rows: Seq<&str>) -> Seq<Seq<char>> {
    rows.map_values(|r: &str| r@)
}

/// The result of a grid parse as a mathematical value.
pub open spec fn scene_result(r: Result<ComponentScene, String>) -> Result<SceneView, Seq<char>> {
    match r {
        Ok(s) => Ok(s@),
        Err(m) => Err(m@),
    }
}

proof fn lemma_row_tiles_len(row: Seq<char>, y: nat, ids: TileIds)
    ensures
        row_tiles(row, y, ids) matches Ok(t) ==> t.len() == row.len(),
    decreases row.len(),
{
    if row.len() > 0 {
        lemma_row_tiles_len(row.drop_last(), y, ids);
    }
}

fn parse_row(row: &str, y: usize, ids: &TileIds) -> (r: Result<Vec<u8>, String>)
    ensures
        match row_tiles(row@, y as nat, *ids) {
            Ok(t) => r matches Ok(v) && v@ == t,
            Err(e) => r matches Err(m) && m@ == e,
        },
{
    let chars = chars_of(row);
    let mut tiles: Vec<u8> = Vec::new();
    let mut x: usize = 0;
    while x < chars.len()
        invariant
            chars@ == row@,
            x <= chars@.len(),
            row_tiles(chars@.take(x as int), y as nat, *ids) == Ok::<Seq<u8>, Seq<char>>(tiles@),
        decreases chars.len() - x,
    {
        assert(chars@.take(x + 1).drop_last() == chars@.take(x as int));
        assert(chars@.take(x + 1).last() == chars@[x as int]);
        match tile_for(chars[x], ids) {
            Ok(t) => tiles.push(t),
            Err(cause) => {
                let mut m = String::new();
                append_str(&mut m, "row ");
                push_decimal(&mut m, y as u128);
                append_str(&mut m, " column ");
                push_decimal(&mut m, x as u128);
                append_str(&mut m, ": ");
                append_str(&mut m, cause.as_str());
                proof {
                    lemma_row_tiles_prefix(row@, y as nat, *ids, x + 1);
                }
                return Err(m);
            },
        }
        x = x + 1;
    }
    assert(chars@.take(chars@.len() as int) == row@);
    Ok(tiles)
}

proof fn lemma_row_tiles_prefix(row: Seq<char>, y: nat, ids: TileIds, n: int)
    requires
        0 <= n <= row.len(),
    ensures
        row_tiles(row.take(n), y, ids) is Err ==> row_tiles(row, y, ids) == row_tiles(row.take(n), y, ids),
    decreases row.len() - n,
{
    if n < row.len() {
        lemma_row_tiles_prefix(row, y, ids, n + 1);
        assert(row.take(n + 1).drop_last() == row.take(n));
    } else {
        assert(row.take(n) == row);
    }
}

proof fn lemma_rows_tiles_prefix(rows: Seq<Seq<char>>, cols: nat, ids: TileIds, n: int)
    requires
        0 <= n <= rows.len(),
    ensures
        rows_tiles(rows.take(n), cols, ids) is Err ==> rows_tiles(rows, cols, ids) == rows_tiles(
            rows.take(n),
            cols,
            ids,
        ),
    decreases rows.len() - n,
{
    if n < rows.len() {
        lemma_rows_tiles_prefix(rows, cols, ids, n + 1);
        assert(rows.take(n + 1).drop_last() == rows.take(n));
    } else {
        assert(rows.take(n) == rows);
    }
}

proof fn lemma_rows_tiles_len(rows: Seq<Seq<char>>, cols: nat, ids: TileIds)
    ensures
        rows_tiles(rows, cols, ids) matches Ok(t) ==> t.len() == rows.len() * cols,
    decreases rows.len(),
{
    if rows.len() > 0 {
        lemma_rows_tiles_len(rows.drop_last(), cols, ids);
        lemma_row_tiles_len(rows.last(), (rows.len() - 1) as nat, ids);
        assert((rows.len() - 1) * cols + cols == rows.len() * cols) by (nonlinear_arith);
    }
}

/// Parse ASCII rows into a component grid.
pub fn parse_scene(cell: u32, moss_top: bool, rows: &[&str], ids: &TileIds) -> (res: Result<ComponentScene, String>)
    requires
        rows@.len() <= u32::MAX,
        forall|i: int| 0 <= i < rows@.len() ==> (#[trigger] rows@[i])@.len() <= u32::MAX,
    ensures
        scene_result(res) == scene_of(cell, moss_top, row_views(rows@), *ids),
        res matches Ok(s) ==> s.tiles@.len() == s.rows * s.cols,
{
    let ghost all = row_views(rows@);
    if rows.len() == 0 {
        return Err("component has no rows".to_string());
    }
    let first = chars_of(rows[0]);
    assert(all[0] == rows@[0]@);
    if first.len() == 0 {
        return Err("component has empty rows".to_string());
    }
    let cols = first.len();
    let mut tiles: Vec<u8> = Vec::new();
    let mut y: usize = 0;
    proof {
        assert(all.take(0) =~= Seq::<Seq<char>>::empty());
    }
    while y < rows.len()
        invariant
            y <= rows@.len(),
            all == row_views(rows@),
            all.len() == rows@.len(),
            rows@.len() > 0,
            cols > 0,
            cols == all[0].len(),
            rows_tiles(all.take(y as int), cols as nat, *ids) == Ok::<Seq<u8>, Seq<char>>(tiles@),
        decreases rows.len() - y,
    {
        assert(all.take(y + 1).drop_last() == all.take(y as int));
        assert(all.take(y + 1).last() == rows@[y as int]@);
        let row = chars_of(rows[y]);
        if row.len() != cols {
            let mut m = String::new();
            append_str(&mut m, "row ");
            push_decimal(&mut m, y as u128);
            append_str(&mut m, " has ");
            push_decimal(&mut m, row.len() as u128);
            append_str(&mut m, " tiles, expected ");
            push_decimal(&mut m, cols as u128);
            proof {
                lemma_rows_tiles_prefix(all, cols as nat, *ids, y + 1);
            }
            return Err(m);
        }
        match parse_row(rows[y], y, ids) {
            Ok(mut r) => {
                let ghost before = tiles@;
                let ghost rv = r@;
                tiles.append(&mut r);
                assert(tiles@ == before + rv);
            },
            Err(m) => {
                proof {
                    lemma_rows_tiles_prefix(all, cols as nat, *ids, y + 1);
                }
                return Err(m);
            },
        }
        y = y + 1;
    }
    proof {
        assert(all.take(all.len() as int) == all);
        lemma_rows_tiles_len(all, cols as nat, *ids);
        assert(all.len() == rows@.len());
        assert(rows@[0]@.len() <= u32::MAX);
    }
    Ok(ComponentScene { cell, cols: cols as u32, rows: rows.len() as u32, tiles, moss_top })
}

// ---------------------------------------------------------------------------
// Cell queries

/// A borrowed view of a grid's cells.
pub struct Grid<'a> {
    pub tiles: &'a [u8],
    pub cols: u32,
    pub rows: u32,
}

/// Whether a tile id is terrain: solid ground or a slope.
pub open spec fn is_terrain(t: u8, ids: TileIds) -> bool {
    t == ids.solid || t == ids.slope_up || t == ids.slope_down
}

/// Whether cell `(x, y)` of a row-major mask `cols` wide is set; cells
/// outside the row are not.
pub open spec fn lit(mask: Seq<bool>, cols: int, x: int, y: int) -> bool {
    0 <= x < cols && mask[y * cols + x]
}

/// `(start, y, len)` is a maximal run of set cells in row `y`: every cell
/// of it is set and the cells just before and just after it are not.
pub open spec fn maximal_run(mask: Seq<bool>, cols: int, r: (u32, u32, u32)) -> bool {
    &&& r.2 > 0
    &&& r.0 + r.2 <= cols
    &&& forall|x: int| r.0 <= x < r.0 + r.2 ==> #[trigger] lit(mask, cols, x, r.1 as int)
    &&& !lit(mask, cols, r.0 - 1, r.1 as int)
    &&& !lit(mask, cols, r.0 + r.2, r.1 as int)
}

/// Run `a` comes before run `b`: an earlier row, or further left in the
/// same row with a gap between them.
pub open spec fn precedes(a: (u32, u32, u32), b: (u32, u32, u32)) -> bool {
    a.1 < b.1 || (a.1 == b.1 && a.0 + a.2 < b.0)
}

/// Some run of `out` covers cell `(x, y)`.
pub open spec fn covered(out: Seq<(u32, u32, u32)>, x: int, y: int) -> bool {
    exists|k: int| 0 <= k < out.len() && (#[trigger] out[k]).1 == y && out[k].0 <= x < out[k].0 + out[k].2
}

/// `out` lists the maximal runs of set cells of the first `rows` rows, row
/// by row and left to right: each entry is a maximal run, the entries are
/// in order, and every set cell lies in one of them.
pub open spec fn are_runs(out: Seq<(u32, u32, u32)>, mask: Seq<bool>, cols: int, rows: int) -> bool {
    &&& forall|k: int| 0 <= k < out.len() ==> (#[trigger] out[k]).1 < rows && maximal_run(mask, cols, out[k])
    &&& forall|k1: int, k2: int| 0 <= k1 < k2 < out.len() ==> precedes(#[trigger] out[k1], #[trigger] out[k2])
    &&& forall|x: int, y: int| 0 <= y < rows && #[trigger] lit(mask, cols, x, y) ==> covered(out, x, y)
}

proof fn lemma_cell_index(x: int, y: int, cols: int, rows: int)
    requires
        0 <= x < cols,
        0 <= y < rows,
    ensures
        0 <= y * cols + x < rows * cols,
{
    assert(0 <= y * cols) by (nonlinear_arith)
        requires
            0 <= y,
            0 <= cols,
    ;
    assert(y * cols + x < rows * cols) by (nonlinear_arith)
        requires
            0 <= x < cols,
            0 <= y < rows,
    ;
}

impl<'a> Grid<'a> {
    /// The grid holds one tile per cell.
    pub open spec fn wf(&self) -> bool {
        self.tiles@.len() == self.rows * self.cols
    }

    /// The tile at column `x`, row `y`.
    pub fn at(&self, x: u32, y: u32) -> (t: u8)
        requires
            self.wf(),
            x < self.cols,
            y < self.rows,
        ensures
            t == self.tiles@[y * self.cols + x],
    {
        let n = self.tiles.len();
        proof {
            lemma_cell_index(x as int, y as int, self.cols as int, self.rows as int);
        }
        assert(y * self.cols + x < n);
        self.tiles[(y as usize) * (self.cols as usize) + (x as usize)]
    }

    /// Terrain (solid or slope) occupies the cell above, so no moss cap.
    pub fn terrain_above(&self, x: u32, y: u32, ids: &TileIds) -> (b: bool)
        requires
            self.wf(),
            x < self.cols,
            y < self.rows,
        ensures
            b == (y > 0 && is_terrain(self.tiles@[(y - 1) * self.cols + x], *ids)),
    {
        if y == 0 {
            return false;
        }
        let t = self.at(x, y - 1);
        t == ids.solid || t == ids.slope_up || t == ids.slope_down
    }

    /// Which cells hold `tile`, row-major.
    pub fn tile_mask(&self, tile: u8) -> (mask: Vec<bool>)
        requires
            self.wf(),
        ensures
            mask@.len() == self.tiles@.len(),
            forall|i: int| 0 <= i < mask@.len() ==> mask@[i] == (self.tiles@[i] == tile),
    {
        let mut mask: Vec<bool> = Vec::new();
        let mut i: usize = 0;
        while i < self.tiles.len()
            invariant
                i <= self.tiles@.len(),
                mask@.len() == i,
                forall|j: int| 0 <= j < i ==> mask@[j] == (self.tiles@[j] == tile),
            decreases self.tiles.len() - i,
        {
            mask.push(self.tiles[i] == tile);
            i = i + 1;
        }
        mask
    }

    /// Which cells are solid ground open to the sky (no terrain above),
    /// row-major: where moss caps go.
    pub fn moss_mask(&self, ids: &TileIds) -> (mask: Vec<bool>)
        requires
            self.wf(),
        ensures
            mask@.len() == self.tiles@.len(),
            forall|i: int|
                0 <= i < mask@.len() ==> mask@[i] == (self.tiles@[i] == ids.solid && !(i >= self.cols
                    && is_terrain(self.tiles@[i - self.cols], *ids))),
    {
        let cols = self.cols as usize;
        let mut mask: Vec<bool> = Vec::new();
        let mut i: usize = 0;
        while i < self.tiles.len()
            invariant
                i <= self.tiles@.len(),
                cols == self.cols,
                mask@.len() == i,
                forall|j: int|
                    0 <= j < i ==> mask@[j] == (self.tiles@[j] == ids.solid && !(j >= self.cols
                        && is_terrain(self.tiles@[j - self.cols], *ids))),
            decreases self.tiles.len() - i,
        {
            let above = i >= cols && {
                let t = self.tiles[i - cols];
                t == ids.solid || t == ids.slope_up || t == ids.slope_down
            };
            mask.push(self.tiles[i] == ids.solid && !above);
            i = i + 1;
        }
        mask
    }

    /// Horizontal runs `(x, y, len)` of set cells of a row-major mask, row
    /// by row and left to right.
    pub fn runs(&self, mask: &[bool]) -> (out: Vec<(u32, u32, u32)>)
        requires
            mask@.len() == self.rows * self.cols,
        ensures
            are_runs(out@, mask@, self.cols as int, self.rows as int),
    {
        let cols = self.cols;
        let ghost m = mask@;
        let ghost c = cols as int;
        let mut out: Vec<(u32, u32, u32)> = Vec::new();
        let mut y: u32 = 0;
        while y < self.rows
            invariant
                y <= self.rows,
                cols == self.cols,
                m == mask@,
                c == cols as int,
                mask@.len() == self.rows * self.cols,
                are_runs(out@, m, c, y as int),
            decreases self.rows - y,
        {
            let mut start: Option<u32> = None;
            let mut x: u32 = 0;
            while x < cols
                invariant
                    x <= cols,
                    y < self.rows,
                    cols == self.cols,
                    m == mask@,
                    c == cols as int,
                    mask@.len() == self.rows * self.cols,
                    forall|k: int|
                        0 <= k < out@.len() ==> (#[trigger] out@[k]).1 <= y && maximal_run(m, c, out@[k]),
                    forall|k1: int, k2: int|
                        0 <= k1 < k2 < out@.len() ==> precedes(#[trigger] out@[k1], #[trigger] out@[k2]),
                    forall|xx: int, yy: int| 0 <= yy < y && #[trigger] lit(m, c, xx, yy) ==> covered(out@, xx, yy),
                    forall|k: int|
                        0 <= k < out@.len() && (#[trigger] out@[k]).1 == y ==> out@[k].0 + out@[k].2 < x,
                    start matches Some(s) ==> {
                        &&& s < x
                        &&& forall|xx: int| s <= xx < x ==> #[trigger] lit(m, c, xx, y as int)
                        &&& !lit(m, c, s - 1, y as int)
                        &&& forall|k: int|
                            0 <= k < out@.len() && (#[trigger] out@[k]).1 == y ==> out@[k].0 + out@[k].2 < s
                    },
                    start is None ==> x == 0 || !lit(m, c, x - 1, y as int),
                    forall|xx: int|
                        0 <= xx < x && #[trigger] lit(m, c, xx, y as int) ==> covered(out@, xx, y as int) || (
                        start matches Some(s) && s <= xx),
                decreases cols - x,
            {
                let n = mask.len();
                proof {
                    lemma_cell_index(x as int, y as int, c, self.rows as int);
                }
                assert(y * cols + x < n);
                let hit = mask[(y as usize) * (cols as usize) + (x as usize)];
                assert(hit == lit(m, c, x as int, y as int));
                match start {
                    None => {
                        if hit {
                            start = Some(x);
                        }
                    },
                    Some(s) => {
                        if !hit {
                            let ghost before = out@;
                            out.push((s, y, x - s));
                            proof {
                                let r = (s, y, (x - s) as u32);
                                assert(out@[out@.len() - 1] == r);
                                assert forall|k: int| 0 <= k < out@.len() implies (#[trigger] out@[k]).1 <= y
                                    && maximal_run(m, c, out@[k]) by {
                                    if k < before.len() {
                                        assert(out@[k] == before[k]);
                                    }
                                }
                                assert forall|k1: int, k2: int| 0 <= k1 < k2 < out@.len() implies precedes(
                                    #[trigger] out@[k1],
                                    #[trigger] out@[k2],
                                ) by {
                                    assert(out@[k1] == before[k1]);
                                    if k2 < before.len() {
                                        assert(out@[k2] == before[k2]);
                                    }
                                }
                                assert forall|xx: int, yy: int| 0 <= yy < y && #[trigger] lit(m, c, xx, yy) implies covered(
                                    out@,
                                    xx,
                                    yy,
                                ) by {
                                    assert(covered(before, xx, yy));
                                    let k = choose|k: int|
                                        0 <= k < before.len() && (#[trigger] before[k]).1 == yy && before[k].0 <= xx
                                            < before[k].0 + before[k].2;
                                    assert(out@[k] == before[k]);
                                }
                                assert forall|xx: int| 0 <= xx < x + 1 && #[trigger] lit(m, c, xx, y as int) implies covered(
                                    out@,
                                    xx,
                                    y as int,
                                ) by {
                                    if s <= xx {
                                        assert(out@[out@.len() - 1] == r);
                                    } else {
                                        assert(covered(before, xx, y as int));
                                        let k = choose|k: int|
                                            0 <= k < before.len() && (#[trigger] before[k]).1 == y && before[k].0 <= xx
                                                < before[k].0 + before[k].2;
                                        assert(out@[k] == before[k]);
                                    }
                                }
                                assert forall|k: int| 0 <= k < out@.len() && (#[trigger] out@[k]).1 == y implies out@[k].0
                                    + out@[k].2 < x + 1 by {
                                    if k < before.len() {
                                        assert(out@[k] == before[k]);
                                    }
                                }
                            }
                            start = None;
                        }
                    },
                }
                x = x + 1;
            }
            if let Some(s) = start {
                let ghost before = out@;
                out.push((s, y, cols - s));
                proof {
                    let r = (s, y, (cols - s) as u32);
                    assert(out@[out@.len() - 1] == r);
                    assert forall|k: int| 0 <= k < out@.len() implies (#[trigger] out@[k]).1 <= y && maximal_run(
                        m,
                        c,
                        out@[k],
                    ) by {
                        if k < before.len() {
                            assert(out@[k] == before[k]);
                        }
                    }
                    assert forall|k1: int, k2: int| 0 <= k1 < k2 < out@.len() implies precedes(
                        #[trigger] out@[k1],
                        #[trigger] out@[k2],
                    ) by {
                        assert(out@[k1] == before[k1]);
                        if k2 < before.len() {
                            assert(out@[k2] == before[k2]);
                        }
                    }
                    assert forall|xx: int, yy: int| 0 <= yy < y + 1 && #[trigger] lit(m, c, xx, yy) implies covered(
                        out@,
                        xx,
                        yy,
                    ) by {
                        if yy == y && s <= xx {
                            assert(out@[out@.len() - 1] == r);
                        } else {
                            assert(covered(before, xx, yy));
                            let k = choose|k: int|
                                0 <= k < before.len() && (#[trigger] before[k]).1 == yy && before[k].0 <= xx
                                    < before[k].0 + before[k].2;
                            assert(out@[k] == before[k]);
                        }
                    }
                }
            }
            proof {
                assert forall|k: int| 0 <= k < out@.len() implies (#[trigger] out@[k]).1 < y + 1 && maximal_run(
                    m,
                    c,
                    out@[k],
                ) by {}
            }
            y = y + 1;
        }
        out
    }
}

/// The opening tag of a standalone component document.
pub open spec fn svg_open_tag(width_px: u32, height_px: u32) -> Seq<char> {
    "<svg xmlns=\"http://www.w3.org/2000/svg\" width=\""@ + decimal(width_px as nat) + "\" height=\""@
        + decimal(height_px as nat) + "\" viewBox=\"0 0 "@ + decimal(width_px as nat) + " "@ + decimal(
        height_px as nat,
    ) + "\">"@
}

/// Open one standalone component document.
pub fn open_svg(width_px: u32, height_px: u32) -> (svg: String)
    ensures
        svg@ == svg_open_tag(width_px, height_px),
{
    let mut svg = String::new();
    append_str(&mut svg, "<svg xmlns=\"http://www.w3.org/2000/svg\" width=\"");
    push_decimal(&mut svg, width_px as u128);
    append_str(&mut svg, "\" height=\"");
    push_decimal(&mut svg, height_px as u128);
    append_str(&mut svg, "\" viewBox=\"0 0 ");
    push_decimal(&mut svg, width_px as u128);
    append_str(&mut svg, " ");
    push_decimal(&mut svg, height_px as u128);
    append_str(&mut svg, "\">");
    svg
}

impl ComponentScene {
    /// The cell view of this grid.
    pub fn grid(&self) -> (g: Grid<'_>)
        ensures
            g.tiles@ == self.tiles@,
            g.cols == self.cols,
            g.rows == self.rows,
    {
        Grid { tiles: self.tiles.as_slice(), cols: self.cols, rows: self.rows }
    }
}

} // verus!
