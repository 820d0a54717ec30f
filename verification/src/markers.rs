//! The hidden collider markers of a rendered component: merged solid runs,
//! slope triangles, and one rect per hazard or heavy cell, each tagged with
//! its semantic tile id, at `cell` pixels per grid cell.

use crate::scene::{are_runs, covered, lit, maximal_run, precedes, Grid};
use crate::text::{append_str, decimal, push_decimal};
use crate::tiles::TileIds;
use vstd::prelude::*;

verus! {

/// Which cells of `tiles` hold `tile`, row-major.
pub open spec fn mask_of(tiles: Seq<u8>, tile: u8) -> Seq<bool> {
    Seq::new(tiles.len(), |i: int| tiles[i] == tile)
}

/// The marker of the solid run `(x, y, len)`.
pub open spec fn run_marker(r: (u32, u32, u32), solid: u8, cell: nat) -> Seq<char> {
    "<rect data-t=\""@ + decimal(solid as nat) + "\" x=\""@ + decimal((r.0 as nat) * cell) + "\" y=\""@
        + decimal((r.1 as nat) * cell) + "\" width=\""@ + decimal((r.2 as nat) * cell) + "\" height=\""@
        + decimal(cell) + "\"/>"@
}

/// The markers of the solid runs `runs`, in order.
pub open spec fn run_markers(runs: Seq<(u32, u32, u32)>, solid: u8, cell: nat) -> Seq<char>
    decreases runs.len(),
{
    if runs.len() == 0 {
        Seq::empty()
    } else {
        run_markers(runs.drop_last(), solid, cell) + run_marker(runs.last(), solid, cell)
    }
}

/// A point `x,y` of a polygon.
pub open spec fn point(x: nat, y: nat) -> Seq<char> {
    decimal(x) + ","@ + decimal(y)
}

/// The marker of the cell at column `x`, row `y` holding tile `t`: a
/// triangle for a slope, a cell-sized rect for a hazard, water or a heavy
/// block, nothing for any other tile.
pub open spec fn cell_marker(t: u8, x: nat, y: nat, cell: nat, ids: TileIds) -> Seq<char> {
    let x0 = x * cell;
    let y0 = y * cell;
    let x1 = x0 + cell;
    let y1 = y0 + cell;
    let tag = decimal(t as nat);
    if t == ids.slope_up {
        "<polygon data-t=\""@ + tag + "\" points=\""@ + point(x0, y1) + " "@ + point(x1, y1) + " "@ + point(x1, y0)
            + "\"/>"@
    } else if t == ids.slope_down {
        "<polygon data-t=\""@ + tag + "\" points=\""@ + point(x0, y0) + " "@ + point(x1, y1) + " "@ + point(x0, y1)
            + "\"/>"@
    } else if t == ids.lethal || t == ids.water || t == ids.fire || t == ids.heavy {
        "<rect data-t=\""@ + tag + "\" x=\""@ + decimal(x0) + "\" y=\""@ + decimal(y0) + "\" width=\""@ + decimal(cell)
            + "\" height=\""@ + decimal(cell) + "\"/>"@
    } else {
        Seq::empty()
    }
}

/// The markers of the first `k` cells of a row-major grid `cols` wide.
pub open spec fn cell_markers(tiles: Seq<u8>, cols: nat, cell: nat, ids: TileIds, k: nat) -> Seq<char>
    decreases k,
{
    if k == 0 || cols == 0 {
        Seq::empty()
    } else {
        let i = (k - 1) as nat;
        cell_markers(tiles, cols, cell, ids, i) + cell_marker(tiles[i as int], i % cols, i / cols, cell, ids)
    }
}

/// Two maximal runs of one row that share a cell are the same run.
proof fn lemma_overlapping_runs(mask: Seq<bool>, cols: int, a: (u32, u32, u32), b: (u32, u32, u32))
    requires
        maximal_run(mask, cols, a),
        maximal_run(mask, cols, b),
        a.1 == b.1,
        a.0 <= b.0 < a.0 + a.2,
    ensures
        a == b,
{
    if a.0 < b.0 {
        assert(lit(mask, cols, b.0 - 1, a.1 as int));
    }
    if a.2 < b.2 {
        assert(lit(mask, cols, a.0 + a.2, a.1 as int));
    }
    if b.2 < a.2 {
        assert(lit(mask, cols, b.0 + b.2, a.1 as int));
    }
}

/// Every run listed by `a` is listed by `b`.
proof fn lemma_runs_included(
    a: Seq<(u32, u32, u32)>,
    b: Seq<(u32, u32, u32)>,
    mask: Seq<bool>,
    cols: int,
    rows: int,
)
    requires
        are_runs(a, mask, cols, rows),
        are_runs(b, mask, cols, rows),
    ensures
        forall|k: int| 0 <= k < a.len() ==> b.contains(#[trigger] a[k]),
{
    assert forall|k: int| 0 <= k < a.len() implies b.contains(#[trigger] a[k]) by {
        let r = a[k];
        assert(maximal_run(mask, cols, r));
        assert(lit(mask, cols, r.0 as int, r.1 as int));
        assert(covered(b, r.0 as int, r.1 as int));
        let j = choose|j: int|
            0 <= j < b.len() && (#[trigger] b[j]).1 == r.1 && b[j].0 <= r.0 < b[j].0 + b[j].2;
        lemma_overlapping_runs(mask, cols, b[j], r);
    }
}

/// Two lists ordered by `precedes` that hold the same runs are equal.
proof fn lemma_ordered_same(a: Seq<(u32, u32, u32)>, b: Seq<(u32, u32, u32)>)
    requires
        forall|k1: int, k2: int| 0 <= k1 < k2 < a.len() ==> precedes(#[trigger] a[k1], #[trigger] a[k2]),
        forall|k1: int, k2: int| 0 <= k1 < k2 < b.len() ==> precedes(#[trigger] b[k1], #[trigger] b[k2]),
        forall|k: int| 0 <= k < a.len() ==> b.contains(#[trigger] a[k]),
        forall|k: int| 0 <= k < b.len() ==> a.contains(#[trigger] b[k]),
    ensures
        a == b,
    decreases a.len(),
{
    if a.len() == 0 {
        if b.len() > 0 {
            assert(a.contains(b[0]));
        }
        assert(a =~= b);
    } else {
        assert(b.contains(a[0]));
        if b.len() == 0 {
            assert(false);
        }
        assert(a.contains(b[0]));
        let i = choose|i: int| 0 <= i < b.len() && b[i] == a[0];
        let j = choose|j: int| 0 <= j < a.len() && a[j] == b[0];
        if i > 0 {
            assert(precedes(b[0], b[i]));
            if j > 0 {
                assert(precedes(a[0], a[j]));
            }
            assert(false);
        }
        let a1 = a.skip(1);
        let b1 = b.skip(1);
        assert forall|k: int| 0 <= k < a1.len() implies b1.contains(#[trigger] a1[k]) by {
            assert(a1[k] == a[k + 1]);
            assert(b.contains(a[k + 1]));
            let m = choose|m: int| 0 <= m < b.len() && b[m] == a[k + 1];
            assert(precedes(a[0], a[k + 1]));
            assert(m != 0);
            assert(b1[m - 1] == b[m]);
        }
        assert forall|k: int| 0 <= k < b1.len() implies a1.contains(#[trigger] b1[k]) by {
            assert(b1[k] == b[k + 1]);
            assert(a.contains(b[k + 1]));
            let m = choose|m: int| 0 <= m < a.len() && a[m] == b[k + 1];
            assert(precedes(b[0], b[k + 1]));
            assert(m != 0);
            assert(a1[m - 1] == a[m]);
        }
        assert forall|k1: int, k2: int| 0 <= k1 < k2 < a1.len() implies precedes(
            #[trigger] a1[k1],
            #[trigger] a1[k2],
        ) by {
            assert(precedes(a[k1 + 1], a[k2 + 1]));
        }
        assert forall|k1: int, k2: int| 0 <= k1 < k2 < b1.len() implies precedes(
            #[trigger] b1[k1],
            #[trigger] b1[k2],
        ) by {
            assert(precedes(b[k1 + 1], b[k2 + 1]));
        }
        lemma_ordered_same(a1, b1);
        assert(a =~= seq![a[0]] + a1);
        assert(b =~= seq![b[0]] + b1);
    }
}

/// The runs of a mask are listed one way only: two listings that both
/// meet `are_runs` are equal.
pub proof fn lemma_runs_unique(
    a: Seq<(u32, u32, u32)>,
    b: Seq<(u32, u32, u32)>,
    mask: Seq<bool>,
    cols: int,
    rows: int,
)
    requires
        are_runs(a, mask, cols, rows),
        are_runs(b, mask, cols, rows),
    ensures
        a == b,
{
    lemma_runs_included(a, b, mask, cols, rows);
    lemma_runs_included(b, a, mask, cols, rows);
    lemma_ordered_same(a, b);
}

/// `a * b` of a `u64` and a `u32` stays under `2^96`.
proof fn lemma_product_bound(a: u64, b: u32)
    ensures
        (a as nat) * (b as nat) < 0x1_0000_0000_0000_0000_0000_0000,
{
    assert((a as nat) * (b as nat) <= (0xffff_ffff_ffff_ffff as nat) * (0xffff_ffff as nat)) by (nonlinear_arith)
        requires
            a <= 0xffff_ffff_ffff_ffffu64,
            b <= 0xffff_ffffu32,
    ;
}

/// The marker text of one solid run.
fn run_marker_text(r: (u32, u32, u32), solid: u8, cell: u32) -> (m: String)
    ensures
        m@ == run_marker(r, solid, cell as nat),
{
    proof {
        lemma_product_bound(r.0 as u64, cell);
        lemma_product_bound(r.1 as u64, cell);
        lemma_product_bound(r.2 as u64, cell);
    }
    let mut m = String::new();
    append_str(&mut m, "<rect data-t=\"");
    push_decimal(&mut m, solid as u128);
    append_str(&mut m, "\" x=\"");
    push_decimal(&mut m, (r.0 as u128) * (cell as u128));
    append_str(&mut m, "\" y=\"");
    push_decimal(&mut m, (r.1 as u128) * (cell as u128));
    append_str(&mut m, "\" width=\"");
    push_decimal(&mut m, (r.2 as u128) * (cell as u128));
    append_str(&mut m, "\" height=\"");
    push_decimal(&mut m, cell as u128);
    append_str(&mut m, "\"/>");
    m
}

/// Append the point `x,y`.
fn push_point(s: &mut String, x: u128, y: u128)
    ensures
        final(s)@ == old(s)@ + point(x as nat, y as nat),
{
    push_decimal(s, x);
    append_str(s, ",");
    push_decimal(s, y);
}

/// The marker text of the cell at column `x`, row `y` holding `t`.
fn cell_marker_text(t: u8, x: u64, y: u64, cell: u32, ids: &TileIds) -> (m: String)
    ensures
        m@ == cell_marker(t, x as nat, y as nat, cell as nat, *ids),
{
    proof {
        lemma_product_bound(x, cell);
        lemma_product_bound(y, cell);
    }
    let x0 = (x as u128) * (cell as u128);
    let y0 = (y as u128) * (cell as u128);
    let x1 = x0 + cell as u128;
    let y1 = y0 + cell as u128;
    let mut m = String::new();
    if t == ids.slope_up || t == ids.slope_down {
        append_str(&mut m, "<polygon data-t=\"");
        push_decimal(&mut m, t as u128);
        append_str(&mut m, "\" points=\"");
        if t == ids.slope_up {
            push_point(&mut m, x0, y1);
            append_str(&mut m, " ");
            push_point(&mut m, x1, y1);
            append_str(&mut m, " ");
            push_point(&mut m, x1, y0);
        } else {
            push_point(&mut m, x0, y0);
            append_str(&mut m, " ");
            push_point(&mut m, x1, y1);
            append_str(&mut m, " ");
            push_point(&mut m, x0, y1);
        }
        append_str(&mut m, "\"/>");
    } else if t == ids.lethal || t == ids.water || t == ids.fire || t == ids.heavy {
        append_str(&mut m, "<rect data-t=\"");
        push_decimal(&mut m, t as u128);
        append_str(&mut m, "\" x=\"");
        push_decimal(&mut m, x0);
        append_str(&mut m, "\" y=\"");
        push_decimal(&mut m, y0);
        append_str(&mut m, "\" width=\"");
        push_decimal(&mut m, cell as u128);
        append_str(&mut m, "\" height=\"");
        push_decimal(&mut m, cell as u128);
        append_str(&mut m, "\"/>");
    }
    m
}

/// Append the hidden collider markers of `grid` at `cell` pixels per
/// cell: one rect per maximal run of solid cells, row by row, then the
/// marker of every cell in row-major order.
pub fn push_markers(svg: &mut String, grid: &Grid, ids: &TileIds, cell: u32)
    requires
        grid.wf(),
    ensures
        exists|runs: Seq<(u32, u32, u32)>|
            #![trigger are_runs(runs, mask_of(grid.tiles@, ids.solid), grid.cols as int, grid.rows as int)]
            are_runs(runs, mask_of(grid.tiles@, ids.solid), grid.cols as int, grid.rows as int) && final(svg)@
                == old(svg)@ + run_markers(runs, ids.solid, cell as nat) + cell_markers(
                grid.tiles@,
                grid.cols as nat,
                cell as nat,
                *ids,
                grid.tiles@.len(),
            ),
{
    let mask = grid.tile_mask(ids.solid);
    assert(mask@ =~= mask_of(grid.tiles@, ids.solid));
    let runs = grid.runs(mask.as_slice());
    let ghost start = svg@;
    let mut k: usize = 0;
    while k < runs.len()
        invariant
            k <= runs@.len(),
            svg@ == start + run_markers(runs@.take(k as int), ids.solid, cell as nat),
        decreases runs.len() - k,
    {
        let m = run_marker_text(runs[k], ids.solid, cell);
        let ghost before = svg@;
        append_str(svg, m.as_str());
        proof {
            assert(runs@.take(k + 1).drop_last() =~= runs@.take(k as int));
            assert(svg@ =~= start + run_markers(runs@.take(k + 1), ids.solid, cell as nat));
        }
        k = k + 1;
    }
    assert(runs@.take(runs@.len() as int) =~= runs@);
    let ghost mid = svg@;
    let cols = grid.cols;
    let mut i: usize = 0;
    while i < grid.tiles.len()
        invariant
            i <= grid.tiles@.len(),
            grid.wf(),
            cols == grid.cols,
            svg@ == mid + cell_markers(grid.tiles@, cols as nat, cell as nat, *ids, i as nat),
        decreases grid.tiles.len() - i,
    {
        assert(cols > 0) by (nonlinear_arith)
            requires
                i < grid.tiles@.len(),
                grid.tiles@.len() == grid.rows * cols,
        ;
        let x = (i as u64) % (cols as u64);
        let y = (i as u64) / (cols as u64);
        let m = cell_marker_text(grid.tiles[i], x, y, cell, ids);
        append_str(svg, m.as_str());
        proof {
            assert(svg@ =~= mid + cell_markers(grid.tiles@, cols as nat, cell as nat, *ids, (i + 1) as nat));
        }
        i = i + 1;
    }
}

/// The end of a component document: the markers in a hidden group when
/// there are any, then the closing tag.
pub open spec fn svg_close_tail(markers: Seq<char>) -> Seq<char> {
    if markers.len() == 0 {
        "</svg>"@
    } else {
        "<g visibility=\"hidden\">"@ + markers + "</g></svg>"@
    }
}

/// Close a component document, hiding its collider markers in a group.
pub fn close_svg(svg: &mut String, markers: &str)
    ensures
        final(svg)@ == old(svg)@ + svg_close_tail(markers@),
{
    let ghost start = svg@;
    if !markers.is_empty() {
        append_str(svg, "<g visibility=\"hidden\">");
        append_str(svg, markers);
        append_str(svg, "</g>");
    }
    append_str(svg, "</svg>");
    proof {
        reveal_strlit("</svg>");
        reveal_strlit("</g>");
        reveal_strlit("</g></svg>");
        assert(svg@ =~= start + svg_close_tail(markers@));
    }
}

} // verus!
