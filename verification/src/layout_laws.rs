//! Laws of the grid plan: it fills the screen when it does not scroll,
//! never shrinks tiles under the floor, stacks its rows without gaps or
//! overlaps, deals every tile of a section to exactly one row, and keeps the
//! selected row in view.

use vstd::prelude::*;
use crate::layout::{
    columns_for, extra_rows, is_scrolling, lemma_mul_mono, lemma_mul_step,
    lemma_row_top_mono, lemma_row_top_step, lemma_prefix_mono, min_nat, plan_total,
    prefix_rows, rows_for, rows_height, section_rows, spec_header_row, spec_scroll_offset,
    spec_tile_row, tile_height, total_rows, first_row_from, avail, fit_height, RowKind,
    VisualRow, MIN_TILE_H, MIN_TILE_W, header_index, tile_row_index, plan_is,
};

verus! {

/// Shrink to fit: when the plan does not scroll and there is a tile row,
/// the canvas is exactly as high as the body.
pub proof fn lemma_fit_fills_body(counts: Seq<nat>, width: u16, height: u16)
    requires
        !is_scrolling(counts, width, height),
        total_rows(counts, width) > 0,
    ensures
        plan_total(counts, width, height) == height as nat,
{
    let t = total_rows(counts, width);
    let a = avail(counts, height);
    vstd::arithmetic::div_mod::lemma_fundamental_div_mod(a as int, t as int);
    assert(a == t * (a / t) + a % t);
    assert((a / t) * t == t * (a / t)) by (nonlinear_arith);
    if (height as nat) < counts.len() {
        assert(a == 0);
        assert(fit_height(counts, width, height) == 0);
    }
}

/// The floor: every tile row is at least `MIN_TILE_H` high; when the plan
/// scrolls, every tile row is exactly `MIN_TILE_H` high; otherwise tile
/// rows share the height evenly (heights differ by at most one).
pub proof fn lemma_tile_rows_floor(counts: Seq<nat>, width: u16, height: u16, k: int, j: int)
    requires
        plan_total(counts, width, height) <= u16::MAX,
        0 <= k < counts.len(),
        0 <= j < section_rows(counts, width, k),
    ensures
        spec_tile_row(counts, width, height, k, j).height >= MIN_TILE_H,
        is_scrolling(counts, width, height) ==> spec_tile_row(counts, width, height, k, j).height == MIN_TILE_H,
        spec_tile_row(counts, width, height, k, j).height == tile_height(counts, width, height) || spec_tile_row(
            counts,
            width,
            height,
            k,
            j,
        ).height == tile_height(counts, width, height) + 1,
{
    lemma_row_bounds(counts, width, height, k, j);
}

proof fn lemma_row_bounds(counts: Seq<nat>, width: u16, height: u16, k: int, j: int)
    requires
        plan_total(counts, width, height) <= u16::MAX,
        0 <= k < counts.len(),
        0 <= j < section_rows(counts, width, k),
    ensures
        k + 1 + rows_height(counts, width, height, (prefix_rows(counts, width, k) + j + 1) as nat) <= plan_total(
            counts,
            width,
            height,
        ),
        (k + 1 + rows_height(counts, width, height, (prefix_rows(counts, width, k) + j + 1) as nat)) == (k + 1
            + rows_height(counts, width, height, (prefix_rows(counts, width, k) + j) as nat)) + tile_height(
            counts,
            width,
            height,
        ) + if prefix_rows(counts, width, k) + j < extra_rows(counts, width, height) {
            1nat
        } else {
            0nat
        },
{
    let th = tile_height(counts, width, height);
    let e = extra_rows(counts, width, height);
    let g = (prefix_rows(counts, width, k) + j) as nat;
    lemma_prefix_mono(counts, width, k + 1, counts.len() as int);
    lemma_row_top_step(g, th, e);
    lemma_row_top_mono(g + 1, total_rows(counts, width), th, e);
}

/// The end of section `k` in the canvas: the line after its last row.
pub open spec fn section_end(counts: Seq<nat>, width: u16, height: u16, k: int) -> int {
    k + 1 + rows_height(counts, width, height, prefix_rows(counts, width, k + 1))
}

/// Rows stack without gaps or overlaps: the first header is at the top;
/// the first tile row of a section starts right under its header; each tile
/// row starts where the one before it ends; the next section's header
/// starts where this section ends; and the last section ends at the bottom
/// of the canvas.
pub proof fn lemma_rows_stack(counts: Seq<nat>, width: u16, height: u16, k: int)
    requires
        plan_total(counts, width, height) <= u16::MAX,
        0 <= k < counts.len(),
    ensures
        k == 0 ==> spec_header_row(counts, width, height, k).y == 0,
        section_rows(counts, width, k) > 0 ==> spec_tile_row(counts, width, height, k, 0).y == spec_header_row(
            counts,
            width,
            height,
            k,
        ).y + 1,
        forall|j: int|
            0 <= j < section_rows(counts, width, k) - 1 ==> #[trigger] spec_tile_row(counts, width, height, k, j).y
                + spec_tile_row(counts, width, height, k, j).height == spec_tile_row(counts, width, height, k, j + 1).y,
        section_rows(counts, width, k) > 0 ==> spec_tile_row(
            counts,
            width,
            height,
            k,
            section_rows(counts, width, k) - 1,
        ).y + spec_tile_row(counts, width, height, k, section_rows(counts, width, k) - 1).height == section_end(
            counts,
            width,
            height,
            k,
        ),
        section_rows(counts, width, k) == 0 ==> spec_header_row(counts, width, height, k).y + 1 == section_end(
            counts,
            width,
            height,
            k,
        ),
        k + 1 < counts.len() ==> spec_header_row(counts, width, height, k + 1).y == section_end(
            counts,
            width,
            height,
            k,
        ),
        k + 1 == counts.len() ==> section_end(counts, width, height, k) == plan_total(counts, width, height),
{
    let th = tile_height(counts, width, height);
    let e = extra_rows(counts, width, height);
    let p = prefix_rows(counts, width, k);
    let r = section_rows(counts, width, k);
    lemma_prefix_mono(counts, width, k + 1, counts.len() as int);
    lemma_row_top_mono(p, total_rows(counts, width), th, e);
    lemma_row_top_mono(prefix_rows(counts, width, k + 1), total_rows(counts, width), th, e);
    if k == 0 {
        assert(p == 0);
        assert(rows_height(counts, width, height, 0) == 0) by (nonlinear_arith)
            requires
                rows_height(counts, width, height, 0) == 0 * th + min_nat(0, e),
        ;
    }
    assert forall|j: int| 0 <= j < r - 1 implies #[trigger] spec_tile_row(counts, width, height, k, j).y
        + spec_tile_row(counts, width, height, k, j).height == spec_tile_row(counts, width, height, k, j + 1).y by {
        lemma_row_bounds(counts, width, height, k, j);
        lemma_row_bounds(counts, width, height, k, j + 1);
    }
    if r > 0 {
        lemma_row_bounds(counts, width, height, k, r - 1);
    }
}

pub(crate) proof fn lemma_ceil_bounds(n: nat, c: nat, j: nat)
    requires
        c >= 1,
    ensures
        rows_for(n, c) * c >= n,
        j < rows_for(n, c) ==> j * c < n,
{
    let q = rows_for(n, c);
    let r = ((n + c - 1) as nat) % c;
    vstd::arithmetic::div_mod::lemma_fundamental_div_mod((n + c - 1) as int, c as int);
    assert((n + c - 1) as nat == q * c + r);
    assert(q * c == c * q) by (nonlinear_arith);
    if j < q {
        lemma_mul_mono(j + 1, q, c);
        lemma_mul_step(j, c);
    }
}

/// The section of a tile row.
pub open spec fn row_section(row: VisualRow) -> int {
    match row.kind {
        RowKind::Tiles { section, .. } => section as int,
        RowKind::Header(s) => s as int,
    }
}

/// The first tile of a tile row.
pub open spec fn row_start(row: VisualRow) -> int {
    match row.kind {
        RowKind::Tiles { start, .. } => start as int,
        RowKind::Header(_) => 0,
    }
}

/// The tile after the last tile of a tile row.
pub open spec fn row_end(row: VisualRow) -> int {
    match row.kind {
        RowKind::Tiles { end, .. } => end as int,
        RowKind::Header(_) => 0,
    }
}

/// The columns of a tile row.
pub open spec fn row_columns(row: VisualRow) -> int {
    match row.kind {
        RowKind::Tiles { columns, .. } => columns as int,
        RowKind::Header(_) => 0,
    }
}

/// Tiles are dealt to rows in order: the first row of a section starts at
/// its first tile, each row ends where the next begins, the last row ends
/// at the section's last tile, and every row holds between one tile and as
/// many tiles as there are columns.
pub proof fn lemma_rows_deal_tiles(counts: Seq<nat>, width: u16, height: u16, k: int, j: int)
    requires
        0 <= k < counts.len(),
        0 <= j < section_rows(counts, width, k),
        counts.len() <= usize::MAX,
        counts[k] <= usize::MAX,
    ensures
        row_section(spec_tile_row(counts, width, height, k, j)) == k,
        row_columns(spec_tile_row(counts, width, height, k, j)) == columns_for(width, counts[k]),
        j == 0 ==> row_start(spec_tile_row(counts, width, height, k, j)) == 0,
        row_start(spec_tile_row(counts, width, height, k, j)) < row_end(spec_tile_row(counts, width, height, k, j)),
        row_end(spec_tile_row(counts, width, height, k, j)) <= row_start(spec_tile_row(counts, width, height, k, j))
            + row_columns(spec_tile_row(counts, width, height, k, j)),
        j + 1 < section_rows(counts, width, k) ==> row_start(spec_tile_row(counts, width, height, k, j + 1))
            == row_end(spec_tile_row(counts, width, height, k, j)),
        j + 1 == section_rows(counts, width, k) ==> row_end(spec_tile_row(counts, width, height, k, j)) == counts[k],
{
    let n = counts[k];
    let c = columns_for(width, n);
    assert(c >= 1);
    lemma_ceil_bounds(n, c, j as nat);
    lemma_ceil_bounds(n, c, (j + 1) as nat);
    lemma_mul_step(j as nat, c);
    if j == 0 {
        assert(0 * c == 0);
    }
    assert(j * c >= 0) by (nonlinear_arith)
        requires
            j >= 0,
            c >= 1,
    ;
    assert((j + 1) * c >= 0) by (nonlinear_arith)
        requires
            j >= 0,
            c >= 1,
    ;
}

/// The selected row stays in view: when the row of the selected tile is
/// no higher than the viewport, the offset shows the whole row (the canvas
/// either scrolls or fits the viewport). The current offset `scroll` stays
/// whenever it already shows the whole row; when it moves, it also shows the
/// line above the row (its header, for the first row of a section) whenever
/// the row and that line fit together.
pub proof fn lemma_scroll_shows_selection(
    rows: Seq<VisualRow>,
    total: u16,
    scrolling: bool,
    sel: (usize, usize),
    scroll: u16,
    viewport: u16,
    r: int,
)
    requires
        first_row_from(rows, sel, 0) == Some(r),
        0 <= r < rows.len(),
        rows[r].height <= viewport,
        rows[r].y + rows[r].height <= total,
        scrolling || total <= viewport,
    ensures
        ({
            let off = spec_scroll_offset(rows, total, scrolling, sel, scroll, viewport);
            let row = rows[r];
            &&& off <= row.y
            &&& row.y + row.height <= off + viewport
            &&& (scrolling && total > viewport && scroll <= row.y && row.y + row.height <= scroll + viewport
                ==> off == scroll)
            &&& (!(scroll <= row.y && row.y + row.height <= scroll + viewport) && row.height < viewport
                && row.y >= 1 ==> off <= row.y - 1)
        }),
{
}

/// Every row index of a plan is a header's or a tile row's.
pub(crate) proof fn lemma_cover_from(counts: Seq<nat>, width: u16, r: int, k: int) -> (kj: (int, int))
    requires
        0 <= k < counts.len(),
        header_index(counts, width, k) <= r < counts.len() + total_rows(counts, width),
    ensures
        0 <= kj.0 < counts.len(),
        (kj.1 == -1 && r == header_index(counts, width, kj.0)) || (0 <= kj.1 < section_rows(counts, width, kj.0)
            && r == tile_row_index(counts, width, kj.0, kj.1)),
    decreases counts.len() - k,
{
    let next = header_index(counts, width, k + 1);
    assert(next == header_index(counts, width, k) + 1 + section_rows(counts, width, k));
    if r < next {
        if r == header_index(counts, width, k) {
            (k, -1)
        } else {
            (k, r - header_index(counts, width, k) - 1)
        }
    } else {
        if k + 1 == counts.len() {
            assert(next == counts.len() + total_rows(counts, width));
        }
        lemma_cover_from(counts, width, r, k + 1)
    }
}

/// The columns of every tile row: as many floor-width tiles as the body's
/// width holds (at least one), but no more than the section's tiles (at
/// least one). So `columns` tiles of the floor width fit in the width (or
/// there is one column), and one more would not fit unless the section has
/// no more tiles.
pub proof fn lemma_plan_columns(plan: crate::layout::Plan, counts: Seq<nat>, width: u16, height: u16, r: int)
    requires
        plan_is(plan, counts, width, height),
        0 <= r < plan.rows@.len(),
    ensures
        plan.rows@[r].kind matches RowKind::Tiles { section, columns, .. } ==> {
            &&& section < counts.len()
            &&& columns >= 1
            &&& columns * MIN_TILE_W <= width || columns == 1
            &&& columns <= counts[section as int] || columns == 1
            &&& columns < counts[section as int] ==> (columns + 1) * MIN_TILE_W > width
        },
{
    if counts.len() > 0 {
        assert(header_index(counts, width, 0) == 0);
        let kj = lemma_cover_from(counts, width, r, 0);
        let k = kj.0;
        let j = kj.1;
        if j != -1 {
            assert(plan.rows@[tile_row_index(counts, width, k, j)] == crate::layout::spec_tile_row(
                counts,
                width,
                height,
                k,
                j,
            ));
            let n = counts[k];
            let w: nat = if width == 0 { 1 } else { width as nat };
            let c = columns_for(width, n);
            lemma_div_bounds(w);
            assert(c >= 1);
            assert(c <= w / 60 || c == 1);
            assert(c * 60 <= w || c == 1);
            assert(c <= 65535);
        }
    } else {
        assert(total_rows(counts, width) == 0);
    }
}

proof fn lemma_div_bounds(w: nat)
    by (nonlinear_arith)
    ensures
        (w / 60) * 60 <= w,
        (w / 60 + 1) * 60 > w,
        w / 60 <= w,
{
}

} // verus!
