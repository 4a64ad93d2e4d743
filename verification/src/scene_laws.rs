//! Laws of the scene: the jump number shown on a tile is its place in flat
//! order, the number whose key jumps to it; each tile is drawn at most once,
//! and only the selected tile is highlighted.

use vstd::prelude::*;
use crate::app::nth_tile;
use crate::app_laws::{lemma_before_mono, lemma_nth_tile, tiles_before_section, total_tiles};
use crate::layout::{
    columns_for, header_index, min_nat, plan_is, prefix_rows, section_rows, spec_header_row, spec_tile_row,
    tile_row_index, tiles_before, total_rows, sat_sub, Plan, RowKind, VisualRow,
};
use crate::layout_laws::{lemma_ceil_bounds, lemma_cover_from};
use crate::render::{decimal, fg, spec_tile_title};
use crate::scene::{row_pieces, sat_add, spec_scene, Piece};
use crate::style::Color;

verus! {

pub open spec fn bounded_counts(counts: Seq<nat>) -> bool {
    &&& counts.len() <= usize::MAX
    &&& total_tiles(counts) <= usize::MAX
}

proof fn lemma_count_bound(counts: Seq<nat>, k: int)
    requires
        bounded_counts(counts),
        0 <= k < counts.len(),
    ensures
        tiles_before_section(counts, k) + counts[k] <= total_tiles(counts),
{
    lemma_before_mono(counts, k + 1, counts.len() as int);
}

/// The tiles of the rows before a header are the tiles of the sections
/// before it.
proof fn lemma_tb_header(plan: Plan, counts: Seq<nat>, width: u16, height: u16, k: int)
    requires
        plan_is(plan, counts, width, height),
        bounded_counts(counts),
        0 <= k <= counts.len(),
    ensures
        tiles_before(plan.rows@, header_index(counts, width, k)) == tiles_before_section(counts, k),
    decreases k, 0nat,
{
    if k > 0 {
        let r = section_rows(counts, width, k - 1) as int;
        assert(header_index(counts, width, k) == tile_row_index(counts, width, k - 1, r));
        lemma_tb_tile(plan, counts, width, height, k - 1, r);
        let n = counts[k - 1];
        let c = columns_for(width, n);
        lemma_ceil_bounds(n, c, 0);
        assert(min_nat((r * c) as nat, n) == n);
    }
}

/// The tiles of the rows before tile row `j` of section `k`.
proof fn lemma_tb_tile(plan: Plan, counts: Seq<nat>, width: u16, height: u16, k: int, j: int)
    requires
        plan_is(plan, counts, width, height),
        bounded_counts(counts),
        0 <= k < counts.len(),
        0 <= j <= section_rows(counts, width, k),
    ensures
        tiles_before(plan.rows@, tile_row_index(counts, width, k, j)) == tiles_before_section(counts, k) + min_nat(
            (j * columns_for(width, counts[k])) as nat,
            counts[k],
        ),
    decreases k, j + 1,
{
    let rows = plan.rows@;
    let n = counts[k];
    let c = columns_for(width, n);
    lemma_count_bound(counts, k);
    if j == 0 {
        lemma_tb_header(plan, counts, width, height, k);
        let hi = header_index(counts, width, k);
        assert(rows[hi] == spec_header_row(counts, width, height, k));
        assert(tile_row_index(counts, width, k, 0) == hi + 1);
    } else {
        lemma_tb_tile(plan, counts, width, height, k, j - 1);
        let idx = tile_row_index(counts, width, k, j - 1);
        assert(rows[idx] == spec_tile_row(counts, width, height, k, j - 1));
        assert(tile_row_index(counts, width, k, j) == idx + 1);
        lemma_ceil_bounds(n, c, (j - 1) as nat);
        assert((j - 1) * c < n);
        assert(j * c == (j - 1) * c + c) by (nonlinear_arith);
        assert((j - 1) * c >= 0) by (nonlinear_arith)
            requires
                j >= 1,
        ;
    }
}

/// Where a piece of the scene comes from: a row in view, and a place in
/// that row's pieces.
proof fn lemma_scene_piece(
    rows: Seq<VisualRow>,
    sel: (usize, usize),
    offset: u16,
    viewport: u16,
    width: u16,
    r: int,
    i: int,
) -> (rm: (int, int))
    requires
        0 <= i < spec_scene(rows, sel, offset, viewport, width, r).len(),
    ensures
        0 <= rm.0 < r,
        0 <= rm.1 < row_pieces(rows[rm.0], tiles_before(rows, rm.0), sel, width).len(),
        spec_scene(rows, sel, offset, viewport, width, r)[i] == row_pieces(
            rows[rm.0],
            tiles_before(rows, rm.0),
            sel,
            width,
        )[rm.1],
    decreases r,
{
    let prev = spec_scene(rows, sel, offset, viewport, width, r - 1);
    if i < prev.len() {
        let rm = lemma_scene_piece(rows, sel, offset, viewport, width, r - 1, i);
        rm
    } else {
        (r - 1, i - prev.len())
    }
}

/// Two places in flat order are the same tile only when they are equal.
proof fn lemma_flat_unique(counts: Seq<nat>, a: int, b: int, c: int, d: int)
    requires
        0 <= a < counts.len(),
        0 <= c < counts.len(),
        0 <= b < counts[a],
        0 <= d < counts[c],
        tiles_before_section(counts, a) + b == tiles_before_section(counts, c) + d,
    ensures
        a == c && b == d,
{
    if a < c {
        lemma_before_mono(counts, a + 1, c);
    } else if c < a {
        lemma_before_mono(counts, c + 1, a);
    }
}

/// The jump number on a tile is its place in flat order (counting from 1,
/// sections in order, tiles in order), whatever the scroll offset: the
/// number whose key selects that very tile. (Tile titles show it when it is
/// at most 9.)
pub proof fn lemma_scene_badges(
    plan: Plan,
    counts: Seq<nat>,
    body_width: u16,
    body_height: u16,
    sel: (usize, usize),
    offset: u16,
    viewport: u16,
    width: u16,
    i: int,
)
    requires
        plan_is(plan, counts, body_width, body_height),
        bounded_counts(counts),
        0 <= i < spec_scene(plan.rows@, sel, offset, viewport, width, plan.rows@.len() as int).len(),
    ensures
        spec_scene(plan.rows@, sel, offset, viewport, width, plan.rows@.len() as int)[i] matches Piece::Tile {
            section,
            tile,
            badge,
            ..
        } ==> {
            &&& section < counts.len()
            &&& tile < counts[section as int]
            &&& badge == tiles_before_section(counts, section as int) + tile + 1
            &&& nth_tile(counts, badge) == Some((section as int, tile as int))
        },
{
    let rows = plan.rows@;
    let pieces = spec_scene(rows, sel, offset, viewport, width, rows.len() as int);
    let rm = lemma_scene_piece(rows, sel, offset, viewport, width, rows.len() as int, i);
    let row = rows[rm.0];
    let m = rm.1;
    if pieces[i] is Tile {
        let kj = lemma_cover_from(counts, body_width, rm.0, 0);
        let k = kj.0;
        let j = kj.1;
        if j == -1 {
            assert(row == spec_header_row(counts, body_width, body_height, k));
            assert(false);
        }
        assert(row == spec_tile_row(counts, body_width, body_height, k, j));
        let n = counts[k];
        let c = columns_for(body_width, n);
        lemma_count_bound(counts, k);
        lemma_ceil_bounds(n, c, j as nat);
        assert(j * c >= 0) by (nonlinear_arith)
            requires
                j >= 0,
        ;
        lemma_tb_tile(plan, counts, body_width, body_height, k, j);
        assert(tiles_before(rows, rm.0) == tiles_before_section(counts, k) + j * c);
        let badge = tiles_before_section(counts, k) + j * c + m + 1;
        lemma_nth_tile(counts, badge as usize);
        let p = nth_tile(counts, badge as usize)->0;
        lemma_flat_unique(counts, p.0, p.1, k, j * c + m);
    }
}

/// A tile's title shows its jump number as a last span `(n) ` in cyan when
/// the number is at most 9, and no jump number at all otherwise: apart from
/// that span the title is the same whatever the number.
pub proof fn lemma_title_badge(
    pane_id: Seq<char>,
    title: Seq<char>,
    agent: Option<Seq<char>>,
    status: Seq<char>,
    badge: usize,
)
    ensures
        badge <= 9 ==> spec_tile_title(pane_id, title, agent, status, badge) == spec_tile_title(
            pane_id,
            title,
            agent,
            status,
            10,
        ).push(("("@ + decimal(badge as nat) + ") "@, fg(Color::Cyan))),
        badge > 9 ==> spec_tile_title(pane_id, title, agent, status, badge) == spec_tile_title(
            pane_id,
            title,
            agent,
            status,
            10,
        ),
{
}

/// The selection highlight: a tile of the scene is drawn as selected exactly
/// when it is the selected tile (its section and its index in the section
/// are the selection's), for any rows, offset and viewport.
pub proof fn lemma_scene_selected(
    rows: Seq<VisualRow>,
    sel: (usize, usize),
    offset: u16,
    viewport: u16,
    width: u16,
    i: int,
)
    requires
        0 <= i < spec_scene(rows, sel, offset, viewport, width, rows.len() as int).len(),
    ensures
        spec_scene(rows, sel, offset, viewport, width, rows.len() as int)[i] matches Piece::Tile {
            section,
            tile,
            selected,
            ..
        } ==> selected == (section == sel.0 && tile == sel.1),
{
    let rm = lemma_scene_piece(rows, sel, offset, viewport, width, rows.len() as int, i);
}

/// How many tiles a row holds.
spec fn row_add(row: VisualRow) -> int {
    match row.kind {
        RowKind::Tiles { start, end, .. } => sat_sub(end as int, start as int),
        _ => 0,
    }
}

/// The running count of tiles never reaches the cap of `tiles_before`.
spec fn never_saturates(rows: Seq<VisualRow>) -> bool {
    forall|q: int| 0 <= q < rows.len() ==> tiles_before(rows, q) + row_add(#[trigger] rows[q]) <= usize::MAX
}

proof fn lemma_plan_never_saturates(plan: Plan, counts: Seq<nat>, width: u16, height: u16)
    requires
        plan_is(plan, counts, width, height),
        bounded_counts(counts),
    ensures
        never_saturates(plan.rows@),
{
    let rows = plan.rows@;
    assert forall|q: int| 0 <= q < rows.len() implies tiles_before(rows, q) + row_add(#[trigger] rows[q])
        <= usize::MAX by {
        if counts.len() == 0 {
            assert(total_rows(counts, width) == 0);
        }
        assert(header_index(counts, width, 0) == 0);
        let kj = lemma_cover_from(counts, width, q, 0);
        let k = kj.0;
        let j = kj.1;
        lemma_count_bound(counts, k);
        lemma_before_mono(counts, k, counts.len() as int);
        if j == -1 {
            lemma_tb_header(plan, counts, width, height, k);
            assert(rows[q] == spec_header_row(counts, width, height, k));
        } else {
            lemma_tb_tile(plan, counts, width, height, k, j);
            assert(rows[q] == spec_tile_row(counts, width, height, k, j));
            let n = counts[k];
            let c = columns_for(width, n);
            lemma_ceil_bounds(n, c, j as nat);
            assert(j * c >= 0) by (nonlinear_arith)
                requires
                    j >= 0,
            ;
            assert((j + 1) * c == j * c + c) by (nonlinear_arith);
        }
    }
}

/// The jump numbers of the scene's tiles grow strictly along the scene and
/// stay within the tiles of the rows seen so far.
proof fn lemma_scene_badge_order(
    rows: Seq<VisualRow>,
    sel: (usize, usize),
    offset: u16,
    viewport: u16,
    width: u16,
    r: int,
)
    requires
        never_saturates(rows),
        0 <= r <= rows.len(),
    ensures
        tiles_before(rows, r) >= 0,
        forall|i: int|
            0 <= i < spec_scene(rows, sel, offset, viewport, width, r).len() ==> (#[trigger] spec_scene(
                rows,
                sel,
                offset,
                viewport,
                width,
                r,
            )[i] matches Piece::Tile { badge, .. } ==> 1 <= badge <= tiles_before(rows, r)),
        forall|i: int, j: int|
            0 <= i < j < spec_scene(rows, sel, offset, viewport, width, r).len() && (#[trigger] spec_scene(
                rows,
                sel,
                offset,
                viewport,
                width,
                r,
            )[i]) is Tile && (#[trigger] spec_scene(rows, sel, offset, viewport, width, r)[j]) is Tile
                ==> spec_scene(rows, sel, offset, viewport, width, r)[i]->badge < spec_scene(
                rows,
                sel,
                offset,
                viewport,
                width,
                r,
            )[j]->badge,
    decreases r,
{
    if r > 0 {
        lemma_scene_badge_order(rows, sel, offset, viewport, width, r - 1);
        let prev = spec_scene(rows, sel, offset, viewport, width, r - 1);
        let cur = spec_scene(rows, sel, offset, viewport, width, r);
        let row = rows[r - 1];
        let tb = tiles_before(rows, r - 1);
        assert(tb + row_add(row) <= usize::MAX);
        assert(tiles_before(rows, r) == tb + row_add(row));
        assert(row_add(row) >= 0);
        if row_visible_at(rows, offset, viewport, r - 1) {
            let rp = row_pieces(row, tb, sel, width);
            assert(cur == prev + rp);
            assert forall|m: int| 0 <= m < rp.len() implies (#[trigger] rp[m]) matches Piece::Tile { badge, .. } ==> (
            badge == tb + m + 1 && tb + m + 1 <= tb + row_add(row)) by {
                match row.kind {
                    RowKind::Tiles { section, start, end, columns } => {
                        assert(rp.len() == sat_sub(end as int, start as int));
                        assert(m + 1 <= row_add(row));
                        assert(sat_add(tb, m + 1) == tb + m + 1);
                        assert(rp[m] is Tile && rp[m]->badge == (tb + m + 1) as usize);
                    },
                    RowKind::Header(h) => {
                        assert(rp[m] is Header);
                    },
                }
            }
            assert forall|i: int|
                0 <= i < cur.len() implies (#[trigger] cur[i] matches Piece::Tile { badge, .. } ==> 1 <= badge
                <= tiles_before(rows, r)) by {
                if i >= prev.len() {
                    assert(cur[i] == rp[i - prev.len()]);
                } else {
                    assert(cur[i] == prev[i]);
                }
            }
            assert forall|i: int, j: int|
                0 <= i < j < cur.len() && (#[trigger] cur[i]) is Tile && (#[trigger] cur[j]) is Tile implies cur[i]->badge
                < cur[j]->badge by {
                if cur[i] is Tile && cur[j] is Tile {
                    if j < prev.len() {
                        assert(cur[i] == prev[i] && cur[j] == prev[j]);
                        assert(prev[i]->badge < prev[j]->badge);
                    } else if i < prev.len() {
                        assert(cur[i] == prev[i]);
                        assert(prev[i]->badge <= tb);
                        let m = j - prev.len();
                        assert(cur[j] == rp[m]);
                        assert(rp[m]->badge == tb + m + 1);
                        assert(cur[i]->badge < cur[j]->badge);
                    } else {
                        let m1 = i - prev.len();
                        let m2 = j - prev.len();
                        assert(cur[i] == rp[m1]);
                        assert(cur[j] == rp[m2]);
                        assert(rp[m1]->badge == tb + m1 + 1);
                        assert(rp[m2]->badge == tb + m2 + 1);
                        assert(cur[i]->badge < cur[j]->badge);
                    }
                }
            }
        } else {
            assert(cur == prev);
        }
    }
}

spec fn row_visible_at(rows: Seq<VisualRow>, offset: u16, viewport: u16, q: int) -> bool {
    crate::layout::row_visible(rows[q], offset, viewport)
}

/// Each tile is drawn at most once, so at most one piece of the scene is
/// highlighted as selected: two different pieces are never the same tile.
pub proof fn lemma_scene_tiles_distinct(
    plan: Plan,
    counts: Seq<nat>,
    body_width: u16,
    body_height: u16,
    sel: (usize, usize),
    offset: u16,
    viewport: u16,
    width: u16,
    i: int,
    j: int,
)
    requires
        plan_is(plan, counts, body_width, body_height),
        bounded_counts(counts),
        0 <= i < spec_scene(plan.rows@, sel, offset, viewport, width, plan.rows@.len() as int).len(),
        0 <= j < spec_scene(plan.rows@, sel, offset, viewport, width, plan.rows@.len() as int).len(),
        i != j,
    ensures
        spec_scene(plan.rows@, sel, offset, viewport, width, plan.rows@.len() as int)[i] matches Piece::Tile {
            section: s1,
            tile: t1,
            selected: x1,
            ..
        } ==> (spec_scene(plan.rows@, sel, offset, viewport, width, plan.rows@.len() as int)[j] matches Piece::Tile {
            section: s2,
            tile: t2,
            selected: x2,
            ..
        } ==> (s1, t1) != (s2, t2) && !(x1 && x2)),
{
    let rows = plan.rows@;
    let scene = spec_scene(rows, sel, offset, viewport, width, rows.len() as int);
    lemma_plan_never_saturates(plan, counts, body_width, body_height);
    lemma_scene_badge_order(rows, sel, offset, viewport, width, rows.len() as int);
    lemma_scene_badges(plan, counts, body_width, body_height, sel, offset, viewport, width, i);
    lemma_scene_badges(plan, counts, body_width, body_height, sel, offset, viewport, width, j);
    lemma_scene_selected(rows, sel, offset, viewport, width, i);
    lemma_scene_selected(rows, sel, offset, viewport, width, j);
    if i < j {
        assert(scene[i] == scene[i] && scene[j] == scene[j]);
    } else {
        assert(scene[j] == scene[j] && scene[i] == scene[i]);
    }
}

} // verus!
