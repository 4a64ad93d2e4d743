//! The scene: what to draw where on the virtual canvas of a plan — the
//! headers and tiles of the rows that show in the viewport, each tile with
//! its cell, its jump number and whether it is selected.

use vstd::prelude::*;
use crate::app::App;
use crate::layout::{plan_bounded, plan_consistent, row_visible, sat_sub, tiles_before, Plan, Rect, RowKind, VisualRow};

verus! {

/// The cells that the terminal UI toolkit's layout solver gives to
/// `columns` columns of equal share (`Fill(1)` each) side by side in the
/// area at `x`, `y` of `width` x `height`, as `(x, y, width, height)`.
pub uninterp spec fn equal_columns(x: u16, y: u16, width: u16, height: u16, columns: usize) -> Seq<(u16, u16, u16, u16)>;

pub open spec fn rect_tuple(r: Rect) -> (u16, u16, u16, u16) {
    (r.x, r.y, r.width, r.height)
}

/// Splits an area into `columns` cells of equal share.
///
/// Trusted: calls `ratatui::layout::Layout::split` on a horizontal layout
/// of `columns` constraints `Constraint::Fill(1)`. The contract names the
/// cells it returns (`equal_columns`, a function of the area and the count
/// alone: the solver is deterministic, and its cache is keyed on both) and
/// states that there is one cell per constraint, as the solver makes one
/// segment per constraint.
#[verifier::external_body]
fn split_columns(area: Rect, columns: usize) -> (cells: Vec<Rect>)
    ensures
        cells@.map_values(|r: Rect| rect_tuple(r)) == equal_columns(area.x, area.y, area.width, area.height, columns),
        cells@.len() == columns,
{
    let layout = ratatui::layout::Layout::horizontal(vec![ratatui::layout::Constraint::Fill(1); columns]);
    let area = ratatui::layout::Rect { x: area.x, y: area.y, width: area.width, height: area.height };
    layout.split(area).iter().map(|r| Rect { x: r.x, y: r.y, width: r.width, height: r.height }).collect()
}

/// Something to draw on the canvas.
#[derive(Clone, Copy, Debug, PartialEq, Eq, Structural)]
pub enum Piece {
    /// The header of a section.
    Header { section: usize, area: Rect },
    /// A tile, with its jump number (from 1, in plan order).
    Tile { section: usize, tile: usize, badge: usize, selected: bool, area: Rect },
}

/// The full-width area of a row on the canvas.
pub open spec fn row_area(row: VisualRow, width: u16) -> Rect {
    Rect { x: 0, y: row.y, width, height: row.height }
}

pub open spec fn sat_add(a: int, b: int) -> int {
    if a + b > usize::MAX {
        usize::MAX as int
    } else {
        a + b
    }
}

pub open spec fn tuple_rect(t: (u16, u16, u16, u16)) -> Rect {
    Rect { x: t.0, y: t.1, width: t.2, height: t.3 }
}

/// The pieces of one row: a header, or one tile per cell of the row, in
/// order, numbered after the `before` tiles of earlier rows.
pub open spec fn row_pieces(row: VisualRow, before: int, sel: (usize, usize), width: u16) -> Seq<Piece> {
    match row.kind {
        RowKind::Header(s) => seq![Piece::Header { section: s, area: row_area(row, width) }],
        RowKind::Tiles { section, start, end, columns } => Seq::new(
            sat_sub(end as int, start as int) as nat,
            |k: int|
                Piece::Tile {
                    section,
                    tile: (start + k) as usize,
                    badge: sat_add(before, k + 1) as usize,
                    selected: sel == (section, (start + k) as usize),
                    area: tuple_rect(equal_columns(0, row.y, width, row.height, columns)[k]),
                },
        ),
    }
}

/// The pieces of the first `r` rows that show in the viewport.
pub open spec fn spec_scene(
    rows: Seq<VisualRow>,
    sel: (usize, usize),
    offset: u16,
    viewport: u16,
    width: u16,
    r: int,
) -> Seq<Piece>
    decreases r,
{
    if r <= 0 {
        Seq::empty()
    } else {
        let prev = spec_scene(rows, sel, offset, viewport, width, r - 1);
        if row_visible(rows[r - 1], offset, viewport) {
            prev + row_pieces(rows[r - 1], tiles_before(rows, r - 1), sel, width)
        } else {
            prev
        }
    }
}

/// The pieces to draw for the rows of `plan` that show in a viewport of
/// `viewport` lines from `offset`, on a canvas `width` columns wide.
pub fn scene(app: &App, plan: &Plan, offset: u16, viewport: u16, width: u16) -> (pieces: Vec<Piece>)
    requires
        plan_bounded(*plan),
        plan_consistent(app.tile_counts(), *plan),
        offset + viewport <= u16::MAX,
    ensures
        pieces@ == spec_scene(plan.rows@, app.selected, offset, viewport, width, plan.rows@.len() as int),
{
    let n = plan.rows.len();
    let mut pieces: Vec<Piece> = Vec::new();
    let mut badge_base: usize = 0;
    let mut i: usize = 0;
    while i < n
        invariant
            n == plan.rows@.len(),
            0 <= i <= n,
            plan_bounded(*plan),
            plan_consistent(app.tile_counts(), *plan),
            offset + viewport <= u16::MAX,
            badge_base == tiles_before(plan.rows@, i as int),
            pieces@ == spec_scene(plan.rows@, app.selected, offset, viewport, width, i as int),
        decreases n - i,
    {
        let row = plan.rows[i];
        let badge_start = badge_base;
        proof {
            assert(crate::layout::row_ok(app.tile_counts(), plan.rows@[i as int]));
        }
        match row.kind {
            RowKind::Tiles { start, end, .. } => {
                badge_base = badge_base.saturating_add(end - start);
            },
            _ => {},
        }
        if !(row.y + row.height <= offset || row.y >= offset + viewport) {
            let ghost before = pieces@;
            let ghost expected = row_pieces(row, badge_start as int, app.selected, width);
            let area = Rect { x: 0, y: row.y, width, height: row.height };
            match row.kind {
                RowKind::Header(s) => {
                    pieces.push(Piece::Header { section: s, area });
                    proof {
                        assert(pieces@ =~= before + expected);
                    }
                },
                RowKind::Tiles { section, start, end, columns } => {
                    let cells = split_columns(area, columns);
                    let count = end - start;
                    let mut k: usize = 0;
                    while k < count
                        invariant
                            count == end - start,
                            count <= columns,
                            cells@.len() == columns,
                            cells@.map_values(|r: Rect| rect_tuple(r)) == equal_columns(
                                0,
                                row.y,
                                width,
                                row.height,
                                columns,
                            ),
                            expected == row_pieces(row, badge_start as int, app.selected, width),
                            row.kind == (RowKind::Tiles { section, start, end, columns }),
                            0 <= k <= count,
                            pieces@ == before + expected.take(k as int),
                        decreases count - k,
                    {
                        let tile = start + k;
                        let c = cells[k];
                        proof {
                            assert(rect_tuple(c) == equal_columns(0, row.y, width, row.height, columns)[k as int]);
                        }
                        pieces.push(
                            Piece::Tile {
                                section,
                                tile,
                                badge: badge_start.saturating_add(k + 1),
                                selected: app.selected.0 == section && app.selected.1 == tile,
                                area: c,
                            },
                        );
                        proof {
                            assert(expected.take(k + 1) =~= expected.take(k as int).push(expected[k as int]));
                        }
                        k = k + 1;
                    }
                    proof {
                        assert(expected.take(count as int) =~= expected);
                    }
                },
            }
        }
        i = i + 1;
    }
    pieces
}

} // verus!
