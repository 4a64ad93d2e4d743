//! The grid plan: tiles shrink to fit the screen evenly, down to a floor
//! size; below the floor they keep the floor size behind a scroll.

use vstd::prelude::*;
use crate::app::App;

verus! {

/// Floor width of a tile (borders included).
pub const MIN_TILE_W: u16 = 60;
/// Floor height of a tile (borders included).
pub const MIN_TILE_H: u16 = 15;

/// An area of the screen.
#[derive(Clone, Copy, Debug, PartialEq, Eq, Structural)]
pub struct Rect {
    pub x: u16,
    pub y: u16,
    pub width: u16,
    pub height: u16,
}

/// What a row of the plan shows.
#[derive(Clone, Copy, Debug, PartialEq, Eq, Structural)]
pub enum RowKind {
    /// The header of the section with this index.
    Header(usize),
    /// The tiles `start..end` of a section, laid out in `columns` columns.
    Tiles { section: usize, start: usize, end: usize, columns: usize },
}

/// A row of the plan, at a position in the virtual canvas.
#[derive(Clone, Copy, Debug, PartialEq, Eq, Structural)]
pub struct VisualRow {
    pub y: u16,
    pub height: u16,
    pub kind: RowKind,
}

/// The rows of the canvas, its height, and whether it scrolls.
pub struct Plan {
    pub rows: Vec<VisualRow>,
    pub total_height: u16,
    pub scrolling: bool,
}

// ---------------------------------------------------------------------------
// The plan, stated over the tile counts of the sections
// ---------------------------------------------------------------------------

pub open spec fn min_nat(a: nat, b: nat) -> nat {
    if a <= b {
        a
    } else {
        b
    }
}

/// Columns of a section of `n` tiles: as many floor-width tiles as the width
/// holds (at least one), but no more than the tiles (at least one).
pub open spec fn columns_for(width: u16, n: nat) -> nat {
    let w: nat = if width == 0 {
        1
    } else {
        width as nat
    };
    let c: nat = if w / 60 == 0 {
        1
    } else {
        w / 60
    };
    let m: nat = if n == 0 {
        1
    } else {
        n
    };
    min_nat(c, m)
}

/// Rows of a section of `n` tiles in `cols` columns.
pub open spec fn rows_for(n: nat, cols: nat) -> nat {
    if cols == 0 {
        0
    } else {
        ((n + cols - 1) as nat) / cols
    }
}

/// Tile rows of section `k`.
pub open spec fn section_rows(counts: Seq<nat>, width: u16, k: int) -> nat {
    rows_for(counts[k], columns_for(width, counts[k]))
}

/// Tile rows of the sections before `k`.
pub open spec fn prefix_rows(counts: Seq<nat>, width: u16, k: int) -> nat
    decreases k,
{
    if k <= 0 {
        0
    } else {
        prefix_rows(counts, width, k - 1) + section_rows(counts, width, k - 1)
    }
}

/// Tile rows of all sections.
pub open spec fn total_rows(counts: Seq<nat>, width: u16) -> nat {
    prefix_rows(counts, width, counts.len() as int)
}

/// Height left for tile rows once every section has its header line.
pub open spec fn avail(counts: Seq<nat>, height: u16) -> nat {
    if height as nat >= counts.len() {
        (height as nat - counts.len()) as nat
    } else {
        0
    }
}

/// The tile height at which every tile row fits.
pub open spec fn fit_height(counts: Seq<nat>, width: u16, height: u16) -> nat {
    let t = total_rows(counts, width);
    if t == 0 {
        MIN_TILE_H as nat
    } else {
        avail(counts, height) / t
    }
}

/// The plan scrolls when fitting would push tiles under the floor height.
pub open spec fn is_scrolling(counts: Seq<nat>, width: u16, height: u16) -> bool {
    fit_height(counts, width, height) < MIN_TILE_H
}

/// The height of a tile row (before the extra line some rows get).
pub open spec fn tile_height(counts: Seq<nat>, width: u16, height: u16) -> nat {
    if is_scrolling(counts, width, height) {
        MIN_TILE_H as nat
    } else {
        fit_height(counts, width, height)
    }
}

/// How many tile rows, from the first, get one extra line: the height that
/// even rows leave over (none when scrolling).
pub open spec fn extra_rows(counts: Seq<nat>, width: u16, height: u16) -> nat {
    let t = total_rows(counts, width);
    if is_scrolling(counts, width, height) {
        0
    } else if t == 0 {
        0
    } else {
        avail(counts, height) % t
    }
}

/// Height taken by the first `g` tile rows.
pub open spec fn row_top(g: nat, t: nat, e: nat) -> nat {
    g * t + min_nat(g, e)
}

/// Height taken by the first `g` tile rows of this plan.
pub open spec fn rows_height(counts: Seq<nat>, width: u16, height: u16, g: nat) -> nat {
    row_top(g, tile_height(counts, width, height), extra_rows(counts, width, height))
}

/// Height of the canvas.
pub open spec fn plan_total(counts: Seq<nat>, width: u16, height: u16) -> nat {
    counts.len() + rows_height(counts, width, height, total_rows(counts, width))
}

/// Index in the plan of the header of section `k`.
pub open spec fn header_index(counts: Seq<nat>, width: u16, k: int) -> int {
    k + prefix_rows(counts, width, k)
}

/// Index in the plan of tile row `j` of section `k`.
pub open spec fn tile_row_index(counts: Seq<nat>, width: u16, k: int, j: int) -> int {
    k + 1 + prefix_rows(counts, width, k) + j
}

/// The header row of section `k`.
pub open spec fn spec_header_row(counts: Seq<nat>, width: u16, height: u16, k: int) -> VisualRow {
    VisualRow {
        y: (k + rows_height(counts, width, height, prefix_rows(counts, width, k))) as u16,
        height: 1,
        kind: RowKind::Header(k as usize),
    }
}

/// Tile row `j` of section `k`: tiles `j * cols` up to `(j + 1) * cols`
/// (or the end), one line higher than the others when it is among the
/// first `extra_rows` tile rows.
pub open spec fn spec_tile_row(counts: Seq<nat>, width: u16, height: u16, k: int, j: int) -> VisualRow {
    let g = (prefix_rows(counts, width, k) + j) as nat;
    let cols = columns_for(width, counts[k]);
    VisualRow {
        y: (k + 1 + rows_height(counts, width, height, g)) as u16,
        height: (tile_height(counts, width, height) + if g < extra_rows(counts, width, height) {
            1nat
        } else {
            0nat
        }) as u16,
        kind: RowKind::Tiles {
            section: k as usize,
            start: (j * cols) as usize,
            end: min_nat(((j + 1) * cols) as nat, counts[k]) as usize,
            columns: cols as usize,
        },
    }
}

/// The plan for sections with tile counts `counts` in a body of
/// `width` x `height`: a header row per section, followed by its tile rows.
pub open spec fn plan_is(plan: Plan, counts: Seq<nat>, width: u16, height: u16) -> bool {
    &&& plan.rows@.len() == counts.len() + total_rows(counts, width)
    &&& plan.total_height == plan_total(counts, width, height)
    &&& plan.scrolling == is_scrolling(counts, width, height)
    &&& forall|k: int|
        0 <= k < counts.len() ==> plan.rows@[#[trigger] header_index(counts, width, k)] == spec_header_row(
            counts,
            width,
            height,
            k,
        )
    &&& forall|k: int, j: int|
        0 <= k < counts.len() && 0 <= j < section_rows(counts, width, k) ==> plan.rows@[#[trigger] tile_row_index(
            counts,
            width,
            k,
            j,
        )] == spec_tile_row(counts, width, height, k, j)
}


// ---------------------------------------------------------------------------
// Arithmetic facts
// ---------------------------------------------------------------------------

pub(crate) proof fn lemma_mul_step(g: nat, t: nat)
    by (nonlinear_arith)
    ensures
        (g + 1) * t == g * t + t,
{
}

pub(crate) proof fn lemma_mul_mono(a: nat, b: nat, t: nat)
    by (nonlinear_arith)
    requires
        a <= b,
    ensures
        a * t <= b * t,
{
}

pub(crate) proof fn lemma_mul_ge(g: nat, t: nat)
    by (nonlinear_arith)
    requires
        t >= 1,
    ensures
        g <= g * t,
{
}

pub(crate) proof fn lemma_ceil_lt(n: nat, c: nat, j: nat)
    requires
        c >= 1,
        j * c < n,
    ensures
        j < ((n + c - 1) as nat) / c,
{
    let q = ((n + c - 1) as nat) / c;
    let r = ((n + c - 1) as nat) % c;
    vstd::arithmetic::div_mod::lemma_fundamental_div_mod((n + c - 1) as int, c as int);
    assert((n + c - 1) as nat == q * c + r);
    if j >= q {
        lemma_mul_mono(q, j, c);
        assert(false);
    }
}

pub(crate) proof fn lemma_ceil_eq(n: nat, c: nat, j: nat)
    requires
        c >= 1,
        j * c >= n,
        j == 0 || (j - 1) * c < n,
    ensures
        j == ((n + c - 1) as nat) / c,
{
    let q = ((n + c - 1) as nat) / c;
    let r = ((n + c - 1) as nat) % c;
    vstd::arithmetic::div_mod::lemma_fundamental_div_mod((n + c - 1) as int, c as int);
    assert((n + c - 1) as nat == q * c + r);
    if j > 0 {
        lemma_ceil_lt(n, c, (j - 1) as nat);
    }
    if j < q {
        lemma_mul_mono(j + 1, q, c);
        lemma_mul_step(j, c);
    }
}

pub(crate) proof fn lemma_ceil_exec(n: nat, c: nat)
    requires
        c >= 1,
    ensures
        n / c + (if n % c != 0 {
            1nat
        } else {
            0nat
        }) == ((n + c - 1) as nat) / c,
{
    let q = n / c;
    let r = n % c;
    vstd::arithmetic::div_mod::lemma_fundamental_div_mod(n as int, c as int);
    let j = q + if r != 0 {
        1nat
    } else {
        0nat
    };
    lemma_mul_step(q, c);
    if r != 0 {
        assert(j * c == q * c + c);
        assert((j - 1) * c < n);
    } else {
        assert(j * c == n);
        if j > 0 {
            lemma_mul_step((j - 1) as nat, c);
        }
    }
    lemma_ceil_eq(n, c, j);
}

pub(crate) proof fn lemma_row_top_step(g: nat, t: nat, e: nat)
    ensures
        row_top(g + 1, t, e) == row_top(g, t, e) + t + if g < e {
            1nat
        } else {
            0nat
        },
{
    lemma_mul_step(g, t);
}

pub(crate) proof fn lemma_row_top_mono(g1: nat, g2: nat, t: nat, e: nat)
    requires
        g1 <= g2,
    ensures
        row_top(g1, t, e) <= row_top(g2, t, e),
{
    lemma_mul_mono(g1, g2, t);
}

pub(crate) proof fn lemma_prefix_mono(counts: Seq<nat>, width: u16, k1: int, k2: int)
    requires
        0 <= k1 <= k2,
    ensures
        prefix_rows(counts, width, k1) <= prefix_rows(counts, width, k2),
    decreases k2 - k1,
{
    if k1 < k2 {
        lemma_prefix_mono(counts, width, k1, k2 - 1);
    }
}

/// The canvas holds every header and every tile row.
pub(crate) proof fn lemma_total_bounds(counts: Seq<nat>, width: u16, height: u16)
    ensures
        counts.len() + total_rows(counts, width) <= plan_total(counts, width, height),
{
    let t = tile_height(counts, width, height);
    let g = total_rows(counts, width);
    lemma_mul_ge(g, t);
}

// ---------------------------------------------------------------------------
// Executable planner
// ---------------------------------------------------------------------------

/// A row names a section that exists, and a tile row a non-empty run of
/// that section's tiles no longer than its columns.
pub open spec fn row_ok(counts: Seq<nat>, row: VisualRow) -> bool {
    match row.kind {
        RowKind::Header(s) => s < counts.len(),
        RowKind::Tiles { section, start, end, columns } => {
            &&& section < counts.len()
            &&& start < end
            &&& end <= counts[section as int]
            &&& end - start <= columns
        },
    }
}

/// Every row of the plan is consistent with the sections.
pub open spec fn plan_consistent(counts: Seq<nat>, plan: Plan) -> bool {
    forall|i: int| 0 <= i < plan.rows@.len() ==> row_ok(counts, #[trigger] plan.rows@[i])
}

/// Every row of the plan ends inside the canvas.
pub open spec fn plan_bounded(plan: Plan) -> bool {
    forall|i: int| 0 <= i < plan.rows@.len() ==> plan.rows@[i].y + plan.rows@[i].height <= plan.total_height
}

/// The plan facts that do not change while the rows are pushed.
spec fn plan_frame(counts: Seq<nat>, width: u16, height: u16, tile_h: u16, extra0: u16) -> bool {
    &&& tile_h == tile_height(counts, width, height)
    &&& extra0 == extra_rows(counts, width, height)
    &&& plan_total(counts, width, height) <= u16::MAX
}

/// Pushes the header and the tile rows of section `k` (of `n` tiles in
/// `cols` columns) at height `y`; returns the height after them and the
/// extra lines left.
#[verifier::loop_isolation(false)]
#[verifier::rlimit(40)]
fn push_section(
    rows: &mut Vec<VisualRow>,
    y: u16,
    extra: u16,
    k: usize,
    n: usize,
    cols: usize,
    tile_h: u16,
    extra0: u16,
    Ghost(counts): Ghost<Seq<nat>>,
    Ghost(width): Ghost<u16>,
    Ghost(height): Ghost<u16>,
) -> (res: (u16, u16))
    requires
        plan_frame(counts, width, height, tile_h, extra0),
        k < counts.len(),
        n == counts[k as int],
        cols == columns_for(width, counts[k as int]),
        old(rows)@.len() == header_index(counts, width, k as int),
        y == k + rows_height(counts, width, height, prefix_rows(counts, width, k as int)),
        extra == extra0 - min_nat(prefix_rows(counts, width, k as int), extra0 as nat),
    ensures
        final(rows)@.len() == header_index(counts, width, k + 1),
        forall|i: int| 0 <= i < old(rows)@.len() ==> final(rows)@[i] == old(rows)@[i],
        final(rows)@[header_index(counts, width, k as int)] == spec_header_row(counts, width, height, k as int),
        forall|j2: int|
            0 <= j2 < section_rows(counts, width, k as int) ==> final(rows)@[#[trigger] tile_row_index(
                counts,
                width,
                k as int,
                j2,
            )] == spec_tile_row(counts, width, height, k as int, j2),
        res.0 == k + 1 + rows_height(counts, width, height, prefix_rows(counts, width, k + 1)),
        res.1 == extra0 - min_nat(prefix_rows(counts, width, k + 1), extra0 as nat),
        y <= res.0,
        forall|i: int|
            old(rows)@.len() <= i < final(rows)@.len() ==> final(rows)@[i].y + final(rows)@[i].height <= res.0,
        forall|i: int| old(rows)@.len() <= i < final(rows)@.len() ==> row_ok(counts, #[trigger] final(rows)@[i]),
{
    let ghost th = tile_h as nat;
    let ghost e0 = extra0 as nat;
    let ghost trc = total_rows(counts, width);
    let ghost pk = prefix_rows(counts, width, k as int);
    proof {
        lemma_prefix_mono(counts, width, k + 1, counts.len() as int);
        lemma_row_top_mono(pk, trc, th, e0);
        assert(pk + section_rows(counts, width, k as int) == prefix_rows(counts, width, k + 1));
        lemma_total_bounds(counts, width, height);
    }
    let y0 = y;
    rows.push(VisualRow { y, height: 1, kind: RowKind::Header(k) });
    let mut y = y + 1;
    let mut extra = extra;
    let mut start: usize = 0;
    let ghost mut j: nat = 0;
    while start < n
        invariant
            cols >= 1,
            start == min_nat(j * (cols as nat), n as nat),
            j == 0 || (j - 1) * cols < n,
            j <= section_rows(counts, width, k as int),
            rows@.len() == k + 1 + pk + j,
            y == k + 1 + row_top(pk + j, th, e0),
            extra == e0 - min_nat(pk + j, e0),
            forall|i: int| 0 <= i < old(rows)@.len() ==> rows@[i] == old(rows)@[i],
            forall|i: int| old(rows)@.len() <= i < rows@.len() ==> rows@[i].y + rows@[i].height <= y,
            forall|i: int| old(rows)@.len() <= i < rows@.len() ==> row_ok(counts, #[trigger] rows@[i]),
            y0 <= y,
            rows@[header_index(counts, width, k as int)] == spec_header_row(counts, width, height, k as int),
            forall|j2: int|
                0 <= j2 < j ==> rows@[#[trigger] tile_row_index(counts, width, k as int, j2)] == spec_tile_row(
                    counts,
                    width,
                    height,
                    k as int,
                    j2,
                ),
        decreases n - start,
    {
        let ghost g = pk + j;
        proof {
            lemma_ceil_lt(n as nat, cols as nat, j);
            lemma_row_top_step(g, th, e0);
            lemma_row_top_mono(g + 1, trc, th, e0);
            lemma_mul_step(j, cols as nat);
        }
        let end: usize = if n - start < cols {
            n
        } else {
            start + cols
        };
        let h: u16 = if extra > 0 {
            tile_h + 1
        } else {
            tile_h
        };
        extra = if extra > 0 {
            extra - 1
        } else {
            0
        };
        let ghost before = rows@;
        rows.push(VisualRow { y, height: h, kind: RowKind::Tiles { section: k, start, end, columns: cols } });
        proof {
            assert(tile_row_index(counts, width, k as int, j as int) == before.len());
            assert(rows@[tile_row_index(counts, width, k as int, j as int)] == spec_tile_row(
                counts,
                width,
                height,
                k as int,
                j as int,
            ));
        }
        y = y + h;
        start = end;
        proof {
            j = j + 1;
        }
    }
    proof {
        lemma_ceil_eq(n as nat, cols as nat, j);
    }
    (y, extra)
}

/// Plans the canvas for the sections of `app` in `body`: tiles share the
/// space evenly, and below the floor they keep the floor size behind a
/// scroll.
#[verifier::loop_isolation(false)]
pub fn plan_rows(app: &App, body: Rect) -> (plan: Plan)
    requires
        plan_total(app.tile_counts(), body.width, body.height) <= u16::MAX,
    ensures
        plan_is(plan, app.tile_counts(), body.width, body.height),
        plan_bounded(plan),
        plan_consistent(app.tile_counts(), plan),
{
    let ghost counts = app.tile_counts();
    let ghost width = body.width;
    let ghost height = body.height;
    let nsec = app.sections.len();
    let w: u16 = if body.width == 0 {
        1
    } else {
        body.width
    };
    let per_row: usize = if w / MIN_TILE_W == 0 {
        1
    } else {
        (w / MIN_TILE_W) as usize
    };
    proof {
        lemma_total_bounds(counts, width, height);
    }
    let mut columns_per_section: Vec<usize> = Vec::new();
    let mut tile_row_count: u16 = 0;
    let mut k: usize = 0;
    while k < nsec
        invariant
            k <= nsec,
            columns_per_section@.len() == k,
            forall|i: int| 0 <= i < k ==> #[trigger] columns_per_section@[i] == columns_for(width, counts[i]),
            tile_row_count == prefix_rows(counts, width, k as int),
        decreases nsec - k,
    {
        let n = app.sections[k].tiles.len();
        let m: usize = if n == 0 {
            1
        } else {
            n
        };
        let cols: usize = if per_row <= m {
            per_row
        } else {
            m
        };
        proof {
            assert(counts[k as int] == n);
            assert(cols == columns_for(width, counts[k as int]));
            lemma_ceil_exec(n as nat, cols as nat);
            lemma_prefix_mono(counts, width, k + 1, nsec as int);
        }
        let rows: usize = n / cols + if n % cols != 0 {
            1
        } else {
            0
        };
        columns_per_section.push(cols);
        tile_row_count = tile_row_count + rows as u16;
        k = k + 1;
    }
    let header_count: u16 = nsec as u16;
    let room: u16 = if body.height >= header_count {
        body.height - header_count
    } else {
        0
    };
    let fit_h: u16 = if tile_row_count == 0 {
        MIN_TILE_H
    } else {
        room / tile_row_count
    };
    let tile_h: u16;
    let extra0: u16;
    let scrolling: bool;
    if fit_h >= MIN_TILE_H {
        tile_h = fit_h;
        extra0 = if tile_row_count == 0 {
            0
        } else {
            room % tile_row_count
        };
        scrolling = false;
    } else {
        tile_h = MIN_TILE_H;
        extra0 = 0;
        scrolling = true;
    }
    proof {
        assert(room == avail(counts, height));
        assert(fit_h == fit_height(counts, width, height));
        assert(scrolling == is_scrolling(counts, width, height));
        assert(tile_h == tile_height(counts, width, height));
        assert(extra0 == extra_rows(counts, width, height));
    }
    let mut rows: Vec<VisualRow> = Vec::new();
    let mut y: u16 = 0;
    let mut extra: u16 = extra0;
    let mut k: usize = 0;
    while k < nsec
        invariant
            k <= nsec,
            plan_frame(counts, width, height, tile_h, extra0),
            rows@.len() == header_index(counts, width, k as int),
            y == k + rows_height(counts, width, height, prefix_rows(counts, width, k as int)),
            extra == extra0 - min_nat(prefix_rows(counts, width, k as int), extra0 as nat),
            forall|k2: int|
                0 <= k2 < k ==> rows@[#[trigger] header_index(counts, width, k2)] == spec_header_row(
                    counts,
                    width,
                    height,
                    k2,
                ),
            forall|k2: int, j2: int|
                0 <= k2 < k && 0 <= j2 < section_rows(counts, width, k2) ==> rows@[#[trigger] tile_row_index(
                    counts,
                    width,
                    k2,
                    j2,
                )] == spec_tile_row(counts, width, height, k2, j2),
            forall|i: int| 0 <= i < rows@.len() ==> rows@[i].y + rows@[i].height <= y,
            forall|i: int| 0 <= i < rows@.len() ==> row_ok(counts, #[trigger] rows@[i]),
        decreases nsec - k,
    {
        let n = app.sections[k].tiles.len();
        let cols = columns_per_section[k];
        let ghost before = rows@;
        proof {
            assert(counts[k as int] == n);
            assert forall|k2: int| 0 <= k2 < k implies header_index(counts, width, k2) < before.len() by {
                lemma_prefix_mono(counts, width, k2, k as int);
            }
            assert forall|k2: int, j2: int|
                0 <= k2 < k && 0 <= j2 < section_rows(counts, width, k2) implies tile_row_index(
                counts,
                width,
                k2,
                j2,
            ) < before.len() by {
                lemma_prefix_mono(counts, width, k2 + 1, k as int);
            }
        }
        let r = push_section(
            &mut rows,
            y,
            extra,
            k,
            n,
            cols,
            tile_h,
            extra0,
            Ghost(counts),
            Ghost(width),
            Ghost(height),
        );
        y = r.0;
        extra = r.1;
        k = k + 1;
    }
    Plan { rows, total_height: y, scrolling }
}


/// Whether planning `app` in a body of `width` x `height` fits the canvas
/// in `u16` rows, which `plan_rows` needs.
pub fn plan_fits(app: &App, width: u16, height: u16) -> (ok: bool)
    ensures
        ok == (plan_total(app.tile_counts(), width, height) <= u16::MAX),
{
    let ghost counts = app.tile_counts();
    proof {
        lemma_total_bounds(counts, width, height);
    }
    let nsec = app.sections.len();
    if nsec > 65535 {
        return false;
    }
    let w: u16 = if width == 0 {
        1
    } else {
        width
    };
    let per_row: usize = if w / MIN_TILE_W == 0 {
        1
    } else {
        (w / MIN_TILE_W) as usize
    };
    let mut trc: u64 = 0;
    let mut k: usize = 0;
    while k < nsec
        invariant
            k <= nsec,
            nsec == counts.len(),
            counts == app.tile_counts(),
            per_row as nat == (if w / 60 == 0 {
                1nat
            } else {
                (w / 60) as nat
            }),
            w as nat == (if width == 0 {
                1nat
            } else {
                width as nat
            }),
            trc == prefix_rows(counts, width, k as int),
            trc <= 65535,
            counts.len() + total_rows(counts, width) <= plan_total(counts, width, height),
        decreases nsec - k,
    {
        let n = app.sections[k].tiles.len();
        let m: usize = if n == 0 {
            1
        } else {
            n
        };
        let cols: usize = if per_row <= m {
            per_row
        } else {
            m
        };
        proof {
            assert(counts[k as int] == n);
            assert(cols == columns_for(width, counts[k as int]));
            lemma_ceil_exec(n as nat, cols as nat);
            lemma_prefix_mono(counts, width, k + 1, nsec as int);
        }
        let q: usize = n / cols;
        let rows: u64 = if q > 65535 {
            65536
        } else if n % cols != 0 {
            (q + 1) as u64
        } else {
            q as u64
        };
        if rows + trc > 65535 {
            proof {
                assert(section_rows(counts, width, k as int) >= rows);
            }
            return false;
        }
        trc = trc + rows;
        k = k + 1;
    }
    proof {
        assert(trc == total_rows(counts, width));
    }
    let room: u64 = if height as usize >= nsec {
        (height as usize - nsec) as u64
    } else {
        0
    };
    let fit_h: u64 = if trc == 0 {
        15
    } else {
        room / trc
    };
    let tile_h: u64 = if fit_h >= 15 {
        fit_h
    } else {
        15
    };
    let extra: u64 = if fit_h < 15 || trc == 0 {
        0
    } else {
        room % trc
    };
    let bumped: u64 = if trc <= extra {
        trc
    } else {
        extra
    };
    proof {
        assert(room == avail(counts, height));
        assert(tile_h == tile_height(counts, width, height));
        assert(extra == extra_rows(counts, width, height));
        assert(trc * tile_h <= 65535 * 65535) by (nonlinear_arith)
            requires
                trc <= 65535,
                tile_h <= 65535,
        ;
    }
    let total: u64 = nsec as u64 + trc * tile_h + bumped;
    total <= 65535
}

/// Whether the tile `sel` lies in this row.
pub open spec fn row_has_tile(row: VisualRow, sel: (usize, usize)) -> bool {
    match row.kind {
        RowKind::Tiles { section, start, end, .. } => section == sel.0 && start <= sel.1 && sel.1 < end,
        _ => false,
    }
}

/// The first row, from index `i` on, that holds the tile `sel`.
pub open spec fn first_row_from(rows: Seq<VisualRow>, sel: (usize, usize), i: int) -> Option<int>
    decreases rows.len() - i,
{
    if i < 0 || i >= rows.len() {
        None
    } else if row_has_tile(rows[i], sel) {
        Some(i)
    } else {
        first_row_from(rows, sel, i + 1)
    }
}

pub open spec fn sat_sub(a: int, b: int) -> int {
    if a >= b {
        a - b
    } else {
        0
    }
}

/// The scroll offset: 0 when the canvas does not scroll or fits, or when no
/// row holds the selected tile. Otherwise the offset persists: the current
/// offset `scroll` stays while the selected row lies fully inside the
/// viewport; else the nearest offset that shows the row: when the row is
/// above the viewport and lower than it, one line above the row (its header,
/// when it is the first row of its section); else the row's bottom at the
/// viewport's bottom (the smallest offset that shows the whole row, and the
/// line above it whenever both fit).
pub open spec fn spec_scroll_offset(
    rows: Seq<VisualRow>,
    total: u16,
    scrolling: bool,
    sel: (usize, usize),
    scroll: u16,
    viewport: u16,
) -> int {
    if !scrolling || total <= viewport {
        0
    } else {
        match first_row_from(rows, sel, 0) {
            None => 0,
            Some(r) => {
                let row = rows[r];
                let top = row.y as int;
                let bottom = row.y + row.height;
                if scroll <= top && bottom <= scroll + viewport {
                    scroll as int
                } else if row.height < viewport && top < scroll {
                    sat_sub(top, 1)
                } else {
                    sat_sub(bottom, viewport as int)
                }
            },
        }
    }
}

/// The scroll offset that keeps the selected tile visible in a viewport of
/// `viewport` lines, starting from the current offset `app.scroll`.
pub fn scroll_offset(app: &App, plan: &Plan, viewport: u16) -> (off: u16)
    requires
        plan_bounded(*plan),
    ensures
        off == spec_scroll_offset(
            plan.rows@,
            plan.total_height,
            plan.scrolling,
            app.selected,
            app.scroll,
            viewport,
        ),
{
    if !plan.scrolling || plan.total_height <= viewport {
        return 0;
    }
    let n = plan.rows.len();
    let mut i: usize = 0;
    while i < n
        invariant
            n == plan.rows@.len(),
            0 <= i <= n,
            first_row_from(plan.rows@, app.selected, 0) == first_row_from(plan.rows@, app.selected, i as int),
            plan_bounded(*plan),
            plan.scrolling,
            plan.total_height > viewport,
        decreases n - i,
    {
        let row = plan.rows[i];
        let found = match row.kind {
            RowKind::Tiles { section, start, end, .. } => section == app.selected.0 && start <= app.selected.1
                && app.selected.1 < end,
            _ => false,
        };
        if found {
            let bottom: u32 = row.y as u32 + row.height as u32;
            let scroll = app.scroll;
            if scroll <= row.y && bottom <= scroll as u32 + viewport as u32 {
                return scroll;
            } else if row.height < viewport && row.y < scroll {
                return if row.y >= 1 {
                    row.y - 1
                } else {
                    0
                };
            } else {
                return if bottom >= viewport as u32 {
                    (bottom - viewport as u32) as u16
                } else {
                    0
                };
            }
        }
        i = i + 1;
    }
    0
}

impl App {
    /// Moves the persistent scroll offset to keep the selected tile in a
    /// viewport of `viewport` lines.
    pub fn update_scroll(&mut self, plan: &Plan, viewport: u16)
        requires
            plan_bounded(*plan),
        ensures
            final(self).scroll == spec_scroll_offset(
                plan.rows@,
                plan.total_height,
                plan.scrolling,
                old(self).selected,
                old(self).scroll,
                viewport,
            ),
            final(self).sections == old(self).sections,
            final(self).selected == old(self).selected,
            final(self).confirming_close == old(self).confirming_close,
    {
        let off = scroll_offset(self, plan, viewport);
        self.scroll = off;
    }
}

/// How many tiles the rows before `r` hold, up to `usize::MAX`.
pub open spec fn tiles_before(rows: Seq<VisualRow>, r: int) -> int
    decreases r,
{
    if r <= 0 {
        0
    } else {
        let prev = tiles_before(rows, r - 1);
        let add: int = match rows[r - 1].kind {
            RowKind::Tiles { start, end, .. } => sat_sub(end as int, start as int),
            _ => 0,
        };
        if prev + add > usize::MAX {
            usize::MAX as int
        } else {
            prev + add
        }
    }
}

/// Whether a row shows in the viewport of `viewport` lines from `offset`.
pub open spec fn row_visible(row: VisualRow, offset: u16, viewport: u16) -> bool {
    !(row.y + row.height <= offset || row.y >= offset + viewport)
}

/// The canvas rows that the viewport shows, top to bottom: row `offset + k`
/// for each line `k` of the viewport, as long as the canvas (of `total`
/// rows) has one there.
pub fn canvas_rows(offset: u16, viewport: u16, total: u16) -> (rows: Vec<u16>)
    ensures
        rows@.len() == if viewport as int <= sat_sub(total as int, offset as int) {
            viewport as int
        } else {
            sat_sub(total as int, offset as int)
        },
        forall|k: int| 0 <= k < rows@.len() ==> #[trigger] rows@[k] == offset + k,
{
    let mut rows: Vec<u16> = Vec::new();
    let mut dy: u16 = 0;
    while dy < viewport && offset < total && dy < total - offset
        invariant
            dy <= viewport,
            rows@.len() == dy,
            dy <= sat_sub(total as int, offset as int),
            forall|k: int| 0 <= k < rows@.len() ==> #[trigger] rows@[k] == offset + k,
        decreases viewport - dy,
    {
        rows.push(offset + dy);
        dy = dy + 1;
    }
    rows
}

} // verus!
