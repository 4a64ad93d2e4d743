//! Laws of the screen state: the jump keys reach exactly the tiles there
//! are, a move and the opposite move cancel out, a fresh screen selects a
//! real tile, and a live refresh keeps the grid's structure.

use vstd::prelude::*;
use crate::app::{
    first_layout, first_pane, focused_selection, moved_vertical, initial_selection, last_focused, locate, moved_horizontal, nth_tile,
    refreshed_section, refreshed_sections, section_of, sections_of, tab_panes, tile_of, workspace_tabs,
    App, SectionView,
};
use crate::herdr::{LayoutInfo, PaneInfo, Snapshot, TabInfo};

verus! {

/// The number of tiles in the sections before section `k`.
pub open spec fn tiles_before_section(counts: Seq<nat>, k: int) -> nat
    decreases k,
{
    if k <= 0 {
        0
    } else {
        tiles_before_section(counts, k - 1) + counts[k - 1]
    }
}

/// The number of tiles in all sections.
pub open spec fn total_tiles(counts: Seq<nat>) -> nat {
    tiles_before_section(counts, counts.len() as int)
}

/// Where `locate` lands, from section `k` on.
pub proof fn lemma_locate(counts: Seq<nat>, m: nat, k: int)
    requires
        0 <= k <= counts.len(),
    ensures
        (locate(counts, m, k) is Some) == (m + tiles_before_section(counts, k) < total_tiles(counts)),
        locate(counts, m, k) matches Some(p) ==> {
            &&& k <= p.0 < counts.len()
            &&& 0 <= p.1 < counts[p.0]
            &&& tiles_before_section(counts, p.0) + p.1 == m + tiles_before_section(counts, k)
        },
    decreases counts.len() - k,
{
    if k < counts.len() {
        if m >= counts[k] {
            lemma_locate(counts, (m - counts[k]) as nat, k + 1);
        } else {
            lemma_before_mono(counts, k + 1, counts.len() as int);
        }
    }
}

pub(crate) proof fn lemma_before_mono(counts: Seq<nat>, k1: int, k2: int)
    requires
        0 <= k1 <= k2,
    ensures
        tiles_before_section(counts, k1) <= tiles_before_section(counts, k2),
    decreases k2 - k1,
{
    if k1 < k2 {
        lemma_before_mono(counts, k1, k2 - 1);
    }
}

/// Direct jump: key `n` reaches a tile exactly when `1 <= n <=` the number
/// of tiles, and then it is the `n`th tile in flat order (sections in order,
/// tiles in order within a section).
pub proof fn lemma_nth_tile(counts: Seq<nat>, n: usize)
    ensures
        (nth_tile(counts, n) is Some) == (1 <= n && n <= total_tiles(counts)),
        nth_tile(counts, n) matches Some(p) ==> {
            &&& 0 <= p.0 < counts.len()
            &&& 0 <= p.1 < counts[p.0]
            &&& tiles_before_section(counts, p.0) + p.1 + 1 == n
        },
{
    if n >= 1 {
        lemma_locate(counts, (n - 1) as nat, 0);
    }
}

/// The last focused pane: a focused pane of the list with no focused pane
/// after it; there is none only when no pane is focused.
pub proof fn lemma_last_focused(ps: Seq<PaneInfo>)
    ensures
        last_focused(ps) matches Some(i) ==> {
            &&& 0 <= i < ps.len()
            &&& ps[i].focused
            &&& forall|j: int| i < j < ps.len() ==> !(#[trigger] ps[j]).focused
        },
        last_focused(ps) is None ==> forall|j: int| 0 <= j < ps.len() ==> !(#[trigger] ps[j]).focused,
    decreases ps.len(),
{
    if ps.len() > 0 && !ps.last().focused {
        lemma_last_focused(ps.drop_last());
        assert forall|j: int| 0 <= j < ps.len() - 1 implies ps[j] == ps.drop_last()[j] by {}
    }
}

/// The focused selection: the last focused pane of the last focused tab
/// that has a focused pane; there is none only when no focused tab has a
/// focused pane.
pub proof fn lemma_focused_selection(tabs: Seq<TabInfo>, panes: Seq<PaneInfo>)
    ensures
        focused_selection(tabs, panes) matches Some(p) ==> {
            &&& 0 <= p.0 < tabs.len()
            &&& 0 <= p.1 < tab_panes(panes, tabs[p.0].tab_id@).len()
            &&& tabs[p.0].focused
            &&& last_focused(tab_panes(panes, tabs[p.0].tab_id@)) == Some(p.1)
        },
        focused_selection(tabs, panes) is None ==> forall|k: int|
            0 <= k < tabs.len() && (#[trigger] tabs[k]).focused ==> last_focused(
                tab_panes(panes, tabs[k].tab_id@),
            ) is None,
    decreases tabs.len(),
{
    if tabs.len() > 0 {
        let t = tabs.last();
        lemma_last_focused(tab_panes(panes, t.tab_id@));
        if !(t.focused && last_focused(tab_panes(panes, t.tab_id@)) is Some) {
            lemma_focused_selection(tabs.drop_last(), panes);
            let f = focused_selection(tabs.drop_last(), panes);
            if f is Some {
                let pair = f->0;
                assert(tabs.drop_last()[pair.0] == tabs[pair.0]);
            } else {
                assert forall|k: int| 0 <= k < tabs.len() - 1 implies tabs[k] == tabs.drop_last()[k] by {}
            }
        }
    }
}

proof fn lemma_workspace_tabs_len(tabs: Seq<TabInfo>, ws: Seq<char>)
    ensures
        workspace_tabs(tabs, ws).len() <= tabs.len(),
    decreases tabs.len(),
{
    if tabs.len() > 0 {
        lemma_workspace_tabs_len(tabs.drop_last(), ws);
    }
}

proof fn lemma_tab_panes_len(panes: Seq<PaneInfo>, tab_id: Seq<char>)
    ensures
        tab_panes(panes, tab_id).len() <= panes.len(),
    decreases panes.len(),
{
    if panes.len() > 0 {
        lemma_tab_panes_len(panes.drop_last(), tab_id);
    }
}

/// A fresh screen selects the focused pane of the focused tab: when some
/// focused tab of the workspace has a focused pane, the selection is a
/// focused tile (the last one) of a focused tab; otherwise it is the first
/// tile.
pub proof fn lemma_initial_selection(snap: Snapshot, ws: Seq<char>)
    ensures
        (exists|k: int, i: int|
            0 <= k < workspace_tabs(snap.tabs@, ws).len() && (#[trigger] workspace_tabs(snap.tabs@, ws)[k]).focused
                && 0 <= i < sections_of(snap, ws)[k].tiles.len() && (#[trigger] sections_of(
                snap,
                ws,
            )[k].tiles[i]).focused) ==> {
            let sel = initial_selection(snap, ws);
            let sv = sections_of(snap, ws);
            &&& sel.0 < sv.len()
            &&& workspace_tabs(snap.tabs@, ws)[sel.0 as int].focused
            &&& sel.1 < sv[sel.0 as int].tiles.len()
            &&& sv[sel.0 as int].tiles[sel.1 as int].focused
            &&& forall|i: int| sel.1 < i < sv[sel.0 as int].tiles.len() ==> !(#[trigger] sv[sel.0 as int].tiles[i]).focused
        },
        !(exists|k: int, i: int|
            0 <= k < workspace_tabs(snap.tabs@, ws).len() && (#[trigger] workspace_tabs(snap.tabs@, ws)[k]).focused
                && 0 <= i < sections_of(snap, ws)[k].tiles.len() && (#[trigger] sections_of(
                snap,
                ws,
            )[k].tiles[i]).focused) ==> initial_selection(snap, ws) == (0usize, 0usize),
{
    let tabs = workspace_tabs(snap.tabs@, ws);
    let sv = sections_of(snap, ws);
    lemma_focused_selection(tabs, snap.panes@);
    match focused_selection(tabs, snap.panes@) {
        Some(p) => {
            let ps = tab_panes(snap.panes@, tabs[p.0].tab_id@);
            lemma_last_focused(ps);
            assert(sv[p.0] == section_of(tabs[p.0], snap));
            assert(sv[p.0].tiles == ps.map_values(|q: PaneInfo| tile_of(q)));
            assert(snap.tabs.len() == snap.tabs@.len() && snap.panes.len() == snap.panes@.len());
            lemma_workspace_tabs_len(snap.tabs@, ws);
            lemma_tab_panes_len(snap.panes@, tabs[p.0].tab_id@);
        },
        None => {
            assert forall|k: int, i: int|
                0 <= k < tabs.len() && (#[trigger] tabs[k]).focused && 0 <= i < sv[k].tiles.len() implies !(
                #[trigger] sv[k].tiles[i]).focused by {
                let ps = tab_panes(snap.panes@, tabs[k].tab_id@);
                lemma_last_focused(ps);
                assert(sv[k] == section_of(tabs[k], snap));
                assert(sv[k].tiles[i] == tile_of(ps[i]));
            }
        },
    }
}

/// The screen with another selection.
pub open spec fn with_selection(app: App, sel: (usize, usize)) -> App {
    App { sections: app.sections, selected: sel, scroll: app.scroll, confirming_close: app.confirming_close }
}

/// Moving along a section by `delta` and then by `-delta` comes back to
/// the same tile.
pub proof fn lemma_horizontal_round_trip(app: App, delta: int)
    requires
        app.wf(),
        app.selected.0 < app.sections@.len(),
        app.tile_count(app.selected.0 as int) > 0,
    ensures
        moved_horizontal(with_selection(app, moved_horizontal(app, delta)), -delta) == app.selected,
{
    let (s, t) = app.selected;
    let n = app.tile_count(s as int) as int;
    let a = (t + delta) % n;
    let q = (t + delta) / n;
    vstd::std_specs::vec::axiom_spec_len(&app.sections@[s as int].tiles);
    vstd::arithmetic::div_mod::lemma_fundamental_div_mod(t + delta, n);
    vstd::arithmetic::div_mod::lemma_mod_bound(t + delta, n);
    assert(0 <= a < n);
    let first = moved_horizontal(app, delta);
    assert(first == (s, a as usize));
    let app2 = with_selection(app, first);
    assert(app2.tile_count(s as int) == n);
    assert((a as usize) as int == a);
    assert(a - delta == (-q) * n + t) by (nonlinear_arith)
        requires
            t + delta == n * q + a,
    ;
    vstd::arithmetic::div_mod::lemma_fundamental_div_mod_converse(a - delta, n, -q, t as int);
    assert(moved_horizontal(app2, -delta) == (s, ((a - delta) % n) as usize));
}

/// A live refresh keeps the grid's structure: every section keeps its tab,
/// label, number and tiles, and every tile keeps its pane, title, agent,
/// focus and preview; only zoom states and statuses change.
pub proof fn lemma_refresh_keeps_structure(s: SectionView, snap: Snapshot)
    ensures
        refreshed_section(s, snap).tab_id == s.tab_id,
        refreshed_section(s, snap).label == s.label,
        refreshed_section(s, snap).number == s.number,
        refreshed_section(s, snap).tiles.len() == s.tiles.len(),
        forall|i: int|
            0 <= i < s.tiles.len() ==> {
                let t = #[trigger] refreshed_section(s, snap).tiles[i];
                &&& t.pane_id == s.tiles[i].pane_id
                &&& t.title == s.tiles[i].title
                &&& t.agent == s.tiles[i].agent
                &&& t.focused == s.tiles[i].focused
                &&& t.preview == s.tiles[i].preview
            },
{
}

/// A whole live refresh (the reads of all previews, then the snapshot, if
/// any) keeps the grid's structure as it was when the screen opened: the
/// same sections with the same tab, label, number and tile count, and the
/// same tiles with the same pane, title, agent and focus. Only previews,
/// statuses and zoom states change.
pub proof fn lemma_live_refresh_keeps_structure(
    sv: Seq<SectionView>,
    reads: Seq<Vec<Result<String, String>>>,
    snapshot: Option<Snapshot>,
)
    ensures
        refreshed_sections(sv, reads, snapshot).len() == sv.len(),
        forall|si: int|
            0 <= si < sv.len() ==> {
                let r = #[trigger] refreshed_sections(sv, reads, snapshot)[si];
                &&& r.tab_id == sv[si].tab_id
                &&& r.label == sv[si].label
                &&& r.number == sv[si].number
                &&& r.tiles.len() == sv[si].tiles.len()
                &&& forall|ti: int|
                    0 <= ti < sv[si].tiles.len() ==> {
                        let t = #[trigger] r.tiles[ti];
                        &&& t.pane_id == sv[si].tiles[ti].pane_id
                        &&& t.title == sv[si].tiles[ti].title
                        &&& t.agent == sv[si].tiles[ti].agent
                        &&& t.focused == sv[si].tiles[ti].focused
                    }
            },
{
}

proof fn lemma_first_pane_at(panes: Seq<PaneInfo>, id: Seq<char>, i: int, j: int)
    requires
        0 <= i <= j < panes.len(),
        panes[j].pane_id@ == id,
        forall|k: int| i <= k < j ==> (#[trigger] panes[k]).pane_id@ != id,
    ensures
        first_pane(panes, id, i) == Some(j),
    decreases j - i,
{
    if i < j {
        lemma_first_pane_at(panes, id, i + 1, j);
    }
}

proof fn lemma_no_pane(panes: Seq<PaneInfo>, id: Seq<char>, i: int)
    requires
        0 <= i,
        forall|k: int| i <= k < panes.len() ==> (#[trigger] panes[k]).pane_id@ != id,
    ensures
        first_pane(panes, id, i) is None,
    decreases panes.len() - i,
{
    if i < panes.len() {
        lemma_no_pane(panes, id, i + 1);
    }
}

proof fn lemma_first_layout_at(layouts: Seq<LayoutInfo>, id: Seq<char>, i: int, j: int)
    requires
        0 <= i <= j < layouts.len(),
        layouts[j].tab_id@ == id,
        forall|k: int| i <= k < j ==> (#[trigger] layouts[k]).tab_id@ != id,
    ensures
        first_layout(layouts, id, i) == Some(j),
    decreases j - i,
{
    if i < j {
        lemma_first_layout_at(layouts, id, i + 1, j);
    }
}

proof fn lemma_no_layout(layouts: Seq<LayoutInfo>, id: Seq<char>, i: int)
    requires
        0 <= i,
        forall|k: int| i <= k < layouts.len() ==> (#[trigger] layouts[k]).tab_id@ != id,
    ensures
        first_layout(layouts, id, i) is None,
    decreases layouts.len() - i,
{
    if i < layouts.len() {
        lemma_no_layout(layouts, id, i + 1);
    }
}

/// A refresh takes each tile's status from the snapshot: when pane `j` is
/// the first pane of the snapshot with the tile's pane id, the tile gets
/// that pane's agent status, whatever it is.
pub proof fn lemma_refresh_takes_status(s: SectionView, snap: Snapshot, ti: int, j: int)
    requires
        0 <= ti < s.tiles.len(),
        0 <= j < snap.panes@.len(),
        snap.panes@[j].pane_id@ == s.tiles[ti].pane_id,
        forall|k: int| 0 <= k < j ==> (#[trigger] snap.panes@[k]).pane_id@ != s.tiles[ti].pane_id,
    ensures
        refreshed_section(s, snap).tiles[ti].status == snap.panes@[j].agent_status@,
{
    lemma_first_pane_at(snap.panes@, s.tiles[ti].pane_id, 0, j);
}

/// A tile whose pane is not in the snapshot keeps its last status.
pub proof fn lemma_refresh_keeps_lost_status(s: SectionView, snap: Snapshot, ti: int)
    requires
        0 <= ti < s.tiles.len(),
        forall|k: int| 0 <= k < snap.panes@.len() ==> (#[trigger] snap.panes@[k]).pane_id@ != s.tiles[ti].pane_id,
    ensures
        refreshed_section(s, snap).tiles[ti].status == s.tiles[ti].status,
{
    lemma_no_pane(snap.panes@, s.tiles[ti].pane_id, 0);
}

/// A refresh takes each section's zoom state from the first layout of its
/// tab in the snapshot; a tab with no layout keeps its zoom state.
pub proof fn lemma_refresh_zoom(s: SectionView, snap: Snapshot, j: int)
    requires
        0 <= j <= snap.layouts@.len(),
        forall|k: int| 0 <= k < j ==> (#[trigger] snap.layouts@[k]).tab_id@ != s.tab_id,
        j < snap.layouts@.len() ==> snap.layouts@[j].tab_id@ == s.tab_id,
    ensures
        j < snap.layouts@.len() ==> refreshed_section(s, snap).zoomed == snap.layouts@[j].zoomed,
        j == snap.layouts@.len() ==> refreshed_section(s, snap).zoomed == s.zoomed,
{
    if j < snap.layouts@.len() {
        lemma_first_layout_at(snap.layouts@, s.tab_id, 0, j);
    } else {
        lemma_no_layout(snap.layouts@, s.tab_id, 0);
    }
}

/// After a whole live refresh with a snapshot, a tile whose pane id first
/// occurs at pane `j` of the snapshot shows that pane's agent status.
pub proof fn lemma_live_refresh_status(
    sv: Seq<SectionView>,
    reads: Seq<Vec<Result<String, String>>>,
    snap: Snapshot,
    si: int,
    ti: int,
    j: int,
)
    requires
        0 <= si < sv.len(),
        0 <= ti < sv[si].tiles.len(),
        0 <= j < snap.panes@.len(),
        snap.panes@[j].pane_id@ == sv[si].tiles[ti].pane_id,
        forall|k: int| 0 <= k < j ==> (#[trigger] snap.panes@[k]).pane_id@ != sv[si].tiles[ti].pane_id,
    ensures
        refreshed_sections(sv, reads, Some(snap))[si].tiles[ti].status == snap.panes@[j].agent_status@,
{
    let after = crate::app::section_after_reads(sv[si], crate::app::read_row(reads, si));
    assert(after.tiles[ti].pane_id == sv[si].tiles[ti].pane_id);
    lemma_refresh_takes_status(after, snap, ti, j);
}

/// Moving across sections is clamped, with no wrap-around: the section
/// index moves by `delta` but stays within the sections, and the tile index
/// is kept when the new section has that tile, else it becomes that
/// section's last tile (0 when it has none).
pub proof fn lemma_vertical_move(app: App, delta: int)
    ensures
        app.sections@.len() == 0 ==> moved_vertical(app, delta) == app.selected,
        app.sections@.len() > 0 ==> {
            let r = moved_vertical(app, delta).0 as int;
            let t = moved_vertical(app, delta).1 as int;
            let len = app.sections@.len() as int;
            let s = app.selected.0 as int;
            let cnt = app.tile_count(r) as int;
            &&& 0 <= r < len
            &&& 0 <= s + delta < len ==> r == s + delta
            &&& s + delta < 0 ==> r == 0
            &&& s + delta >= len ==> r == len - 1
            &&& app.selected.1 < cnt ==> t == app.selected.1
            &&& app.selected.1 >= cnt && cnt > 0 ==> t == cnt - 1
            &&& cnt == 0 ==> t == 0
        },
{
    if app.sections@.len() > 0 {
        assert(app.sections.len() == app.sections@.len());
        let r = moved_vertical(app, delta).0 as int;
        assert(app.sections@[r].tiles.len() == app.sections@[r].tiles@.len());
    }
}

/// Moving along a section by one wraps around: right from the last tile
/// goes to the first, left from the first goes to the last; otherwise the
/// tile index moves by one. The section stays.
pub proof fn lemma_horizontal_step(app: App)
    requires
        app.selected.0 < app.sections@.len(),
        app.selected.1 < app.tile_count(app.selected.0 as int),
    ensures
        moved_horizontal(app, 1) == (
            app.selected.0,
            if app.selected.1 + 1 < app.tile_count(app.selected.0 as int) {
                (app.selected.1 + 1) as usize
            } else {
                0usize
            },
        ),
        moved_horizontal(app, -1) == (
            app.selected.0,
            if app.selected.1 > 0 {
                (app.selected.1 - 1) as usize
            } else {
                (app.tile_count(app.selected.0 as int) - 1) as usize
            },
        ),
{
    let cnt = app.tile_count(app.selected.0 as int) as int;
    let t = app.selected.1 as int;
    if t + 1 < cnt {
        vstd::arithmetic::div_mod::lemma_small_mod((t + 1) as nat, cnt as nat);
    } else {
        vstd::arithmetic::div_mod::lemma_mod_self_0(cnt);
    }
    if t > 0 {
        vstd::arithmetic::div_mod::lemma_small_mod((t - 1) as nat, cnt as nat);
    } else {
        vstd::arithmetic::div_mod::lemma_mod_add_multiples_vanish(-1, cnt);
        vstd::arithmetic::div_mod::lemma_small_mod((cnt - 1) as nat, cnt as nat);
    }
}

} // verus!
