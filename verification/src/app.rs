//! The Mission Control model: sections (tabs) of tiles (panes), the
//! selection, and what each key does to them.

use vstd::prelude::*;
use crate::ansi::{Line, LineView, lines_view, parse, spec_parse};
use crate::herdr::{LayoutInfo, PaneInfo, Snapshot, TabInfo};

verus! {

/// One pane, shown as a tile.
pub struct Tile {
    pub pane_id: String,
    pub title: String,
    pub agent: Option<String>,
    pub status: String,
    pub focused: bool,
    pub preview: Vec<Line>,
}

/// One tab, shown as a header and a grid of tiles.
pub struct Section {
    pub tab_id: String,
    pub label: String,
    pub number: usize,
    pub zoomed: bool,
    pub tiles: Vec<Tile>,
}

/// The whole screen state.
pub struct App {
    pub sections: Vec<Section>,
    /// (section index, tile index inside the section)
    pub selected: (usize, usize),
    /// Persistent scroll offset in virtual rows.
    pub scroll: u16,
    /// A close confirmation is open for the selected pane.
    pub confirming_close: bool,
}

/// The value of a tile.
pub struct TileView {
    pub pane_id: Seq<char>,
    pub title: Seq<char>,
    pub agent: Option<Seq<char>>,
    pub status: Seq<char>,
    pub focused: bool,
    pub preview: Seq<LineView>,
}

/// The value of a section.
pub struct SectionView {
    pub tab_id: Seq<char>,
    pub label: Seq<char>,
    pub number: usize,
    pub zoomed: bool,
    pub tiles: Seq<TileView>,
}

pub open spec fn opt_view(o: Option<String>) -> Option<Seq<char>> {
    match o {
        Some(s) => Some(s@),
        None => None,
    }
}

impl View for Tile {
    type V = TileView;

    open spec fn view(&self) -> TileView {
        TileView {
            pane_id: self.pane_id@,
            title: self.title@,
            agent: opt_view(self.agent),
            status: self.status@,
            focused: self.focused,
            preview: lines_view(self.preview@),
        }
    }
}

impl View for Section {
    type V = SectionView;

    open spec fn view(&self) -> SectionView {
        SectionView {
            tab_id: self.tab_id@,
            label: self.label@,
            number: self.number,
            zoomed: self.zoomed,
            tiles: self.tiles@.map_values(|t: Tile| t@),
        }
    }
}

/// The values of a sequence of sections.
pub open spec fn sections_view(s: Seq<Section>) -> Seq<SectionView> {
    s.map_values(|x: Section| x@)
}

impl App {
    /// The number of tiles in section `k`.
    pub open spec fn tile_count(&self, k: int) -> nat {
        self.sections@[k].tiles@.len()
    }

    /// The tile counts of all sections, in order.
    pub open spec fn tile_counts(&self) -> Seq<nat> {
        Seq::new(self.sections@.len(), |k: int| self.sections@[k].tiles@.len())
    }
}


/// A key press, as the screen loop reports it.
#[derive(Clone, Copy, Debug, PartialEq, Eq, Structural)]
pub enum Key {
    Esc,
    Enter,
    Backspace,
    Left,
    Right,
    Up,
    Down,
    Char(char),
    Other,
}

/// How Mission Control ends.
pub enum Outcome {
    /// Close without changing the focus.
    Cancel,
    /// Focus the pane `pane_id`, whose tab is zoomed or not.
    Switch { pane_id: String, tab_zoomed: bool },
}

/// What the screen loop does after a key.
pub enum Action {
    /// Keep showing Mission Control.
    Stay,
    /// Leave with this outcome.
    Exit(Outcome),
    /// Close the pane with this id, then rebuild the grid.
    ClosePane(String),
}

pub proof fn lemma_rem_euclid(x: int, n: int)
    requires
        n > 0,
        x < 0,
    ensures
        ((-x) % n == 0 ==> x % n == 0),
        ((-x) % n != 0 ==> x % n == n - (-x) % n),
{
    let q = (-x) / n;
    let r = (-x) % n;
    vstd::arithmetic::div_mod::lemma_fundamental_div_mod(-x, n);
    assert(-x == q * n + r);
    assert(x == (-q) * n - r) by (nonlinear_arith)
        requires
            -x == q * n + r,
    ;
    if r == 0 {
        vstd::arithmetic::div_mod::lemma_mod_multiples_basic(-q, n);
        assert(x == (-q) * n);
    } else {
        assert(x == (-q - 1) * n + (n - r)) by (nonlinear_arith)
            requires
                x == (-q) * n - r,
        ;
        vstd::arithmetic::div_mod::lemma_mod_multiples_vanish(-q - 1, n - r, n);
        vstd::arithmetic::div_mod::lemma_small_mod((n - r) as nat, n as nat);
    }
}

impl App {
    /// The selection points at a tile, or at tile 0 of an empty section.
    pub open spec fn wf(&self) -> bool {
        self.sections@.len() > 0 ==> {
            &&& self.selected.0 < self.sections@.len()
            &&& (self.selected.1 < self.tile_count(self.selected.0 as int) || self.selected.1 == 0)
        }
    }

    /// The selected pane's id and its tab's zoom state, if the selection
    /// points at a tile.
    pub open spec fn spec_selected_pane(&self) -> Option<(Seq<char>, bool)> {
        let (s, t) = self.selected;
        if s < self.sections@.len() && t < self.tile_count(s as int) {
            Some((self.sections@[s as int].tiles@[t as int].pane_id@, self.sections@[s as int].zoomed))
        } else {
            None
        }
    }

    /// The selected pane's id and its tab's zoom state.
    pub fn selected_pane(&self) -> (r: Option<(&str, bool)>)
        ensures
            r is Some <==> self.spec_selected_pane() is Some,
            r matches Some(p) ==> self.spec_selected_pane() == Some((p.0@, p.1)),
    {
        let (s, t) = self.selected;
        if s < self.sections.len() && t < self.sections[s].tiles.len() {
            Some((self.sections[s].tiles[t].pane_id.as_str(), self.sections[s].zoomed))
        } else {
            None
        }
    }

    /// Moves the selection `delta` tiles along its section, wrapping around
    /// at both ends.
    pub fn move_horizontal(&mut self, delta: isize)
        ensures
            old(self).wf() ==> final(self).wf(),
            final(self).sections == old(self).sections,
            final(self).scroll == old(self).scroll,
            final(self).confirming_close == old(self).confirming_close,
            ({
                let (s, t) = old(self).selected;
                if s < old(self).sections@.len() && old(self).tile_count(s as int) > 0 {
                    final(self).selected == (s, ((t + delta) % (old(self).tile_count(s as int) as int)) as usize)
                } else {
                    final(self).selected == old(self).selected
                }
            }),
    {
        let s = self.selected.0;
        if s >= self.sections.len() {
            return ;
        }
        let len = self.sections[s].tiles.len();
        if len == 0 {
            return ;
        }
        let n: i128 = len as i128;
        let x: i128 = self.selected.1 as i128 + delta as i128;
        let col: i128 = if x >= 0 {
            x % n
        } else {
            let r: i128 = (-x) % n;
            proof {
                lemma_rem_euclid(x as int, n as int);
            }
            if r == 0 {
                0
            } else {
                n - r
            }
        };
        self.selected = (s, col as usize);
    }

    /// Moves the selection `delta` sections up or down, stopping at the
    /// first and last section (no wrap-around); the tile index is kept, or
    /// brought down to the last tile of the new section.
    pub fn move_vertical(&mut self, delta: isize)
        ensures
            final(self).wf(),
            final(self).sections == old(self).sections,
            final(self).scroll == old(self).scroll,
            final(self).confirming_close == old(self).confirming_close,
            ({
                let len = old(self).sections@.len() as int;
                let (s, t) = old(self).selected;
                if len == 0 {
                    final(self).selected == old(self).selected
                } else {
                    let x = s + delta;
                    let row = if x < 0 {
                        0
                    } else if x > len - 1 {
                        len - 1
                    } else {
                        x
                    };
                    let cnt = old(self).tile_count(row);
                    let max = if cnt == 0 {
                        0
                    } else {
                        cnt - 1
                    };
                    final(self).selected == (row as usize, if t <= max {
                        t
                    } else {
                        max as usize
                    })
                }
            }),
    {
        let len = self.sections.len();
        if len == 0 {
            return ;
        }
        let x: i128 = self.selected.0 as i128 + delta as i128;
        let last: i128 = (len - 1) as i128;
        let row: usize = if x < 0 {
            0
        } else if x > last {
            len - 1
        } else {
            x as usize
        };
        let cnt = self.sections[row].tiles.len();
        let max: usize = if cnt == 0 {
            0
        } else {
            cnt - 1
        };
        let t = self.selected.1;
        self.selected = (row, if t <= max {
            t
        } else {
            max
        });
    }
}

/// The section and tile of the tile with flat index `m` (counting from 0
/// over the tiles of sections `k`, `k + 1`, ... in order).
pub open spec fn locate(counts: Seq<nat>, m: nat, k: int) -> Option<(int, int)>
    decreases counts.len() - k,
{
    if k < 0 || k >= counts.len() {
        None
    } else if m < counts[k] {
        Some((k, m as int))
    } else {
        locate(counts, (m - counts[k]) as nat, k + 1)
    }
}

/// The `n`th tile in flat order, counting from 1.
pub open spec fn nth_tile(counts: Seq<nat>, n: usize) -> Option<(int, int)> {
    if n == 0 {
        None
    } else {
        locate(counts, (n - 1) as nat, 0)
    }
}

impl App {
    /// Selects the `n`th tile in flat order (counting from 1); tells whether
    /// there is one.
    pub fn select_nth(&mut self, n: usize) -> (found: bool)
        ensures
            found == (nth_tile(old(self).tile_counts(), n) is Some),
            found ==> final(self).selected == ((nth_tile(old(self).tile_counts(), n)->0).0 as usize, (nth_tile(
                old(self).tile_counts(),
                n,
            )->0).1 as usize),
            !found ==> final(self).selected == old(self).selected,
            final(self).sections == old(self).sections,
            final(self).scroll == old(self).scroll,
            final(self).confirming_close == old(self).confirming_close,
            old(self).wf() ==> final(self).wf(),
    {
        let ghost counts = self.tile_counts();
        if n == 0 {
            return false;
        }
        let mut count: usize = 0;
        let nsec = self.sections.len();
        let mut si: usize = 0;
        while si < nsec
            invariant
                nsec == self.sections@.len(),
                counts == self.tile_counts(),
                self.sections == old(self).sections,
                self.selected == old(self).selected,
                self.scroll == old(self).scroll,
                self.confirming_close == old(self).confirming_close,
                0 <= si <= nsec,
                n >= 1,
                count < n,
                nth_tile(counts, n) == locate(counts, (n - 1 - count) as nat, si as int),
            decreases nsec - si,
        {
            let len = self.sections[si].tiles.len();
            let ghost before = count;
            let mut ti: usize = 0;
            while ti < len
                invariant
                    len == counts[si as int],
                    si < nsec,
                    nsec == self.sections@.len(),
                    counts == self.tile_counts(),
                    self.sections == old(self).sections,
                    self.selected == old(self).selected,
                    self.scroll == old(self).scroll,
                    self.confirming_close == old(self).confirming_close,
                    0 <= ti <= len,
                    count == before + ti,
                    count < n,
                    nth_tile(counts, n) == locate(counts, (n - 1 - before) as nat, si as int),
                decreases len - ti,
            {
                count = count + 1;
                if count == n {
                    self.selected = (si, ti);
                    return true;
                }
                ti = ti + 1;
            }
            si = si + 1;
        }
        false
    }

    /// Applies a key to the screen state and says what the loop does next.
    ///
    /// While a close confirmation is open, `Enter`, `y` and `o` confirm it
    /// (closing the selected pane, if there is one), `Esc` and `n` cancel
    /// it, and other keys do nothing. Otherwise: `Esc`/`q` quit, `Backspace`
    /// asks to close the selected pane, arrows and `hjkl` move the
    /// selection, `Enter` switches to the selected pane, and `1`-`9` jump to
    /// that tile and switch to it.
    pub fn handle_key(&mut self, key: Key) -> (action: Action)
        ensures
            old(self).wf() ==> final(self).wf(),
            old(self).confirming_close ==> match key {
                Key::Enter | Key::Char('y') | Key::Char('o') => {
                    &&& !final(self).confirming_close
                    &&& final(self).sections == old(self).sections
                    &&& final(self).selected == old(self).selected
                    &&& final(self).scroll == old(self).scroll
                    &&& match old(self).spec_selected_pane() {
                        Some(p) => action matches Action::ClosePane(id) && id@ == p.0,
                        None => action is Stay,
                    }
                },
                Key::Esc | Key::Char('n') => {
                    &&& !final(self).confirming_close
                    &&& final(self).sections == old(self).sections
                    &&& final(self).selected == old(self).selected
                    &&& final(self).scroll == old(self).scroll
                    &&& action is Stay
                },
                _ => *final(self) == *old(self) && action is Stay,
            },
            !old(self).confirming_close ==> match key {
                Key::Esc | Key::Char('q') => *final(self) == *old(self) && action matches Action::Exit(
                    Outcome::Cancel,
                ),
                Key::Backspace => {
                    &&& final(self).confirming_close == (old(self).spec_selected_pane() is Some)
                    &&& final(self).sections == old(self).sections
                    &&& final(self).selected == old(self).selected
                    &&& final(self).scroll == old(self).scroll
                    &&& action is Stay
                },
                Key::Left | Key::Char('h') => {
                    action is Stay && final(self).sections == old(self).sections && final(self).selected
                        == moved_horizontal(*old(self), -1) && final(self).scroll == old(self).scroll
                        && !final(self).confirming_close
                },
                Key::Right | Key::Char('l') => action is Stay && final(self).sections == old(self).sections
                    && final(self).selected == moved_horizontal(*old(self), 1) && final(self).scroll == old(
                    self,
                ).scroll && !final(self).confirming_close,
                Key::Up | Key::Char('k') => action is Stay && final(self).sections == old(self).sections
                    && final(self).selected == moved_vertical(*old(self), -1) && final(self).scroll == old(
                    self,
                ).scroll && !final(self).confirming_close,
                Key::Down | Key::Char('j') => action is Stay && final(self).sections == old(self).sections
                    && final(self).selected == moved_vertical(*old(self), 1) && final(self).scroll == old(
                    self,
                ).scroll && !final(self).confirming_close,
                Key::Enter => *final(self) == *old(self) && match old(self).spec_selected_pane() {
                    Some(p) => action matches Action::Exit(Outcome::Switch { pane_id, tab_zoomed }) && pane_id@
                        == p.0 && tab_zoomed == p.1,
                    None => action is Stay,
                },
                Key::Char(c) => if '1' <= c && c <= '9' {
                    let n = (c as u32 - '0' as u32) as usize;
                    &&& final(self).sections == old(self).sections
                    &&& final(self).scroll == old(self).scroll
                    &&& !final(self).confirming_close
                    &&& match nth_tile(old(self).tile_counts(), n) {
                        Some(loc) => {
                            &&& final(self).selected == (loc.0 as usize, loc.1 as usize)
                            &&& match final(self).spec_selected_pane() {
                                Some(p) => action matches Action::Exit(Outcome::Switch { pane_id, tab_zoomed })
                                    && pane_id@ == p.0 && tab_zoomed == p.1,
                                None => action is Stay,
                            }
                        },
                        None => final(self).selected == old(self).selected && action is Stay,
                    }
                } else {
                    *final(self) == *old(self) && action is Stay
                },
                _ => *final(self) == *old(self) && action is Stay,
            },
    {
        if self.confirming_close {
            match key {
                Key::Enter | Key::Char('y') | Key::Char('o') => {
                    self.confirming_close = false;
                    match self.selected_pane() {
                        Some((id, _)) => Action::ClosePane(String::from_str(id)),
                        None => Action::Stay,
                    }
                },
                Key::Esc | Key::Char('n') => {
                    self.confirming_close = false;
                    Action::Stay
                },
                _ => Action::Stay,
            }
        } else {
            match key {
                Key::Esc | Key::Char('q') => Action::Exit(Outcome::Cancel),
                Key::Backspace => {
                    if self.selected_pane().is_some() {
                        self.confirming_close = true;
                    }
                    Action::Stay
                },
                Key::Left | Key::Char('h') => {
                    self.move_horizontal(-1);
                    Action::Stay
                },
                Key::Right | Key::Char('l') => {
                    self.move_horizontal(1);
                    Action::Stay
                },
                Key::Up | Key::Char('k') => {
                    self.move_vertical(-1);
                    Action::Stay
                },
                Key::Down | Key::Char('j') => {
                    self.move_vertical(1);
                    Action::Stay
                },
                Key::Enter => match self.selected_pane() {
                    Some((id, zoomed)) => Action::Exit(
                        Outcome::Switch { pane_id: String::from_str(id), tab_zoomed: zoomed },
                    ),
                    None => Action::Stay,
                },
                Key::Char(c) => {
                    if '1' <= c && c <= '9' {
                        let n = (c as u32 - '0' as u32) as usize;
                        if self.select_nth(n) {
                            match self.selected_pane() {
                                Some((id, zoomed)) => Action::Exit(
                                    Outcome::Switch { pane_id: String::from_str(id), tab_zoomed: zoomed },
                                ),
                                None => Action::Stay,
                            }
                        } else {
                            Action::Stay
                        }
                    } else {
                        Action::Stay
                    }
                },
                _ => Action::Stay,
            }
        }
    }

    /// After a close was asked for: `closed` is `None` when herdr refused
    /// to close the pane (the screen stays as it is), or the screen rebuilt
    /// after the close. The rebuilt screen replaces this one; when nothing is
    /// left to show (the rebuild failed), Mission Control ends.
    pub fn after_close(&mut self, closed: Option<Result<App, String>>) -> (action: Action)
        ensures
            closed is None ==> *final(self) == *old(self) && action is Stay,
            closed matches Some(Ok(app)) ==> *final(self) == app && action is Stay,
            closed matches Some(Err(_)) ==> *final(self) == *old(self) && action matches Action::Exit(
                Outcome::Cancel,
            ),
    {
        match closed {
            None => Action::Stay,
            Some(Ok(app)) => {
                *self = app;
                Action::Stay
            },
            Some(Err(_)) => Action::Exit(Outcome::Cancel),
        }
    }
}

/// The selection after `move_horizontal(delta)`.
pub open spec fn moved_horizontal(app: App, delta: int) -> (usize, usize) {
    let (s, t) = app.selected;
    if s < app.sections@.len() && app.tile_count(s as int) > 0 {
        (s, ((t + delta) % (app.tile_count(s as int) as int)) as usize)
    } else {
        app.selected
    }
}

/// The selection after `move_vertical(delta)`.
pub open spec fn moved_vertical(app: App, delta: int) -> (usize, usize) {
    let len = app.sections@.len() as int;
    let (s, t) = app.selected;
    if len == 0 {
        app.selected
    } else {
        let x = s + delta;
        let row = if x < 0 {
            0
        } else if x > len - 1 {
            len - 1
        } else {
            x
        };
        let cnt = app.tile_count(row);
        let max = if cnt == 0 {
            0
        } else {
            cnt - 1
        };
        (row as usize, if t <= max {
            t
        } else {
            max as usize
        })
    }
}


// ---------------------------------------------------------------------------
// Building the screen from a snapshot
// ---------------------------------------------------------------------------

/// The tabs of workspace `ws`, in order.
pub open spec fn workspace_tabs(tabs: Seq<TabInfo>, ws: Seq<char>) -> Seq<TabInfo>
    decreases tabs.len(),
{
    if tabs.len() == 0 {
        Seq::empty()
    } else {
        let init = workspace_tabs(tabs.drop_last(), ws);
        if tabs.last().workspace_id@ == ws {
            init.push(tabs.last())
        } else {
            init
        }
    }
}

/// The panes of tab `tab_id`, in order.
pub open spec fn tab_panes(panes: Seq<PaneInfo>, tab_id: Seq<char>) -> Seq<PaneInfo>
    decreases panes.len(),
{
    if panes.len() == 0 {
        Seq::empty()
    } else {
        let init = tab_panes(panes.drop_last(), tab_id);
        if panes.last().tab_id@ == tab_id {
            init.push(panes.last())
        } else {
            init
        }
    }
}

/// A pane's title: its own, else its terminal's, else its id.
pub open spec fn pane_title(p: PaneInfo) -> Seq<char> {
    match p.title {
        Some(t) => t@,
        None => match p.terminal_title_stripped {
            Some(t) => t@,
            None => p.pane_id@,
        },
    }
}

/// A pane's agent: its display name, else its agent.
pub open spec fn pane_agent(p: PaneInfo) -> Option<Seq<char>> {
    match p.display_agent {
        Some(a) => Some(a@),
        None => opt_view(p.agent),
    }
}

/// The tile of a pane, before any preview is read.
pub open spec fn tile_of(p: PaneInfo) -> TileView {
    TileView {
        pane_id: p.pane_id@,
        title: pane_title(p),
        agent: pane_agent(p),
        status: p.agent_status@,
        focused: p.focused,
        preview: Seq::empty(),
    }
}

/// The first layout, from index `i` on, of tab `tab_id`.
pub open spec fn first_layout(layouts: Seq<LayoutInfo>, tab_id: Seq<char>, i: int) -> Option<int>
    decreases layouts.len() - i,
{
    if i < 0 || i >= layouts.len() {
        None
    } else if layouts[i].tab_id@ == tab_id {
        Some(i)
    } else {
        first_layout(layouts, tab_id, i + 1)
    }
}

/// The first pane, from index `i` on, with id `pane_id`.
pub open spec fn first_pane(panes: Seq<PaneInfo>, pane_id: Seq<char>, i: int) -> Option<int>
    decreases panes.len() - i,
{
    if i < 0 || i >= panes.len() {
        None
    } else if panes[i].pane_id@ == pane_id {
        Some(i)
    } else {
        first_pane(panes, pane_id, i + 1)
    }
}

/// Whether tab `tab_id` is zoomed: its first layout says so.
pub open spec fn tab_zoomed(layouts: Seq<LayoutInfo>, tab_id: Seq<char>) -> bool {
    match first_layout(layouts, tab_id, 0) {
        Some(k) => layouts[k].zoomed,
        None => false,
    }
}

/// The tiles of a tab.
pub open spec fn tab_tiles(panes: Seq<PaneInfo>, tab_id: Seq<char>) -> Seq<TileView> {
    tab_panes(panes, tab_id).map_values(|p: PaneInfo| tile_of(p))
}

/// The section of a tab.
pub open spec fn section_of(t: TabInfo, snap: Snapshot) -> SectionView {
    SectionView {
        tab_id: t.tab_id@,
        label: t.label@,
        number: t.number,
        zoomed: tab_zoomed(snap.layouts@, t.tab_id@),
        tiles: tab_tiles(snap.panes@, t.tab_id@),
    }
}

/// The sections of workspace `ws`.
pub open spec fn sections_of(snap: Snapshot, ws: Seq<char>) -> Seq<SectionView> {
    workspace_tabs(snap.tabs@, ws).map_values(|t: TabInfo| section_of(t, snap))
}

/// The index of the last focused pane.
pub open spec fn last_focused(ps: Seq<PaneInfo>) -> Option<int>
    decreases ps.len(),
{
    if ps.len() == 0 {
        None
    } else if ps.last().focused {
        Some(ps.len() - 1)
    } else {
        last_focused(ps.drop_last())
    }
}

/// The last (section, tile) whose tab and pane are both focused.
pub open spec fn focused_selection(tabs: Seq<TabInfo>, panes: Seq<PaneInfo>) -> Option<(int, int)>
    decreases tabs.len(),
{
    if tabs.len() == 0 {
        None
    } else {
        let t = tabs.last();
        let f = last_focused(tab_panes(panes, t.tab_id@));
        if t.focused && f is Some {
            Some((tabs.len() - 1, f->0))
        } else {
            focused_selection(tabs.drop_last(), panes)
        }
    }
}

/// The selection a fresh screen starts with: the focused pane of the
/// focused tab, else the first tile.
pub open spec fn initial_selection(snap: Snapshot, ws: Seq<char>) -> (usize, usize) {
    match focused_selection(workspace_tabs(snap.tabs@, ws), snap.panes@) {
        Some(p) => (p.0 as usize, p.1 as usize),
        None => (0, 0),
    }
}

/// Whether some section has a tile.
pub open spec fn has_tiles(sections: Seq<SectionView>) -> bool {
    exists|k: int| 0 <= k < sections.len() && (#[trigger] sections[k]).tiles.len() > 0
}

fn clone_opt(o: &Option<String>) -> (r: Option<String>)
    ensures
        opt_view(r) == opt_view(*o),
{
    match o {
        Some(s) => Some(s.clone()),
        None => None,
    }
}

fn tile_from_pane(p: &PaneInfo) -> (t: Tile)
    ensures
        t@ == tile_of(*p),
{
    let title = match &p.title {
        Some(t) => t.clone(),
        None => match &p.terminal_title_stripped {
            Some(t) => t.clone(),
            None => p.pane_id.clone(),
        },
    };
    let agent = match &p.display_agent {
        Some(a) => Some(a.clone()),
        None => clone_opt(&p.agent),
    };
    let t = Tile {
        pane_id: p.pane_id.clone(),
        title,
        agent,
        status: p.agent_status.clone(),
        focused: p.focused,
        preview: Vec::new(),
    };
    proof {
        assert(lines_view(t.preview@) =~= Seq::<LineView>::empty());
    }
    t
}

fn zoom_of(layouts: &Vec<LayoutInfo>, tab_id: &String) -> (z: bool)
    ensures
        z == tab_zoomed(layouts@, tab_id@),
{
    let n = layouts.len();
    let mut i: usize = 0;
    while i < n
        invariant
            n == layouts@.len(),
            0 <= i <= n,
            first_layout(layouts@, tab_id@, 0) == first_layout(layouts@, tab_id@, i as int),
        decreases n - i,
    {
        if layouts[i].tab_id == *tab_id {
            return layouts[i].zoomed;
        }
        i = i + 1;
    }
    false
}

/// The tiles of tab `tab_id`, and the index of its last focused pane.
fn tiles_of_tab(snap: &Snapshot, tab_id: &String) -> (r: (Vec<Tile>, Option<usize>))
    ensures
        r.0@.map_values(|t: Tile| t@) == tab_tiles(snap.panes@, tab_id@),
        match last_focused(tab_panes(snap.panes@, tab_id@)) {
            Some(i) => r.1 == Some(i as usize),
            None => r.1 is None,
        },
{
    let n = snap.panes.len();
    let mut tiles: Vec<Tile> = Vec::new();
    let mut focused: Option<usize> = None;
    let mut i: usize = 0;
    while i < n
        invariant
            n == snap.panes@.len(),
            0 <= i <= n,
            tiles@.map_values(|t: Tile| t@) == tab_panes(snap.panes@.take(i as int), tab_id@).map_values(
                |p: PaneInfo| tile_of(p),
            ),
            match last_focused(tab_panes(snap.panes@.take(i as int), tab_id@)) {
                Some(k) => focused == Some(k as usize),
                None => focused is None,
            },
        decreases n - i,
    {
        let p = &snap.panes[i];
        let ghost prev = snap.panes@.take(i as int);
        let ghost next = snap.panes@.take(i + 1);
        proof {
            assert(next.drop_last() =~= prev);
            assert(next.last() == *p);
        }
        if p.tab_id == *tab_id {
            let ghost before = tiles@;
            if p.focused {
                focused = Some(tiles.len());
            }
            tiles.push(tile_from_pane(p));
            proof {
                assert(tiles@.map_values(|t: Tile| t@) =~= before.map_values(|t: Tile| t@).push(tile_of(*p)));
                assert(tab_panes(next, tab_id@) == tab_panes(prev, tab_id@).push(*p));
                assert(tab_panes(next, tab_id@).map_values(|q: PaneInfo| tile_of(q)) =~= tab_panes(
                    prev,
                    tab_id@,
                ).map_values(|q: PaneInfo| tile_of(q)).push(tile_of(*p)));
                let tp = tab_panes(next, tab_id@);
                assert(tp.drop_last() =~= tab_panes(prev, tab_id@));
            }
        } else {
            proof {
                assert(tab_panes(next, tab_id@) == tab_panes(prev, tab_id@));
            }
        }
        i = i + 1;
    }
    proof {
        assert(snap.panes@.take(n as int) =~= snap.panes@);
    }
    (tiles, focused)
}

/// The message when workspace `ws` has no pane.
pub open spec fn no_panes_message(ws: Seq<char>) -> Seq<char> {
    "no panes in workspace "@ + ws
}

/// Builds the screen for workspace `ws` from a snapshot: one section per tab
/// of the workspace, in order, each with one tile per pane of the tab, in
/// order; the selection starts on the focused pane of the focused tab. It
/// fails when the workspace has no pane. Previews start empty.
pub fn build_app(snap: &Snapshot, ws: &String) -> (r: Result<App, String>)
    ensures
        r is Ok <==> has_tiles(sections_of(*snap, ws@)),
        r matches Ok(app) ==> {
            &&& sections_view(app.sections@) == sections_of(*snap, ws@)
            &&& app.selected == initial_selection(*snap, ws@)
            &&& app.scroll == 0
            &&& !app.confirming_close
            &&& app.wf()
        },
        r matches Err(m) ==> m@ == no_panes_message(ws@),
{
    let n = snap.tabs.len();
    let mut sections: Vec<Section> = Vec::new();
    let mut selected: (usize, usize) = (0, 0);
    let mut any_tile = false;
    let mut i: usize = 0;
    while i < n
        invariant
            n == snap.tabs@.len(),
            0 <= i <= n,
            sections_view(sections@) == workspace_tabs(snap.tabs@.take(i as int), ws@).map_values(
                |t: TabInfo| section_of(t, *snap),
            ),
            selected == match focused_selection(workspace_tabs(snap.tabs@.take(i as int), ws@), snap.panes@) {
                Some(p) => (p.0 as usize, p.1 as usize),
                None => (0usize, 0usize),
            },
            any_tile == has_tiles(sections_view(sections@)),
        decreases n - i,
    {
        let tab = &snap.tabs[i];
        let ghost prev = snap.tabs@.take(i as int);
        let ghost next = snap.tabs@.take(i + 1);
        proof {
            assert(next.drop_last() =~= prev);
            assert(next.last() == *tab);
        }
        if tab.workspace_id == *ws {
            let (tiles, focused) = tiles_of_tab(snap, &tab.tab_id);
            let zoomed = zoom_of(&snap.layouts, &tab.tab_id);
            let ghost before = sections@;
            if tab.focused {
                match focused {
                    Some(f) => {
                        selected = (sections.len(), f);
                    },
                    None => {},
                }
            }
            let nonempty = tiles.len() > 0;
            let sec = Section {
                tab_id: tab.tab_id.clone(),
                label: tab.label.clone(),
                number: tab.number,
                zoomed,
                tiles,
            };
            proof {
                assert(sec@ == section_of(*tab, *snap));
            }
            sections.push(sec);
            if nonempty {
                any_tile = true;
            }
            proof {
                let wt = workspace_tabs(next, ws@);
                assert(wt == workspace_tabs(prev, ws@).push(*tab));
                assert(wt.drop_last() =~= workspace_tabs(prev, ws@));
                assert(sections_view(sections@) =~= sections_view(before).push(sec@));
                assert(wt.map_values(|t: TabInfo| section_of(t, *snap)) =~= workspace_tabs(prev, ws@).map_values(
                    |t: TabInfo| section_of(t, *snap),
                ).push(section_of(*tab, *snap)));
                let sv = sections_view(sections@);
                if any_tile {
                    if nonempty {
                        assert(sv[sv.len() - 1].tiles.len() > 0);
                    } else {
                        let k = choose|k: int| 0 <= k < sections_view(before).len() && (#[trigger] sections_view(
                            before,
                        )[k]).tiles.len() > 0;
                        assert(sv[k] == sections_view(before)[k]);
                    }
                } else {
                    assert forall|k: int| 0 <= k < sv.len() implies (#[trigger] sv[k]).tiles.len() == 0 by {
                        if k < sections_view(before).len() {
                            assert(sv[k] == sections_view(before)[k]);
                        }
                    }
                }
            }
        } else {
            proof {
                assert(workspace_tabs(next, ws@) == workspace_tabs(prev, ws@));
            }
        }
        i = i + 1;
    }
    proof {
        assert(snap.tabs@.take(n as int) =~= snap.tabs@);
    }
    if !any_tile {
        let mut m = String::from_str("no panes in workspace ");
        m.append(ws.as_str());
        return Err(m);
    }
    let app = App { sections, selected, scroll: 0, confirming_close: false };
    proof {
        let wt = workspace_tabs(snap.tabs@, ws@);
        crate::app_laws::lemma_focused_selection(wt, snap.panes@);
        let sv = sections_view(app.sections@);
        assert(sv.len() == app.sections@.len());
        match focused_selection(wt, snap.panes@) {
            Some(p) => {
                vstd::std_specs::vec::axiom_spec_len(&app.sections);
                vstd::std_specs::vec::axiom_spec_len(&app.sections@[p.0].tiles);
                assert(sv[p.0] == section_of(wt[p.0], *snap));
                assert(sv[p.0] == app.sections@[p.0]@);
                assert(app.tile_count(p.0) == sv[p.0].tiles.len());
            },
            None => {
                let k = choose|k: int| 0 <= k < sv.len() && (#[trigger] sv[k]).tiles.len() > 0;
                assert(sv.len() > 0);
            },
        }
    }
    Ok(app)
}

/// The workspace to show: the one herdr launched us in (`env_ws`), else
/// the focused one.
pub fn resolve_workspace(env_ws: Option<String>, focused: Option<String>) -> (r: Result<String, String>)
    ensures
        env_ws is Some ==> r == Ok::<String, String>(env_ws->0),
        env_ws is None && focused is Some ==> r == Ok::<String, String>(focused->0),
        env_ws is None && focused is None ==> (r matches Err(m) && m@ == "no current workspace"@),
{
    match env_ws {
        Some(w) => Ok(w),
        None => match focused {
            Some(w) => Ok(w),
            None => Err(String::from_str("no current workspace")),
        },
    }
}


// ---------------------------------------------------------------------------
// Live refresh
// ---------------------------------------------------------------------------

/// A tile after a refresh from a snapshot: it takes the status of the first
/// pane with its id, if there is one.
pub open spec fn refreshed_tile(t: TileView, snap: Snapshot) -> TileView {
    match first_pane(snap.panes@, t.pane_id, 0) {
        Some(j) => TileView {
            pane_id: t.pane_id,
            title: t.title,
            agent: t.agent,
            status: snap.panes@[j].agent_status@,
            focused: t.focused,
            preview: t.preview,
        },
        None => t,
    }
}

/// A section after a refresh from a snapshot: it takes the zoom state of
/// the first layout of its tab, if there is one, and its tiles are
/// refreshed.
pub open spec fn refreshed_section(s: SectionView, snap: Snapshot) -> SectionView {
    SectionView {
        tab_id: s.tab_id,
        label: s.label,
        number: s.number,
        zoomed: match first_layout(snap.layouts@, s.tab_id, 0) {
            Some(j) => snap.layouts@[j].zoomed,
            None => s.zoomed,
        },
        tiles: s.tiles.map_values(|t: TileView| refreshed_tile(t, snap)),
    }
}

/// The sections with the preview of tile `ti` of section `si` replaced.
pub open spec fn with_preview(sv: Seq<SectionView>, si: int, ti: int, p: Seq<LineView>) -> Seq<SectionView> {
    let s = sv[si];
    let t = s.tiles[ti];
    sv.update(
        si,
        SectionView {
            tab_id: s.tab_id,
            label: s.label,
            number: s.number,
            zoomed: s.zoomed,
            tiles: s.tiles.update(
                ti,
                TileView {
                    pane_id: t.pane_id,
                    title: t.title,
                    agent: t.agent,
                    status: t.status,
                    focused: t.focused,
                    preview: p,
                },
            ),
        },
    )
}

/// The preview text shown when a pane cannot be read.
pub open spec fn read_error_text(e: Seq<char>) -> Seq<char> {
    "(read error: "@ + e + ")"@
}

/// The text that the read of tile `ti` brought, when that read succeeded.
pub open spec fn read_text(row: Seq<Result<String, String>>, ti: int) -> Option<Seq<char>> {
    if 0 <= ti < row.len() {
        match row[ti] {
            Ok(t) => Some(t@),
            Err(_) => None,
        }
    } else {
        None
    }
}

/// A tile after a read: a successful read replaces its preview with the
/// parsed text; a failed or missing one keeps the last preview.
pub open spec fn tile_after_read(t: TileView, text: Option<Seq<char>>) -> TileView {
    match text {
        Some(x) => TileView {
            pane_id: t.pane_id,
            title: t.title,
            agent: t.agent,
            status: t.status,
            focused: t.focused,
            preview: spec_parse(x),
        },
        None => t,
    }
}

/// A section after the reads of its tiles, in order.
pub open spec fn section_after_reads(s: SectionView, row: Seq<Result<String, String>>) -> SectionView {
    SectionView {
        tab_id: s.tab_id,
        label: s.label,
        number: s.number,
        zoomed: s.zoomed,
        tiles: Seq::new(s.tiles.len(), |ti: int| tile_after_read(s.tiles[ti], read_text(row, ti))),
    }
}

/// The reads of the tiles of section `si` (none where there is no row).
pub open spec fn read_row(reads: Seq<Vec<Result<String, String>>>, si: int) -> Seq<Result<String, String>> {
    if 0 <= si < reads.len() {
        reads[si]@
    } else {
        Seq::<Result<String, String>>::empty()
    }
}

/// The sections after a live refresh: first the reads of the previews,
/// then, when the session could be read, the zoom states and statuses of
/// the snapshot.
pub open spec fn refreshed_sections(
    sv: Seq<SectionView>,
    reads: Seq<Vec<Result<String, String>>>,
    snapshot: Option<Snapshot>,
) -> Seq<SectionView> {
    let after_reads = Seq::new(sv.len(), |si: int| section_after_reads(sv[si], read_row(reads, si)));
    match snapshot {
        Some(snap) => after_reads.map_values(|x: SectionView| refreshed_section(x, snap)),
        None => after_reads,
    }
}

fn layout_zoom(layouts: &Vec<LayoutInfo>, tab_id: &String) -> (z: Option<bool>)
    ensures
        match first_layout(layouts@, tab_id@, 0) {
            Some(j) => z == Some(layouts@[j].zoomed),
            None => z is None,
        },
{
    let n = layouts.len();
    let mut i: usize = 0;
    while i < n
        invariant
            n == layouts@.len(),
            0 <= i <= n,
            first_layout(layouts@, tab_id@, 0) == first_layout(layouts@, tab_id@, i as int),
        decreases n - i,
    {
        if layouts[i].tab_id == *tab_id {
            return Some(layouts[i].zoomed);
        }
        i = i + 1;
    }
    None
}

fn pane_status(panes: &Vec<PaneInfo>, pane_id: &String) -> (st: Option<String>)
    ensures
        match first_pane(panes@, pane_id@, 0) {
            Some(j) => st matches Some(x) && x@ == panes@[j].agent_status@,
            None => st is None,
        },
{
    let n = panes.len();
    let mut i: usize = 0;
    while i < n
        invariant
            n == panes@.len(),
            0 <= i <= n,
            first_pane(panes@, pane_id@, 0) == first_pane(panes@, pane_id@, i as int),
        decreases n - i,
    {
        if panes[i].pane_id == *pane_id {
            return Some(panes[i].agent_status.clone());
        }
        i = i + 1;
    }
    None
}

fn refresh_tiles(tiles: &mut Vec<Tile>, snap: &Snapshot)
    ensures
        final(tiles)@.map_values(|t: Tile| t@) == old(tiles)@.map_values(|t: Tile| t@).map_values(
            |t: TileView| refreshed_tile(t, *snap),
        ),
{
    let n = tiles.len();
    let mut i: usize = 0;
    while i < n
        invariant
            n == tiles@.len(),
            n == old(tiles)@.len(),
            0 <= i <= n,
            forall|k: int| 0 <= k < i ==> (#[trigger] tiles@[k])@ == refreshed_tile(old(tiles)@[k]@, *snap),
            forall|k: int| i <= k < n ==> #[trigger] tiles@[k] == old(tiles)@[k],
        decreases n - i,
    {
        let st = pane_status(&snap.panes, &tiles[i].pane_id);
        match st {
            Some(x) => {
                tiles[i].status = x;
            },
            None => {},
        }
        i = i + 1;
    }
    proof {
        assert(tiles@.map_values(|t: Tile| t@) =~= old(tiles)@.map_values(|t: Tile| t@).map_values(
            |t: TileView| refreshed_tile(t, *snap),
        ));
    }
}

fn read_into_tiles(tiles: &mut Vec<Tile>, row: &Vec<Result<String, String>>)
    ensures
        final(tiles)@.len() == old(tiles)@.len(),
        forall|k: int|
            0 <= k < old(tiles)@.len() ==> (#[trigger] final(tiles)@[k])@ == tile_after_read(
                old(tiles)@[k]@,
                read_text(row@, k),
            ),
{
    let n = tiles.len();
    let mut i: usize = 0;
    while i < n
        invariant
            n == tiles@.len(),
            n == old(tiles)@.len(),
            0 <= i <= n,
            forall|k: int|
                0 <= k < i ==> (#[trigger] tiles@[k])@ == tile_after_read(old(tiles)@[k]@, read_text(row@, k)),
            forall|k: int| i <= k < n ==> #[trigger] tiles@[k] == old(tiles)@[k],
        decreases n - i,
    {
        if i < row.len() {
            match &row[i] {
                Ok(text) => {
                    let lines = parse(text.as_str());
                    tiles[i].preview = lines;
                },
                Err(_) => {},
            }
        }
        i = i + 1;
    }
}

impl App {
    /// Refreshes zoom states and agent statuses from a snapshot. The
    /// section/tile structure stays as it is: a tab or pane that is gone
    /// keeps its last state, and new ones do not appear.
    pub fn apply_snapshot(&mut self, snap: &Snapshot)
        ensures
            old(self).wf() ==> final(self).wf(),
            sections_view(final(self).sections@) == sections_view(old(self).sections@).map_values(
                |s: SectionView| refreshed_section(s, *snap),
            ),
            final(self).selected == old(self).selected,
            final(self).scroll == old(self).scroll,
            final(self).confirming_close == old(self).confirming_close,
    {
        let n = self.sections.len();
        let mut k: usize = 0;
        while k < n
            invariant
                n == self.sections@.len(),
                n == old(self).sections@.len(),
                0 <= k <= n,
                self.selected == old(self).selected,
                self.scroll == old(self).scroll,
                self.confirming_close == old(self).confirming_close,
                forall|j: int|
                    0 <= j < k ==> (#[trigger] self.sections@[j])@ == refreshed_section(
                        old(self).sections@[j]@,
                        *snap,
                    ),
                forall|j: int| k <= j < n ==> #[trigger] self.sections@[j] == old(self).sections@[j],
            decreases n - k,
        {
            let z = layout_zoom(&snap.layouts, &self.sections[k].tab_id);
            match z {
                Some(b) => {
                    self.sections[k].zoomed = b;
                },
                None => {},
            }
            refresh_tiles(&mut self.sections[k].tiles, snap);
            proof {
                let o = old(self).sections@[k as int];
                assert(self.sections@[k as int].tiles@.map_values(|t: Tile| t@) =~= o@.tiles.map_values(
                    |t: TileView| refreshed_tile(t, *snap),
                ));
            }
            k = k + 1;
        }
        proof {
            assert(sections_view(self.sections@) =~= sections_view(old(self).sections@).map_values(
                |s: SectionView| refreshed_section(s, *snap),
            ));
            assert forall|j: int| 0 <= j < n implies #[trigger] self.tile_count(j) == old(self).tile_count(j) by {
                let o = old(self).sections@[j];
                assert(self.sections@[j]@ == refreshed_section(o@, *snap));
                assert(self.sections@[j]@.tiles.len() == self.sections@[j].tiles@.len());
                assert(o@.tiles.len() == o.tiles@.len());
                assert(refreshed_section(o@, *snap).tiles.len() == o@.tiles.len());
            }
        }
    }

    /// Sets the preview of tile `ti` of section `si` (when there is such a
    /// tile) to the lines parsed from `text`.
    pub fn set_preview_text(&mut self, si: usize, ti: usize, text: &str)
        ensures
            old(self).wf() ==> final(self).wf(),
            si < old(self).sections@.len() && ti < old(self).tile_count(si as int) ==> sections_view(
                final(self).sections@,
            ) == with_preview(sections_view(old(self).sections@), si as int, ti as int, spec_parse(text@)),
            !(si < old(self).sections@.len() && ti < old(self).tile_count(si as int)) ==> final(self).sections
                == old(self).sections,
            final(self).selected == old(self).selected,
            final(self).scroll == old(self).scroll,
            final(self).confirming_close == old(self).confirming_close,
    {
        if si < self.sections.len() && ti < self.sections[si].tiles.len() {
            let lines = parse(text);
            self.sections[si].tiles[ti].preview = lines;
            proof {
                let ov = sections_view(old(self).sections@);
                let expected = with_preview(ov, si as int, ti as int, spec_parse(text@));
                assert(self.sections@[si as int].tiles@.map_values(|t: Tile| t@) =~= expected[si as int].tiles);
                assert(self.sections@[si as int]@ == expected[si as int]);
                assert(sections_view(self.sections@) =~= expected);
                assert forall|j: int| 0 <= j < self.sections@.len() implies #[trigger] self.tile_count(j)
                    == old(self).tile_count(j) by {
                    if j != si {
                        assert(self.sections@[j] == old(self).sections@[j]);
                    }
                }
            }
        }
    }

    /// Live refresh: `reads[si][ti]` is what reading the pane of tile `ti`
    /// of section `si` gave, and `snapshot` the session read after them, if
    /// it could be read. A successful read replaces the tile's preview, a
    /// failed one keeps it; then the snapshot refreshes zoom states and
    /// statuses. The section/tile structure, the selection, the scroll and
    /// the close prompt stay as they are.
    pub fn refresh(&mut self, reads: &Vec<Vec<Result<String, String>>>, snapshot: Option<Snapshot>)
        ensures
            old(self).wf() ==> final(self).wf(),
            sections_view(final(self).sections@) == refreshed_sections(
                sections_view(old(self).sections@),
                reads@,
                snapshot,
            ),
            final(self).selected == old(self).selected,
            final(self).scroll == old(self).scroll,
            final(self).confirming_close == old(self).confirming_close,
    {
        let n = self.sections.len();
        let mut k: usize = 0;
        while k < n
            invariant
                n == self.sections@.len(),
                n == old(self).sections@.len(),
                0 <= k <= n,
                self.selected == old(self).selected,
                self.scroll == old(self).scroll,
                self.confirming_close == old(self).confirming_close,
                forall|j: int|
                    0 <= j < k ==> (#[trigger] self.sections@[j])@ == section_after_reads(
                        old(self).sections@[j]@,
                        read_row(reads@, j),
                    ),
                forall|j: int| k <= j < n ==> #[trigger] self.sections@[j] == old(self).sections@[j],
            decreases n - k,
        {
            let ghost o = old(self).sections@[k as int];
            if k < reads.len() {
                read_into_tiles(&mut self.sections[k].tiles, &reads[k]);
                proof {
                    assert(self.sections@[k as int].tiles@.map_values(|t: Tile| t@) =~= section_after_reads(
                        o@,
                        read_row(reads@, k as int),
                    ).tiles);
                }
            } else {
                proof {
                    assert(section_after_reads(o@, read_row(reads@, k as int)).tiles =~= o@.tiles);
                }
            }
            k = k + 1;
        }
        proof {
            assert(sections_view(self.sections@) =~= Seq::new(
                n as nat,
                |si: int| section_after_reads(sections_view(old(self).sections@)[si], read_row(reads@, si)),
            ));
            assert forall|j: int| 0 <= j < n implies #[trigger] self.tile_count(j) == old(self).tile_count(j) by {
                assert(self.sections@[j]@.tiles.len() == self.sections@[j].tiles@.len());
                assert(old(self).sections@[j]@.tiles.len() == old(self).sections@[j].tiles@.len());
            }
        }
        match snapshot {
            Some(snap) => self.apply_snapshot(&snap),
            None => {},
        }
    }

    /// First load of one preview: a successful read is parsed; a failed one
    /// shows `(read error: <error>)`.
    pub fn load_preview(&mut self, si: usize, ti: usize, read: Result<String, String>)
        ensures
            old(self).wf() ==> final(self).wf(),
            si < old(self).sections@.len() && ti < old(self).tile_count(si as int) ==> sections_view(
                final(self).sections@,
            ) == with_preview(
                sections_view(old(self).sections@),
                si as int,
                ti as int,
                spec_parse(
                    match read {
                        Ok(t) => t@,
                        Err(e) => read_error_text(e@),
                    },
                ),
            ),
            !(si < old(self).sections@.len() && ti < old(self).tile_count(si as int)) ==> final(self).sections
                == old(self).sections,
            final(self).selected == old(self).selected,
            final(self).scroll == old(self).scroll,
            final(self).confirming_close == old(self).confirming_close,
    {
        match read {
            Ok(text) => self.set_preview_text(si, ti, text.as_str()),
            Err(e) => {
                let mut t = String::from_str("(read error: ");
                t.append(e.as_str());
                t.append(")");
                self.set_preview_text(si, ti, t.as_str());
            },
        }
    }
}

} // verus!
