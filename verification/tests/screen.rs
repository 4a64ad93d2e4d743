use herdr_mission_control::app::{
    build_app, resolve_workspace, Action, App, Key, Outcome, Section, Tile,
};
use herdr_mission_control::herdr::{LayoutInfo, PaneInfo, Snapshot, TabInfo};

fn tile(id: &str) -> Tile {
    Tile {
        pane_id: id.to_string(),
        title: id.to_string(),
        agent: None,
        status: "idle".to_string(),
        focused: false,
        preview: Vec::new(),
    }
}

fn section(tab: &str, n: usize) -> Section {
    Section {
        tab_id: tab.to_string(),
        label: format!("label {tab}"),
        number: 1,
        zoomed: false,
        tiles: (0..n).map(|i| tile(&format!("{tab}-p{i}"))).collect(),
    }
}

fn app(counts: &[usize]) -> App {
    App {
        sections: counts.iter().enumerate().map(|(i, &n)| section(&format!("t{i}"), n)).collect(),
        selected: (0, 0),
        scroll: 0,
        confirming_close: false,
    }
}

#[test]
fn horizontal_moves_wrap() {
    let mut a = app(&[3]);
    a.move_horizontal(-1);
    assert_eq!(a.selected, (0, 2));
    a.move_horizontal(1);
    assert_eq!(a.selected, (0, 0));
    a.move_horizontal(7);
    assert_eq!(a.selected, (0, 1));
}

#[test]
fn horizontal_move_round_trip() {
    let mut a = app(&[5]);
    a.selected = (0, 3);
    a.move_horizontal(4);
    a.move_horizontal(-4);
    assert_eq!(a.selected, (0, 3));
}

#[test]
fn horizontal_move_in_empty_section_does_nothing() {
    let mut a = app(&[0, 2]);
    a.move_horizontal(1);
    assert_eq!(a.selected, (0, 0));
}

#[test]
fn vertical_moves_clamp() {
    let mut a = app(&[4, 2, 3]);
    a.selected = (0, 3);
    a.move_vertical(-1);
    assert_eq!(a.selected, (0, 3));
    a.move_vertical(1);
    assert_eq!(a.selected, (1, 1));
    a.move_vertical(5);
    assert_eq!(a.selected, (2, 1));
}

#[test]
fn vertical_move_to_empty_section() {
    let mut a = app(&[4, 0]);
    a.selected = (0, 2);
    a.move_vertical(1);
    assert_eq!(a.selected, (1, 0));
}

#[test]
fn select_nth_counts_in_flat_order() {
    let mut a = app(&[2, 0, 3]);
    assert!(a.select_nth(4));
    assert_eq!(a.selected, (2, 1));
    assert!(a.select_nth(1));
    assert_eq!(a.selected, (0, 0));
    assert!(!a.select_nth(6));
    assert_eq!(a.selected, (0, 0));
    assert!(!a.select_nth(0));
    assert!(a.select_nth(5));
    assert_eq!(a.selected, (2, 2));
}

#[test]
fn selected_pane_follows_selection() {
    let mut a = app(&[2]);
    a.sections[0].zoomed = true;
    a.selected = (0, 1);
    assert_eq!(a.selected_pane(), Some(("t0-p1", true)));
    a.selected = (0, 2);
    assert_eq!(a.selected_pane(), None);
}

#[test]
fn enter_switches_to_selected_pane() {
    let mut a = app(&[2]);
    a.selected = (0, 1);
    match a.handle_key(Key::Enter) {
        Action::Exit(Outcome::Switch { pane_id, tab_zoomed }) => {
            assert_eq!(pane_id, "t0-p1");
            assert!(!tab_zoomed);
        }
        _ => panic!("expected a switch"),
    }
}

#[test]
fn quit_keys_cancel() {
    let mut a = app(&[1]);
    assert!(matches!(a.handle_key(Key::Esc), Action::Exit(Outcome::Cancel)));
    assert!(matches!(a.handle_key(Key::Char('q')), Action::Exit(Outcome::Cancel)));
}

#[test]
fn digit_jumps_and_switches() {
    let mut a = app(&[1, 2]);
    match a.handle_key(Key::Char('3')) {
        Action::Exit(Outcome::Switch { pane_id, .. }) => assert_eq!(pane_id, "t1-p1"),
        _ => panic!("expected a switch"),
    }
    assert_eq!(a.selected, (1, 1));
    assert!(matches!(a.handle_key(Key::Char('9')), Action::Stay));
    assert_eq!(a.selected, (1, 1));
}

#[test]
fn close_needs_confirmation() {
    let mut a = app(&[2]);
    assert!(matches!(a.handle_key(Key::Backspace), Action::Stay));
    assert!(a.confirming_close);
    // Navigation is ignored while confirming.
    assert!(matches!(a.handle_key(Key::Right), Action::Stay));
    assert_eq!(a.selected, (0, 0));
    match a.handle_key(Key::Char('y')) {
        Action::ClosePane(id) => assert_eq!(id, "t0-p0"),
        _ => panic!("expected a close"),
    }
    assert!(!a.confirming_close);
}

#[test]
fn close_can_be_cancelled() {
    let mut a = app(&[2]);
    a.handle_key(Key::Backspace);
    assert!(matches!(a.handle_key(Key::Char('n')), Action::Stay));
    assert!(!a.confirming_close);
}

#[test]
fn backspace_without_pane_does_not_confirm() {
    let mut a = app(&[0]);
    a.handle_key(Key::Backspace);
    assert!(!a.confirming_close);
}

#[test]
fn arrows_and_hjkl_move() {
    let mut a = app(&[3, 3]);
    a.handle_key(Key::Char('l'));
    a.handle_key(Key::Right);
    assert_eq!(a.selected, (0, 2));
    a.handle_key(Key::Char('j'));
    assert_eq!(a.selected, (1, 2));
    a.handle_key(Key::Up);
    a.handle_key(Key::Char('h'));
    assert_eq!(a.selected, (0, 1));
    a.handle_key(Key::Down);
    a.handle_key(Key::Char('k'));
    a.handle_key(Key::Left);
    assert_eq!(a.selected, (0, 0));
}

#[test]
fn after_close_rebuild_or_exit() {
    let mut a = app(&[2]);
    // herdr refused the close: the screen stays as it was.
    assert!(matches!(a.after_close(None), Action::Stay));
    assert_eq!(a.sections.len(), 1);
    assert!(matches!(a.after_close(Some(Ok(app(&[1, 1])))), Action::Stay));
    assert_eq!(a.sections.len(), 2);
    assert!(matches!(a.after_close(Some(Err("gone".to_string()))), Action::Exit(Outcome::Cancel)));
    assert_eq!(a.sections.len(), 2);
}

fn pane(id: &str, tab: &str, focused: bool) -> PaneInfo {
    PaneInfo {
        pane_id: id.to_string(),
        tab_id: tab.to_string(),
        focused,
        title: None,
        terminal_title_stripped: None,
        agent: None,
        display_agent: None,
        agent_status: "idle".to_string(),
    }
}

fn tab(id: &str, ws: &str, number: usize, focused: bool) -> TabInfo {
    TabInfo {
        tab_id: id.to_string(),
        workspace_id: ws.to_string(),
        number,
        label: format!("tab {id}"),
        focused,
    }
}

fn snapshot() -> Snapshot {
    let mut p2 = pane("p2", "a", true);
    p2.title = Some("editor".to_string());
    p2.agent = Some("aider".to_string());
    let mut p3 = pane("p3", "b", true);
    p3.terminal_title_stripped = Some("shell".to_string());
    p3.display_agent = Some("Goose".to_string());
    p3.agent = Some("goose".to_string());
    Snapshot {
        focused_workspace_id: Some("w1".to_string()),
        tabs: vec![tab("a", "w1", 1, false), tab("x", "w2", 1, true), tab("b", "w1", 2, true)],
        panes: vec![pane("p1", "a", false), p2, pane("p9", "x", true), p3, pane("p4", "b", false)],
        layouts: vec![
            LayoutInfo { tab_id: "b".to_string(), zoomed: true },
            LayoutInfo { tab_id: "b".to_string(), zoomed: false },
        ],
    }
}

#[test]
fn build_app_groups_panes_by_tab() {
    let a = build_app(&snapshot(), &"w1".to_string()).ok().unwrap();
    assert_eq!(a.sections.len(), 2);
    assert_eq!(a.sections[0].tab_id, "a");
    assert_eq!(a.sections[0].label, "tab a");
    assert!(!a.sections[0].zoomed);
    assert_eq!(a.sections[1].number, 2);
    assert!(a.sections[1].zoomed);
    let ids: Vec<&str> = a.sections[1].tiles.iter().map(|t| t.pane_id.as_str()).collect();
    assert_eq!(ids, vec!["p3", "p4"]);
    assert_eq!(a.sections[0].tiles[0].title, "p1");
    assert_eq!(a.sections[0].tiles[1].title, "editor");
    assert_eq!(a.sections[0].tiles[1].agent.as_deref(), Some("aider"));
    assert_eq!(a.sections[1].tiles[0].title, "shell");
    assert_eq!(a.sections[1].tiles[0].agent.as_deref(), Some("Goose"));
    // The focused pane of the focused tab is selected.
    assert_eq!(a.selected, (1, 0));
    assert_eq!(a.scroll, 0);
    assert!(!a.confirming_close);
}

#[test]
fn build_app_without_panes_fails() {
    let mut snap = snapshot();
    snap.panes.clear();
    match build_app(&snap, &"w1".to_string()) {
        Err(m) => assert_eq!(m, "no panes in workspace w1"),
        Ok(_) => panic!("expected an error"),
    }
    match build_app(&snapshot(), &"nowhere".to_string()) {
        Err(m) => assert_eq!(m, "no panes in workspace nowhere"),
        Ok(_) => panic!("expected an error"),
    }
}

#[test]
fn build_app_selects_first_tile_without_focus() {
    let mut snap = snapshot();
    for t in snap.tabs.iter_mut() {
        t.focused = false;
    }
    let a = build_app(&snap, &"w1".to_string()).ok().unwrap();
    assert_eq!(a.selected, (0, 0));
}

#[test]
fn workspace_comes_from_env_then_snapshot() {
    assert_eq!(resolve_workspace(Some("e".to_string()), Some("f".to_string())), Ok("e".to_string()));
    assert_eq!(resolve_workspace(None, Some("f".to_string())), Ok("f".to_string()));
    assert_eq!(resolve_workspace(None, None), Err("no current workspace".to_string()));
}

#[test]
fn snapshot_refreshes_zoom_and_status() {
    let mut a = build_app(&snapshot(), &"w1".to_string()).ok().unwrap();
    let mut snap = snapshot();
    snap.panes[3].agent_status = "working".to_string();
    snap.panes.remove(0);
    snap.layouts = vec![LayoutInfo { tab_id: "a".to_string(), zoomed: true }];
    a.sections[0].tiles[0].status = "done".to_string();
    a.apply_snapshot(&snap);
    assert!(a.sections[0].zoomed);
    // No layout for tab b: it keeps its zoom state.
    assert!(a.sections[1].zoomed);
    assert_eq!(a.sections[1].tiles[0].status, "working");
    // Pane p1 is gone: it keeps its last status.
    assert_eq!(a.sections[0].tiles[0].status, "done");
    assert_eq!(a.sections[0].tiles.len(), 2);
}

#[test]
fn previews_load_and_refresh() {
    let mut a = app(&[1]);
    a.load_preview(0, 0, Err("boom".to_string()));
    assert_eq!(a.sections[0].tiles[0].preview.len(), 1);
    assert_eq!(a.sections[0].tiles[0].preview[0].spans[0].content, "(read error: boom)");
    a.refresh(&vec![vec![Err("again".to_string())]], None);
    assert_eq!(a.sections[0].tiles[0].preview[0].spans[0].content, "(read error: boom)");
    a.refresh(&vec![vec![Ok("x\ny".to_string())]], None);
    assert_eq!(a.sections[0].tiles[0].preview.len(), 2);
    a.load_preview(0, 0, Ok("z".to_string()));
    assert_eq!(a.sections[0].tiles[0].preview[0].spans[0].content, "z");
    // Out of range: nothing happens.
    a.load_preview(3, 0, Ok("w".to_string()));
    assert_eq!(a.sections[0].tiles[0].preview[0].spans[0].content, "z");
}

#[test]
fn live_refresh_reads_then_snapshot() {
    let mut a = build_app(&snapshot(), &"w1".to_string()).ok().unwrap();
    a.selected = (1, 0);
    a.sections[0].tiles[1].preview.clear();
    let mut snap = snapshot();
    snap.panes[3].agent_status = "working".to_string();
    snap.layouts = vec![LayoutInfo { tab_id: "a".to_string(), zoomed: true }];
    let reads = vec![
        vec![Err("busy".to_string()), Ok("\x1b[31mred".to_string())],
        vec![Ok("plain".to_string())],
    ];
    a.refresh(&reads, Some(snap));
    // Tile p1's read failed: its preview is kept.
    assert_eq!(a.sections[0].tiles[0].preview.len(), 0);
    assert_eq!(a.sections[0].tiles[1].preview[0].spans[0].content, "red");
    assert_eq!(a.sections[1].tiles[0].preview[0].spans[0].content, "plain");
    assert!(a.sections[0].zoomed);
    assert_eq!(a.sections[1].tiles[0].status, "working");
    // The structure, the selection and the scroll stay.
    assert_eq!(a.sections.len(), 2);
    assert_eq!(a.sections[0].tiles.len(), 2);
    assert_eq!(a.selected, (1, 0));
    // Without a snapshot only the previews change; a missing row keeps them.
    a.refresh(&vec![vec![Ok("again".to_string())]], None);
    assert_eq!(a.sections[0].tiles[0].preview[0].spans[0].content, "again");
    assert_eq!(a.sections[1].tiles[0].preview[0].spans[0].content, "plain");
}
