use herdr_mission_control::app::{App, Section, Tile};
use herdr_mission_control::layout::{
    canvas_rows, plan_fits, plan_rows, scroll_offset, Rect, RowKind, VisualRow,
};
use herdr_mission_control::scene::{scene, Piece};

fn tile(id: usize) -> Tile {
    Tile {
        pane_id: format!("p{id}"),
        title: format!("p{id}"),
        agent: None,
        status: String::new(),
        focused: false,
        preview: Vec::new(),
    }
}

fn app(counts: &[usize]) -> App {
    App {
        sections: counts
            .iter()
            .enumerate()
            .map(|(i, &n)| Section {
                tab_id: format!("t{i}"),
                label: String::new(),
                number: i + 1,
                zoomed: false,
                tiles: (0..n).map(tile).collect(),
            })
            .collect(),
        selected: (0, 0),
        scroll: 0,
        confirming_close: false,
    }
}

fn body(width: u16, height: u16) -> Rect {
    Rect { x: 0, y: 0, width, height }
}

fn tiles(y: u16, height: u16, section: usize, start: usize, end: usize, columns: usize) -> VisualRow {
    VisualRow { y, height, kind: RowKind::Tiles { section, start, end, columns } }
}

#[test]
fn fits_the_body_when_room() {
    let a = app(&[3, 1]);
    let plan = plan_rows(&a, body(130, 50));
    assert!(!plan.scrolling);
    // 2 columns (130 / 60), section 0: 2 rows, section 1: 1 row; 48 lines
    // for 3 rows: 16 each, no extra line.
    assert_eq!(
        plan.rows,
        vec![
            VisualRow { y: 0, height: 1, kind: RowKind::Header(0) },
            tiles(1, 16, 0, 0, 2, 2),
            tiles(17, 16, 0, 2, 3, 2),
            VisualRow { y: 33, height: 1, kind: RowKind::Header(1) },
            tiles(34, 16, 1, 0, 1, 1),
        ]
    );
    assert_eq!(plan.total_height, 50);
}

#[test]
fn extra_lines_go_to_first_rows() {
    let a = app(&[2]);
    let plan = plan_rows(&a, body(59, 35));
    // One column, two rows, 34 lines: 17 each.
    assert_eq!(plan.rows[1], tiles(1, 17, 0, 0, 1, 1));
    let plan = plan_rows(&a, body(59, 36));
    // 35 lines: 17 + 1 for the first row.
    assert_eq!(plan.rows[1], tiles(1, 18, 0, 0, 1, 1));
    assert_eq!(plan.rows[2], tiles(19, 17, 0, 1, 2, 1));
    assert_eq!(plan.total_height, 36);
}

#[test]
fn scrolls_below_the_floor() {
    let a = app(&[4]);
    let plan = plan_rows(&a, body(60, 40));
    assert!(plan.scrolling);
    assert_eq!(plan.rows.len(), 5);
    for r in &plan.rows[1..] {
        assert_eq!(r.height, 15);
    }
    assert_eq!(plan.total_height, 61);
}

#[test]
fn empty_sections_have_only_headers() {
    let a = app(&[0, 0]);
    let plan = plan_rows(&a, body(80, 10));
    assert!(!plan.scrolling);
    assert_eq!(plan.rows.len(), 2);
    assert_eq!(plan.total_height, 2);
    assert_eq!(plan.rows[1], VisualRow { y: 1, height: 1, kind: RowKind::Header(1) });
}

#[test]
fn zero_width_counts_as_one_column() {
    let a = app(&[2]);
    let plan = plan_rows(&a, body(0, 100));
    assert_eq!(plan.rows.len(), 3);
    assert_eq!(plan.rows[1].kind, RowKind::Tiles { section: 0, start: 0, end: 1, columns: 1 });
}

#[test]
fn plan_fits_guards_overflow() {
    assert!(plan_fits(&app(&[3]), 80, 24));
    assert!(!plan_fits(&app(&[5000]), 60, 24));
}

#[test]
fn scroll_keeps_selection_visible() {
    let mut a = app(&[4]);
    let plan = plan_rows(&a, body(60, 40));
    assert_eq!(scroll_offset(&a, &plan, 40), 0);
    a.selected = (0, 3);
    // Row of tile 3: y = 46, height 15; bottom 61 - 40 = 21.
    a.update_scroll(&plan, 40);
    assert_eq!(a.scroll, 21);
    // Tile 2 (31..46) is inside 21..61: the offset stays.
    a.selected = (0, 2);
    a.update_scroll(&plan, 40);
    assert_eq!(a.scroll, 21);
    // Tile 0 (1..16) is above: one line above it.
    a.selected = (0, 0);
    a.update_scroll(&plan, 40);
    assert_eq!(a.scroll, 0);
}

#[test]
fn scroll_persists_while_row_is_in_view() {
    let mut a = app(&[4]);
    a.selected = (0, 1);
    a.scroll = 12;
    let plan = plan_rows(&a, body(60, 20));
    // Row of tile 1 at 16..31 lies inside 12..32.
    assert_eq!(scroll_offset(&a, &plan, 20), 12);
    a.scroll = 20;
    // Above the view: one line above the row.
    assert_eq!(scroll_offset(&a, &plan, 20), 15);
}

#[test]
fn scroll_shows_whole_row_as_high_as_viewport() {
    let mut a = app(&[2]);
    a.selected = (0, 1);
    let plan = plan_rows(&a, body(60, 15));
    assert!(plan.scrolling);
    // Row of tile 1 at 16..31: bottom 31 - 15 = 16.
    assert_eq!(scroll_offset(&a, &plan, 15), 16);
}

#[test]
fn scroll_shows_row_bottom_when_viewport_is_small() {
    let mut a = app(&[4]);
    a.selected = (0, 1);
    let plan = plan_rows(&a, body(60, 10));
    // Row of tile 1 at 16..31 is higher than the viewport: bottom 31 - 10.
    assert_eq!(scroll_offset(&a, &plan, 10), 21);
}

#[test]
fn no_scroll_when_everything_fits() {
    let mut a = app(&[2]);
    a.selected = (0, 1);
    let plan = plan_rows(&a, body(200, 40));
    assert_eq!(scroll_offset(&a, &plan, 40), 0);
}

#[test]
fn scene_numbers_visible_tiles() {
    let mut a = app(&[4, 2]);
    a.selected = (1, 0);
    let plan = plan_rows(&a, body(60, 40));
    let pieces = scene(&a, &plan, 30, 40, 60);
    // Rows: H0 0, T 1..16, T 16..31, T 31..46, T 46..61, H1 61, T 62..77, T 77..92.
    let r = |y: u16| Rect { x: 0, y, width: 60, height: 15 };
    assert_eq!(
        pieces,
        vec![
            Piece::Tile { section: 0, tile: 1, badge: 2, selected: false, area: r(16) },
            Piece::Tile { section: 0, tile: 2, badge: 3, selected: false, area: r(31) },
            Piece::Tile { section: 0, tile: 3, badge: 4, selected: false, area: r(46) },
            Piece::Header { section: 1, area: Rect { x: 0, y: 61, width: 60, height: 1 } },
            Piece::Tile { section: 1, tile: 0, badge: 5, selected: true, area: r(62) },
        ]
    );
}

#[test]
fn scene_badges_are_jump_numbers() {
    let mut a = app(&[3, 0, 2, 4]);
    let plan = plan_rows(&a, body(120, 30));
    for offset in [0u16, 20, 40] {
        for piece in scene(&a, &plan, offset, 30, 120) {
            if let Piece::Tile { section, tile, badge, .. } = piece {
                let mut b = app(&[3, 0, 2, 4]);
                assert!(b.select_nth(badge));
                assert_eq!(b.selected, (section, tile));
            }
        }
    }
    a.selected = (3, 3);
    let pieces = scene(&a, &plan, 0, 200, 120);
    assert!(pieces.contains(&Piece::Tile {
        section: 3,
        tile: 3,
        badge: 9,
        selected: true,
        area: match pieces.iter().find_map(|p| match p {
            Piece::Tile { section: 3, tile: 3, area, .. } => Some(*area),
            _ => None,
        }) {
            Some(area) => area,
            None => panic!("tile 3 of section 3 is drawn"),
        },
    }));
}

#[test]
fn scene_splits_rows_into_cells() {
    let a = app(&[2]);
    let plan = plan_rows(&a, body(120, 31));
    let pieces = scene(&a, &plan, 0, 31, 120);
    assert_eq!(pieces.len(), 3);
    assert_eq!(pieces[1], Piece::Tile { section: 0, tile: 0, badge: 1, selected: true, area: Rect { x: 0, y: 1, width: 60, height: 30 } });
    assert_eq!(pieces[2], Piece::Tile { section: 0, tile: 1, badge: 2, selected: false, area: Rect { x: 60, y: 1, width: 60, height: 30 } });
}

#[test]
fn canvas_rows_follow_the_offset() {
    // The viewport shows canvas rows offset, offset + 1, ...
    assert_eq!(canvas_rows(5, 3, 100), vec![5, 6, 7]);
    // Past the canvas's end nothing more is shown.
    assert_eq!(canvas_rows(8, 5, 10), vec![8, 9]);
    assert_eq!(canvas_rows(10, 5, 10), Vec::<u16>::new());
    assert_eq!(canvas_rows(12, 5, 10), Vec::<u16>::new());
    assert_eq!(canvas_rows(0, 0, 10), Vec::<u16>::new());
    assert_eq!(canvas_rows(65534, 4, 65535), vec![65534]);
}
