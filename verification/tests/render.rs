use herdr_mission_control::ansi::{parse, Line};
use herdr_mission_control::app::{Section, Tile};
use herdr_mission_control::render::{
    border_style, header_line, help_line, preview_window, push_decimal, status_style, tile_title,
};
use herdr_mission_control::style::{Color, Style, BOLD};

fn contents(l: &Line) -> Vec<&str> {
    l.spans.iter().map(|s| s.content.as_str()).collect()
}

fn tile(title: &str, agent: Option<&str>, status: &str) -> Tile {
    Tile {
        pane_id: "p1".to_string(),
        title: title.to_string(),
        agent: agent.map(|a| a.to_string()),
        status: status.to_string(),
        focused: false,
        preview: Vec::new(),
    }
}

#[test]
fn status_icons() {
    assert_eq!(status_style("blocked"), ("●", Color::Red));
    assert_eq!(status_style("working"), ("●", Color::Yellow));
    assert_eq!(status_style("done"), ("●", Color::Green));
    assert_eq!(status_style("idle"), ("○", Color::DarkGray));
    assert_eq!(status_style("whatever"), ("○", Color::DarkGray));
}

#[test]
fn tile_title_full() {
    let l = tile_title(&tile("editor", Some("aider"), "working"), 3);
    assert_eq!(contents(&l), vec![" ● ", "editor", " [aider]", " p1 ", "(3) "]);
    assert_eq!(l.spans[0].style, Style::new().with_fg(Color::Yellow));
    assert_eq!(l.spans[1].style, Style::new().with_modifier(BOLD));
    assert_eq!(l.spans[2].style, Style::new().with_fg(Color::Magenta));
    assert_eq!(l.spans[3].style, Style::new().with_fg(Color::DarkGray));
    assert_eq!(l.spans[4].style, Style::new().with_fg(Color::Cyan));
}

#[test]
fn tile_title_plain() {
    let l = tile_title(&tile("p1", None, "idle"), 10);
    assert_eq!(contents(&l), vec![" ○ ", "p1", " "]);
    assert_eq!(l.spans[2].style, Style::new());
}

#[test]
fn header_shows_number_label_zoom() {
    let mut s = Section { tab_id: "a".to_string(), label: "build".to_string(), number: 12, zoomed: false, tiles: Vec::new() };
    assert_eq!(contents(&header_line(&s)), vec![" t12 ", " build", ""]);
    s.zoomed = true;
    let l = header_line(&s);
    assert_eq!(contents(&l), vec![" t12 ", " build", "  [zoom]"]);
    assert_eq!(l.spans[0].style, Style::new().with_fg(Color::Black).with_bg(Color::DarkGray).with_modifier(BOLD));
}

#[test]
fn help_marks_scrolling() {
    assert_eq!(help_line(false).spans.len(), 8);
    let l = help_line(true);
    assert_eq!(l.spans.len(), 9);
    assert_eq!(l.spans[8].content, "  ‹défilement›");
}

#[test]
fn border_of_selected_tile() {
    assert_eq!(border_style(true), Style::new().with_fg(Color::Cyan).with_modifier(BOLD));
    assert_eq!(border_style(false), Style::new().with_fg(Color::DarkGray));
}

#[test]
fn decimal_digits() {
    let mut s = String::from("n=");
    push_decimal(&mut s, 0);
    push_decimal(&mut s, 907);
    assert_eq!(s, "n=0907");
}

#[test]
fn preview_tail_after_trimming_blank_lines() {
    let lines = parse("a\nb\nc\n   \n\n  ");
    assert_eq!(lines.len(), 6);
    assert_eq!(preview_window(&lines, 2), (1, 3));
    assert_eq!(preview_window(&lines, 10), (0, 3));
    let blank = parse("  \n \n");
    assert_eq!(preview_window(&blank, 5), (0, 0));
    assert_eq!(preview_window(&lines, 0), (3, 3));
}

#[test]
fn title_badge_only_for_jump_digits() {
    let t = tile("editor", Some("aider"), "working");
    let plain = tile_title(&t, 10);
    for badge in 1..=9usize {
        let l = tile_title(&t, badge);
        assert_eq!(l.spans.len(), plain.spans.len() + 1);
        for (a, b) in l.spans.iter().zip(plain.spans.iter()) {
            assert_eq!(a.content, b.content);
            assert_eq!(a.style, b.style);
        }
        let last = l.spans.last().unwrap();
        assert_eq!(last.content, format!("({badge}) "));
        assert_eq!(last.style, Style::new().with_fg(Color::Cyan));
    }
    let far = tile_title(&t, 11);
    assert_eq!(contents(&far), contents(&plain));
    assert!(far.spans.iter().zip(plain.spans.iter()).all(|(a, b)| a.style == b.style));
}
