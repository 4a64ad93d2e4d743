use herdr_mission_control::ansi::{apply_sgr, parse, Line};
use herdr_mission_control::style::{Color, Style, BOLD, CROSSED_OUT, DIM, ITALIC, REVERSED, UNDERLINED};

fn text_of(line: &Line) -> String {
    line.spans.iter().map(|s| s.content.as_str()).collect()
}

#[test]
fn plain_text_splits_lines() {
    let lines = parse("hello\r\nworld");
    assert_eq!(lines.len(), 2);
    assert_eq!(text_of(&lines[0]), "hello");
    assert_eq!(text_of(&lines[1]), "world");
}

#[test]
fn sgr_colors_apply_and_reset() {
    let lines = parse("\x1b[31;1mred\x1b[0m plain");
    assert_eq!(lines.len(), 1);
    let spans = &lines[0].spans;
    assert_eq!(spans[0].content, "red");
    assert_eq!(spans[0].style.fg, Some(Color::Red));
    assert!(spans[0].style.add_modifier & BOLD == BOLD);
    assert_eq!(spans[1].content, " plain");
    assert_eq!(spans[1].style.fg, None);
}

#[test]
fn rgb_and_indexed_colors() {
    let lines = parse("\x1b[38;2;153;153;153mgrey\x1b[38;5;12mblue");
    let spans = &lines[0].spans;
    assert_eq!(spans[0].style.fg, Some(Color::Rgb(153, 153, 153)));
    assert_eq!(spans[1].style.fg, Some(Color::Indexed(12)));
}

#[test]
fn unterminated_escape_is_dropped() {
    let lines = parse("ok\x1b[38;2;1");
    assert_eq!(text_of(&lines[0]), "ok");
}

#[test]
fn empty_text_has_no_line() {
    assert_eq!(parse("").len(), 0);
}

#[test]
fn lone_newline_gives_one_empty_line() {
    let lines = parse("\n");
    assert_eq!(lines.len(), 1);
    assert_eq!(lines[0].spans.len(), 0);
}

#[test]
fn trailing_newline_adds_no_line() {
    let lines = parse("a\nb\n");
    assert_eq!(lines.len(), 2);
    assert_eq!(text_of(&lines[1]), "b");
}

#[test]
fn blank_line_in_the_middle_is_kept() {
    let lines = parse("a\n\nb");
    assert_eq!(lines.len(), 3);
    assert_eq!(lines[1].spans.len(), 0);
}

#[test]
fn other_csi_sequences_are_dropped_whole() {
    let lines = parse("\x1b[2Jab\x1b[Kc");
    assert_eq!(lines.len(), 1);
    assert_eq!(text_of(&lines[0]), "abc");
    assert_eq!(lines[0].spans.len(), 1);
}

#[test]
fn other_escape_sequences_are_dropped_whole() {
    let lines = parse("a\x1b(Bb");
    assert_eq!(lines.len(), 1);
    assert_eq!(text_of(&lines[0]), "ab");
    assert_eq!(text_of(&parse("a\x1b7b\x1b8c")[0]), "abc");
    assert_eq!(text_of(&parse("a\x1b#8")[0]), "a");
}

#[test]
fn lone_escape_is_dropped() {
    assert_eq!(text_of(&parse("a\x1b")[0]), "a");
    let lines = parse("a\x1b\nb");
    assert_eq!(lines.len(), 2);
    assert_eq!(text_of(&lines[1]), "b");
    assert_eq!(text_of(&parse("a\x1b\x1b[31mb")[0]), "ab");
    assert_eq!(parse("a\x1b\x1b[31mb")[0].spans[1].style.fg, Some(Color::Red));
}

#[test]
fn csi_terminator_is_consumed_even_if_newline() {
    let lines = parse("a\x1b[\nb");
    assert_eq!(lines.len(), 1);
    assert_eq!(text_of(&lines[0]), "ab");
}

#[test]
fn style_only_tail_makes_no_line() {
    let lines = parse("a\n\x1b[31m");
    assert_eq!(lines.len(), 1);
}

#[test]
fn spans_are_never_empty() {
    let lines = parse("\x1b[1m\x1b[31m\x1b[0mx\x1b[32m\x1b[33my");
    assert_eq!(lines[0].spans.len(), 2);
    for line in &lines {
        for span in &line.spans {
            assert!(!span.content.is_empty());
        }
    }
    assert_eq!(lines[0].spans[1].style.fg, Some(Color::Yellow));
}

#[test]
fn visible_text_is_kept() {
    let text = "\x1b[1mab\r\x1b[0mc\nd\x1b[7me\x1b[Kf\n";
    let lines = parse(text);
    let joined: String = lines.iter().map(|l| text_of(l) + "\n").collect();
    assert_eq!(joined, "abc\ndef\n");
}

fn sgr(style: Style, params: &str) -> Style {
    apply_sgr(style, params)
}

#[test]
fn modifiers_are_added_and_removed() {
    let s = sgr(Style::new(), "1;2;3;4;7;9");
    assert_eq!(s.add_modifier, BOLD | DIM | ITALIC | UNDERLINED | REVERSED | CROSSED_OUT);
    assert_eq!(s.sub_modifier, 0);
    let s = sgr(s, "22");
    assert_eq!(s.add_modifier, ITALIC | UNDERLINED | REVERSED | CROSSED_OUT);
    assert_eq!(s.sub_modifier, BOLD | DIM);
    let s = sgr(s, "23;24;27;29");
    assert_eq!(s.add_modifier, 0);
    assert_eq!(s.sub_modifier, BOLD | DIM | ITALIC | UNDERLINED | REVERSED | CROSSED_OUT);
    let s = sgr(s, "1");
    assert_eq!(s.add_modifier, BOLD);
    assert_eq!(s.sub_modifier, DIM | ITALIC | UNDERLINED | REVERSED | CROSSED_OUT);
}

#[test]
fn base_and_bright_colors() {
    let s = sgr(Style::new(), "32;47");
    assert_eq!(s.fg, Some(Color::Green));
    assert_eq!(s.bg, Some(Color::Gray));
    let s = sgr(s, "91;106");
    assert_eq!(s.fg, Some(Color::LightRed));
    assert_eq!(s.bg, Some(Color::LightCyan));
    let s = sgr(s, "39;49");
    assert_eq!(s.fg, Some(Color::Reset));
    assert_eq!(s.bg, Some(Color::Reset));
    let s = sgr(s, "");
    assert_eq!(s, Style::new());
}

#[test]
fn background_indexed_and_rgb() {
    let s = sgr(Style::new(), "48:5:200");
    assert_eq!(s.bg, Some(Color::Indexed(200)));
    let s = sgr(Style::new(), "48;2;1;2");
    assert_eq!(s.bg, Some(Color::Rgb(1, 2, 0)));
    let s = sgr(Style::new(), "38;5");
    assert_eq!(s.fg, Some(Color::Indexed(0)));
    let s = sgr(Style::new(), "38;5;300");
    assert_eq!(s.fg, Some(Color::Indexed(44)));
}

#[test]
fn extended_color_without_mode_is_skipped() {
    let s = sgr(Style::new(), "38;31");
    assert_eq!(s.fg, Some(Color::Red));
    let s = sgr(Style::new(), "38");
    assert_eq!(s, Style::new());
}

#[test]
fn oversized_code_counts_as_reset() {
    let s = sgr(Style::new().with_fg(Color::Blue), "70000");
    assert_eq!(s, Style::new());
    let s = sgr(Style::new(), "65535;31");
    assert_eq!(s.fg, Some(Color::Red));
    let s = sgr(Style::new().with_fg(Color::Blue), ";31");
    assert_eq!(s.fg, Some(Color::Red));
}

#[test]
fn fields_read_like_u16() {
    let s = sgr(Style::new(), "+31");
    assert_eq!(s.fg, Some(Color::Red));
    let s = sgr(Style::new().with_fg(Color::Blue), "+");
    assert_eq!(s, Style::new());
    let s = sgr(Style::new().with_fg(Color::Blue), "3x");
    assert_eq!(s, Style::new());
    let s = sgr(Style::new(), "++31;-1;32");
    assert_eq!(s.fg, Some(Color::Green));
    let s = sgr(Style::new(), "38;2");
    assert_eq!(s.fg, Some(Color::Rgb(0, 0, 0)));
    let s = sgr(Style::new(), "0031");
    assert_eq!(s.fg, Some(Color::Red));
}

#[test]
fn codes_compose_left_to_right() {
    let s = Style::new().with_bg(Color::Blue);
    assert_eq!(sgr(s, "31;32"), s.with_fg(Color::Green));
    assert_eq!(sgr(s, "1;38;5;9;4"), sgr(sgr(s, "1;38;5;9"), "4"));
    assert_eq!(sgr(s, "31;0"), Style::new());
    assert_eq!(sgr(s, "1;"), Style::new());
}

#[test]
fn style_carries_across_newline() {
    let lines = parse("\x1b[31mA\nB");
    assert_eq!(lines[1].spans[0].style.fg, Some(Color::Red));
}

#[test]
fn unknown_codes_change_nothing() {
    let s = sgr(Style::new().with_fg(Color::Blue), "5;8;53");
    assert_eq!(s, Style::new().with_fg(Color::Blue));
}

#[test]
fn last_zero_resets_even_after_extended_color_prefix() {
    let start = Style::new().with_fg(Color::Red).with_modifier(BOLD);
    // The 0 after a 38/48 without a mode is a command of its own.
    assert_eq!(sgr(start, "38;0"), Style::new());
    assert_eq!(sgr(start, "1;48;0"), Style::new());
    assert_eq!(sgr(start, "31;0"), Style::new());
    assert_eq!(sgr(start, "1;"), Style::new());
    assert_eq!(sgr(start, ""), Style::new());
    // Here the 0 is the index of an indexed color: no reset.
    assert_eq!(sgr(start, "38;5;0"), start.with_fg(Color::Indexed(0)));
}

#[test]
fn extended_colors_then_more_codes() {
    let s = sgr(Style::new(), "38;5;202;1");
    assert_eq!(s, Style::new().with_fg(Color::Indexed(202)).with_modifier(BOLD));
    let s = sgr(Style::new(), "48;2;10;20;300;4");
    assert_eq!(s, Style::new().with_bg(Color::Rgb(10, 20, 44)).with_modifier(UNDERLINED));
}

#[test]
fn style_carries_across_newlines() {
    let lines = parse("\x1b[31mA\nB\x1b[1mC\x1b[0mD");
    assert_eq!(lines.len(), 2);
    assert_eq!(lines[0].spans[0].style, Style::new().with_fg(Color::Red));
    assert_eq!(lines[1].spans[0].content, "B");
    assert_eq!(lines[1].spans[0].style.fg, Some(Color::Red));
    assert_eq!(lines[1].spans[1].style, Style::new().with_fg(Color::Red).with_modifier(BOLD));
    assert_eq!(lines[1].spans[2].style, Style::new());
}
