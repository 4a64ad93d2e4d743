//! The text that the screen shows: tile titles, section headers, the help
//! footer, the status icons, and the part of a preview that fits a tile.

use vstd::prelude::*;
use crate::ansi::{Line, LineView, Span, lines_view};
use crate::app::{Section, Tile};
use crate::style::{Color, Style, BOLD};
use crate::text::{chars_of, push_char};

verus! {

// ---------------------------------------------------------------------------
// Numbers
// ---------------------------------------------------------------------------

pub open spec fn digit_char(d: nat) -> char {
    if d == 0 {
        '0'
    } else if d == 1 {
        '1'
    } else if d == 2 {
        '2'
    } else if d == 3 {
        '3'
    } else if d == 4 {
        '4'
    } else if d == 5 {
        '5'
    } else if d == 6 {
        '6'
    } else if d == 7 {
        '7'
    } else if d == 8 {
        '8'
    } else {
        '9'
    }
}

/// The decimal digits of `n`.
pub open spec fn decimal(n: nat) -> Seq<char>
    decreases n,
{
    if n < 10 {
        seq![digit_char(n)]
    } else {
        decimal(n / 10).push(digit_char(n % 10))
    }
}

fn digit(d: usize) -> (c: char)
    requires
        d < 10,
    ensures
        c == digit_char(d as nat),
{
    match d {
        0 => '0',
        1 => '1',
        2 => '2',
        3 => '3',
        4 => '4',
        5 => '5',
        6 => '6',
        7 => '7',
        8 => '8',
        _ => '9',
    }
}

/// Appends the decimal digits of `n`.
pub fn push_decimal(s: &mut String, n: usize)
    ensures
        final(s)@ == old(s)@ + decimal(n as nat),
    decreases n,
{
    if n >= 10 {
        push_decimal(s, n / 10);
    }
    push_char(s, digit(n % 10));
    proof {
        if n < 10 {
            assert(n % 10 == n);
        }
    }
}

fn string_of(parts: &str) -> (s: String)
    ensures
        s@ == parts@,
{
    String::from_str(parts)
}

fn span(content: String, style: Style) -> (s: Span)
    ensures
        s@ == (content@, style),
{
    Span { content, style }
}

// ---------------------------------------------------------------------------
// Status icons
// ---------------------------------------------------------------------------

/// The icon and color of an agent status: a filled dot for `blocked` (red),
/// `working` (yellow) and `done` (green), a hollow dark-gray dot otherwise.
pub open spec fn spec_status_style(status: Seq<char>) -> (Seq<char>, Color) {
    if status == "blocked"@ {
        ("●"@, Color::Red)
    } else if status == "working"@ {
        ("●"@, Color::Yellow)
    } else if status == "done"@ {
        ("●"@, Color::Green)
    } else {
        ("○"@, Color::DarkGray)
    }
}

/// The icon and color of an agent status.
pub fn status_style(status: &str) -> (r: (&'static str, Color))
    ensures
        (r.0@, r.1) == spec_status_style(status@),
{
    let s = String::from_str(status);
    if s == String::from_str("blocked") {
        ("●", Color::Red)
    } else if s == String::from_str("working") {
        ("●", Color::Yellow)
    } else if s == String::from_str("done") {
        ("●", Color::Green)
    } else {
        ("○", Color::DarkGray)
    }
}

// ---------------------------------------------------------------------------
// Titles, headers, footer
// ---------------------------------------------------------------------------

pub open spec fn fg(c: Color) -> Style {
    Style::empty().spec_with_fg(c)
}

pub open spec fn bold() -> Style {
    Style::empty().spec_with_modifier(BOLD)
}

/// The border style of a tile: bold cyan when selected, dark gray otherwise.
pub open spec fn spec_border_style(selected: bool) -> Style {
    if selected {
        fg(Color::Cyan).spec_with_modifier(BOLD)
    } else {
        fg(Color::DarkGray)
    }
}

/// The border style of a tile.
pub fn border_style(selected: bool) -> (s: Style)
    ensures
        s == spec_border_style(selected),
{
    if selected {
        Style::new().with_fg(Color::Cyan).with_modifier(BOLD)
    } else {
        Style::new().with_fg(Color::DarkGray)
    }
}

/// The title of a tile: the status icon, the title in bold, the agent in
/// brackets when there is one, the pane id when it differs from the title,
/// and the jump number `(badge)` for the first nine tiles.
pub open spec fn spec_tile_title(
    pane_id: Seq<char>,
    title: Seq<char>,
    agent: Option<Seq<char>>,
    status: Seq<char>,
    badge: usize,
) -> LineView {
    let (icon, color) = spec_status_style(status);
    let head = seq![(" "@ + icon + " "@, fg(color)), (title, bold())];
    let with_agent = match agent {
        Some(a) => head.push((" ["@ + a + "]"@, fg(Color::Magenta))),
        None => head,
    };
    let with_id = if title != pane_id {
        with_agent.push((" "@ + pane_id + " "@, fg(Color::DarkGray)))
    } else {
        with_agent.push((" "@, Style::empty()))
    };
    if badge <= 9 {
        with_id.push(("("@ + decimal(badge as nat) + ") "@, fg(Color::Cyan)))
    } else {
        with_id
    }
}

/// The title line of a tile with jump number `badge`.
pub fn tile_title(tile: &Tile, badge: usize) -> (l: Line)
    ensures
        l@ == spec_tile_title(tile.pane_id@, tile.title@, crate::app::opt_view(tile.agent), tile.status@, badge),
{
    let (icon, color) = status_style(tile.status.as_str());
    let mut spans: Vec<Span> = Vec::new();
    let mut first = string_of(" ");
    first.append(icon);
    first.append(" ");
    spans.push(span(first, Style::new().with_fg(color)));
    spans.push(span(tile.title.clone(), Style::new().with_modifier(BOLD)));
    match &tile.agent {
        Some(a) => {
            let mut t = string_of(" [");
            t.append(a.as_str());
            t.append("]");
            spans.push(span(t, Style::new().with_fg(Color::Magenta)));
        },
        None => {},
    }
    if tile.title != tile.pane_id {
        let mut t = string_of(" ");
        t.append(tile.pane_id.as_str());
        t.append(" ");
        spans.push(span(t, Style::new().with_fg(Color::DarkGray)));
    } else {
        spans.push(span(string_of(" "), Style::new()));
    }
    if badge <= 9 {
        let mut t = string_of("(");
        push_decimal(&mut t, badge);
        t.append(") ");
        spans.push(span(t, Style::new().with_fg(Color::Cyan)));
    }
    let l = Line { spans };
    proof {
        let expected = spec_tile_title(
            tile.pane_id@,
            tile.title@,
            crate::app::opt_view(tile.agent),
            tile.status@,
            badge,
        );
        assert(l@ =~= expected);
    }
    l
}

/// The header line of a section: ` t<number> ` in bold black on dark gray,
/// the label in bold, and `  [zoom]` in dark gray when the tab is zoomed.
pub open spec fn spec_header_line(number: usize, label: Seq<char>, zoomed: bool) -> LineView {
    seq![
        (" t"@ + decimal(number as nat) + " "@, Style::empty().spec_with_fg(Color::Black).spec_with_bg(
            Color::DarkGray,
        ).spec_with_modifier(BOLD)),
        (" "@ + label, bold()),
        (if zoomed {
            "  [zoom]"@
        } else {
            ""@
        }, fg(Color::DarkGray)),
    ]
}

/// The header line of a section.
pub fn header_line(section: &Section) -> (l: Line)
    ensures
        l@ == spec_header_line(section.number, section.label@, section.zoomed),
{
    let mut spans: Vec<Span> = Vec::new();
    let mut t = string_of(" t");
    push_decimal(&mut t, section.number);
    t.append(" ");
    spans.push(span(t, Style::new().with_fg(Color::Black).with_bg(Color::DarkGray).with_modifier(BOLD)));
    let mut lab = string_of(" ");
    lab.append(section.label.as_str());
    spans.push(span(lab, Style::new().with_modifier(BOLD)));
    let z = if section.zoomed {
        string_of("  [zoom]")
    } else {
        string_of("")
    };
    spans.push(span(z, Style::new().with_fg(Color::DarkGray)));
    let l = Line { spans };
    proof {
        assert(l@ =~= spec_header_line(section.number, section.label@, section.zoomed));
    }
    l
}

/// The help footer: the keys and what they do, and a scroll marker when
/// the grid scrolls.
pub open spec fn spec_help_line(scrolling: bool) -> LineView {
    let keys = seq![
        (" ←↓↑→/hjkl "@, fg(Color::Cyan)),
        ("naviguer  "@, Style::empty()),
        ("⏎"@, fg(Color::Cyan)),
        (" basculer  "@, Style::empty()),
        ("1-9"@, fg(Color::Cyan)),
        (" saut direct  "@, Style::empty()),
        ("esc"@, fg(Color::Cyan)),
        (" fermer"@, Style::empty()),
    ];
    if scrolling {
        keys.push(("  ‹défilement›"@, fg(Color::DarkGray)))
    } else {
        keys
    }
}

/// The help footer.
pub fn help_line(scrolling: bool) -> (l: Line)
    ensures
        l@ == spec_help_line(scrolling),
{
    let cyan = Style::new().with_fg(Color::Cyan);
    let plain = Style::new();
    let mut spans: Vec<Span> = Vec::new();
    spans.push(span(string_of(" ←↓↑→/hjkl "), cyan));
    spans.push(span(string_of("naviguer  "), plain));
    spans.push(span(string_of("⏎"), cyan));
    spans.push(span(string_of(" basculer  "), plain));
    spans.push(span(string_of("1-9"), cyan));
    spans.push(span(string_of(" saut direct  "), plain));
    spans.push(span(string_of("esc"), cyan));
    spans.push(span(string_of(" fermer"), plain));
    if scrolling {
        spans.push(span(string_of("  ‹défilement›"), Style::new().with_fg(Color::DarkGray)));
    }
    let l = Line { spans };
    proof {
        assert(l@ =~= spec_help_line(scrolling));
    }
    l
}

// ---------------------------------------------------------------------------
// Preview window
// ---------------------------------------------------------------------------

/// A line is blank when every character of it is a space.
pub open spec fn line_blank(l: LineView) -> bool {
    forall|k: int, c: int| 0 <= k < l.len() && 0 <= c < l[k].0.len() ==> #[trigger] l[k].0[c] == ' '
}

/// The number of lines left once trailing blank lines are dropped.
pub open spec fn trimmed_len(ls: Seq<LineView>) -> nat
    decreases ls.len(),
{
    if ls.len() == 0 {
        0
    } else if line_blank(ls.last()) {
        trimmed_len(ls.drop_last())
    } else {
        ls.len()
    }
}

fn chars_all_spaces(s: &String) -> (b: bool)
    ensures
        b == (forall|c: int| 0 <= c < s@.len() ==> #[trigger] s@[c] == ' '),
{
    let cs = chars_of(s.as_str());
    let n = cs.len();
    let mut i: usize = 0;
    while i < n
        invariant
            n == cs@.len(),
            cs@ == s@,
            0 <= i <= n,
            forall|c: int| 0 <= c < i ==> #[trigger] cs@[c] == ' ',
        decreases n - i,
    {
        if cs[i] != ' ' {
            return false;
        }
        i = i + 1;
    }
    true
}

fn is_blank(line: &Line) -> (b: bool)
    ensures
        b == line_blank(line@),
{
    let n = line.spans.len();
    let mut k: usize = 0;
    while k < n
        invariant
            n == line.spans@.len(),
            0 <= k <= n,
            forall|j: int, c: int| 0 <= j < k && 0 <= c < line@[j].0.len() ==> #[trigger] line@[j].0[c] == ' ',
        decreases n - k,
    {
        if !chars_all_spaces(&line.spans[k].content) {
            proof {
                let c = choose|c: int| 0 <= c < line.spans@[k as int].content@.len() && line.spans@[k as int].content@[c] != ' ';
                assert(line@[k as int].0[c] != ' ');
            }
            return false;
        }
        k = k + 1;
    }
    true
}

/// The part of a preview that a tile of `height` inner lines shows: the
/// tail of the preview once trailing blank lines are dropped (the bottom of
/// a terminal is where the action is). Returns the range `start..end`.
pub fn preview_window(preview: &Vec<Line>, height: u16) -> (r: (usize, usize))
    ensures
        r.1 == trimmed_len(lines_view(preview@)),
        r.0 == if r.1 >= height {
            r.1 - height
        } else {
            0
        },
{
    let mut end = preview.len();
    proof {
        assert(lines_view(preview@).take(end as int) =~= lines_view(preview@));
    }
    while end > 0 && is_blank(&preview[end - 1])
        invariant
            end <= preview@.len(),
            trimmed_len(lines_view(preview@)) == trimmed_len(lines_view(preview@).take(end as int)),
        decreases end,
    {
        proof {
            let t = lines_view(preview@).take(end as int);
            assert(t.last() == preview@[end - 1]@);
            assert(t.drop_last() =~= lines_view(preview@).take(end - 1));
        }
        end = end - 1;
    }
    proof {
        let t = lines_view(preview@).take(end as int);
        if end > 0 {
            assert(t.last() == preview@[end - 1]@);
        }
    }
    let h = height as usize;
    let start = if end >= h {
        end - h
    } else {
        0
    };
    (start, end)
}

/// The status icons: `blocked` is a red dot, `working` a yellow one, `done`
/// a green one, and any other status an empty gray circle.
pub proof fn lemma_status_icons(status: Seq<char>)
    ensures
        status == "blocked"@ ==> spec_status_style(status) == ("●"@, Color::Red),
        status == "working"@ ==> spec_status_style(status) == ("●"@, Color::Yellow),
        status == "done"@ ==> spec_status_style(status) == ("●"@, Color::Green),
        status != "blocked"@ && status != "working"@ && status != "done"@ ==> spec_status_style(status) == (
            "○"@,
            Color::DarkGray,
        ),
{
    reveal_strlit("blocked");
    reveal_strlit("working");
    reveal_strlit("done");
    assert("working"@[0] != "blocked"@[0]);
    assert("done"@.len() != "blocked"@.len());
    assert("done"@.len() != "working"@.len());
}

/// Trimming: the lines kept are a prefix of the preview, every dropped line
/// is blank, and the last kept line (if any) is not.
pub proof fn lemma_trimmed_tail(ls: Seq<LineView>)
    ensures
        trimmed_len(ls) <= ls.len(),
        forall|k: int| trimmed_len(ls) <= k < ls.len() ==> line_blank(#[trigger] ls[k]),
        trimmed_len(ls) > 0 ==> !line_blank(ls[trimmed_len(ls) - 1]),
    decreases ls.len(),
{
    if ls.len() > 0 && line_blank(ls.last()) {
        lemma_trimmed_tail(ls.drop_last());
        assert forall|k: int| trimmed_len(ls) <= k < ls.len() implies line_blank(#[trigger] ls[k]) by {
            if k < ls.len() - 1 {
                assert(ls[k] == ls.drop_last()[k]);
            }
        }
        if trimmed_len(ls) > 0 {
            assert(ls[trimmed_len(ls) - 1] == ls.drop_last()[trimmed_len(ls) - 1]);
        }
    }
}

} // verus!
