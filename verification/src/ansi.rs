//! SGR-only ANSI parser for pane previews.
//!
//! The preview text of a pane holds plain text, newlines and SGR sequences
//! (`ESC [ params m`). Anything else escape-like is dropped whole: any other
//! CSI sequence, and any other escape sequence (`ESC`, intermediate bytes
//! `0x20`-`0x2F`, and a final byte `0x30`-`0x7E` when there is one).
//! Carriage returns are ignored.

use vstd::prelude::*;
use crate::style::{Color, Style, BOLD, DIM, ITALIC, UNDERLINED, REVERSED, CROSSED_OUT};
use crate::text::{chars_of, push_char};
use crate::ansi_style_laws::{joined_styled, lemma_parse_keeps_styles, terminated_styled, visible_styled};
use crate::ansi_laws::{
    all_spans_nonempty, joined, lemma_parse_keeps_visible_text, lemma_parse_spans_nonempty, terminated, visible,
};

verus! {

/// A run of text drawn in one style.
pub struct Span {
    pub content: String,
    pub style: Style,
}

/// One line of styled text.
pub struct Line {
    pub spans: Vec<Span>,
}

/// The value of a span: its characters and its style.
pub type SpanView = (Seq<char>, Style);

/// The value of a line: its spans.
pub type LineView = Seq<SpanView>;

impl View for Span {
    type V = SpanView;

    open spec fn view(&self) -> SpanView {
        (self.content@, self.style)
    }
}

impl View for Line {
    type V = LineView;

    open spec fn view(&self) -> LineView {
        self.spans@.map_values(|s: Span| s@)
    }
}

/// The values of a sequence of lines.
pub open spec fn lines_view(lines: Seq<Line>) -> Seq<LineView> {
    lines.map_values(|l: Line| l@)
}

/// The values of a sequence of spans.
pub open spec fn spans_view(spans: Seq<Span>) -> LineView {
    spans.map_values(|s: Span| s@)
}

pub open spec fn esc() -> char {
    '\x1b'
}

/// Characters that may stand in the parameter part of a CSI sequence.
pub open spec fn is_param_char(c: char) -> bool {
    ('0' <= c && c <= '9') || c == ';' || c == ':'
}

/// Intermediate bytes of an escape sequence.
pub open spec fn is_intermediate(c: char) -> bool {
    ' ' <= c && c <= '/'
}

/// Final bytes of an escape sequence.
pub open spec fn is_final_byte(c: char) -> bool {
    '0' <= c && c <= '~'
}

pub open spec fn is_digit(c: char) -> bool {
    '0' <= c && c <= '9'
}

pub open spec fn is_sep(c: char) -> bool {
    c == ';' || c == ':'
}

// ---------------------------------------------------------------------------
// SGR parameters
// ---------------------------------------------------------------------------

/// The parameter fields of a CSI sequence: the parameter text split at every
/// `;` and `:` (there is always at least one field, possibly empty).
pub open spec fn fields(p: Seq<char>) -> Seq<Seq<char>>
    decreases p.len(),
{
    if p.len() == 0 {
        seq![Seq::<char>::empty()]
    } else {
        let init = fields(p.drop_last());
        if is_sep(p.last()) {
            init.push(Seq::<char>::empty())
        } else {
            init.update(init.len() - 1, init.last().push(p.last()))
        }
    }
}

/// The decimal value of a string of digits.
pub open spec fn digits_value(f: Seq<char>) -> nat
    decreases f.len(),
{
    if f.len() == 0 {
        0
    } else {
        digits_value(f.drop_last()) * 10 + ((f.last() as u32) - ('0' as u32)) as nat
    }
}

/// The code that a field stands for: its value when it reads as a `u16`
/// (an optional `+`, then one or more decimal digits, a value that fits),
/// and 0 otherwise.
pub open spec fn field_code(f: Seq<char>) -> u16 {
    let d = strip_plus(f);
    if d.len() > 0 && all_digits(d) && digits_value(d) <= u16::MAX {
        digits_value(d) as u16
    } else {
        0
    }
}

/// A field without its leading `+`, if it has one.
pub open spec fn strip_plus(f: Seq<char>) -> Seq<char> {
    if f.len() > 0 && f[0] == '+' {
        f.drop_first()
    } else {
        f
    }
}

pub open spec fn all_digits(d: Seq<char>) -> bool {
    forall|k: int| 0 <= k < d.len() ==> is_digit(#[trigger] d[k])
}

/// The SGR codes of a parameter text.
pub open spec fn sgr_codes(p: Seq<char>) -> Seq<u16> {
    fields(p).map_values(|f: Seq<char>| field_code(f))
}

/// The code at index `k`, or 0 when there is none.
pub open spec fn code_at(codes: Seq<u16>, k: int) -> u16 {
    if 0 <= k < codes.len() {
        codes[k]
    } else {
        0
    }
}

/// The codes after the first `n`.
pub open spec fn drop_codes(codes: Seq<u16>, n: nat) -> Seq<u16> {
    if n >= codes.len() {
        Seq::<u16>::empty()
    } else {
        codes.subrange(n as int, codes.len() as int)
    }
}

/// The eight standard colors, by index.
pub open spec fn spec_base_color(index: u16) -> Color {
    if index == 0 {
        Color::Black
    } else if index == 1 {
        Color::Red
    } else if index == 2 {
        Color::Green
    } else if index == 3 {
        Color::Yellow
    } else if index == 4 {
        Color::Blue
    } else if index == 5 {
        Color::Magenta
    } else if index == 6 {
        Color::Cyan
    } else {
        Color::Gray
    }
}

/// The eight bright colors, by index.
pub open spec fn spec_bright_color(index: u16) -> Color {
    if index == 0 {
        Color::DarkGray
    } else if index == 1 {
        Color::LightRed
    } else if index == 2 {
        Color::LightGreen
    } else if index == 3 {
        Color::LightYellow
    } else if index == 4 {
        Color::LightBlue
    } else if index == 5 {
        Color::LightMagenta
    } else if index == 6 {
        Color::LightCyan
    } else {
        Color::White
    }
}

/// The effect of one SGR code that takes no arguments.
pub open spec fn single_code(style: Style, c: u16) -> Style {
    if c == 0 {
        Style::empty()
    } else if c == 1 {
        style.spec_with_modifier(BOLD)
    } else if c == 2 {
        style.spec_with_modifier(DIM)
    } else if c == 3 {
        style.spec_with_modifier(ITALIC)
    } else if c == 4 {
        style.spec_with_modifier(UNDERLINED)
    } else if c == 7 {
        style.spec_with_modifier(REVERSED)
    } else if c == 9 {
        style.spec_with_modifier(CROSSED_OUT)
    } else if c == 22 {
        style.spec_without_modifier(BOLD).spec_without_modifier(DIM)
    } else if c == 23 {
        style.spec_without_modifier(ITALIC)
    } else if c == 24 {
        style.spec_without_modifier(UNDERLINED)
    } else if c == 27 {
        style.spec_without_modifier(REVERSED)
    } else if c == 29 {
        style.spec_without_modifier(CROSSED_OUT)
    } else if 30 <= c <= 37 {
        style.spec_with_fg(spec_base_color((c - 30) as u16))
    } else if c == 39 {
        style.spec_with_fg(Color::Reset)
    } else if 40 <= c <= 47 {
        style.spec_with_bg(spec_base_color((c - 40) as u16))
    } else if c == 49 {
        style.spec_with_bg(Color::Reset)
    } else if 90 <= c <= 97 {
        style.spec_with_fg(spec_bright_color((c - 90) as u16))
    } else if 100 <= c <= 107 {
        style.spec_with_bg(spec_bright_color((c - 100) as u16))
    } else {
        style
    }
}

/// Sets the foreground (`fg`) or the background (`!fg`) color.
pub open spec fn set_color(style: Style, fg: bool, color: Color) -> Style {
    if fg {
        style.spec_with_fg(color)
    } else {
        style.spec_with_bg(color)
    }
}

/// How many codes the code at the front of `codes` takes up: `38`/`48`
/// followed by `5` take three (an indexed color), followed by `2` take five
/// (an RGB color); every other code takes one.
pub open spec fn code_width(codes: Seq<u16>) -> nat {
    let c = code_at(codes, 0);
    if (c == 38 || c == 48) && code_at(codes, 1) == 5 && codes.len() > 1 {
        3
    } else if (c == 38 || c == 48) && code_at(codes, 1) == 2 && codes.len() > 1 {
        5
    } else {
        1
    }
}

/// The effect of the code at the front of `codes` (with its arguments);
/// a missing argument counts as 0 and a color component keeps its low byte.
pub open spec fn front_effect(style: Style, codes: Seq<u16>) -> Style {
    let c = code_at(codes, 0);
    if c == 38 || c == 48 {
        if codes.len() > 1 && codes[1] == 5 {
            set_color(style, c == 38, Color::Indexed(code_at(codes, 2) as u8))
        } else if codes.len() > 1 && codes[1] == 2 {
            set_color(
                style,
                c == 38,
                Color::Rgb(code_at(codes, 2) as u8, code_at(codes, 3) as u8, code_at(codes, 4) as u8),
            )
        } else {
            style
        }
    } else {
        single_code(style, c)
    }
}

/// The style after applying the SGR codes in order.
pub open spec fn apply_codes(style: Style, codes: Seq<u16>) -> Style
    decreases codes.len(),
{
    if codes.len() == 0 {
        style
    } else {
        apply_codes(front_effect(style, codes), drop_codes(codes, code_width(codes)))
    }
}

/// The style after an SGR sequence with parameter text `params`.
pub open spec fn spec_apply_sgr(style: Style, params: Seq<char>) -> Style {
    apply_codes(style, sgr_codes(params))
}

// ---------------------------------------------------------------------------
// The parser as a state machine over characters
// ---------------------------------------------------------------------------

/// The state of the parser: the finished lines, the spans of the current
/// line, the text not yet put in a span, and the current style.
pub struct ParseState {
    pub lines: Seq<LineView>,
    pub spans: LineView,
    pub current: Seq<char>,
    pub style: Style,
}

pub open spec fn initial_state() -> ParseState {
    ParseState { lines: Seq::empty(), spans: Seq::empty(), current: Seq::empty(), style: Style::empty() }
}

/// Closes the pending text into a span of the current style, if there is any.
pub open spec fn flush(st: ParseState) -> ParseState {
    if st.current.len() > 0 {
        ParseState {
            lines: st.lines,
            spans: st.spans.push((st.current, st.style)),
            current: Seq::empty(),
            style: st.style,
        }
    } else {
        st
    }
}

pub open spec fn step_char(st: ParseState, c: char) -> ParseState {
    ParseState { lines: st.lines, spans: st.spans, current: st.current.push(c), style: st.style }
}

pub open spec fn step_newline(st: ParseState) -> ParseState {
    let f = flush(st);
    ParseState { lines: f.lines.push(f.spans), spans: Seq::empty(), current: Seq::empty(), style: f.style }
}

pub open spec fn step_sgr(st: ParseState, params: Seq<char>) -> ParseState {
    let f = flush(st);
    ParseState { lines: f.lines, spans: f.spans, current: f.current, style: spec_apply_sgr(f.style, params) }
}

/// The lines at the end of the input: the pending text is closed, and the
/// last line is kept when it has a span.
pub open spec fn finish(st: ParseState) -> Seq<LineView> {
    let f = flush(st);
    if f.spans.len() > 0 {
        f.lines.push(f.spans)
    } else {
        f.lines
    }
}

/// The parser in text mode, on the rest `s` of the input.
pub open spec fn run_text(s: Seq<char>, st: ParseState) -> Seq<LineView>
    decreases s.len(), 1nat,
{
    if s.len() == 0 {
        finish(st)
    } else {
        let c = s[0];
        if c == esc() {
            if s.len() > 1 && s[1] == '[' {
                run_csi(s.subrange(2, s.len() as int), st, Seq::empty())
            } else {
                run_esc(s.drop_first(), st)
            }
        } else if c == '\r' {
            run_text(s.drop_first(), st)
        } else if c == '\n' {
            run_text(s.drop_first(), step_newline(st))
        } else {
            run_text(s.drop_first(), step_char(st, c))
        }
    }
}

/// The parser inside a CSI sequence, with the parameter text read so far.
/// The first character that is not a parameter character ends the sequence
/// and is consumed; only `m` applies it.
pub open spec fn run_csi(s: Seq<char>, st: ParseState, params: Seq<char>) -> Seq<LineView>
    decreases s.len(), 0nat,
{
    if s.len() == 0 {
        finish(st)
    } else {
        let c = s[0];
        if is_param_char(c) {
            run_csi(s.drop_first(), st, params.push(c))
        } else if c == 'm' {
            run_text(s.drop_first(), step_sgr(st, params))
        } else {
            run_text(s.drop_first(), st)
        }
    }
}

/// The parser inside an escape sequence that is not a CSI sequence: it
/// drops intermediate bytes, then the final byte if one comes; any other
/// character ends the sequence and is read as text.
pub open spec fn run_esc(s: Seq<char>, st: ParseState) -> Seq<LineView>
    decreases s.len(), 2nat,
{
    if s.len() == 0 {
        finish(st)
    } else if is_intermediate(s[0]) {
        run_esc(s.drop_first(), st)
    } else if is_final_byte(s[0]) {
        run_text(s.drop_first(), st)
    } else {
        run_text(s, st)
    }
}

/// What `parse` returns for a text.
pub open spec fn spec_parse(text: Seq<char>) -> Seq<LineView> {
    run_text(text, initial_state())
}


// ---------------------------------------------------------------------------
// Executable parser
// ---------------------------------------------------------------------------

/// The parser state that the executable variables stand for.
pub open spec fn state_of(lines: Seq<Line>, spans: Seq<Span>, current: Seq<char>, style: Style) -> ParseState {
    ParseState { lines: lines_view(lines), spans: spans_view(spans), current, style }
}

proof fn lemma_fields_len(p: Seq<char>)
    ensures
        fields(p).len() >= 1,
    decreases p.len(),
{
    if p.len() > 0 {
        lemma_fields_len(p.drop_last());
    }
}

fn is_intermediate_char(c: char) -> (b: bool)
    ensures
        b == is_intermediate(c),
{
    ' ' <= c && c <= '/'
}

fn is_final_char(c: char) -> (b: bool)
    ensures
        b == is_final_byte(c),
{
    '0' <= c && c <= '~'
}

fn is_param(c: char) -> (b: bool)
    ensures
        b == is_param_char(c),
{
    ('0' <= c && c <= '9') || c == ';' || c == ':'
}

/// The SGR codes of a parameter text.
fn parse_codes(params: &Vec<char>) -> (codes: Vec<u16>)
    ensures
        codes@ == sgr_codes(params@),
{
    let n = params.len();
    let mut codes: Vec<u16> = Vec::new();
    let mut acc: u32 = 0;
    let mut over = false;
    let mut bad = false;
    let mut digits = false;
    let mut field_empty = true;
    let ghost mut cur: Seq<char> = Seq::empty();
    let mut i: usize = 0;
    proof {
        assert(params@.take(0) =~= Seq::<char>::empty());
    }
    while i < n
        invariant
            n == params@.len(),
            0 <= i <= n,
            fields(params@.take(i as int)).len() == codes@.len() + 1,
            forall|k: int|
                0 <= k < codes@.len() ==> codes@[k] == field_code(#[trigger] fields(params@.take(i as int))[k]),
            cur == fields(params@.take(i as int)).last(),
            field_empty == (cur.len() == 0),
            digits == (strip_plus(cur).len() > 0),
            bad == !all_digits(strip_plus(cur)),
            !bad ==> (over == (digits_value(strip_plus(cur)) > u16::MAX)),
            !bad && !over ==> acc == digits_value(strip_plus(cur)),
            acc <= u16::MAX,
        decreases n - i,
    {
        let c = params[i];
        let ghost prev = params@.take(i as int);
        let ghost next = params@.take(i + 1);
        proof {
            assert(next.drop_last() =~= prev);
            assert(next.last() == c);
            lemma_fields_len(prev);
        }
        if c == ';' || c == ':' {
            let code: u16 = if digits && !bad && !over {
                acc as u16
            } else {
                0
            };
            proof {
                assert(code == field_code(cur));
            }
            codes.push(code);
            acc = 0;
            over = false;
            bad = false;
            digits = false;
            field_empty = true;
            proof {
                cur = Seq::empty();
                assert(fields(next) == fields(prev).push(Seq::<char>::empty()));
                assert(strip_plus(cur) =~= Seq::<char>::empty());
            }
        } else {
            let ghost old_cur = cur;
            proof {
                cur = cur.push(c);
                assert(fields(next) == fields(prev).update(fields(prev).len() - 1, old_cur.push(c)));
            }
            if field_empty && c == '+' {
                proof {
                    assert(strip_plus(cur) =~= Seq::<char>::empty());
                }
            } else {
                let ghost od = strip_plus(old_cur);
                proof {
                    assert(strip_plus(cur) =~= od.push(c));
                    assert(strip_plus(cur).drop_last() =~= od);
                }
                if '0' <= c && c <= '9' {
                    let d: u32 = (c as u32) - ('0' as u32);
                    if !over {
                        let v: u32 = acc * 10 + d;
                        if v > 65535 {
                            over = true;
                        } else {
                            acc = v;
                        }
                    }
                    proof {
                        if !bad {
                            assert(digits_value(strip_plus(cur)) == digits_value(od) * 10 + d);
                        }
                        assert(all_digits(strip_plus(cur)) == all_digits(od)) by {
                            if all_digits(od) {
                                assert forall|k: int| 0 <= k < strip_plus(cur).len() implies is_digit(
                                    #[trigger] strip_plus(cur)[k],
                                ) by {
                                    if k < od.len() {
                                        assert(strip_plus(cur)[k] == od[k]);
                                    }
                                }
                            } else {
                                let k = choose|k: int| 0 <= k < od.len() && !is_digit(#[trigger] od[k]);
                                assert(strip_plus(cur)[k] == od[k]);
                            }
                        }
                    }
                } else {
                    bad = true;
                    proof {
                        assert(!is_digit(strip_plus(cur)[od.len() as int]));
                    }
                }
                digits = true;
            }
            field_empty = false;
        }
        i = i + 1;
    }
    let code: u16 = if digits && !bad && !over {
        acc as u16
    } else {
        0
    };
    proof {
        assert(code == field_code(cur));
    }
    codes.push(code);
    proof {
        assert(params@.take(n as int) =~= params@);
        assert(codes@ =~= sgr_codes(params@));
    }
    codes
}

/// The standard color with index `index` (0 to 7).
pub fn base_color(index: u16) -> (c: Color)
    ensures
        c == spec_base_color(index),
{
    match index {
        0 => Color::Black,
        1 => Color::Red,
        2 => Color::Green,
        3 => Color::Yellow,
        4 => Color::Blue,
        5 => Color::Magenta,
        6 => Color::Cyan,
        _ => Color::Gray,
    }
}

/// The bright color with index `index` (0 to 7).
pub fn bright_color(index: u16) -> (c: Color)
    ensures
        c == spec_bright_color(index),
{
    match index {
        0 => Color::DarkGray,
        1 => Color::LightRed,
        2 => Color::LightGreen,
        3 => Color::LightYellow,
        4 => Color::LightBlue,
        5 => Color::LightMagenta,
        6 => Color::LightCyan,
        _ => Color::White,
    }
}

fn apply_single(style: Style, c: u16) -> (s: Style)
    ensures
        s == single_code(style, c),
{
    if c == 0 {
        Style::new()
    } else if c == 1 {
        style.with_modifier(BOLD)
    } else if c == 2 {
        style.with_modifier(DIM)
    } else if c == 3 {
        style.with_modifier(ITALIC)
    } else if c == 4 {
        style.with_modifier(UNDERLINED)
    } else if c == 7 {
        style.with_modifier(REVERSED)
    } else if c == 9 {
        style.with_modifier(CROSSED_OUT)
    } else if c == 22 {
        style.without_modifier(BOLD).without_modifier(DIM)
    } else if c == 23 {
        style.without_modifier(ITALIC)
    } else if c == 24 {
        style.without_modifier(UNDERLINED)
    } else if c == 27 {
        style.without_modifier(REVERSED)
    } else if c == 29 {
        style.without_modifier(CROSSED_OUT)
    } else if 30 <= c && c <= 37 {
        style.with_fg(base_color(c - 30))
    } else if c == 39 {
        style.with_fg(Color::Reset)
    } else if 40 <= c && c <= 47 {
        style.with_bg(base_color(c - 40))
    } else if c == 49 {
        style.with_bg(Color::Reset)
    } else if 90 <= c && c <= 97 {
        style.with_fg(bright_color(c - 90))
    } else if 100 <= c && c <= 107 {
        style.with_bg(bright_color(c - 100))
    } else {
        style
    }
}

/// Applies the SGR sequence with parameter text `params` to `style`.
pub fn apply_sgr(style: Style, params: &str) -> (s: Style)
    ensures
        s == spec_apply_sgr(style, params@),
{
    let chars = chars_of(params);
    apply_sgr_chars(style, &chars)
}

fn apply_sgr_chars(style: Style, params: &Vec<char>) -> (s: Style)
    ensures
        s == spec_apply_sgr(style, params@),
{
    let codes = parse_codes(params);
    let n = codes.len();
    let mut st = style;
    let mut i: usize = 0;
    proof {
        assert(drop_codes(codes@, 0) =~= codes@);
    }
    while i < n
        invariant
            n == codes@.len(),
            0 <= i <= n,
            apply_codes(st, drop_codes(codes@, i as nat)) == apply_codes(style, codes@),
        decreases n - i,
    {
        let ghost rest = drop_codes(codes@, i as nat);
        let ghost old_st = st;
        proof {
            assert(rest =~= codes@.subrange(i as int, n as int));
            assert(code_at(rest, 0) == codes@[i as int]);
        }
        let c = codes[i];
        let mut width: usize = 1;
        if c == 38 || c == 48 {
            let is_fg = c == 38;
            if i + 1 < n && codes[i + 1] == 5 {
                let idx: u16 = if i + 2 < n { codes[i + 2] } else { 0 };
                proof {
                    assert(code_at(rest, 1) == codes@[i + 1]);
                    assert(code_at(rest, 2) == idx);
                }
                let color = Color::Indexed(#[verifier::truncate] (idx as u8));
                st = if is_fg { st.with_fg(color) } else { st.with_bg(color) };
                width = 3;
            } else if i + 1 < n && codes[i + 1] == 2 {
                let r: u16 = if i + 2 < n { codes[i + 2] } else { 0 };
                let g: u16 = if n - i > 3 { codes[i + 3] } else { 0 };
                let b: u16 = if n - i > 4 { codes[i + 4] } else { 0 };
                proof {
                    assert(code_at(rest, 1) == codes@[i + 1]);
                    assert(code_at(rest, 2) == r);
                    assert(code_at(rest, 3) == g);
                    assert(code_at(rest, 4) == b);
                }
                let color = Color::Rgb(
                    #[verifier::truncate] (r as u8),
                    #[verifier::truncate] (g as u8),
                    #[verifier::truncate] (b as u8),
                );
                st = if is_fg { st.with_fg(color) } else { st.with_bg(color) };
                width = 5;
            } else {
                proof {
                    if i + 1 < n {
                        assert(code_at(rest, 1) == codes@[i + 1]);
                    }
                }
            }
        } else {
            st = apply_single(st, c);
        }
        proof {
            assert(st == front_effect(old_st, rest));
            assert(width == code_width(rest));
        }
        i = if width >= n - i { n } else { i + width };
        proof {
            assert(drop_codes(rest, width as nat) =~= drop_codes(codes@, i as nat));
        }
    }
    proof {
        assert(drop_codes(codes@, n as nat) =~= Seq::<u16>::empty());
    }
    st
}

/// Closes the pending text into a span of `style`, if there is any.
fn flush_span(current: &mut String, spans: &mut Vec<Span>, style: Style)
    ensures
        old(current)@.len() > 0 ==> spans_view(final(spans)@) == spans_view(old(spans)@).push(
            (old(current)@, style),
        ) && final(current)@ == Seq::<char>::empty(),
        old(current)@.len() == 0 ==> final(spans)@ == old(spans)@ && final(current)@ == old(current)@,
{
    if !current.as_str().is_empty() {
        let mut taken = String::new();
        std::mem::swap(&mut taken, current);
        let ghost old_spans = spans@;
        spans.push(Span { content: taken, style });
        proof {
            assert(spans_view(spans@) =~= spans_view(old_spans).push((old(current)@, style)));
        }
    }
}

/// Parses a preview text into styled lines.
///
/// Text is split into lines at `\n`; `\r` is ignored; an SGR sequence
/// changes the style of the text after it; any other escape sequence is
/// dropped. A final line is kept only when it holds text.
pub fn parse(text: &str) -> (lines: Vec<Line>)
    ensures
        lines_view(lines@) == spec_parse(text@),
        joined(lines_view(lines@)) == terminated(visible(text@)),
        all_spans_nonempty(lines_view(lines@)),
        joined_styled(lines_view(lines@)) == terminated_styled(visible_styled(text@, Style::empty())),
{
    proof {
        lemma_parse_keeps_visible_text(text@);
        lemma_parse_spans_nonempty(text@);
        lemma_parse_keeps_styles(text@);
    }
    let chars = chars_of(text);
    let n = chars.len();
    let mut lines: Vec<Line> = Vec::new();
    let mut spans: Vec<Span> = Vec::new();
    let mut current = String::new();
    let mut style = Style::new();
    let mut i: usize = 0;
    proof {
        assert(chars@.subrange(0, n as int) =~= chars@);
        assert(lines_view(lines@) =~= Seq::<LineView>::empty());
        assert(spans_view(spans@) =~= Seq::<SpanView>::empty());
        assert(state_of(lines@, spans@, current@, style) == initial_state());
    }
    while i < n
        invariant
            n == chars@.len(),
            chars@ == text@,
            0 <= i <= n,
            run_text(chars@.subrange(i as int, n as int), state_of(lines@, spans@, current@, style))
                == spec_parse(text@),
        decreases n - i,
    {
        let ghost s = chars@.subrange(i as int, n as int);
        let ghost st = state_of(lines@, spans@, current@, style);
        let c = chars[i];
        proof {
            assert(s[0] == c);
            assert(s.drop_first() =~= chars@.subrange(i + 1, n as int));
        }
        if c == '\x1b' {
            if i + 1 < n && chars[i + 1] == '[' {
                proof {
                    assert(s[1] == '[');
                    assert(s.subrange(2, s.len() as int) =~= chars@.subrange(i + 2, n as int));
                }
                let mut params: Vec<char> = Vec::new();
                let mut j: usize = i + 2;
                while j < n && is_param(chars[j])
                    invariant
                        n == chars@.len(),
                        i + 2 <= j <= n,
                        run_csi(chars@.subrange(j as int, n as int), st, params@) == spec_parse(text@),
                        st == state_of(lines@, spans@, current@, style),
                    decreases n - j,
                {
                    proof {
                        let t = chars@.subrange(j as int, n as int);
                        assert(t[0] == chars@[j as int]);
                        assert(t.drop_first() =~= chars@.subrange(j + 1, n as int));
                    }
                    params.push(chars[j]);
                    j = j + 1;
                }
                if j < n {
                    let t = chars[j];
                    proof {
                        let ts = chars@.subrange(j as int, n as int);
                        assert(ts[0] == t);
                        assert(ts.drop_first() =~= chars@.subrange(j + 1, n as int));
                    }
                    if t == 'm' {
                        flush_span(&mut current, &mut spans, style);
                        style = apply_sgr_chars(style, &params);
                        proof {
                            assert(state_of(lines@, spans@, current@, style) == step_sgr(st, params@));
                        }
                    }
                    i = j + 1;
                } else {
                    proof {
                        assert(chars@.subrange(j as int, n as int) =~= Seq::<char>::empty());
                        assert(chars@.subrange(n as int, n as int) =~= Seq::<char>::empty());
                    }
                    i = n;
                }
            } else {
                let mut j: usize = i + 1;
                while j < n && is_intermediate_char(chars[j])
                    invariant
                        n == chars@.len(),
                        i + 1 <= j <= n,
                        run_esc(chars@.subrange(j as int, n as int), st) == spec_parse(text@),
                        st == state_of(lines@, spans@, current@, style),
                    decreases n - j,
                {
                    proof {
                        let t = chars@.subrange(j as int, n as int);
                        assert(t[0] == chars@[j as int]);
                        assert(t.drop_first() =~= chars@.subrange(j + 1, n as int));
                    }
                    j = j + 1;
                }
                proof {
                    let t = chars@.subrange(j as int, n as int);
                    if j < n {
                        assert(t[0] == chars@[j as int]);
                        assert(t.drop_first() =~= chars@.subrange(j + 1, n as int));
                    } else {
                        assert(t =~= Seq::<char>::empty());
                        assert(chars@.subrange(n as int, n as int) =~= Seq::<char>::empty());
                    }
                }
                if j < n && is_final_char(chars[j]) {
                    i = j + 1;
                } else {
                    i = j;
                }
            }
        } else if c == '\r' {
            i = i + 1;
        } else if c == '\n' {
            flush_span(&mut current, &mut spans, style);
            proof {
                assert(state_of(lines@, spans@, current@, style) == flush(st));
            }
            let ghost flushed = spans_view(spans@);
            let mut line_spans: Vec<Span> = Vec::new();
            std::mem::swap(&mut line_spans, &mut spans);
            let ghost old_lines = lines@;
            let line = Line { spans: line_spans };
            proof {
                assert(line@ == spans_view(line_spans@));
                assert(line@ == flushed);
            }
            lines.push(line);
            proof {
                assert(lines_view(lines@) =~= lines_view(old_lines).push(line@));
                assert(spans_view(spans@) =~= Seq::<SpanView>::empty());
                assert(current@ =~= Seq::<char>::empty());
                assert(state_of(lines@, spans@, current@, style) == step_newline(st));
            }
            i = i + 1;
        } else {
            push_char(&mut current, c);
            proof {
                assert(state_of(lines@, spans@, current@, style) == step_char(st, c));
            }
            i = i + 1;
        }
    }
    let ghost st = state_of(lines@, spans@, current@, style);
    proof {
        assert(chars@.subrange(n as int, n as int) =~= Seq::<char>::empty());
    }
    flush_span(&mut current, &mut spans, style);
    if spans.len() > 0 {
        let ghost old_lines = lines@;
        let line = Line { spans };
        lines.push(line);
        proof {
            assert(lines_view(lines@) =~= lines_view(old_lines).push(line@));
        }
    }
    lines
}

} // verus!
