//! Laws of SGR parameters: codes act left to right, later ones win, and a
//! final code 0 (or empty field) resets the style whatever came before.

use vstd::prelude::*;
use crate::ansi::{
    apply_codes, code_at, code_width, drop_codes, field_code, fields, front_effect, set_color, sgr_codes,
    spec_apply_sgr, is_sep,
};
use crate::style::{Color, Style, BOLD, CROSSED_OUT, DIM, ITALIC, REVERSED, UNDERLINED};

verus! {

/// The codes end on a whole command: a `38`/`48` at the front of a command
/// is followed by its mode, `5` by its index, and `2` by its three
/// components, all inside the codes.
pub open spec fn complete(codes: Seq<u16>) -> bool
    decreases codes.len(),
{
    if codes.len() == 0 {
        true
    } else {
        let c = codes[0];
        &&& (c == 38 || c == 48) ==> {
            &&& codes.len() >= 2
            &&& codes[1] == 5 ==> codes.len() >= 3
            &&& codes[1] == 2 ==> codes.len() >= 5
        }
        &&& complete(drop_codes(codes, code_width(codes)))
    }
}

/// Applying `a` then `b` is applying `a` followed by `b`, when `a` ends on
/// a whole command.
pub proof fn lemma_codes_compose(s: Style, a: Seq<u16>, b: Seq<u16>)
    requires
        complete(a),
    ensures
        apply_codes(s, a + b) == apply_codes(apply_codes(s, a), b),
    decreases a.len(),
{
    if a.len() == 0 {
        assert(a + b =~= b);
    } else {
        let ab = a + b;
        let w = code_width(a);
        assert(forall|k: int| 0 <= k < a.len() ==> code_at(ab, k) == code_at(a, k));
        assert(code_at(ab, 0) == code_at(a, 0));
        if a.len() > 1 {
            assert(code_at(ab, 1) == code_at(a, 1));
        }
        assert(code_width(ab) == w);
        assert(w <= a.len());
        if code_at(a, 0) == 38 || code_at(a, 0) == 48 {
            assert(ab[1] == a[1]);
            assert(code_at(ab, 2) == code_at(a, 2) || a[1] != 5);
        }
        assert(front_effect(s, ab) == front_effect(s, a));
        assert(drop_codes(ab, w) =~= drop_codes(a, w) + b);
        lemma_codes_compose(front_effect(s, a), drop_codes(a, w), b);
    }
}

/// The last code starts a command of its own: read from the front, command
/// after command, the codes reach it as a command, not as an argument of a
/// `38`/`48` before it.
pub open spec fn last_is_command(codes: Seq<u16>) -> bool
    decreases codes.len(),
{
    if codes.len() == 0 {
        false
    } else if codes.len() == 1 {
        true
    } else if code_width(codes) >= codes.len() {
        false
    } else {
        last_is_command(drop_codes(codes, code_width(codes)))
    }
}

/// A last code 0 that is a command of its own resets the style, whatever
/// came before it.
pub proof fn lemma_last_command_resets(s: Style, codes: Seq<u16>)
    requires
        last_is_command(codes),
        codes.last() == 0,
    ensures
        apply_codes(s, codes) == Style::empty(),
    decreases codes.len(),
{
    let w = code_width(codes);
    if codes.len() == 1 {
        assert(code_at(codes, 0) == codes.last());
        assert(w == 1);
        assert(drop_codes(codes, 1) =~= Seq::<u16>::empty());
        assert(front_effect(s, codes) == Style::empty());
        assert(apply_codes(Style::empty(), Seq::<u16>::empty()) == Style::empty());
        assert(apply_codes(s, codes) == apply_codes(front_effect(s, codes), drop_codes(codes, w)));
    } else {
        let rest = drop_codes(codes, w);
        assert(w < codes.len());
        assert(rest =~= codes.subrange(w as int, codes.len() as int));
        assert(rest.last() == codes.last());
        lemma_last_command_resets(front_effect(s, codes), rest);
        assert(apply_codes(s, codes) == apply_codes(front_effect(s, codes), rest));
    }
}

/// The fields of `a;b` are the fields of `a` followed by the fields of `b`.
pub proof fn lemma_fields_concat(a: Seq<char>, b: Seq<char>)
    ensures
        fields(a + seq![';'] + b) == fields(a) + fields(b),
    decreases b.len(),
{
    let p = a + seq![';'] + b;
    if b.len() == 0 {
        assert(p =~= a.push(';'));
        assert(p.drop_last() =~= a);
        assert(is_sep(p.last()));
        assert(fields(p) =~= fields(a) + fields(b));
    } else {
        let b2 = b.drop_last();
        lemma_fields_concat(a, b2);
        lemma_fields_len(b2);
        assert(p.drop_last() =~= a + seq![';'] + b2);
        assert(p.last() == b.last());
        assert(b.drop_last() == b2);
        if is_sep(b.last()) {
            assert(fields(p) =~= fields(a) + fields(b));
        } else {
            assert(fields(p) =~= fields(a) + fields(b));
        }
    }
}

proof fn lemma_fields_len(p: Seq<char>)
    ensures
        fields(p).len() >= 1,
    decreases p.len(),
{
    if p.len() > 0 {
        lemma_fields_len(p.drop_last());
    }
}

/// SGR sequences compose: `ESC[a;bm` does what `ESC[am` then `ESC[bm` do,
/// when `a` ends on a whole command (codes act left to right, later ones
/// win).
pub proof fn lemma_sgr_compose(s: Style, a: Seq<char>, b: Seq<char>)
    requires
        complete(sgr_codes(a)),
    ensures
        spec_apply_sgr(s, a + seq![';'] + b) == spec_apply_sgr(spec_apply_sgr(s, a), b),
{
    lemma_fields_concat(a, b);
    assert(sgr_codes(a + seq![';'] + b) =~= sgr_codes(a) + sgr_codes(b));
    lemma_codes_compose(s, sgr_codes(a), sgr_codes(b));
}

/// A last field `0` or empty (`ESC[m`, `ESC[0m`, `ESC[31;0m`, `ESC[1;m`,
/// `ESC[38;0m`) resets the style, whatever came before it, when it is not an
/// argument of a `38`/`48` before it.
pub proof fn lemma_sgr_reset(s: Style, p: Seq<char>)
    requires
        fields(p).last() == seq!['0'] || fields(p).last().len() == 0,
        last_is_command(sgr_codes(p)),
    ensures
        spec_apply_sgr(s, p) == Style::empty(),
{
    lemma_fields_len(p);
    let codes = sgr_codes(p);
    let f = fields(p).last();
    assert(codes.last() == field_code(f));
    if f.len() > 0 {
        assert(f[0] == '0');
        assert(f.drop_last() =~= Seq::<char>::empty());
        assert(crate::ansi::strip_plus(f) == f);
        assert(f.last() == '0');
        assert(crate::ansi::digits_value(f.drop_last()) == 0);
        assert(crate::ansi::digits_value(f) == 0);
        assert(crate::ansi::all_digits(f));
    }
    assert(field_code(f) == 0);
    lemma_last_command_resets(s, codes);
}

/// `38;5;n` sets the foreground and `48;5;n` the background to indexed
/// color `n` (its low byte), and the codes after it act on that style.
pub proof fn lemma_indexed_color(s: Style, c: u16, n: u16, rest: Seq<u16>)
    requires
        c == 38 || c == 48,
    ensures
        apply_codes(s, seq![c, 5u16, n] + rest) == apply_codes(set_color(s, c == 38, Color::Indexed(n as u8)), rest),
{
    let codes = seq![c, 5u16, n] + rest;
    assert(codes[0] == c && codes[1] == 5 && codes[2] == n);
    assert(code_at(codes, 0) == c && code_at(codes, 1) == 5 && code_at(codes, 2) == n);
    assert(code_width(codes) == 3);
    assert(drop_codes(codes, 3) =~= rest);
}

/// `38;2;r;g;b` sets the foreground and `48;2;r;g;b` the background to the
/// RGB color `(r, g, b)` (each component's low byte), and the codes after it
/// act on that style.
pub proof fn lemma_rgb_color(s: Style, c: u16, r: u16, g: u16, b: u16, rest: Seq<u16>)
    requires
        c == 38 || c == 48,
    ensures
        apply_codes(s, seq![c, 2u16, r, g, b] + rest) == apply_codes(
            set_color(s, c == 38, Color::Rgb(r as u8, g as u8, b as u8)),
            rest,
        ),
{
    let codes = seq![c, 2u16, r, g, b] + rest;
    assert(codes[0] == c && codes[1] == 2 && codes[2] == r && codes[3] == g && codes[4] == b);
    assert(code_at(codes, 0) == c && code_at(codes, 1) == 2);
    assert(code_at(codes, 2) == r && code_at(codes, 3) == g && code_at(codes, 4) == b);
    assert(code_width(codes) == 5);
    assert(drop_codes(codes, 5) =~= rest);
}

/// The eight standard ANSI colors, in code order.
pub open spec fn ansi_colors() -> Seq<Color> {
    seq![Color::Black, Color::Red, Color::Green, Color::Yellow, Color::Blue, Color::Magenta, Color::Cyan, Color::Gray]
}

/// The eight bright ANSI colors, in code order.
pub open spec fn ansi_bright_colors() -> Seq<Color> {
    seq![
        Color::DarkGray,
        Color::LightRed,
        Color::LightGreen,
        Color::LightYellow,
        Color::LightBlue,
        Color::LightMagenta,
        Color::LightCyan,
        Color::White,
    ]
}

/// SGR `30+i` sets the foreground and `40+i` the background to the `i`-th
/// standard ANSI color (black, red, green, yellow, blue, magenta, cyan,
/// gray), and `90+i` / `100+i` to the `i`-th bright one, whatever the style
/// was; nothing else changes.
pub proof fn lemma_ansi_color_codes(s: Style)
    ensures
        forall|i: int|
            0 <= i < 8 ==> {
                &&& apply_codes(s, seq![(30 + i) as u16]) == s.spec_with_fg(#[trigger] ansi_colors()[i])
                &&& apply_codes(s, seq![(40 + i) as u16]) == s.spec_with_bg(ansi_colors()[i])
                &&& apply_codes(s, seq![(90 + i) as u16]) == s.spec_with_fg(ansi_bright_colors()[i])
                &&& apply_codes(s, seq![(100 + i) as u16]) == s.spec_with_bg(ansi_bright_colors()[i])
            },
{
    assert forall|i: int| 0 <= i < 8 implies {
        &&& apply_codes(s, seq![(30 + i) as u16]) == s.spec_with_fg(#[trigger] ansi_colors()[i])
        &&& apply_codes(s, seq![(40 + i) as u16]) == s.spec_with_bg(ansi_colors()[i])
        &&& apply_codes(s, seq![(90 + i) as u16]) == s.spec_with_fg(ansi_bright_colors()[i])
        &&& apply_codes(s, seq![(100 + i) as u16]) == s.spec_with_bg(ansi_bright_colors()[i])
    } by {
        lemma_one_code(s, (30 + i) as u16);
        lemma_one_code(s, (40 + i) as u16);
        lemma_one_code(s, (90 + i) as u16);
        lemma_one_code(s, (100 + i) as u16);
    }
}

proof fn lemma_one_code(s: Style, c: u16)
    ensures
        apply_codes(s, seq![c]) == front_effect(s, seq![c]),
{
    let one = seq![c];
    assert(code_at(one, 0) == c);
    assert(code_width(one) == 1);
    assert(drop_codes(one, 1) =~= Seq::<u16>::empty());
    assert(apply_codes(s, one) == apply_codes(front_effect(s, one), drop_codes(one, code_width(one))));
    assert(apply_codes(front_effect(s, one), Seq::<u16>::empty()) == front_effect(s, one));
}

/// The codes without arguments, whatever the style was: `0` resets
/// everything; `1` bold, `2` dim, `3` italic, `4` underlined, `7` reversed
/// and `9` crossed out are added; `22` removes bold and dim, `23` italic,
/// `24` underlined, `27` reversed and `29` crossed out; `39` and `49` reset
/// the foreground and the background to the terminal's default.
pub proof fn lemma_plain_codes(s: Style)
    ensures
        apply_codes(s, seq![0u16]) == Style::empty(),
        apply_codes(s, seq![1u16]) == s.spec_with_modifier(BOLD),
        apply_codes(s, seq![2u16]) == s.spec_with_modifier(DIM),
        apply_codes(s, seq![3u16]) == s.spec_with_modifier(ITALIC),
        apply_codes(s, seq![4u16]) == s.spec_with_modifier(UNDERLINED),
        apply_codes(s, seq![7u16]) == s.spec_with_modifier(REVERSED),
        apply_codes(s, seq![9u16]) == s.spec_with_modifier(CROSSED_OUT),
        apply_codes(s, seq![22u16]) == s.spec_without_modifier(BOLD).spec_without_modifier(DIM),
        apply_codes(s, seq![23u16]) == s.spec_without_modifier(ITALIC),
        apply_codes(s, seq![24u16]) == s.spec_without_modifier(UNDERLINED),
        apply_codes(s, seq![27u16]) == s.spec_without_modifier(REVERSED),
        apply_codes(s, seq![29u16]) == s.spec_without_modifier(CROSSED_OUT),
        apply_codes(s, seq![39u16]) == s.spec_with_fg(Color::Reset),
        apply_codes(s, seq![49u16]) == s.spec_with_bg(Color::Reset),
{
    lemma_one_code(s, 0);
    lemma_one_code(s, 1);
    lemma_one_code(s, 2);
    lemma_one_code(s, 3);
    lemma_one_code(s, 4);
    lemma_one_code(s, 7);
    lemma_one_code(s, 9);
    lemma_one_code(s, 22);
    lemma_one_code(s, 23);
    lemma_one_code(s, 24);
    lemma_one_code(s, 27);
    lemma_one_code(s, 29);
    lemma_one_code(s, 39);
    lemma_one_code(s, 49);
}

} // verus!
