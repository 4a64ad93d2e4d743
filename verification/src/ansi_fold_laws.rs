//! The style of each shown character as a fold: the parser styles it by
//! applying, left to right and from the empty style, the parameter texts of
//! all complete SGR sequences before it.

use vstd::prelude::*;
use crate::ansi::{esc, is_final_byte, is_intermediate, is_param_char, spec_apply_sgr, spec_parse};
use crate::ansi_style_laws::{
    joined_styled, lemma_parse_keeps_styles, terminated_styled, visible_styled, visible_styled_csi,
    visible_styled_esc, StyledChar,
};
use crate::style::Style;

verus! {

/// A shown character with the parameter texts of the SGR sequences before
/// it, in order (`None` for a line break).
pub type SgrChar = (char, Option<Seq<Seq<char>>>);

/// The style reached from `style` by applying the SGR parameter texts `ps`
/// left to right.
pub open spec fn fold_sgr(style: Style, ps: Seq<Seq<char>>) -> Style
    decreases ps.len(),
{
    if ps.len() == 0 {
        style
    } else {
        spec_apply_sgr(fold_sgr(style, ps.drop_last()), ps.last())
    }
}

/// The characters the parser shows, each with the parameter texts of the
/// complete SGR sequences met before it: `before`, then those of `s`.
pub open spec fn visible_sgrs(s: Seq<char>, before: Seq<Seq<char>>) -> Seq<SgrChar>
    decreases s.len(), 1nat,
{
    if s.len() == 0 {
        Seq::empty()
    } else {
        let c = s[0];
        if c == esc() {
            if s.len() > 1 && s[1] == '[' {
                visible_sgrs_csi(s.subrange(2, s.len() as int), before, Seq::empty())
            } else {
                visible_sgrs_esc(s.drop_first(), before)
            }
        } else if c == '\r' {
            visible_sgrs(s.drop_first(), before)
        } else if c == '\n' {
            seq![('\n', None)] + visible_sgrs(s.drop_first(), before)
        } else {
            seq![(c, Some(before))] + visible_sgrs(s.drop_first(), before)
        }
    }
}

/// As `visible_sgrs`, inside a CSI sequence with parameter text `params`;
/// only a final `m` makes it an SGR sequence.
pub open spec fn visible_sgrs_csi(s: Seq<char>, before: Seq<Seq<char>>, params: Seq<char>) -> Seq<SgrChar>
    decreases s.len(), 0nat,
{
    if s.len() == 0 {
        Seq::empty()
    } else if is_param_char(s[0]) {
        visible_sgrs_csi(s.drop_first(), before, params.push(s[0]))
    } else if s[0] == 'm' {
        visible_sgrs(s.drop_first(), before.push(params))
    } else {
        visible_sgrs(s.drop_first(), before)
    }
}

/// As `visible_sgrs`, inside an escape sequence that is not CSI.
pub open spec fn visible_sgrs_esc(s: Seq<char>, before: Seq<Seq<char>>) -> Seq<SgrChar>
    decreases s.len(), 2nat,
{
    if s.len() == 0 {
        Seq::empty()
    } else if is_intermediate(s[0]) {
        visible_sgrs_esc(s.drop_first(), before)
    } else if is_final_byte(s[0]) {
        visible_sgrs(s.drop_first(), before)
    } else {
        visible_sgrs(s, before)
    }
}

/// A shown character styled by folding its SGR parameter texts over `style`.
pub open spec fn fold_mark(style: Style, x: SgrChar) -> StyledChar {
    match x.1 {
        Some(ps) => (x.0, Some(fold_sgr(style, ps))),
        None => (x.0, None),
    }
}

/// All shown characters styled by folding.
pub open spec fn folded(style: Style, v: Seq<SgrChar>) -> Seq<StyledChar> {
    v.map_values(|x: SgrChar| fold_mark(style, x))
}

proof fn lemma_folded_front(style: Style, x: SgrChar, v: Seq<SgrChar>)
    ensures
        folded(style, seq![x] + v) == seq![fold_mark(style, x)] + folded(style, v),
{
    assert(folded(style, seq![x] + v) =~= seq![fold_mark(style, x)] + folded(style, v));
}

proof fn lemma_fold_text(s: Seq<char>, style: Style, before: Seq<Seq<char>>)
    ensures
        visible_styled(s, fold_sgr(style, before)) == folded(style, visible_sgrs(s, before)),
    decreases s.len(), 1nat,
{
    if s.len() == 0 {
        assert(folded(style, visible_sgrs(s, before)) =~= Seq::<StyledChar>::empty());
    } else {
        let c = s[0];
        let t = fold_sgr(style, before);
        if c == esc() {
            if s.len() > 1 && s[1] == '[' {
                lemma_fold_csi(s.subrange(2, s.len() as int), style, before, Seq::empty());
            } else {
                lemma_fold_esc(s.drop_first(), style, before);
            }
        } else if c == '\r' {
            lemma_fold_text(s.drop_first(), style, before);
        } else if c == '\n' {
            lemma_fold_text(s.drop_first(), style, before);
            lemma_folded_front(style, ('\n', None), visible_sgrs(s.drop_first(), before));
        } else {
            lemma_fold_text(s.drop_first(), style, before);
            lemma_folded_front(style, (c, Some(before)), visible_sgrs(s.drop_first(), before));
        }
    }
}

proof fn lemma_fold_csi(s: Seq<char>, style: Style, before: Seq<Seq<char>>, params: Seq<char>)
    ensures
        visible_styled_csi(s, fold_sgr(style, before), params) == folded(style, visible_sgrs_csi(s, before, params)),
    decreases s.len(), 0nat,
{
    if s.len() == 0 {
        assert(folded(style, visible_sgrs_csi(s, before, params)) =~= Seq::<StyledChar>::empty());
    } else if is_param_char(s[0]) {
        lemma_fold_csi(s.drop_first(), style, before, params.push(s[0]));
    } else if s[0] == 'm' {
        let after = before.push(params);
        assert(after.drop_last() =~= before);
        assert(fold_sgr(style, after) == spec_apply_sgr(fold_sgr(style, before), params));
        lemma_fold_text(s.drop_first(), style, after);
    } else {
        lemma_fold_text(s.drop_first(), style, before);
    }
}

proof fn lemma_fold_esc(s: Seq<char>, style: Style, before: Seq<Seq<char>>)
    ensures
        visible_styled_esc(s, fold_sgr(style, before)) == folded(style, visible_sgrs_esc(s, before)),
    decreases s.len(), 2nat,
{
    if s.len() == 0 {
        assert(folded(style, visible_sgrs_esc(s, before)) =~= Seq::<StyledChar>::empty());
    } else if is_intermediate(s[0]) {
        lemma_fold_esc(s.drop_first(), style, before);
    } else if is_final_byte(s[0]) {
        lemma_fold_text(s.drop_first(), style, before);
    } else {
        lemma_fold_text(s, style, before);
    }
}

/// The style of every character the parser shows is the left fold of SGR
/// application, from the empty style, over the parameter texts of all
/// complete `ESC [ params m` sequences before it in the text; a newline
/// does not reset it. The lines that `parse` returns, each followed by a
/// line break, spell exactly these styled characters.
pub proof fn lemma_parse_styles_fold(text: Seq<char>)
    ensures
        joined_styled(spec_parse(text)) == terminated_styled(
            folded(Style::empty(), visible_sgrs(text, Seq::empty())),
        ),
{
    lemma_parse_keeps_styles(text);
    lemma_fold_text(text, Style::empty(), Seq::empty());
    assert(fold_sgr(Style::empty(), Seq::<Seq<char>>::empty()) == Style::empty());
}

} // verus!
