//! The styles that the preview parser gives: every visible character keeps
//! the style reached by applying, in order, every SGR sequence before it;
//! newlines do not reset it.

use vstd::prelude::*;
use crate::ansi::{
    esc, finish, flush, initial_state, is_final_byte, is_intermediate, is_param_char, run_csi, run_esc,
    run_text, spec_apply_sgr, spec_parse, step_char, step_newline, step_sgr, LineView, ParseState,
};
use crate::ansi_laws::{lemma_flush, lemma_line_text_props, line_text, no_newline, spans_nonempty, wf_state};
use crate::style::Style;

verus! {

/// A shown character and its style (`None` for a line break).
pub type StyledChar = (char, Option<Style>);

/// The line break mark.
pub open spec fn newline_mark() -> StyledChar {
    ('\n', None)
}

/// Characters all in one style.
pub open spec fn styled(cs: Seq<char>, style: Style) -> Seq<StyledChar> {
    cs.map_values(|c: char| (c, Some(style)))
}

/// The styled characters of a line, span after span.
pub open spec fn line_styled(l: LineView) -> Seq<StyledChar>
    decreases l.len(),
{
    if l.len() == 0 {
        Seq::empty()
    } else {
        line_styled(l.drop_last()) + styled(l.last().0, l.last().1)
    }
}

/// The styled characters of a sequence of lines, each followed by a line
/// break.
pub open spec fn joined_styled(ls: Seq<LineView>) -> Seq<StyledChar>
    decreases ls.len(),
{
    if ls.len() == 0 {
        Seq::empty()
    } else {
        joined_styled(ls.drop_last()) + line_styled(ls.last()) + seq![newline_mark()]
    }
}

/// The characters the parser shows, each with the style in force there:
/// `style`, changed by every complete SGR sequence met so far, in order.
pub open spec fn visible_styled(s: Seq<char>, style: Style) -> Seq<StyledChar>
    decreases s.len(), 1nat,
{
    if s.len() == 0 {
        Seq::empty()
    } else {
        let c = s[0];
        if c == esc() {
            if s.len() > 1 && s[1] == '[' {
                visible_styled_csi(s.subrange(2, s.len() as int), style, Seq::empty())
            } else {
                visible_styled_esc(s.drop_first(), style)
            }
        } else if c == '\r' {
            visible_styled(s.drop_first(), style)
        } else if c == '\n' {
            seq![newline_mark()] + visible_styled(s.drop_first(), style)
        } else {
            seq![(c, Some(style))] + visible_styled(s.drop_first(), style)
        }
    }
}

/// As `visible_styled`, inside a CSI sequence with parameter text `params`.
pub open spec fn visible_styled_csi(s: Seq<char>, style: Style, params: Seq<char>) -> Seq<StyledChar>
    decreases s.len(), 0nat,
{
    if s.len() == 0 {
        Seq::empty()
    } else if is_param_char(s[0]) {
        visible_styled_csi(s.drop_first(), style, params.push(s[0]))
    } else if s[0] == 'm' {
        visible_styled(s.drop_first(), spec_apply_sgr(style, params))
    } else {
        visible_styled(s.drop_first(), style)
    }
}

/// As `visible_styled`, inside an escape sequence that is not CSI.
pub open spec fn visible_styled_esc(s: Seq<char>, style: Style) -> Seq<StyledChar>
    decreases s.len(), 2nat,
{
    if s.len() == 0 {
        Seq::empty()
    } else if is_intermediate(s[0]) {
        visible_styled_esc(s.drop_first(), style)
    } else if is_final_byte(s[0]) {
        visible_styled(s.drop_first(), style)
    } else {
        visible_styled(s, style)
    }
}

/// Styled characters ended by a line break, unless empty or already ended.
pub open spec fn terminated_styled(v: Seq<StyledChar>) -> Seq<StyledChar> {
    if v.len() == 0 || v.last() == newline_mark() {
        v
    } else {
        v.push(newline_mark())
    }
}

/// The styled characters of the line being built.
pub open spec fn pending_styled(st: ParseState) -> Seq<StyledChar> {
    line_styled(st.spans) + styled(st.current, st.style)
}

proof fn lemma_line_styled_props(l: LineView)
    ensures
        line_styled(l).len() == line_text(l).len(),
        forall|k: int| 0 <= k < line_styled(l).len() ==> (#[trigger] line_styled(l)[k]).1 is Some,
    decreases l.len(),
{
    if l.len() > 0 {
        let init = l.drop_last();
        lemma_line_styled_props(init);
        let a = line_styled(init);
        let b = styled(l.last().0, l.last().1);
        assert forall|k: int| 0 <= k < line_styled(l).len() implies (#[trigger] line_styled(l)[k]).1 is Some by {
            if k < a.len() {
                assert(line_styled(l)[k] == a[k]);
            } else {
                assert(line_styled(l)[k] == b[k - a.len()]);
            }
        }
    }
}

proof fn lemma_terminated_styled_newline(x: Seq<StyledChar>, y: Seq<StyledChar>)
    ensures
        terminated_styled(x + seq![newline_mark()] + y) == x + seq![newline_mark()] + terminated_styled(y),
{
    let a = x + seq![newline_mark()] + y;
    if y.len() == 0 {
        assert(a =~= x + seq![newline_mark()]);
        assert(a.last() == newline_mark());
    } else {
        assert(a.last() == y.last());
        if y.last() != newline_mark() {
            assert(a.push(newline_mark()) =~= x + seq![newline_mark()] + y.push(newline_mark()));
        }
    }
}

proof fn lemma_flush_styled(st: ParseState)
    requires
        wf_state(st),
    ensures
        pending_styled(flush(st)) == pending_styled(st),
{
    if st.current.len() > 0 {
        let f = flush(st);
        assert(f.spans.drop_last() =~= st.spans);
        assert(styled(f.current, f.style) =~= Seq::<StyledChar>::empty());
        assert(pending_styled(f) =~= pending_styled(st));
    }
}

proof fn lemma_finish_styled(st: ParseState)
    requires
        wf_state(st),
    ensures
        joined_styled(finish(st)) == joined_styled(st.lines) + terminated_styled(pending_styled(st)),
{
    let f = flush(st);
    lemma_flush(st);
    lemma_flush_styled(st);
    lemma_line_text_props(f.spans);
    lemma_line_styled_props(f.spans);
    assert(styled(f.current, f.style) =~= Seq::<StyledChar>::empty());
    assert(pending_styled(f) =~= line_styled(f.spans));
    if f.spans.len() > 0 {
        let ls = f.lines.push(f.spans);
        assert(ls.drop_last() =~= f.lines);
        let p = pending_styled(st);
        assert(p.len() > 0);
        assert(p.last() == p[p.len() - 1]);
        assert(p[p.len() - 1].1 is Some);
        assert(joined_styled(ls) =~= joined_styled(st.lines) + terminated_styled(p));
    } else {
        assert(pending_styled(st).len() == 0);
        assert(joined_styled(st.lines) + terminated_styled(pending_styled(st)) =~= joined_styled(st.lines));
    }
}

proof fn lemma_wf_step_char(st: ParseState, c: char)
    requires
        wf_state(st),
        c != '\n',
    ensures
        wf_state(step_char(st, c)),
{
    let st2 = step_char(st, c);
    assert forall|k: int| 0 <= k < st2.current.len() implies st2.current[k] != '\n' by {
        if k < st.current.len() {
            assert(st2.current[k] == st.current[k]);
        }
    }
}

proof fn lemma_wf_step_newline(st: ParseState)
    requires
        wf_state(st),
    ensures
        wf_state(step_newline(st)),
{
    let f = flush(st);
    let st2 = step_newline(st);
    lemma_flush(st);
    assert forall|i: int| 0 <= i < st2.lines.len() implies spans_nonempty(#[trigger] st2.lines[i]) by {
        if i < f.lines.len() {
            assert(st2.lines[i] == f.lines[i]);
        }
    }
    assert(no_newline(st2.current));
}

proof fn lemma_run_text_styled(s: Seq<char>, st: ParseState)
    requires
        wf_state(st),
    ensures
        joined_styled(run_text(s, st)) == joined_styled(st.lines) + terminated_styled(
            pending_styled(st) + visible_styled(s, st.style),
        ),
    decreases s.len(), 1nat,
{
    if s.len() == 0 {
        lemma_finish_styled(st);
        assert(pending_styled(st) + visible_styled(s, st.style) =~= pending_styled(st));
    } else {
        let c = s[0];
        let rest = s.drop_first();
        if c == esc() {
            if s.len() > 1 && s[1] == '[' {
                lemma_run_csi_styled(s.subrange(2, s.len() as int), st, Seq::empty());
            } else {
                lemma_run_esc_styled(rest, st);
            }
        } else if c == '\r' {
            lemma_run_text_styled(rest, st);
        } else if c == '\n' {
            let f = flush(st);
            let st2 = step_newline(st);
            lemma_flush(st);
            lemma_flush_styled(st);
            lemma_wf_step_newline(st);
            assert(st2.lines.drop_last() =~= f.lines);
            assert(styled(f.current, f.style) =~= Seq::<StyledChar>::empty());
            assert(pending_styled(f) =~= line_styled(f.spans));
            assert(line_styled(st2.spans) =~= Seq::<StyledChar>::empty());
            assert(styled(st2.current, st2.style) =~= Seq::<StyledChar>::empty());
            assert(pending_styled(st2) =~= Seq::<StyledChar>::empty());
            lemma_run_text_styled(rest, st2);
            let v = visible_styled(rest, st.style);
            assert(visible_styled(s, st.style) == seq![newline_mark()] + v);
            lemma_terminated_styled_newline(pending_styled(st), v);
            assert(pending_styled(st) + visible_styled(s, st.style) =~= pending_styled(st) + seq![newline_mark()]
                + v);
            assert(pending_styled(st2) + v =~= v);
            assert(joined_styled(st.lines) + terminated_styled(pending_styled(st) + visible_styled(s, st.style))
                =~= joined_styled(st2.lines) + terminated_styled(pending_styled(st2) + v));
        } else {
            let st2 = step_char(st, c);
            lemma_wf_step_char(st, c);
            lemma_run_text_styled(rest, st2);
            assert(styled(st2.current, st2.style) =~= styled(st.current, st.style).push((c, Some(st.style))));
            assert(visible_styled(s, st.style) == seq![(c, Some(st.style))] + visible_styled(rest, st.style));
            assert(pending_styled(st2) + visible_styled(rest, st2.style) =~= pending_styled(st) + visible_styled(
                s,
                st.style,
            ));
        }
    }
}

proof fn lemma_run_esc_styled(s: Seq<char>, st: ParseState)
    requires
        wf_state(st),
    ensures
        joined_styled(run_esc(s, st)) == joined_styled(st.lines) + terminated_styled(
            pending_styled(st) + visible_styled_esc(s, st.style),
        ),
    decreases s.len(), 2nat,
{
    if s.len() == 0 {
        lemma_finish_styled(st);
        assert(pending_styled(st) + visible_styled_esc(s, st.style) =~= pending_styled(st));
    } else if is_intermediate(s[0]) {
        lemma_run_esc_styled(s.drop_first(), st);
    } else if is_final_byte(s[0]) {
        lemma_run_text_styled(s.drop_first(), st);
    } else {
        lemma_run_text_styled(s, st);
    }
}

proof fn lemma_run_csi_styled(s: Seq<char>, st: ParseState, params: Seq<char>)
    requires
        wf_state(st),
    ensures
        joined_styled(run_csi(s, st, params)) == joined_styled(st.lines) + terminated_styled(
            pending_styled(st) + visible_styled_csi(s, st.style, params),
        ),
    decreases s.len(), 0nat,
{
    if s.len() == 0 {
        lemma_finish_styled(st);
        assert(pending_styled(st) + visible_styled_csi(s, st.style, params) =~= pending_styled(st));
    } else {
        let c = s[0];
        let rest = s.drop_first();
        if is_param_char(c) {
            lemma_run_csi_styled(rest, st, params.push(c));
        } else if c == 'm' {
            let f = flush(st);
            let st2 = step_sgr(st, params);
            lemma_flush(st);
            lemma_flush_styled(st);
            assert(styled(f.current, f.style) =~= Seq::<StyledChar>::empty());
            assert(styled(st2.current, st2.style) =~= Seq::<StyledChar>::empty());
            assert(pending_styled(st2) == pending_styled(f));
            lemma_run_text_styled(rest, st2);
        } else {
            lemma_run_text_styled(rest, st);
        }
    }
}

/// The parser keeps every visible character with the style in force where
/// it stands: the lines it returns, each followed by a line break, spell the
/// visible characters of the input, each styled by applying, in order and
/// from the empty style, every complete SGR sequence before it. A newline
/// does not reset the style.
pub proof fn lemma_parse_keeps_styles(text: Seq<char>)
    ensures
        joined_styled(spec_parse(text)) == terminated_styled(visible_styled(text, Style::empty())),
{
    let st = initial_state();
    assert(line_styled(st.spans) =~= Seq::<StyledChar>::empty());
    assert(styled(st.current, st.style) =~= Seq::<StyledChar>::empty());
    lemma_run_text_styled(text, st);
    assert(pending_styled(st) + visible_styled(text, Style::empty()) =~= visible_styled(text, Style::empty()));
    assert(joined_styled(st.lines) + terminated_styled(visible_styled(text, Style::empty())) =~= terminated_styled(
        visible_styled(text, Style::empty()),
    ));
}

} // verus!
