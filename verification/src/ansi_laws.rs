//! Laws of the preview parser: what it keeps of the text, and the shape of
//! the spans it makes.

use vstd::prelude::*;
use crate::ansi::{
    esc, finish, flush, initial_state, is_final_byte, is_intermediate, is_param_char, run_csi, run_esc, run_text,
    spec_parse, step_char,
    step_newline, step_sgr, LineView, ParseState,
};

verus! {

/// The characters of a line, span after span.
pub open spec fn line_text(l: LineView) -> Seq<char>
    decreases l.len(),
{
    if l.len() == 0 {
        Seq::empty()
    } else {
        line_text(l.drop_last()) + l.last().0
    }
}

/// The characters of a sequence of lines, each followed by `\n`.
pub open spec fn joined(ls: Seq<LineView>) -> Seq<char>
    decreases ls.len(),
{
    if ls.len() == 0 {
        Seq::empty()
    } else {
        joined(ls.drop_last()) + line_text(ls.last()) + seq!['\n']
    }
}

/// The characters that the parser shows, in text mode: escape sequences and
/// `\r` removed, every other character (newlines included) kept.
pub open spec fn visible(s: Seq<char>) -> Seq<char>
    decreases s.len(), 1nat,
{
    if s.len() == 0 {
        Seq::empty()
    } else {
        let c = s[0];
        if c == esc() {
            if s.len() > 1 && s[1] == '[' {
                visible_csi(s.subrange(2, s.len() as int))
            } else {
                visible_esc(s.drop_first())
            }
        } else if c == '\r' {
            visible(s.drop_first())
        } else {
            seq![c] + visible(s.drop_first())
        }
    }
}

/// The characters that the parser shows after the start of a CSI sequence.
pub open spec fn visible_csi(s: Seq<char>) -> Seq<char>
    decreases s.len(), 0nat,
{
    if s.len() == 0 {
        Seq::empty()
    } else if is_param_char(s[0]) {
        visible_csi(s.drop_first())
    } else {
        visible(s.drop_first())
    }
}

/// The characters that the parser shows after the `ESC` of an escape
/// sequence that is not a CSI sequence.
pub open spec fn visible_esc(s: Seq<char>) -> Seq<char>
    decreases s.len(), 2nat,
{
    if s.len() == 0 {
        Seq::empty()
    } else if is_intermediate(s[0]) {
        visible_esc(s.drop_first())
    } else if is_final_byte(s[0]) {
        visible(s.drop_first())
    } else {
        visible(s)
    }
}

/// A text ended by a newline, unless it is empty or already ends with one.
pub open spec fn terminated(v: Seq<char>) -> Seq<char> {
    if v.len() == 0 || v.last() == '\n' {
        v
    } else {
        v.push('\n')
    }
}

/// The text of the line being built.
pub open spec fn pending(st: ParseState) -> Seq<char> {
    line_text(st.spans) + st.current
}

/// No span of a line is empty.
pub open spec fn spans_nonempty(l: LineView) -> bool {
    forall|k: int| 0 <= k < l.len() ==> (#[trigger] l[k]).0.len() > 0
}

/// Every span of every line holds at least one character.
pub open spec fn all_spans_nonempty(ls: Seq<LineView>) -> bool {
    forall|i: int| 0 <= i < ls.len() ==> spans_nonempty(#[trigger] ls[i])
}

pub(crate) open spec fn no_newline(s: Seq<char>) -> bool {
    forall|k: int| 0 <= k < s.len() ==> s[k] != '\n'
}

pub(crate) open spec fn wf_state(st: ParseState) -> bool {
    &&& all_spans_nonempty(st.lines)
    &&& spans_nonempty(st.spans)
    &&& forall|k: int| 0 <= k < st.spans.len() ==> no_newline(#[trigger] st.spans[k].0)
    &&& no_newline(st.current)
}

pub(crate) proof fn lemma_line_text_props(l: LineView)
    requires
        spans_nonempty(l),
        forall|k: int| 0 <= k < l.len() ==> no_newline(#[trigger] l[k].0),
    ensures
        (l.len() > 0) == (line_text(l).len() > 0),
        no_newline(line_text(l)),
    decreases l.len(),
{
    if l.len() > 0 {
        let init = l.drop_last();
        assert forall|k: int| 0 <= k < init.len() implies (#[trigger] init[k]).0.len() > 0 && no_newline(init[k].0) by {
            assert(init[k] == l[k]);
        }
        lemma_line_text_props(init);
        assert(l.last() == l[l.len() - 1]);
        let t = line_text(l);
        assert(t == line_text(init) + l.last().0);
        assert forall|k: int| 0 <= k < t.len() implies t[k] != '\n' by {
            if k < line_text(init).len() {
                assert(t[k] == line_text(init)[k]);
            } else {
                assert(t[k] == l.last().0[k - line_text(init).len()]);
            }
        }
    }
}

proof fn lemma_terminated_newline(x: Seq<char>, y: Seq<char>)
    ensures
        terminated(x + seq!['\n'] + y) == x + seq!['\n'] + terminated(y),
{
    let a = x + seq!['\n'] + y;
    if y.len() == 0 {
        assert(a =~= x + seq!['\n']);
        assert(a.last() == '\n');
    } else {
        assert(a.last() == y.last());
        if y.last() != '\n' {
            assert(a.push('\n') =~= x + seq!['\n'] + y.push('\n'));
        }
    }
}

pub(crate) proof fn lemma_flush(st: ParseState)
    requires
        wf_state(st),
    ensures
        wf_state(flush(st)),
        pending(flush(st)) == pending(st),
        flush(st).lines == st.lines,
        flush(st).style == st.style,
        flush(st).current.len() == 0,
{
    if st.current.len() > 0 {
        let f = flush(st);
        let x = (st.current, st.style);
        assert(f.spans.drop_last() =~= st.spans);
        assert(line_text(f.spans) == line_text(st.spans) + st.current);
        assert forall|k: int| 0 <= k < f.spans.len() implies (#[trigger] f.spans[k]).0.len() > 0 && no_newline(
            f.spans[k].0,
        ) by {
            if k < st.spans.len() {
                assert(f.spans[k] == st.spans[k]);
            }
        }
        assert(pending(f) =~= pending(st));
    } else {
        assert(pending(st) =~= line_text(st.spans));
    }
}

proof fn lemma_finish(st: ParseState)
    requires
        wf_state(st),
    ensures
        joined(finish(st)) == joined(st.lines) + terminated(pending(st)),
        all_spans_nonempty(finish(st)),
{
    let f = flush(st);
    lemma_flush(st);
    lemma_line_text_props(f.spans);
    assert(pending(f) =~= line_text(f.spans));
    if f.spans.len() > 0 {
        let ls = f.lines.push(f.spans);
        assert(ls.drop_last() =~= f.lines);
        assert(joined(ls) == joined(f.lines) + line_text(f.spans) + seq!['\n']);
        assert(pending(st).last() != '\n');
        assert(joined(ls) =~= joined(st.lines) + terminated(pending(st)));
        assert forall|i: int| 0 <= i < ls.len() implies spans_nonempty(#[trigger] ls[i]) by {
            if i < f.lines.len() {
                assert(ls[i] == f.lines[i]);
            }
        }
    } else {
        assert(pending(st).len() == 0);
        assert(joined(st.lines) + terminated(pending(st)) =~= joined(st.lines));
    }
}

/// What the parser keeps of the text, generalised to any state of the parser.
proof fn lemma_run_text(s: Seq<char>, st: ParseState)
    requires
        wf_state(st),
    ensures
        joined(run_text(s, st)) == joined(st.lines) + terminated(pending(st) + visible(s)),
        all_spans_nonempty(run_text(s, st)),
    decreases s.len(), 1nat,
{
    if s.len() == 0 {
        lemma_finish(st);
        assert(pending(st) + visible(s) =~= pending(st));
    } else {
        let c = s[0];
        let rest = s.drop_first();
        if c == esc() {
            if s.len() > 1 && s[1] == '[' {
                lemma_run_csi(s.subrange(2, s.len() as int), st, Seq::empty());
            } else {
                lemma_run_esc(rest, st);
            }
        } else if c == '\r' {
            lemma_run_text(rest, st);
        } else if c == '\n' {
            let f = flush(st);
            let st2 = step_newline(st);
            lemma_flush(st);
            lemma_line_text_props(f.spans);
            assert(st2.lines.drop_last() =~= f.lines);
            assert(joined(st2.lines) == joined(st.lines) + line_text(f.spans) + seq!['\n']);
            assert(line_text(st2.spans) =~= Seq::<char>::empty());
            assert(pending(f) =~= line_text(f.spans));
            assert(pending(st2) =~= Seq::<char>::empty());
            assert forall|i: int| 0 <= i < st2.lines.len() implies spans_nonempty(#[trigger] st2.lines[i]) by {
                if i < f.lines.len() {
                    assert(st2.lines[i] == f.lines[i]);
                }
            }
            assert(no_newline(st2.current));
            assert(wf_state(st2));
            lemma_run_text(rest, st2);
            assert(visible(s) == seq!['\n'] + visible(rest));
            lemma_terminated_newline(pending(st), visible(rest));
            assert(pending(st) + visible(s) =~= pending(st) + seq!['\n'] + visible(rest));
            assert(pending(st2) + visible(rest) =~= visible(rest));
            assert(joined(st.lines) + terminated(pending(st) + visible(s)) =~= joined(st2.lines) + terminated(
                pending(st2) + visible(rest),
            ));
        } else {
            let st2 = step_char(st, c);
            assert forall|k: int| 0 <= k < st2.current.len() implies st2.current[k] != '\n' by {
                if k < st.current.len() {
                    assert(st2.current[k] == st.current[k]);
                }
            }
            lemma_run_text(rest, st2);
            assert(visible(s) == seq![c] + visible(rest));
            assert(pending(st2) + visible(rest) =~= pending(st) + visible(s));
        }
    }
}

proof fn lemma_run_esc(s: Seq<char>, st: ParseState)
    requires
        wf_state(st),
    ensures
        joined(run_esc(s, st)) == joined(st.lines) + terminated(pending(st) + visible_esc(s)),
        all_spans_nonempty(run_esc(s, st)),
    decreases s.len(), 2nat,
{
    if s.len() == 0 {
        lemma_finish(st);
        assert(pending(st) + visible_esc(s) =~= pending(st));
    } else if is_intermediate(s[0]) {
        lemma_run_esc(s.drop_first(), st);
    } else if is_final_byte(s[0]) {
        lemma_run_text(s.drop_first(), st);
    } else {
        lemma_run_text(s, st);
    }
}

proof fn lemma_run_csi(s: Seq<char>, st: ParseState, params: Seq<char>)
    requires
        wf_state(st),
    ensures
        joined(run_csi(s, st, params)) == joined(st.lines) + terminated(pending(st) + visible_csi(s)),
        all_spans_nonempty(run_csi(s, st, params)),
    decreases s.len(), 0nat,
{
    if s.len() == 0 {
        lemma_finish(st);
        assert(pending(st) + visible_csi(s) =~= pending(st));
    } else {
        let c = s[0];
        let rest = s.drop_first();
        if is_param_char(c) {
            lemma_run_csi(rest, st, params.push(c));
        } else if c == 'm' {
            let st2 = step_sgr(st, params);
            lemma_flush(st);
            assert(pending(st2) == pending(flush(st)));
            lemma_run_text(rest, st2);
        } else {
            lemma_run_text(rest, st);
        }
    }
}

/// The parser loses no visible character and adds none: the lines it
/// returns, each followed by a newline, spell the input without its escape
/// sequences and carriage returns (ended by a newline when it is not empty).
pub proof fn lemma_parse_keeps_visible_text(text: Seq<char>)
    ensures
        joined(spec_parse(text)) == terminated(visible(text)),
{
    let st = initial_state();
    assert(line_text(st.spans) =~= Seq::<char>::empty());
    lemma_run_text(text, st);
    assert(pending(st) + visible(text) =~= visible(text));
    assert(joined(st.lines) + terminated(visible(text)) =~= terminated(visible(text)));
}

/// The parser never makes an empty span.
pub proof fn lemma_parse_spans_nonempty(text: Seq<char>)
    ensures
        all_spans_nonempty(spec_parse(text)),
{
    lemma_run_text(text, initial_state());
}

} // verus!
