//! What every analysis of a taskfile text satisfies: its tasks have
//! distinct names, and every diagnostic spans at least one column of one
//! line of the text.
use vstd::prelude::*;

use crate::lsp_analysis::{
    add_task_lsp, analyze_spec, describe_lsp, expression_lsp, exprs_lsp, finish_tasks, indented_lsp,
    lemma_mixed_line_bound, line_lsp, lsp_fold, lsp_task_exists, metadata_check, note_vars,
    plain_lsp, rule_check, task_lsp, top_lsp, AState, AnalysisModel, TaskDefModel,
};
use crate::directive_info::ArgumentRule;
use crate::scan::source_lines;
use crate::task_file::{mixed_fold, pop_contexts};

verus! {

/// No two tasks share a name.
pub open spec fn distinct_task_names(tasks: Seq<TaskDefModel>) -> bool {
    forall|i: int, j: int| 0 <= i < j < tasks.len() ==> #[trigger] tasks[i].name != #[trigger] tasks[j].name
}

/// The invariants of an analysis of a text of `n` lines.
pub open spec fn analysis_invariants(a: AnalysisModel, n: nat) -> bool {
    &&& distinct_task_names(a.tasks)
    &&& forall|i: int| 0 <= i < a.diagnostics.len() ==> (#[trigger] a.diagnostics[i]).line < n
    &&& forall|i: int| 0 <= i < a.diagnostics.len() ==> (#[trigger] a.diagnostics[i]).start < a.diagnostics[i].end
}

/// The analysis after `n` lines keeps the invariants, and the open task
/// headers name tasks that exist.
pub open spec fn astate_ok(st: AState, n: nat) -> bool {
    &&& analysis_invariants(st.out, n)
    &&& forall|i: int| 0 <= i < st.contexts.len() ==> 0 <= #[trigger] st.contexts[i].0 < st.out.tasks.len()
}

proof fn lemma_note_vars(st: AState, ns: Seq<Seq<char>>)
    ensures
        note_vars(st, ns).out.tasks == st.out.tasks,
        note_vars(st, ns).out.diagnostics == st.out.diagnostics,
        note_vars(st, ns).contexts == st.contexts,
    decreases ns.len(),
{
    if ns.len() > 0 {
        lemma_note_vars(st, ns.drop_last());
    }
}

proof fn lemma_rule_check(
    st: AState,
    k: nat,
    ind: nat,
    end: nat,
    name: Seq<char>,
    args: Seq<char>,
    rule: ArgumentRule,
)
    requires
        forall|i: int| 0 <= i < st.out.diagnostics.len() ==> (#[trigger] st.out.diagnostics[i]).line < k + 1,
        forall|i: int| 0 <= i < st.out.diagnostics.len() ==> (#[trigger] st.out.diagnostics[i]).start < st.out.diagnostics[i].end,
    ensures
        forall|i: int|
            0 <= i < rule_check(st, k, ind, end, name, args, rule).out.diagnostics.len()
                ==> (#[trigger] rule_check(st, k, ind, end, name, args, rule).out.diagnostics[i]).start
                < rule_check(st, k, ind, end, name, args, rule).out.diagnostics[i].end,
        rule_check(st, k, ind, end, name, args, rule).out.tasks == st.out.tasks,
        rule_check(st, k, ind, end, name, args, rule).contexts == st.contexts,
        forall|i: int|
            0 <= i < rule_check(st, k, ind, end, name, args, rule).out.diagnostics.len()
                ==> (#[trigger] rule_check(st, k, ind, end, name, args, rule).out.diagnostics[i]).line < k + 1,
{
    reveal(rule_check);
}

proof fn lemma_expression(st: AState, k: nat, ind: nat, expr: Seq<char>)
    requires
        forall|i: int| 0 <= i < st.out.diagnostics.len() ==> (#[trigger] st.out.diagnostics[i]).line < k + 1,
        forall|i: int| 0 <= i < st.out.diagnostics.len() ==> (#[trigger] st.out.diagnostics[i]).start < st.out.diagnostics[i].end,
    ensures
        forall|i: int|
            0 <= i < expression_lsp(st, k, ind, expr).out.diagnostics.len()
                ==> (#[trigger] expression_lsp(st, k, ind, expr).out.diagnostics[i]).start
                < expression_lsp(st, k, ind, expr).out.diagnostics[i].end,
        expression_lsp(st, k, ind, expr).out.tasks == st.out.tasks,
        expression_lsp(st, k, ind, expr).contexts == st.contexts,
        forall|i: int|
            0 <= i < expression_lsp(st, k, ind, expr).out.diagnostics.len()
                ==> (#[trigger] expression_lsp(st, k, ind, expr).out.diagnostics[i]).line < k + 1,
{
    reveal(expression_lsp);
    let end = ind + crate::lsp_analysis::utf8_len(expr);
    let st1 = match crate::task_header::expression_syntax_error(expr) {
        Some(m) => crate::lsp_analysis::report(st, k, ind, end, m),
        None => st,
    };
    lemma_note_vars(st1, crate::command_text::variable_references_spec(expr));
    if expr.len() > 0 && expr[0] == '@' {
        let (name, args) = crate::scan::split_directive_spec(expr.drop_first());
        let st2 = if name == "desc"@ {
            metadata_check(st1, k, ind, end, "@desc"@, args)
        } else {
            note_vars(st1, crate::command_text::variable_references_spec(expr))
        };
        if let Some((_, rule)) = crate::directive_info::directive_spec(name) {
            lemma_rule_check(st2, k, ind, end, name, args, rule);
            if let Some(m) = crate::task_header::directive_syntax_error(expr) {
                let st3 = crate::lsp_analysis::report(st2, k, ind, end, m);
                lemma_rule_check(st3, k, ind, end, name, args, rule);
            }
        }
    }
}

proof fn lemma_exprs(
    st: AState,
    k: nat,
    ind: nat,
    w: nat,
    ti: int,
    logical: nat,
    exprs: Seq<Seq<char>>,
)
    requires
        astate_ok(st, k + 1),
        0 <= ti < st.out.tasks.len(),
    ensures
        astate_ok(exprs_lsp(st, k, ind, w, ti, logical, exprs), k + 1),
        exprs_lsp(st, k, ind, w, ti, logical, exprs).out.tasks.len() == st.out.tasks.len(),
    decreases exprs.len(),
{
    if exprs.len() > 0 {
        lemma_exprs(st, k, ind, w, ti, logical, exprs.drop_last());
        let st0 = exprs_lsp(st, k, ind, w, ti, logical, exprs.drop_last());
        let e = exprs.last();
        let st1 = if logical == 2 {
            describe_lsp(st0, ti, e)
        } else {
            st0
        };
        if logical == 2 {
            let ts = st1.out.tasks;
            assert forall|i: int, j: int| 0 <= i < j < ts.len() implies #[trigger] ts[i].name != #[trigger] ts[j].name by {
                assert(ts[i].name == st0.out.tasks[i].name);
                assert(ts[j].name == st0.out.tasks[j].name);
            }
        }
        let st2 = if e == "@help:"@ {
            AState { help_indent: Some(w), ..st1 }
        } else {
            st1
        };
        lemma_expression(st2, k, ind, e);
    }
}

proof fn lemma_add_task(
    st: AState,
    n: nat,
    key: Seq<char>,
    args: Seq<Seq<char>>,
    line: nat,
    start: nat,
    end: nat,
    hi: nat,
)
    requires
        astate_ok(st, n),
        line < n,
    ensures
        astate_ok(add_task_lsp(st, key, args, line, start, end, hi).0, n),
        add_task_lsp(st, key, args, line, start, end, hi).0.contexts == st.contexts,
        add_task_lsp(st, key, args, line, start, end, hi).1 ==> add_task_lsp(st, key, args, line, start, end, hi).0.out.tasks.len()
            == st.out.tasks.len() + 1,
        !add_task_lsp(st, key, args, line, start, end, hi).1 ==> add_task_lsp(st, key, args, line, start, end, hi).0.out.tasks
            == st.out.tasks,
{
    lemma_note_vars(st, args);
    let (s2, ok) = add_task_lsp(st, key, args, line, start, end, hi);
    if ok {
        assert(!lsp_task_exists(st.out.tasks, key));
        let ts = s2.out.tasks;
        assert forall|i: int, j: int| 0 <= i < j < ts.len() implies #[trigger] ts[i].name != #[trigger] ts[j].name by {
            if j == ts.len() - 1 {
                assert(ts[i] == st.out.tasks[i]);
            } else {
                assert(ts[i] == st.out.tasks[i] && ts[j] == st.out.tasks[j]);
            }
        }
    }
}

proof fn lemma_pop(ctx: Seq<(int, nat)>, w: nat)
    ensures
        pop_contexts(ctx, w).len() <= ctx.len(),
        forall|i: int| 0 <= i < pop_contexts(ctx, w).len() ==> #[trigger] pop_contexts(ctx, w)[i] == ctx[i],
    decreases ctx.len(),
{
    if ctx.len() > 1 && w <= ctx.last().1 {
        lemma_pop(ctx.drop_last(), w);
    }
}

proof fn lemma_task_line(st: AState, k: nat, line: Seq<char>)
    requires
        astate_ok(st, k + 1),
    ensures
        astate_ok(task_lsp(st, k, line), k + 1),
{
    let w = crate::scan::indent_width(line);
    let ic = crate::scan::indent_count(line);
    let ctx = pop_contexts(st.contexts, w);
    lemma_pop(st.contexts, w);
    let st1 = AState { contexts: ctx, ..st };
    assert forall|i: int| 0 <= i < st1.contexts.len() implies 0 <= #[trigger] st1.contexts[i].0 < st1.out.tasks.len() by {
        assert(ctx[i] == st.contexts[i]);
    }
    if ctx.len() > 0 {
        let ti = ctx.last().0;
        let hi = ctx.last().1;
        assert(ctx[ctx.len() - 1] == st.contexts[ctx.len() - 1]);
        let text = line.skip(ic as int);
        let logical: nat = if w >= hi {
            (w - hi) as nat
        } else {
            0
        };
        if let Ok((child, args)) = crate::task_header::parse_task_header_spec(text) {
            let key = st.out.tasks[ti].name + ":"@ + child;
            lemma_add_task(st1, k + 1, key, args, k, ic, ic + crate::lsp_analysis::utf8_len(child), w);
            let (st2, ok) = add_task_lsp(st1, key, args, k, ic, ic + crate::lsp_analysis::utf8_len(child), w);
            if ok {
                let s3 = AState { contexts: st2.contexts.push((st1.out.tasks.len() as int, w)), ..st2 };
                assert forall|i: int| 0 <= i < s3.contexts.len() implies 0 <= #[trigger] s3.contexts[i].0 < s3.out.tasks.len() by {
                    if i < st2.contexts.len() {
                        assert(s3.contexts[i] == st2.contexts[i]);
                    }
                }
            }
        }
        lemma_exprs(st1, k, ic, w, ti, logical, crate::scan::line_expressions(text));
    }
}

proof fn lemma_indented_line(st: AState, k: nat, line: Seq<char>)
    requires
        astate_ok(st, k + 1),
    ensures
        astate_ok(indented_lsp(st, k, line), k + 1),
{
    lemma_task_line(st, k, line);
}

proof fn lemma_top_line(st: AState, k: nat, line: Seq<char>)
    requires
        astate_ok(st, k + 1),
        st.contexts.len() == 0,
    ensures
        astate_ok(top_lsp(st, k, line), k + 1),
{
    if let Ok((key, args)) = crate::task_header::parse_task_header_spec(line) {
        lemma_add_task(st, k + 1, key, args, k, 0, crate::lsp_analysis::utf8_len(key), 0);
        let (st1, ok) = add_task_lsp(st, key, args, k, 0, crate::lsp_analysis::utf8_len(key), 0);
        if ok {
            assert(st1.out.tasks.len() == st.out.tasks.len() + 1);
        }
    }
}

proof fn lemma_plain_line(st: AState, k: nat, line: Seq<char>)
    requires
        astate_ok(st, k + 1),
    ensures
        astate_ok(plain_lsp(st, k, line), k + 1),
{
    lemma_top_line(AState { contexts: seq![], ..st }, k, line);
    lemma_indented_line(st, k, line);
}

proof fn lemma_line(st: AState, k: nat, line: Seq<char>)
    requires
        astate_ok(st, k + 1),
    ensures
        astate_ok(line_lsp(st, k, line), k + 1),
{
    reveal(line_lsp);
    lemma_plain_line(st, k, line);
    lemma_plain_line(AState { section: crate::lsp_analysis::LspSection::Top, ..st }, k, line);
    let s2 = AState { help_indent: None, ..st };
    lemma_plain_line(s2, k, line);
    lemma_plain_line(AState { section: crate::lsp_analysis::LspSection::Top, ..s2 }, k, line);
}

proof fn lemma_fold(lines: Seq<Seq<char>>)
    ensures
        astate_ok(lsp_fold(lines), lines.len()),
    decreases lines.len(),
{
    if lines.len() > 0 {
        lemma_fold(lines.drop_last());
        lemma_line(lsp_fold(lines.drop_last()), (lines.len() - 1) as nat, lines.last());
    }
}

/// Every analysis of a taskfile text lists tasks with distinct names, and
/// each of its diagnostics points at one of the text's lines, covering at
/// least one column of it.
pub proof fn lemma_analysis_invariants(text: Seq<char>)
    ensures
        analysis_invariants(analyze_spec(text), source_lines(text).len()),
{
    let lines = source_lines(text);
    lemma_mixed_line_bound(lines);
    if mixed_fold(lines).2 is None {
        lemma_fold(lines);
        let out = lsp_fold(lines).out;
        let ts = finish_tasks(lines, text, out.tasks);
        assert forall|i: int, j: int| 0 <= i < j < ts.len() implies #[trigger] ts[i].name != #[trigger] ts[j].name by {
            assert(ts[i].name == out.tasks[i].name);
            assert(ts[j].name == out.tasks[j].name);
        }
    }
}

} // verus!
