//! What every read of a taskfile satisfies: a file that reads has distinct
//! task names, well-formed task lines, and no variable that is both an
//! `@env:` override and a fallback; a file that does not read gets a
//! message that points at one of its lines.
use vstd::prelude::*;

use crate::scan::{expr_fold, line_expressions, source_lines};
use crate::text::trim;
use crate::formatter::{lemma_trim_facts, lemma_trim_of_trimmed};
use crate::task_file::{
    all_lines, first_await_error, lerr, mixed_fold,
    add_task, env_entry, finish_active, finish_file, indented, initial_state, parse_fold,
    parse_task_file_spec, pop_contexts, step, step_after_help, step_line, task_body,
    task_exists, top_level, version_header, with_task, FileModel, ParseState, Section, TaskModel,
};

verus! {

/// No two tasks share a name.
pub open spec fn distinct_names(tasks: Seq<TaskModel>) -> bool {
    forall|i: int, j: int| 0 <= i < j < tasks.len() ==> #[trigger] tasks[i].name != #[trigger] tasks[j].name
}

/// The lines of a task, from a file of `n` lines: each indented by whole
/// levels (an even width of at least two), numbered within the file, in the
/// order of the file, its text non-empty and trimmed.
pub open spec fn lines_ok(t: TaskModel, n: nat) -> bool {
    &&& forall|k: int|
        0 <= k < t.lines.len() ==> {
            &&& (#[trigger] t.lines[k]).indent >= 2
            &&& t.lines[k].indent % 2 == 0
            &&& 1 <= t.lines[k].line_number <= n
            &&& t.lines[k].text.len() > 0
            &&& trim(t.lines[k].text) == t.lines[k].text
        }
    &&& forall|a: int, b: int|
        0 <= a <= b < t.lines.len() ==> (#[trigger] t.lines[a]).line_number <= (#[trigger] t.lines[b]).line_number
}

/// The invariants of a taskfile of `n` lines.
pub open spec fn file_invariants(f: FileModel, n: nat) -> bool {
    &&& distinct_names(f.tasks)
    &&& forall|i: int| 0 <= i < f.tasks.len() ==> lines_ok(#[trigger] f.tasks[i], n)
    &&& forall|k: Seq<char>| !(#[trigger] f.overrides.contains_key(k) && f.fallbacks.contains_key(k))
}

/// The reader keeps the file's invariants; the tasks it refers to exist and
/// their headers sit at even widths, the outermost at the margin.
pub open spec fn state_ok(st: ParseState, n: nat) -> bool {
    &&& file_invariants(st.file, n)
    &&& forall|i: int| 0 <= i < st.contexts.len() ==> 0 <= #[trigger] st.contexts[i].0 < st.file.tasks.len()
    &&& forall|i: int| 0 <= i < st.contexts.len() ==> #[trigger] st.contexts[i].1 % 2 == 0
    &&& st.contexts.len() > 0 ==> st.contexts[0].1 == 0
    &&& st.active_help matches Some((ti, _, _)) ==> 0 <= ti < st.file.tasks.len()
}

/// A message that points at line `ln` of the file at `path`: it starts
/// with `path:ln: `.
pub open spec fn err_on(m: Seq<char>, path: Seq<char>, ln: nat) -> bool {
    exists|r: Seq<char>| #[trigger] lerr(path, ln, r) == m
}

/// A message that points at one of the first `n` lines of the file at `path`.
pub open spec fn err_within(m: Seq<char>, path: Seq<char>, n: nat) -> bool {
    exists|ln: nat, r: Seq<char>| 1 <= ln <= n && #[trigger] lerr(path, ln, r) == m
}

/// The expressions of a line are non-empty and trimmed.
proof fn lemma_expr_fold_parts(s: Seq<char>)
    ensures
        forall|i: int| 0 <= i < expr_fold(s).parts.len() ==> {
            &&& (#[trigger] expr_fold(s).parts[i]).len() > 0
            &&& trim(expr_fold(s).parts[i]) == expr_fold(s).parts[i]
        },
    decreases s.len(),
{
    if s.len() > 0 {
        lemma_expr_fold_parts(s.drop_last());
        let st = expr_fold(s.drop_last());
        lemma_trim_facts(st.cur);
        lemma_trim_of_trimmed(trim(st.cur));
    }
}

proof fn lemma_line_expressions(s: Seq<char>)
    ensures
        forall|i: int| 0 <= i < line_expressions(s).len() ==> {
            &&& (#[trigger] line_expressions(s)[i]).len() > 0
            &&& trim(line_expressions(s)[i]) == line_expressions(s)[i]
        },
{
    lemma_expr_fold_parts(s);
    let st = expr_fold(s);
    lemma_trim_facts(st.cur);
    lemma_trim_of_trimmed(trim(st.cur));
}

proof fn lemma_with_task(st: ParseState, n: nat, ti: int, t: TaskModel)
    requires
        file_invariants(st.file, n),
        0 <= ti < st.file.tasks.len(),
        t.name == st.file.tasks[ti].name,
        lines_ok(t, n),
    ensures
        file_invariants(with_task(st.file, ti, t), n),
        with_task(st.file, ti, t).tasks.len() == st.file.tasks.len(),
{
    let ts = with_task(st.file, ti, t).tasks;
    assert forall|i: int, j: int| 0 <= i < j < ts.len() implies #[trigger] ts[i].name != #[trigger] ts[j].name by {
        assert(ts[i].name == st.file.tasks[i].name);
        assert(ts[j].name == st.file.tasks[j].name);
    }
    assert forall|i: int| 0 <= i < ts.len() implies lines_ok(#[trigger] ts[i], n) by {
        if i != ti {
            assert(ts[i] == st.file.tasks[i]);
        }
    }
}

/// New lines at line `n` after a task's lines keep them in order.
proof fn lemma_append_lines(t: TaskModel, n: nat, more: Seq<crate::task_file::TaskLineModel>)
    requires
        lines_ok(t, n),
        n >= 1,
        forall|k: int| 0 <= k < more.len() ==> {
            &&& (#[trigger] more[k]).line_number == n
            &&& more[k].indent >= 2
            &&& more[k].indent % 2 == 0
            &&& more[k].text.len() > 0
            &&& trim(more[k].text) == more[k].text
        },
    ensures
        lines_ok(TaskModel { lines: t.lines + more, ..t }, n),
{
    let u = TaskModel { lines: t.lines + more, ..t };
    assert forall|k: int| 0 <= k < u.lines.len() implies {
        &&& (#[trigger] u.lines[k]).indent >= 2
        &&& u.lines[k].indent % 2 == 0
        &&& 1 <= u.lines[k].line_number <= n
    } by {
        if k >= t.lines.len() {
            assert(u.lines[k] == more[k - t.lines.len()]);
        } else {
            assert(u.lines[k] == t.lines[k]);
        }
    }
    assert forall|a: int, b: int| 0 <= a <= b < u.lines.len() implies (#[trigger] u.lines[a]).line_number
        <= (#[trigger] u.lines[b]).line_number by {
        if b >= t.lines.len() {
            assert(u.lines[b] == more[b - t.lines.len()]);
            if a >= t.lines.len() {
                assert(u.lines[a] == more[a - t.lines.len()]);
            } else {
                assert(u.lines[a] == t.lines[a]);
            }
        } else {
            assert(u.lines[a] == t.lines[a] && u.lines[b] == t.lines[b]);
        }
    }
}

proof fn lemma_more_lines(st: ParseState, n: nat)
    requires
        state_ok(st, n),
    ensures
        state_ok(st, n + 1),
{
    assert forall|i: int| 0 <= i < st.file.tasks.len() implies lines_ok(#[trigger] st.file.tasks[i], n + 1) by {
        assert(lines_ok(st.file.tasks[i], n));
    }
}

proof fn lemma_finish_active(st: ParseState, n: nat)
    requires
        state_ok(st, n),
    ensures
        state_ok(finish_active(st), n),
        finish_active(st).file.tasks.len() == st.file.tasks.len(),
{
    if let Some((ti, _, hl)) = st.active_help {
        lemma_with_task(st, n, ti, TaskModel { help: Some(crate::scan::finish_help_spec(hl)), ..st.file.tasks[ti] });
    }
}

proof fn lemma_add_task(
    st: ParseState,
    n: nat,
    key: Seq<char>,
    args: Seq<Seq<char>>,
    hi: nat,
    ln: nat,
    path: Seq<char>,
)
    requires
        state_ok(st, n),
        hi % 2 == 0,
        st.contexts.len() == 0 ==> hi == 0,
    ensures
        add_task(st, key, args, hi, ln, path) matches Ok(s2) ==> state_ok(s2, n),
        add_task(st, key, args, hi, ln, path) matches Err(m) ==> err_on(m, path, ln),
{
    if let Ok(s2) = add_task(st, key, args, hi, ln, path) {
        assert(!task_exists(st.file.tasks, key));
        let ts = s2.file.tasks;
        assert forall|i: int, j: int| 0 <= i < j < ts.len() implies #[trigger] ts[i].name != #[trigger] ts[j].name by {
            if j == ts.len() - 1 {
                assert(ts[i] == st.file.tasks[i]);
            } else {
                assert(ts[i] == st.file.tasks[i] && ts[j] == st.file.tasks[j]);
            }
        }
        assert forall|i: int| 0 <= i < ts.len() implies lines_ok(#[trigger] ts[i], n) by {
            if i < st.file.tasks.len() {
                assert(ts[i] == st.file.tasks[i]);
            }
        }
        assert forall|i: int| 0 <= i < s2.contexts.len() implies 0 <= #[trigger] s2.contexts[i].0 < s2.file.tasks.len()
            && s2.contexts[i].1 % 2 == 0 by {
            if i < st.contexts.len() {
                assert(s2.contexts[i] == st.contexts[i]);
            }
        }
        if st.contexts.len() > 0 {
            assert(s2.contexts[0] == st.contexts[0]);
        }
    }
}

proof fn lemma_pop_contexts(ctx: Seq<(int, nat)>, w: nat)
    ensures
        pop_contexts(ctx, w).len() <= ctx.len(),
        forall|i: int| 0 <= i < pop_contexts(ctx, w).len() ==> #[trigger] pop_contexts(ctx, w)[i] == ctx[i],
        ctx.len() > 0 ==> pop_contexts(ctx, w).len() > 0,
        pop_contexts(ctx, w).len() > 1 ==> w > pop_contexts(ctx, w).last().1,
    decreases ctx.len(),
{
    if ctx.len() > 1 && w <= ctx.last().1 {
        lemma_pop_contexts(ctx.drop_last(), w);
    }
}

proof fn lemma_version_header(st: ParseState, n: nat, ln: nat, args: Seq<char>, path: Seq<char>)
    requires
        state_ok(st, n),
    ensures
        version_header(st, ln, args, path) matches Ok(s2) ==> state_ok(s2, n),
        version_header(st, ln, args, path) matches Err(m) ==> err_on(m, path, ln),
{
}

proof fn lemma_top_level(st: ParseState, n: nat, ln: nat, line: Seq<char>, path: Seq<char>)
    requires
        state_ok(st, n),
        st.contexts.len() == 0,
    ensures
        top_level(st, ln, line, path) matches Ok(s2) ==> state_ok(s2, n),
        top_level(st, ln, line, path) matches Err(m) ==> err_on(m, path, ln),
{
    lemma_version_header(st, n, ln, crate::scan::split_directive_spec(line.drop_first()).1, path);
    if let Ok((key, args)) = crate::task_header::parse_task_header_spec(line) {
        lemma_add_task(st, n, key, args, 0, ln, path);
    }
}

proof fn lemma_env_entry(st: ParseState, n: nat, entry: Seq<char>, ln: nat, path: Seq<char>)
    requires
        state_ok(st, n),
    ensures
        env_entry(st, entry, ln, path) matches Ok(s2) ==> state_ok(s2, n),
        env_entry(st, entry, ln, path) matches Err(m) ==> err_on(m, path, ln),
{
}

proof fn lemma_task_body(st: ParseState, ln: nat, line: Seq<char>, path: Seq<char>)
    requires
        state_ok(st, ln),
        ln >= 1,
        crate::scan::indent_width(line) >= 2,
        crate::scan::indent_width(line) % 2 == 0,
    ensures
        task_body(st, ln, line, path) matches Ok(s2) ==> state_ok(s2, ln),
        task_body(st, ln, line, path) matches Err(m) ==> err_on(m, path, ln),
{
    let w = crate::scan::indent_width(line);
    let ctx = pop_contexts(st.contexts, w);
    lemma_pop_contexts(st.contexts, w);
    if ctx.len() > 0 {
        let ti = ctx.last().0;
        let hi = ctx.last().1;
        assert(ctx[ctx.len() - 1] == st.contexts[ctx.len() - 1]);
        assert(hi % 2 == 0);
        if ctx.len() == 1 {
            assert(ctx[0] == st.contexts[0]);
        }
        assert(w > hi);
        let st1 = ParseState { contexts: ctx, ..st };
        assert forall|i: int| 0 <= i < st1.contexts.len() implies 0 <= #[trigger] st1.contexts[i].0 < st1.file.tasks.len()
            && st1.contexts[i].1 % 2 == 0 by {
            assert(ctx[i] == st.contexts[i]);
        }
        assert(ctx[0] == st.contexts[0]);
        assert(state_ok(st1, ln));
        let task = st.file.tasks[ti];
        let text = line.skip(crate::scan::indent_count(line) as int);
        if let Ok((child, args)) = crate::task_header::parse_task_header_spec(text) {
            lemma_add_task(st1, ln, task.name + ":"@ + child, args, w, ln, path);
        }
        assert(lines_ok(task, ln));
        if let Some(d) = crate::task_file::description_args(text) {
            lemma_with_task(st, ln, ti, TaskModel { description: Some(crate::command_text::unescape_spec(crate::text::trim(d))), ..task });
        }
        let exprs = crate::scan::line_expressions(text);
        lemma_line_expressions(text);
        let more = crate::task_file::expr_lines(exprs, ln, (w - hi) as nat);
        lemma_append_lines(task, ln, more);
        lemma_with_task(st, ln, ti, TaskModel { lines: task.lines + more, ..task });
    }
}

proof fn lemma_indented(st: ParseState, ln: nat, line: Seq<char>, path: Seq<char>)
    requires
        state_ok(st, ln),
        ln >= 1,
    ensures
        indented(st, ln, line, path) matches Ok(s2) ==> state_ok(s2, ln),
        indented(st, ln, line, path) matches Err(m) ==> err_on(m, path, ln),
{
    lemma_env_entry(st, ln, line.skip(crate::scan::indent_count(line) as int), ln, path);
    let w = crate::scan::indent_width(line);
    if w >= 2 && w % 2 == 0 {
        lemma_task_body(st, ln, line, path);
    }
}

proof fn lemma_step_line(st: ParseState, ln: nat, line: Seq<char>, path: Seq<char>)
    requires
        state_ok(st, ln),
        ln >= 1,
    ensures
        step_line(st, ln, line, path) matches Ok(s2) ==> state_ok(s2, ln),
        step_line(st, ln, line, path) matches Err(m) ==> err_on(m, path, ln),
{
    lemma_top_level(ParseState { contexts: seq![], ..st }, ln, ln, line, path);
    lemma_indented(st, ln, line, path);
}

proof fn lemma_step_after_help(st: ParseState, ln: nat, line: Seq<char>, path: Seq<char>)
    requires
        state_ok(st, ln),
        ln >= 1,
    ensures
        step_after_help(st, ln, line, path) matches Ok(s2) ==> state_ok(s2, ln),
        step_after_help(st, ln, line, path) matches Err(m) ==> err_on(m, path, ln),
{
    lemma_step_line(ParseState { section: Section::Top, ..st }, ln, line, path);
    lemma_step_line(st, ln, line, path);
}

proof fn lemma_step(st: ParseState, ln: nat, line: Seq<char>, path: Seq<char>)
    requires
        state_ok(st, ln),
        ln >= 1,
    ensures
        step(st, ln, line, path) matches Ok(s2) ==> state_ok(s2, ln),
        step(st, ln, line, path) matches Err(m) ==> err_on(m, path, ln),
{
    reveal(step);
    lemma_finish_active(st, ln);
    lemma_step_after_help(finish_active(st), ln, line, path);
    lemma_step_after_help(st, ln, line, path);
}

proof fn lemma_parse_fold(lines: Seq<Seq<char>>, path: Seq<char>)
    ensures
        parse_fold(lines, path) matches Ok(st) ==> state_ok(st, lines.len()),
        parse_fold(lines, path) matches Err(m) ==> err_within(m, path, lines.len()),
    decreases lines.len(),
{
    if lines.len() > 0 {
        lemma_parse_fold(lines.drop_last(), path);
        if let Ok(st) = parse_fold(lines.drop_last(), path) {
            lemma_more_lines(st, lines.drop_last().len());
            lemma_step(st, lines.len(), lines.last(), path);
        }
    } else {
        assert(file_invariants(initial_state().file, 0));
    }
}

/// Every taskfile that reads without error has distinct task names; each
/// task's lines are indented by whole levels, numbered within the source's
/// lines, kept in source order, and hold non-empty trimmed text; and no
/// variable is both an `@env:` override and a fallback.
pub proof fn lemma_read_taskfile_invariants(source: Seq<char>, path: Seq<char>)
    requires
        parse_task_file_spec(source, path) is Ok,
    ensures
        file_invariants(parse_task_file_spec(source, path)->Ok_0, source_lines(source).len()),
{
    let lines = source_lines(source);
    lemma_parse_fold(lines, path);
    if let Ok(st) = parse_fold(lines, path) {
        lemma_finish_active(st, lines.len());
    }
}


proof fn lemma_all_lines_numbered(tasks: Seq<TaskModel>, n: nat)
    requires
        forall|i: int| 0 <= i < tasks.len() ==> lines_ok(#[trigger] tasks[i], n),
    ensures
        forall|k: int| 0 <= k < all_lines(tasks).len() ==> 1 <= (#[trigger] all_lines(tasks)[k]).line_number <= n,
    decreases tasks.len(),
{
    if tasks.len() > 0 {
        assert forall|i: int| 0 <= i < tasks.drop_last().len() implies lines_ok(#[trigger] tasks.drop_last()[i], n) by {
            assert(tasks.drop_last()[i] == tasks[i]);
        }
        lemma_all_lines_numbered(tasks.drop_last(), n);
        let prev = all_lines(tasks.drop_last());
        let last = tasks.last();
        assert(lines_ok(tasks[tasks.len() - 1], n));
        assert forall|k: int| 0 <= k < all_lines(tasks).len() implies 1 <= (#[trigger] all_lines(tasks)[k]).line_number <= n by {
            if k < prev.len() {
                assert(all_lines(tasks)[k] == prev[k]);
            } else {
                assert(all_lines(tasks)[k] == last.lines[k - prev.len()]);
            }
        }
    }
}

proof fn lemma_await_error_at(
    lines: Seq<crate::task_file::TaskLineModel>,
    tasks: Seq<TaskModel>,
    path: Seq<char>,
    n: nat,
)
    requires
        forall|k: int| 0 <= k < lines.len() ==> 1 <= (#[trigger] lines[k]).line_number <= n,
    ensures
        first_await_error(lines, tasks, path) matches Some(m) ==> err_within(m, path, n),
    decreases lines.len(),
{
    if lines.len() > 0 {
        assert(1 <= lines[0].line_number <= n);
        assert forall|k: int| 0 <= k < lines.drop_first().len() implies 1 <= (#[trigger] lines.drop_first()[k]).line_number <= n by {
            assert(lines.drop_first()[k] == lines[k + 1]);
        }
        lemma_await_error_at(lines.drop_first(), tasks, path, n);
    }
}

/// Every message of a taskfile that does not read points at one of its
/// lines: it starts with `PATH:N: ` for a line number `N` of the source.
pub proof fn lemma_read_taskfile_errors(source: Seq<char>, path: Seq<char>)
    ensures
        parse_task_file_spec(source, path) matches Err(m) ==> err_within(m, path, source_lines(source).len()),
{
    let lines = source_lines(source);
    crate::lsp_analysis::lemma_mixed_line_bound(lines);
    lemma_parse_fold(lines, path);
    if mixed_fold(lines).2 is None {
        if let Ok(st) = parse_fold(lines, path) {
            lemma_finish_active(st, lines.len());
            let file = finish_file(st);
            lemma_all_lines_numbered(file.tasks, lines.len());
            lemma_await_error_at(all_lines(file.tasks), file.tasks, path, lines.len());
        }
    }
}


/// An `@env:` entry `NAME: "VALUE"` or `NAME: 'VALUE'` stores the text
/// between the quotes as the override of `NAME`, for every valid new name
/// and every value.
pub proof fn lemma_env_entry_unquotes(
    st: ParseState,
    key: Seq<char>,
    q: char,
    v: Seq<char>,
    ln: nat,
    path: Seq<char>,
)
    requires
        q == '"' || q == '\'',
        !key.contains(':'),
        !key.contains('?'),
        crate::names::env_name_error(key) is None,
        !st.file.overrides.contains_key(key),
        !st.file.fallbacks.contains_key(key),
    ensures
        env_entry(st, key + ": "@ + seq![q] + v + seq![q], ln, path) matches Ok(s2)
            && s2.file.overrides == st.file.overrides.insert(key, v)
            && s2.file.fallbacks == st.file.fallbacks,
{
    reveal_strlit(": ");
    let entry = key + ": "@ + seq![q] + v + seq![q];
    crate::text::lemma_find_char(entry, ':');
    assert(entry[key.len() as int] == ':');
    assert forall|j: int| 0 <= j < key.len() implies entry[j] != ':' by {
        assert(entry[j] == key[j]);
    }
    let i = key.len() as int;
    assert(crate::text::find_char(entry, ':') == Some(i)) by {
        crate::text::lemma_find_char(entry, ':');
        if let Some(k) = crate::text::find_char(entry, ':') {
            if k < i {
                assert(entry[k] == key[k]);
            }
        }
    }
    assert(entry.take(i) =~= key);
    if key.len() > 0 {
        assert(key.last() == key[key.len() - 1]);
    }
    let rest = entry.skip(i + 1);
    assert(rest =~= seq![' '] + seq![q] + v + seq![q]);
    assert(crate::scan::strip_one_leading_space_spec(rest) =~= seq![q] + v + seq![q]);
    let quoted = seq![q] + v + seq![q];
    assert(quoted.subrange(1, quoted.len() - 1) =~= v);
}


/// An `@env:` entry `NAME?: "VALUE"` (or with single quotes) stores the text
/// between the quotes as the fallback of `NAME`, used only where the
/// variable is absent.
pub proof fn lemma_env_fallback_unquotes(
    st: ParseState,
    key: Seq<char>,
    q: char,
    v: Seq<char>,
    ln: nat,
    path: Seq<char>,
)
    requires
        q == '"' || q == '\'',
        !key.contains(':'),
        !key.contains('?'),
        crate::names::env_name_error(key) is None,
        !st.file.overrides.contains_key(key),
        !st.file.fallbacks.contains_key(key),
    ensures
        env_entry(st, key + "?: "@ + seq![q] + v + seq![q], ln, path) matches Ok(s2)
            && s2.file.fallbacks == st.file.fallbacks.insert(key, v)
            && s2.file.overrides == st.file.overrides,
{
    reveal_strlit("?: ");
    let entry = key + "?: "@ + seq![q] + v + seq![q];
    let i = key.len() + 1int;
    assert(entry[i] == ':');
    assert(entry[key.len() as int] == '?');
    assert forall|j: int| 0 <= j < key.len() implies entry[j] != ':' by {
        assert(entry[j] == key[j]);
    }
    assert(crate::text::find_char(entry, ':') == Some(i)) by {
        crate::text::lemma_find_char(entry, ':');
        if let Some(k) = crate::text::find_char(entry, ':') {
            if k < i && k < key.len() {
                assert(entry[k] == key[k]);
            }
        }
    }
    assert(entry.take(i) =~= key.push('?'));
    assert(key.push('?').drop_last() =~= key);
    let rest = entry.skip(i + 1);
    assert(rest =~= seq![' '] + seq![q] + v + seq![q]);
    assert(crate::scan::strip_one_leading_space_spec(rest) =~= seq![q] + v + seq![q]);
    let quoted = seq![q] + v + seq![q];
    assert(quoted.subrange(1, quoted.len() - 1) =~= v);
}


/// An `@env:` entry `NAME: VALUE` whose value is not wrapped in matching
/// quotes stores the value as written after the one space that follows the
/// colon, leading spaces beyond it, inner quotes and colons included.
pub proof fn lemma_env_entry_keeps_plain_value(
    st: ParseState,
    key: Seq<char>,
    v: Seq<char>,
    ln: nat,
    path: Seq<char>,
)
    requires
        !key.contains(':'),
        !key.contains('?'),
        crate::names::env_name_error(key) is None,
        !st.file.overrides.contains_key(key),
        !st.file.fallbacks.contains_key(key),
        !(v.len() >= 2 && ((v[0] == '"' && v.last() == '"') || (v[0] == '\'' && v.last() == '\''))),
    ensures
        env_entry(st, key + ": "@ + v, ln, path) matches Ok(s2) && s2.file.overrides == st.file.overrides.insert(
            key,
            v,
        ) && s2.file.fallbacks == st.file.fallbacks,
{
    reveal_strlit(": ");
    let entry = key + ": "@ + v;
    let i = key.len() as int;
    assert(entry[i] == ':');
    assert forall|j: int| 0 <= j < key.len() implies entry[j] != ':' by {
        assert(entry[j] == key[j]);
    }
    assert(crate::text::find_char(entry, ':') == Some(i)) by {
        crate::text::lemma_find_char(entry, ':');
        if let Some(k) = crate::text::find_char(entry, ':') {
            if k < i {
                assert(entry[k] == key[k]);
            }
        }
    }
    assert(entry.take(i) =~= key);
    if key.len() > 0 {
        assert(key.last() == key[key.len() - 1]);
    }
    let rest = entry.skip(i + 1);
    assert(rest =~= seq![' '] + v);
    assert(crate::scan::strip_one_leading_space_spec(rest) =~= v);
}

} // verus!
