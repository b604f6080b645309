//! What an editor asks of an analysed taskfile: the outline of its tasks,
//! the word or task reference under the cursor, which completions fit the
//! text before it, and what a directive does.
use vstd::prelude::*;

use crate::directive_info::{directive, directive_spec};
use crate::help_output::{text_lines, text_lines_exec, lines_view};
use crate::lsp_analysis::{lsp_task_views, utf8_len, utf8_width, Analysis, LspTask, TaskDefModel};
use crate::names::colon_count;
use crate::scan::{split_whitespace, ws_words};
use crate::task_file::seq_views;
use crate::text::{
    append, append_str, char_is_ascii_alnum, chars_contains, chars_eq, chars_starts_with_str,
    chars_trim_start, is_ascii_alnum, starts_with, str_chars, subvec, trim_start,
};

verus! {

/// The position of the last `:`.
pub open spec fn last_colon(s: Seq<char>) -> Option<int>
    decreases s.len(),
{
    if s.len() == 0 {
        None
    } else if s.last() == ':' {
        Some(s.len() - 1)
    } else {
        last_colon(s.drop_last())
    }
}

/// The group a task name belongs to: the text before its last `:`.
pub open spec fn task_parent(name: Seq<char>) -> Option<Seq<char>> {
    match last_colon(name) {
        Some(i) => Some(name.take(i)),
        None => None,
    }
}

pub open spec fn has_task_named(tasks: Seq<TaskDefModel>, name: Seq<char>) -> bool {
    exists|i: int| 0 <= i < tasks.len() && #[trigger] tasks[i].name == name
}

/// Whether a task stands directly under `parent` in the outline (`None`:
/// at the top, where a nested task whose group is no task stands too).
pub open spec fn direct_child(tasks: Seq<TaskDefModel>, name: Seq<char>, parent: Option<Seq<char>>) -> bool {
    match (task_parent(name), parent) {
        (None, None) => true,
        (Some(p), None) => !has_task_named(tasks, p),
        (Some(p), Some(q)) => p == q,
        (None, Some(_)) => false,
    }
}

/// The tasks among the first `n` that stand directly under `parent`.
pub open spec fn outline_members(tasks: Seq<TaskDefModel>, parent: Option<Seq<char>>, n: int) -> Seq<int>
    decreases n,
{
    if n <= 0 {
        seq![]
    } else {
        let prev = outline_members(tasks, parent, n - 1);
        if direct_child(tasks, tasks[n - 1].name, parent) {
            prev.push(n - 1)
        } else {
            prev
        }
    }
}

/// The outline: each top entry (a task index) with the tasks under it.
/// Task names hold at most one `:`, so nothing stands deeper.
pub open spec fn outline_spec(tasks: Seq<TaskDefModel>) -> Seq<(int, Seq<int>)> {
    outline_members(tasks, None, tasks.len() as int).map_values(
        |i: int| (i, outline_members(tasks, Some(tasks[i].name), tasks.len() as int)),
    )
}

pub open spec fn join_comma(args: Seq<Seq<char>>) -> Seq<char>
    decreases args.len(),
{
    if args.len() == 0 {
        seq![]
    } else if args.len() == 1 {
        args[0]
    } else {
        join_comma(args.drop_last()) + ", "@ + args.last()
    }
}

/// What the outline shows beside a task: its description, else `task`, or
/// its arguments in parentheses.
pub open spec fn symbol_detail_spec(t: TaskDefModel) -> Seq<char> {
    match t.description {
        Some(d) => d,
        None => if t.arguments.len() == 0 {
            "task"@
        } else {
            "("@ + join_comma(t.arguments) + ")"@
        },
    }
}

/// The line of a text at a position (from zero), as `str::lines` counts.
pub open spec fn line_at_spec(text: Seq<char>, n: nat) -> Option<Seq<char>> {
    let ls = text_lines(text);
    if n < ls.len() {
        Some(ls[n as int])
    } else {
        None
    }
}

pub open spec fn utf16_units(c: char) -> nat {
    if (c as u32) >= 0x10000 {
        2
    } else {
        1
    }
}

pub open spec fn col_index_from(line: Seq<char>, col: nat, i: nat, units: nat) -> nat
    decreases line.len() - i,
{
    if i >= line.len() {
        line.len()
    } else if units >= col {
        i
    } else {
        col_index_from(line, col, i + 1, units + utf16_units(line[i as int]))
    }
}

/// The char that a UTF-16 column points at: the first char at or after
/// the column, or the end of the line.
pub open spec fn utf16_col_index(line: Seq<char>, col: nat) -> nat {
    col_index_from(line, col, 0, 0)
}

pub open spec fn is_word_char(c: char) -> bool {
    c == '@' || c == ':' || c == '-' || c == '_' || is_ascii_alnum(c)
}

pub open spec fn word_left(line: Seq<char>, p: nat) -> nat
    decreases p,
{
    if p > 0 && p <= line.len() && is_word_char(line[p - 1]) {
        word_left(line, (p - 1) as nat)
    } else {
        p
    }
}

pub open spec fn word_right(line: Seq<char>, p: nat) -> nat
    decreases line.len() - p,
{
    if p < line.len() && is_word_char(line[p as int]) {
        word_right(line, p + 1)
    } else {
        p
    }
}

/// The word (`@`, `:`, `-`, `_`, ASCII letters and digits) around a
/// position.
pub open spec fn word_at_spec(text: Seq<char>, line: nat, col: nat) -> Option<Seq<char>> {
    match line_at_spec(text, line) {
        None => None,
        Some(l) => {
            let p = utf16_col_index(l, col);
            let a = word_left(l, p);
            let b = word_right(l, p);
            if a < b {
                Some(l.subrange(a as int, b as int))
            } else {
                None
            }
        },
    }
}

pub open spec fn find_sub_from(s: Seq<char>, p: Seq<char>, i: nat) -> Option<nat>
    decreases s.len() + 1 - i,
{
    if i > s.len() || i + p.len() > s.len() {
        None
    } else if s.subrange(i as int, (i + p.len()) as int) == p {
        Some(i)
    } else {
        find_sub_from(s, p, i + 1)
    }
}

/// The first place of `p` in `s`.
pub open spec fn find_sub(s: Seq<char>, p: Seq<char>) -> Option<nat> {
    find_sub_from(s, p, 0)
}

/// The task named by an `@task` line when the cursor stands on the name's
/// first occurrence in the line (byte columns, its ends included).
pub open spec fn task_reference_spec(text: Seq<char>, line: nat, col: nat) -> Option<Seq<char>> {
    match line_at_spec(text, line) {
        None => None,
        Some(l) => {
            let t = trim_start(l);
            if !starts_with(t, "@task "@) {
                None
            } else {
                let ws = ws_words(t.skip(6));
                if ws.len() == 0 {
                    None
                } else {
                    let name = ws[0];
                    match find_sub(t, name) {
                        None => None,
                        Some(i) => {
                            let start = utf8_len(l.take(l.len() - t.len())) + utf8_len(t.take(i as int));
                            let end = start + utf8_len(name);
                            let cursor = utf8_len(l.take(utf16_col_index(l, col) as int));
                            if start <= cursor && cursor <= end {
                                Some(name)
                            } else {
                                None
                            }
                        },
                    }
                }
            }
        },
    }
}

/// What completions fit where the cursor stands.
#[derive(Clone, Copy, Debug, PartialEq, Eq, Structural)]
pub enum CompletionKind {
    Tasks,
    Variables,
    Directives,
}

/// Tasks after `@task `, variables after a `$`, else directives; the text
/// before the cursor decides.
pub open spec fn completion_kind_spec(text: Seq<char>, line: nat, col: nat) -> CompletionKind {
    let l = match line_at_spec(text, line) {
        Some(l) => l,
        None => seq![],
    };
    let prefix = l.take(utf16_col_index(l, col) as int);
    if starts_with(trim_start(prefix), "@task "@) {
        CompletionKind::Tasks
    } else if prefix.contains('$') {
        CompletionKind::Variables
    } else {
        CompletionKind::Directives
    }
}

/// The hover text of the directive under the cursor (with or without its
/// `@`): its name and what it does.
pub open spec fn hover_spec(text: Seq<char>, line: nat, col: nat) -> Option<Seq<char>> {
    match word_at_spec(text, line, col) {
        None => None,
        Some(w) => {
            let d = if w.len() > 0 && w[0] == '@' {
                w.drop_first()
            } else {
                w
            };
            match directive_spec(d) {
                Some((desc, _)) => Some("`@"@ + d + "`\n\n"@ + desc),
                None => None,
            }
        },
    }
}

/// The position of the task with a name.
pub open spec fn task_position(tasks: Seq<TaskDefModel>, name: Seq<char>) -> Option<int>
    decreases tasks.len(),
{
    if tasks.len() == 0 {
        None
    } else if tasks.last().name == name {
        match task_position(tasks.drop_last(), name) {
            Some(i) => Some(i),
            None => Some(tasks.len() - 1),
        }
    } else {
        task_position(tasks.drop_last(), name)
    }
}

/// The task that the `@task` reference under the cursor names.
pub open spec fn definition_spec(tasks: Seq<TaskDefModel>, text: Seq<char>, line: nat, col: nat) -> Option<
    int,
> {
    match task_reference_spec(text, line, col) {
        Some(n) => task_position(tasks, n),
        None => None,
    }
}

proof fn lemma_text_lines_fold_len(s: Seq<char>)
    ensures
        forall|k: int|
            0 <= k < text_lines_fold_of(s).len() ==> #[trigger] text_lines_fold_of(s)[k].len() <= s.len(),
        crate::help_output::text_lines_fold(s).1.len() <= s.len(),
    decreases s.len(),
{
    if s.len() > 0 {
        lemma_text_lines_fold_len(s.drop_last());
        let done = text_lines_fold_of(s.drop_last());
        assert forall|k: int| 0 <= k < text_lines_fold_of(s).len() implies #[trigger] text_lines_fold_of(s)[k].len() <= s.len() by {
            if k < done.len() {
                assert(text_lines_fold_of(s)[k] == done[k]);
            }
        }
    }
}

spec fn text_lines_fold_of(s: Seq<char>) -> Seq<Seq<char>> {
    crate::help_output::text_lines_fold(s).0
}

/// No line of a text is longer than the text.
pub proof fn lemma_text_lines_len(s: Seq<char>)
    ensures
        forall|k: int| 0 <= k < text_lines(s).len() ==> #[trigger] text_lines(s)[k].len() <= s.len(),
{
    lemma_text_lines_fold_len(s);
    let done = text_lines_fold_of(s);
    assert forall|k: int| 0 <= k < text_lines(s).len() implies #[trigger] text_lines(s)[k].len() <= s.len() by {
        if k < done.len() {
            assert(text_lines(s)[k] == done[k]);
        }
    }
}

/// The line of a text at a position (from zero).
pub fn line_at(text: &str, n: usize) -> (r: Option<Vec<char>>)
    ensures
        match r {
            Some(l) => line_at_spec(text@, n as nat) == Some(l@) && l.len() <= text@.len(),
            None => line_at_spec(text@, n as nat) is None,
        },
{
    let chars = str_chars(text);
    let lines = text_lines_exec(&chars);
    proof {
        lemma_text_lines_len(chars@);
    }
    if n < lines.len() {
        assert(lines_view(lines@)[n as int] == lines@[n as int]@);
        Some(lines[n].clone())
    } else {
        None
    }
}

/// The char that a UTF-16 column points at.
pub fn char_index_for_utf16_col(line: &Vec<char>, col: usize) -> (p: usize)
    requires
        line.len() <= usize::MAX / 4,
    ensures
        p as nat == utf16_col_index(line@, col as nat),
        p <= line.len(),
{
    let mut i: usize = 0;
    let mut units: usize = 0;
    while i < line.len()
        invariant
            i <= line.len(),
            line.len() <= usize::MAX / 4,
            units <= 2 * i,
            col_index_from(line@, col as nat, 0, 0) == col_index_from(line@, col as nat, i as nat, units as nat),
        decreases line.len() - i,
    {
        if units >= col {
            return i;
        }
        let u = line[i] as u32;
        let w: usize = if u >= 0x10000 {
            2
        } else {
            1
        };
        units = units + w;
        i = i + 1;
    }
    line.len()
}

fn char_is_word(c: char) -> (b: bool)
    ensures
        b == is_word_char(c),
{
    c == '@' || c == ':' || c == '-' || c == '_' || char_is_ascii_alnum(c)
}

/// The word around a position (`line` from zero, `character` in UTF-16
/// units).
pub fn word_at(text: &str, line: usize, character: usize) -> (r: Option<Vec<char>>)
    requires
        text@.len() <= usize::MAX / 16,
    ensures
        match r {
            Some(w) => word_at_spec(text@, line as nat, character as nat) == Some(w@),
            None => word_at_spec(text@, line as nat, character as nat) is None,
        },
{
    let l = match line_at(text, line) {
        Some(l) => l,
        None => return None,
    };
    let p = char_index_for_utf16_col(&l, character);
    let mut a = p;
    while a > 0 && char_is_word(l[a - 1])
        invariant
            a <= p <= l.len(),
            word_left(l@, p as nat) == word_left(l@, a as nat),
        decreases a,
    {
        a = a - 1;
    }
    let mut b = p;
    while b < l.len() && char_is_word(l[b])
        invariant
            p <= b <= l.len(),
            word_right(l@, p as nat) == word_right(l@, b as nat),
        decreases l.len() - b,
    {
        b = b + 1;
    }
    if a < b {
        Some(subvec(&l, a, b))
    } else {
        None
    }
}

fn find_sub_exec(s: &Vec<char>, p: &Vec<char>) -> (r: Option<usize>)
    requires
        s.len() <= usize::MAX / 2,
    ensures
        match r {
            Some(i) => find_sub(s@, p@) == Some(i as nat) && i + p.len() <= s.len(),
            None => find_sub(s@, p@) is None,
        },
{
    if p.len() > s.len() {
        return None;
    }
    let mut i: usize = 0;
    while i + p.len() <= s.len()
        invariant
            i + p.len() <= s.len() + 1,
            p.len() <= s.len(),
            s.len() <= usize::MAX / 2,
            find_sub(s@, p@) == find_sub_from(s@, p@, i as nat),
        decreases s.len() + 1 - i,
    {
        let piece = subvec(s, i, i + p.len());
        if chars_eq(&piece, p) {
            assert(s@.subrange(i as int, (i + p.len()) as int) == p@);
            return Some(i);
        }
        i = i + 1;
    }
    None
}

/// The task named by the `@task` reference under the cursor.
pub fn task_reference_at(text: &str, line: usize, character: usize) -> (r: Option<Vec<char>>)
    requires
        text@.len() <= usize::MAX / 16,
    ensures
        match r {
            Some(n) => task_reference_spec(text@, line as nat, character as nat) == Some(n@),
            None => task_reference_spec(text@, line as nat, character as nat) is None,
        },
{
    let l = match line_at(text, line) {
        Some(l) => l,
        None => return None,
    };
    let t = chars_trim_start(&l);
    if !chars_starts_with_str(&t, "@task ") {
        return None;
    }
    proof {
        reveal_strlit("@task ");
        crate::lsp_analysis::lemma_trim_start_len(l@);
    }
    let rest = subvec(&t, 6, t.len());
    let ws = split_whitespace(&rest);
    if ws.len() == 0 {
        return None;
    }
    assert(ws_words(t@.skip(6))[0] == ws@[0]@) by {
        assert(rest@ =~= t@.skip(6));
    }
    let name = ws[0].clone();
    match find_sub_exec(&t, &name) {
        None => None,
        Some(i) => {
            let lead = subvec(&l, 0, l.len() - t.len());
            let before = subvec(&t, 0, i);
            let start = utf8_width(&lead) + utf8_width(&before);
            let end = start + utf8_width(&name);
            let p = char_index_for_utf16_col(&l, character);
            let upto = subvec(&l, 0, p);
            let cursor = utf8_width(&upto);
            if start <= cursor && cursor <= end {
                Some(name)
            } else {
                None
            }
        },
    }
}

/// What completions fit where the cursor stands.
pub fn completion_kind(text: &str, line: usize, character: usize) -> (r: CompletionKind)
    requires
        text@.len() <= usize::MAX / 16,
    ensures
        r == completion_kind_spec(text@, line as nat, character as nat),
{
    let l = match line_at(text, line) {
        Some(l) => l,
        None => Vec::new(),
    };
    assert(l@ == match line_at_spec(text@, line as nat) {
        Some(x) => x,
        None => seq![],
    });
    let p = char_index_for_utf16_col(&l, character);
    let prefix = subvec(&l, 0, p);
    let t = chars_trim_start(&prefix);
    if chars_starts_with_str(&t, "@task ") {
        CompletionKind::Tasks
    } else if chars_contains(&prefix, '$') {
        CompletionKind::Variables
    } else {
        CompletionKind::Directives
    }
}

/// The hover text of the directive under the cursor.
pub fn hover_text(text: &str, line: usize, character: usize) -> (r: Option<Vec<char>>)
    requires
        text@.len() <= usize::MAX / 16,
    ensures
        match r {
            Some(h) => hover_spec(text@, line as nat, character as nat) == Some(h@),
            None => hover_spec(text@, line as nat, character as nat) is None,
        },
{
    let w = match word_at(text, line, character) {
        Some(w) => w,
        None => return None,
    };
    let d = if w.len() > 0 && w[0] == '@' {
        subvec(&w, 1, w.len())
    } else {
        w.clone()
    };
    assert(d@ == (if w@.len() > 0 && w@[0] == '@' {
        w@.drop_first()
    } else {
        w@
    }));
    match directive(&d) {
        Some(info) => {
            let mut h = str_chars("`@");
            append(&mut h, &d);
            append_str(&mut h, "`\n\n");
            append_str(&mut h, info.description);
            Some(h)
        },
        None => None,
    }
}

fn task_position_exec(tasks: &Vec<LspTask>, name: &Vec<char>) -> (r: Option<usize>)
    ensures
        match r {
            Some(i) => task_position(lsp_task_views(tasks@), name@) == Some(i as int) && i
                < tasks@.len(),
            None => task_position(lsp_task_views(tasks@), name@) is None,
        },
{
    let ghost ts = lsp_task_views(tasks@);
    let mut i: usize = 0;
    while i < tasks.len()
        invariant
            i <= tasks.len(),
            ts == lsp_task_views(tasks@),
            task_position(ts.take(i as int), name@) is None,
        decreases tasks.len() - i,
    {
        assert(ts.take(i + 1).drop_last() =~= ts.take(i as int));
        assert(ts.take(i + 1).last() == tasks@[i as int]@);
        if chars_eq(&tasks[i].name, name) {
            proof {
                lemma_task_position_prefix(ts, name@, i + 1);
            }
            return Some(i);
        }
        i = i + 1;
    }
    assert(ts.take(tasks.len() as int) =~= ts);
    None
}

proof fn lemma_task_position_prefix(ts: Seq<TaskDefModel>, name: Seq<char>, j: int)
    requires
        0 <= j <= ts.len(),
        task_position(ts.take(j), name) is Some,
    ensures
        task_position(ts, name) == task_position(ts.take(j), name),
    decreases ts.len() - j,
{
    if j < ts.len() {
        assert(ts.take(j + 1).drop_last() =~= ts.take(j));
        lemma_task_position_prefix(ts, name, j + 1);
    } else {
        assert(ts.take(j) =~= ts);
    }
}

/// The task that the `@task` reference under the cursor names.
pub fn definition_index(a: &Analysis, text: &str, line: usize, character: usize) -> (r: Option<usize>)
    requires
        text@.len() <= usize::MAX / 16,
    ensures
        match r {
            Some(i) => definition_spec(a@.tasks, text@, line as nat, character as nat) == Some(i as int),
            None => definition_spec(a@.tasks, text@, line as nat, character as nat) is None,
        },
{
    match task_reference_at(text, line, character) {
        Some(n) => task_position_exec(&a.tasks, &n),
        None => None,
    }
}

fn last_colon_exec(s: &Vec<char>) -> (r: Option<usize>)
    ensures
        match r {
            Some(i) => last_colon(s@) == Some(i as int) && i < s.len(),
            None => last_colon(s@) is None,
        },
{
    let mut n = s.len();
    assert(s@.take(n as int) =~= s@);
    while n > 0
        invariant
            n <= s.len(),
            last_colon(s@) == last_colon(s@.take(n as int)),
        decreases n,
    {
        if s[n - 1] == ':' {
            return Some(n - 1);
        }
        assert(s@.take(n as int).drop_last() =~= s@.take(n - 1));
        n = n - 1;
    }
    None
}

fn task_parent_exec(name: &Vec<char>) -> (r: Option<Vec<char>>)
    ensures
        match r {
            Some(p) => task_parent(name@) == Some(p@),
            None => task_parent(name@) is None,
        },
{
    match last_colon_exec(name) {
        Some(i) => Some(subvec(name, 0, i)),
        None => None,
    }
}

fn has_task_named_exec(tasks: &Vec<LspTask>, name: &Vec<char>) -> (b: bool)
    ensures
        b == has_task_named(lsp_task_views(tasks@), name@),
{
    let mut i: usize = 0;
    while i < tasks.len()
        invariant
            i <= tasks.len(),
            forall|j: int| 0 <= j < i ==> #[trigger] tasks@[j].name@ != name@,
        decreases tasks.len() - i,
    {
        if chars_eq(&tasks[i].name, name) {
            assert(lsp_task_views(tasks@)[i as int].name == name@);
            return true;
        }
        i = i + 1;
    }
    assert(!has_task_named(lsp_task_views(tasks@), name@)) by {
        if has_task_named(lsp_task_views(tasks@), name@) {
            let j = choose|j: int|
                0 <= j < lsp_task_views(tasks@).len() && #[trigger] lsp_task_views(tasks@)[j].name
                    == name@;
            assert(tasks@[j].name@ == name@);
        }
    }
    false
}

pub open spec fn opt_view(o: Option<&Vec<char>>) -> Option<Seq<char>> {
    match o {
        Some(v) => Some(v@),
        None => None,
    }
}

fn direct_child_exec(tasks: &Vec<LspTask>, name: &Vec<char>, parent: Option<&Vec<char>>) -> (b: bool)
    ensures
        b == direct_child(lsp_task_views(tasks@), name@, opt_view(parent)),
{
    match (task_parent_exec(name), parent) {
        (None, None) => true,
        (Some(p), None) => !has_task_named_exec(tasks, &p),
        (Some(p), Some(q)) => chars_eq(&p, q),
        (None, Some(_)) => false,
    }
}

fn outline_members_exec(tasks: &Vec<LspTask>, parent: Option<&Vec<char>>) -> (r: Vec<usize>)
    ensures
        r@.map_values(|i: usize| i as int) == outline_members(
            lsp_task_views(tasks@),
            opt_view(parent),
            tasks@.len() as int,
        ),
        forall|j: int| 0 <= j < r@.len() ==> #[trigger] r@[j] < tasks@.len(),
{
    let ghost ts = lsp_task_views(tasks@);
    let mut r: Vec<usize> = Vec::new();
    let mut n: usize = 0;
    assert(r@.map_values(|i: usize| i as int) =~= seq![]);
    while n < tasks.len()
        invariant
            n <= tasks.len(),
            ts == lsp_task_views(tasks@),
            r@.map_values(|i: usize| i as int) == outline_members(ts, opt_view(parent), n as int),
            forall|j: int| 0 <= j < r@.len() ==> #[trigger] r@[j] < tasks@.len(),
        decreases tasks.len() - n,
    {
        assert(ts[n as int].name == tasks@[n as int].name@);
        if direct_child_exec(tasks, &tasks[n].name, parent) {
            let ghost before = r@.map_values(|i: usize| i as int);
            r.push(n);
            assert(r@.map_values(|i: usize| i as int) =~= before.push(n as int));
        }
        n = n + 1;
    }
    r
}

pub open spec fn outline_view(r: Seq<(usize, Vec<usize>)>) -> Seq<(int, Seq<int>)> {
    r.map_values(|e: (usize, Vec<usize>)| (e.0 as int, e.1@.map_values(|i: usize| i as int)))
}

/// The outline of the tasks: each top entry (a task index) with the task
/// indices under it, in the order of declaration.
pub fn document_outline(a: &Analysis) -> (r: Vec<(usize, Vec<usize>)>)
    ensures
        outline_view(r@) == outline_spec(a@.tasks),
{
    let ghost ts = a@.tasks;
    let top = outline_members_exec(&a.tasks, None);
    let mut r: Vec<(usize, Vec<usize>)> = Vec::new();
    let mut k: usize = 0;
    let ghost tops = top@.map_values(|i: usize| i as int);
    assert(outline_view(r@) =~= seq![]);
    while k < top.len()
        invariant
            k <= top.len(),
            ts == a@.tasks,
            tops == top@.map_values(|i: usize| i as int),
            tops == outline_members(ts, None, ts.len() as int),
            forall|j: int| 0 <= j < top@.len() ==> #[trigger] top@[j] < a.tasks@.len(),
            outline_view(r@) == tops.take(k as int).map_values(
                |i: int| (i, outline_members(ts, Some(ts[i].name), ts.len() as int)),
            ),
        decreases top.len() - k,
    {
        let i = top[k];
        assert(ts[i as int].name == a.tasks@[i as int].name@);
        let kids = outline_members_exec(&a.tasks, Some(&a.tasks[i].name));
        let ghost before = outline_view(r@);
        r.push((i, kids));
        assert(outline_view(r@) =~= before.push(
            (i as int, outline_members(ts, Some(ts[i as int].name), ts.len() as int)),
        ));
        assert(tops.take(k + 1) =~= tops.take(k as int).push(i as int));
        k = k + 1;
    }
    assert(tops.take(top.len() as int) =~= tops);
    r
}

/// What the outline shows beside a task.
pub fn symbol_detail(t: &LspTask) -> (r: Vec<char>)
    ensures
        r@ == symbol_detail_spec(t@),
{
    match &t.description {
        Some(d) => d.clone(),
        None => {
            if t.arguments.len() == 0 {
                str_chars("task")
            } else {
                let ghost args = seq_views(t.arguments@);
                let mut r = str_chars("(");
                let mut joined: Vec<char> = Vec::new();
                let mut k: usize = 0;
                assert(args.take(0) =~= seq![]);
                while k < t.arguments.len()
                    invariant
                        k <= t.arguments.len(),
                        args == seq_views(t.arguments@),
                        joined@ == join_comma(args.take(k as int)),
                    decreases t.arguments.len() - k,
                {
                    assert(args.take(k + 1).drop_last() =~= args.take(k as int));
                    assert(args[k as int] == t.arguments@[k as int]@);
                    if k > 0 {
                        append_str(&mut joined, ", ");
                    } else {
                        assert(args.take(1) =~= seq![args[0]]);
                    }
                    append(&mut joined, &t.arguments[k]);
                    k = k + 1;
                }
                assert(args.take(t.arguments.len() as int) =~= args);
                append(&mut r, &joined);
                append_str(&mut r, ")");
                r
            }
        },
    }
}

impl Analysis {
    /// The names of the tasks, in the order declared.
    pub fn task_order(&self) -> (r: Vec<String>)
        ensures
            r@.map_values(|x: String| x@) == self@.tasks.map_values(|t: TaskDefModel| t.name),
    {
        let mut r: Vec<String> = Vec::new();
        let mut i: usize = 0;
        while i < self.tasks.len()
            invariant
                i <= self.tasks.len(),
                r@.map_values(|x: String| x@) == self@.tasks.take(i as int).map_values(
                    |t: TaskDefModel| t.name,
                ),
            decreases self.tasks.len() - i,
        {
            let ghost before = r@.map_values(|x: String| x@);
            let ghost ts = self@.tasks;
            let n = crate::text::string_from(&self.tasks[i].name);
            r.push(n);
            assert(ts[i as int] == self.tasks@[i as int]@);
            assert(r@.map_values(|x: String| x@) =~= before.push(ts[i as int].name));
            assert(ts.take(i + 1) =~= ts.take(i as int).push(ts[i as int]));
            assert(ts.take(i + 1).map_values(|t: TaskDefModel| t.name) =~= ts.take(i as int).map_values(
                |t: TaskDefModel| t.name,
            ).push(ts[i as int].name));
            i = i + 1;
        }
        assert(self@.tasks.take(self.tasks.len() as int) =~= self@.tasks);
        r
    }

    /// The name of the task at a position.
    pub fn task_name(&self, i: usize) -> (r: String)
        requires
            i < self@.tasks.len(),
        ensures
            r@ == self@.tasks[i as int].name,
    {
        crate::text::string_from(&self.tasks[i].name)
    }

    /// Whether a task of that name was declared.
    pub fn has_task(&self, name: &str) -> (b: bool)
        ensures
            b == has_task_named(self@.tasks, name@),
    {
        let n = str_chars(name);
        has_task_named_exec(&self.tasks, &n)
    }

    /// The description of the task of that name.
    pub fn task_description(&self, name: &str) -> (r: Option<String>)
        ensures
            match task_position(self@.tasks, name@) {
                Some(i) => match self@.tasks[i].description {
                    Some(d) => r matches Some(s) && s@ == d,
                    None => r is None,
                },
                None => r is None,
            },
    {
        let n = str_chars(name);
        match task_position_exec(&self.tasks, &n) {
            Some(i) => {
                assert(self@.tasks[i as int] == self.tasks@[i as int]@);
                match &self.tasks[i].description {
                    Some(d) => Some(crate::text::string_from(d)),
                    None => None,
                }
            },
            None => None,
        }
    }

    /// Whether the file names that variable.
    pub fn has_variable(&self, name: &str) -> (b: bool)
        ensures
            b == self@.variables.contains(name@),
    {
        let n = str_chars(name);
        let mut i: usize = 0;
        while i < self.variables.len()
            invariant
                i <= self.variables.len(),
                forall|j: int| 0 <= j < i ==> #[trigger] self.variables@[j]@ != n@,
                n@ == name@,
            decreases self.variables.len() - i,
        {
            if chars_eq(&self.variables[i], &n) {
                assert(self@.variables[i as int] == self.variables@[i as int]@);
                assert(self@.variables[i as int] == name@);
                assert(0 <= i < self@.variables.len());
                return true;
            }
            i = i + 1;
        }
        assert(!self@.variables.contains(n@)) by {
            if self@.variables.contains(n@) {
                let j = choose|j: int| 0 <= j < self@.variables.len() && self@.variables[j] == n@;
                assert(self.variables@[j]@ == n@);
            }
        }
        false
    }

    /// The messages of the diagnostics, in the order found.
    pub fn messages(&self) -> (r: Vec<String>)
        ensures
            r@.map_values(|x: String| x@) == self@.diagnostics.map_values(|d: crate::lsp_analysis::DiagModel| d.message),
    {
        let mut r: Vec<String> = Vec::new();
        let mut i: usize = 0;
        while i < self.diagnostics.len()
            invariant
                i <= self.diagnostics.len(),
                r@.map_values(|x: String| x@) == self@.diagnostics.take(i as int).map_values(
                    |d: crate::lsp_analysis::DiagModel| d.message,
                ),
            decreases self.diagnostics.len() - i,
        {
            let ghost before = r@.map_values(|x: String| x@);
            let ghost ds = self@.diagnostics;
            let m = crate::text::string_from(&self.diagnostics[i].message);
            r.push(m);
            assert(ds[i as int] == self.diagnostics@[i as int]@);
            assert(r@.map_values(|x: String| x@) =~= before.push(ds[i as int].message));
            assert(ds.take(i + 1) =~= ds.take(i as int).push(ds[i as int]));
            assert(ds.take(i + 1).map_values(|d: crate::lsp_analysis::DiagModel| d.message) =~= ds.take(
                i as int,
            ).map_values(|d: crate::lsp_analysis::DiagModel| d.message).push(ds[i as int].message));
            i = i + 1;
        }
        assert(self@.diagnostics.take(self.diagnostics.len() as int) =~= self@.diagnostics);
        r
    }
}

} // verus!
