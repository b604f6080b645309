//! The task listing, the top-level help and the help of one task.
use vstd::prelude::*;

use crate::error::CjError;
use crate::formatter::{join_commas, spaces};
use crate::names::{colon_count, split_chars, split_on};
use crate::task_file::{opt_chars, FileModel, TaskFile, TaskModel};
use crate::task_header::{wrap, wrap_msg};
use crate::text::{append, append_str, chars_eq, chars_starts_with, starts_with, str_chars};

verus! {

/// How a piece of output is colored.
#[derive(Clone, Copy, Debug, PartialEq, Eq, Structural)]
pub enum Style {
    Header,
    Section,
    Task,
    Directive,
    Description,
    SummaryDescription,
}

pub open spec fn style_code(s: Style) -> Seq<char> {
    match s {
        Style::Header => "1;36"@,
        Style::Section => "1;33"@,
        Style::Task => "1;32"@,
        Style::Directive => "36"@,
        Style::Description => "2"@,
        Style::SummaryDescription => "36"@,
    }
}

/// The value wrapped in the style's terminal color, or as it is without color.
pub open spec fn paint_spec(value: Seq<char>, style: Style, color: bool) -> Seq<char> {
    if color {
        "\x1b["@ + style_code(style) + "m"@ + value + "\x1b[0m"@
    } else {
        value
    }
}

pub fn paint(value: &Vec<char>, style: Style, color: bool) -> (r: Vec<char>)
    ensures
        r@ == paint_spec(value@, style, color),
{
    if !color {
        return value.clone();
    }
    let code = match style {
        Style::Header => "1;36",
        Style::Section => "1;33",
        Style::Task => "1;32",
        Style::Directive => "36",
        Style::Description => "2",
        Style::SummaryDescription => "36",
    };
    let mut r = str_chars("\x1b[");
    append_str(&mut r, code);
    append_str(&mut r, "m");
    append(&mut r, value);
    append_str(&mut r, "\x1b[0m");
    r
}

pub open spec fn dollar_args(args: Seq<Seq<char>>) -> Seq<Seq<char>> {
    args.map_values(|a: Seq<char>| "$"@ + a)
}

/// `name`, or `name ($A, $B)` for a task with arguments.
pub open spec fn signature(t: TaskModel) -> Seq<char> {
    if t.arguments.len() == 0 {
        t.name
    } else {
        t.name + " ("@ + join_commas(dollar_args(t.arguments)) + ")"@
    }
}

/// The indentation of a task in listings: one level, plus one for a group.
pub open spec fn depth_indent(name: Seq<char>) -> Seq<char> {
    spaces(2 * (colon_count(name) + 1))
}

pub open spec fn label(t: TaskModel) -> Seq<char> {
    depth_indent(t.name) + signature(t)
}

pub open spec fn pad(l: Seq<char>, width: nat) -> Seq<char> {
    if width > l.len() {
        spaces((width - l.len()) as nat)
    } else {
        seq![]
    }
}

/// One row of a listing: `+` for a task with help, its signature, and its
/// description in a column.
pub open spec fn row(t: TaskModel, width: nat, color: bool) -> Seq<char> {
    let marker = if t.help is Some {
        "+"@
    } else {
        " "@
    };
    let head = marker + depth_indent(t.name) + paint_spec(signature(t), Style::Task, color);
    match t.description {
        Some(d) => head + pad(label(t), width) + "  "@ + paint_spec(d, Style::SummaryDescription, color),
        None => head,
    }
}

pub open spec fn max_label(tasks: Seq<TaskModel>, idx: Seq<int>) -> nat
    decreases idx.len(),
{
    if idx.len() == 0 {
        0
    } else {
        let m = max_label(tasks, idx.drop_last());
        let l = label(tasks[idx.last()]).len();
        if l > m {
            l
        } else {
            m
        }
    }
}

pub open spec fn rows(tasks: Seq<TaskModel>, idx: Seq<int>, color: bool) -> Seq<Seq<char>> {
    idx.map_values(|i: int| row(tasks[i], max_label(tasks, idx), color))
}

/// A task shows in the listing unless a part of its name starts with `_`.
pub open spec fn summary_visible(name: Seq<char>) -> bool {
    forall|k: int|
        0 <= k < split_on(name, ':').len() ==> !(#[trigger] split_on(name, ':')[k].len() > 0
            && split_on(name, ':')[k][0] == '_')
}

pub open spec fn visible_tasks(tasks: Seq<TaskModel>, n: int) -> Seq<int>
    decreases n,
{
    if n <= 0 {
        seq![]
    } else if summary_visible(tasks[n - 1].name) {
        visible_tasks(tasks, n - 1).push(n - 1)
    } else {
        visible_tasks(tasks, n - 1)
    }
}

/// The tasks one group level below `name`.
pub open spec fn is_child(name: Seq<char>, task: Seq<char>) -> bool {
    let prefix = name + ":"@;
    starts_with(task, prefix) && task.len() > prefix.len() && !task.skip(prefix.len() as int).contains(
        ':',
    )
}

pub open spec fn children(tasks: Seq<TaskModel>, name: Seq<char>, n: int) -> Seq<int>
    decreases n,
{
    if n <= 0 {
        seq![]
    } else if is_child(name, tasks[n - 1].name) {
        children(tasks, name, n - 1).push(n - 1)
    } else {
        children(tasks, name, n - 1)
    }
}

pub open spec fn legend_text() -> Seq<char> {
    "commands with a + have help\nrun `cj help <task>` to view it"@
}

pub open spec fn any_help(tasks: Seq<TaskModel>, idx: Seq<int>) -> bool {
    exists|k: int| 0 <= k < idx.len() && (#[trigger] tasks[idx[k]]).help is Some
}

/// A blank line before a new part, unless the text so far ends in one.
pub open spec fn separate(lines: Seq<Seq<char>>) -> Seq<Seq<char>> {
    if lines.len() > 0 && lines.last().len() > 0 {
        lines.push(seq![])
    } else {
        lines
    }
}

/// The legend under a listing where some task has help.
pub open spec fn with_legend(lines: Seq<Seq<char>>, tasks: Seq<TaskModel>, idx: Seq<int>, color: bool) -> Seq<
    Seq<char>,
> {
    if any_help(tasks, idx) {
        separate(lines).push(
            paint_spec("+"@, Style::Task, color) + " "@ + paint_spec(
                legend_text(),
                Style::SummaryDescription,
                color,
            ),
        )
    } else {
        lines
    }
}

pub open spec fn listing_lines(file: FileModel, path: Seq<char>, color: bool) -> Seq<Seq<char>> {
    let vis = visible_tasks(file.tasks, file.tasks.len() as int);
    seq![paint_spec("Tasks in "@ + path + ":"@, Style::Section, color)] + rows(file.tasks, vis, color)
}

/// Lines joined with newlines.
pub open spec fn join_lines(lines: Seq<Seq<char>>) -> Seq<char>
    decreases lines.len(),
{
    if lines.len() == 0 {
        seq![]
    } else if lines.len() == 1 {
        lines[0]
    } else {
        join_lines(lines.drop_last()) + "\n"@ + lines.last()
    }
}

/// The lines of a text as `str::lines` gives them.
pub open spec fn text_lines_fold(s: Seq<char>) -> (Seq<Seq<char>>, Seq<char>)
    decreases s.len(),
{
    if s.len() == 0 {
        (seq![], seq![])
    } else {
        let (done, cur) = text_lines_fold(s.drop_last());
        if s.last() == '\n' {
            (done.push(if cur.len() > 0 && cur.last() == '\r' { cur.drop_last() } else { cur }), seq![])
        } else {
            (done, cur.push(s.last()))
        }
    }
}

pub open spec fn text_lines(s: Seq<char>) -> Seq<Seq<char>> {
    let (done, cur) = text_lines_fold(s);
    if cur.len() > 0 {
        done.push(if cur.last() == '\r' { cur.drop_last() } else { cur })
    } else {
        done
    }
}

/// The task listing (what `cj` prints without a task).
pub open spec fn task_listing_spec(file: FileModel, path: Seq<char>, color: bool) -> Seq<char> {
    let vis = visible_tasks(file.tasks, file.tasks.len() as int);
    join_lines(with_legend(listing_lines(file, path, color), file.tasks, vis, color))
}

/// The top-level help: the `@help:` text, then the listing.
pub open spec fn top_help_spec(file: FileModel, path: Seq<char>, color: bool) -> Seq<char> {
    let vis = visible_tasks(file.tasks, file.tasks.len() as int);
    let head = match file.help {
        Some(h) => separate(text_lines(h)),
        None => seq![],
    };
    join_lines(with_legend(head + listing_lines(file, path, color), file.tasks, vis, color))
}

pub open spec fn no_help_text(name: Seq<char>, path: Seq<char>) -> Seq<char> {
    wrap("no help section '"@, name, "' found in "@) + path
}

pub open spec fn find_index(tasks: Seq<TaskModel>, name: Seq<char>) -> Option<int> {
    crate::task_file::find_task(tasks, name)
}

/// The help of one task: its signature, description and `@help:` text,
/// then its child tasks.
pub open spec fn task_help_spec(file: FileModel, name: Seq<char>, path: Seq<char>, color: bool) -> Result<
    Seq<char>,
    Seq<char>,
> {
    match find_index(file.tasks, name) {
        None => Err(no_help_text(name, path)),
        Some(i) => {
            let t = file.tasks[i];
            let kids = children(file.tasks, name, file.tasks.len() as int);
            if t.description is None && t.help is None && kids.len() == 0 {
                Err(no_help_text(name, path))
            } else {
                let l1 = seq![paint_spec(signature(t), Style::Task, color)];
                let l2 = match t.description {
                    Some(d) => l1.push("  "@ + paint_spec(d, Style::Description, color)),
                    None => l1,
                };
                let l3 = match t.help {
                    Some(b) => l2.push(seq![]) + text_lines(b),
                    None => l2,
                };
                let l4 = if kids.len() > 0 {
                    with_legend(
                        separate(l3).push(paint_spec("Tasks:"@, Style::Section, color)) + rows(
                            file.tasks,
                            kids,
                            color,
                        ),
                        file.tasks,
                        kids,
                        color,
                    )
                } else {
                    l3
                };
                Ok(join_lines(l4))
            }
        },
    }
}


pub open spec fn idx_view(v: Seq<usize>) -> Seq<int> {
    v.map_values(|i: usize| i as int)
}

pub open spec fn lines_view(v: Seq<Vec<char>>) -> Seq<Seq<char>> {
    v.map_values(|x: Vec<char>| x@)
}

fn push_spaces(out: &mut Vec<char>, n: usize)
    ensures
        final(out)@ == old(out)@ + spaces(n as nat),
{
    let ghost start = out@;
    let mut i: usize = 0;
    while i < n
        invariant
            i <= n,
            out@ == start + spaces(i as nat),
        decreases n - i,
    {
        out.push(' ');
        i = i + 1;
        assert(out@ =~= start + spaces(i as nat));
    }
}

/// Appends the listing indentation of a task name.
fn push_depth_indent(out: &mut Vec<char>, name: &Vec<char>)
    ensures
        final(out)@ == old(out)@ + depth_indent(name@),
{
    let ghost start = out@;
    out.push(' ');
    out.push(' ');
    let mut i: usize = 0;
    assert(name@.take(0) =~= seq![]);
    assert(out@ =~= start + spaces(2 * (colon_count(name@.take(0)) + 1)));
    while i < name.len()
        invariant
            i <= name.len(),
            out@ == start + spaces(2 * (colon_count(name@.take(i as int)) + 1)),
        decreases name.len() - i,
    {
        assert(name@.take(i + 1).drop_last() =~= name@.take(i as int));
        if name[i] == ':' {
            out.push(' ');
            out.push(' ');
        }
        i = i + 1;
        assert(out@ =~= start + spaces(2 * (colon_count(name@.take(i as int)) + 1)));
    }
    assert(name@.take(name.len() as int) =~= name@);
}

fn signature_exec(file: &TaskFile, t: usize) -> (r: Vec<char>)
    requires
        t < file@.tasks.len(),
    ensures
        r@ == signature(file@.tasks[t as int]),
{
    let mut r = file.task_name(t);
    let n = file.argument_count(t);
    if n == 0 {
        return r;
    }
    let ghost da = dollar_args(file@.tasks[t as int].arguments);
    append_str(&mut r, " (");
    let ghost prefix = r@;
    let mut k: usize = 0;
    assert(da.take(0) =~= seq![]);
    while k < n
        invariant
            t < file@.tasks.len(),
            n == file@.tasks[t as int].arguments.len(),
            da == dollar_args(file@.tasks[t as int].arguments),
            k <= n,
            r@ == prefix + join_commas(da.take(k as int)),
        decreases n - k,
    {
        if k > 0 {
            append_str(&mut r, ", ");
        }
        let a = file.argument(t, k);
        let mut piece = str_chars("$");
        append(&mut piece, &a);
        append(&mut r, &piece);
        assert(da[k as int] == piece@);
        assert(da.take(k + 1).drop_last() =~= da.take(k as int));
        if k == 0 {
            assert(da.take(1) =~= seq![da[0]]);
        }
        assert(r@ =~= prefix + join_commas(da.take(k + 1)));
        k = k + 1;
    }
    assert(da.take(n as int) =~= da);
    append_str(&mut r, ")");
    r
}

fn label_exec(file: &TaskFile, t: usize) -> (r: Vec<char>)
    requires
        t < file@.tasks.len(),
    ensures
        r@ == label(file@.tasks[t as int]),
{
    let name = file.task_name(t);
    let mut r: Vec<char> = Vec::new();
    push_depth_indent(&mut r, &name);
    let sig = signature_exec(file, t);
    append(&mut r, &sig);
    assert(r@ =~= label(file@.tasks[t as int]));
    r
}

fn row_exec(file: &TaskFile, t: usize, width: usize, color: bool) -> (r: Vec<char>)
    requires
        t < file@.tasks.len(),
    ensures
        r@ == row(file@.tasks[t as int], width as nat, color),
{
    let mut r = if file.help_of(t).is_some() {
        str_chars("+")
    } else {
        str_chars(" ")
    };
    let name = file.task_name(t);
    push_depth_indent(&mut r, &name);
    let sig = signature_exec(file, t);
    append(&mut r, &paint(&sig, Style::Task, color));
    match file.description_of(t) {
        Some(d) => {
            let l = label_exec(file, t);
            if width > l.len() {
                push_spaces(&mut r, width - l.len());
            }
            append_str(&mut r, "  ");
            append(&mut r, &paint(&d, Style::SummaryDescription, color));
            assert(r@ =~= row(file@.tasks[t as int], width as nat, color));
        },
        None => {
            assert(r@ =~= row(file@.tasks[t as int], width as nat, color));
        },
    }
    r
}

fn max_label_exec(file: &TaskFile, idx: &Vec<usize>) -> (r: usize)
    requires
        forall|k: int| 0 <= k < idx@.len() ==> #[trigger] idx@[k] < file@.tasks.len(),
    ensures
        r == max_label(file@.tasks, idx_view(idx@)),
{
    let ghost iv = idx_view(idx@);
    let mut m: usize = 0;
    let mut k: usize = 0;
    assert(iv.take(0) =~= seq![]);
    while k < idx.len()
        invariant
            k <= idx@.len(),
            iv == idx_view(idx@),
            forall|q: int| 0 <= q < idx@.len() ==> #[trigger] idx@[q] < file@.tasks.len(),
            m == max_label(file@.tasks, iv.take(k as int)),
        decreases idx@.len() - k,
    {
        let l = label_exec(file, idx[k]);
        assert(iv.take(k + 1).drop_last() =~= iv.take(k as int));
        assert(iv.take(k + 1).last() == idx@[k as int] as int);
        if l.len() > m {
            m = l.len();
        }
        k = k + 1;
    }
    assert(iv.take(idx@.len() as int) =~= iv);
    m
}

fn rows_exec(file: &TaskFile, idx: &Vec<usize>, color: bool) -> (r: Vec<Vec<char>>)
    requires
        forall|k: int| 0 <= k < idx@.len() ==> #[trigger] idx@[k] < file@.tasks.len(),
    ensures
        lines_view(r@) == rows(file@.tasks, idx_view(idx@), color),
{
    let width = max_label_exec(file, idx);
    let mut r: Vec<Vec<char>> = Vec::new();
    let mut k: usize = 0;
    while k < idx.len()
        invariant
            k <= idx@.len(),
            forall|q: int| 0 <= q < idx@.len() ==> #[trigger] idx@[q] < file@.tasks.len(),
            width == max_label(file@.tasks, idx_view(idx@)),
            r@.len() == k,
            forall|q: int|
                0 <= q < k ==> #[trigger] r@[q]@ == row(
                    file@.tasks[idx@[q] as int],
                    width as nat,
                    color,
                ),
        decreases idx@.len() - k,
    {
        r.push(row_exec(file, idx[k], width, color));
        k = k + 1;
    }
    assert(lines_view(r@) =~= rows(file@.tasks, idx_view(idx@), color));
    r
}

fn summary_visible_exec(name: &Vec<char>) -> (b: bool)
    ensures
        b == summary_visible(name@),
{
    let parts = split_chars(name, ':');
    let mut k: usize = 0;
    while k < parts.len()
        invariant
            k <= parts@.len(),
            parts@.len() == split_on(name@, ':').len(),
            forall|q: int| 0 <= q < parts@.len() ==> #[trigger] parts@[q]@ == split_on(name@, ':')[q],
            forall|q: int|
                0 <= q < k ==> !(#[trigger] split_on(name@, ':')[q].len() > 0 && split_on(name@, ':')[q][0]
                    == '_'),
        decreases parts@.len() - k,
    {
        if parts[k].len() > 0 && parts[k][0] == '_' {
            assert(split_on(name@, ':')[k as int].len() > 0);
            return false;
        }
        k = k + 1;
    }
    true
}

fn visible_exec(file: &TaskFile) -> (r: Vec<usize>)
    ensures
        idx_view(r@) == visible_tasks(file@.tasks, file@.tasks.len() as int),
        forall|k: int| 0 <= k < r@.len() ==> #[trigger] r@[k] < file@.tasks.len(),
{
    let n = file.task_count();
    let mut r: Vec<usize> = Vec::new();
    let mut t: usize = 0;
    assert(idx_view(r@) =~= seq![]);
    while t < n
        invariant
            n == file@.tasks.len(),
            t <= n,
            idx_view(r@) == visible_tasks(file@.tasks, t as int),
            forall|k: int| 0 <= k < r@.len() ==> #[trigger] r@[k] < t,
        decreases n - t,
    {
        let name = file.task_name(t);
        if summary_visible_exec(&name) {
            let ghost before = idx_view(r@);
            r.push(t);
            assert(idx_view(r@) =~= before.push(t as int));
        }
        t = t + 1;
    }
    r
}

fn is_child_exec(name: &Vec<char>, task: &Vec<char>) -> (b: bool)
    ensures
        b == is_child(name@, task@),
{
    let mut prefix = name.clone();
    prefix.push(':');
    assert(prefix@ =~= name@ + ":"@) by {
        reveal_strlit(":");
    }
    if !(chars_starts_with(task, &prefix) && task.len() > prefix.len()) {
        return false;
    }
    let rest = crate::text::subvec(task, prefix.len(), task.len());
    assert(rest@ =~= task@.skip(prefix@.len() as int));
    !crate::text::chars_contains(&rest, ':')
}

fn children_exec(file: &TaskFile, name: &Vec<char>) -> (r: Vec<usize>)
    ensures
        idx_view(r@) == children(file@.tasks, name@, file@.tasks.len() as int),
        forall|k: int| 0 <= k < r@.len() ==> #[trigger] r@[k] < file@.tasks.len(),
{
    let n = file.task_count();
    let mut r: Vec<usize> = Vec::new();
    let mut t: usize = 0;
    assert(idx_view(r@) =~= seq![]);
    while t < n
        invariant
            n == file@.tasks.len(),
            t <= n,
            idx_view(r@) == children(file@.tasks, name@, t as int),
            forall|k: int| 0 <= k < r@.len() ==> #[trigger] r@[k] < t,
        decreases n - t,
    {
        let tn = file.task_name(t);
        if is_child_exec(name, &tn) {
            let ghost before = idx_view(r@);
            r.push(t);
            assert(idx_view(r@) =~= before.push(t as int));
        }
        t = t + 1;
    }
    r
}

fn any_help_exec(file: &TaskFile, idx: &Vec<usize>) -> (b: bool)
    requires
        forall|k: int| 0 <= k < idx@.len() ==> #[trigger] idx@[k] < file@.tasks.len(),
    ensures
        b == any_help(file@.tasks, idx_view(idx@)),
{
    let ghost iv = idx_view(idx@);
    let mut k: usize = 0;
    while k < idx.len()
        invariant
            k <= idx@.len(),
            iv == idx_view(idx@),
            forall|q: int| 0 <= q < idx@.len() ==> #[trigger] idx@[q] < file@.tasks.len(),
            forall|q: int| 0 <= q < k ==> !((#[trigger] file@.tasks[iv[q]]).help is Some),
        decreases idx@.len() - k,
    {
        assert(iv[k as int] == idx@[k as int] as int);
        if file.help_of(idx[k]).is_some() {
            assert(file@.tasks[iv[k as int]].help is Some);
            return true;
        }
        k = k + 1;
    }
    false
}

fn separate_exec(lines: &mut Vec<Vec<char>>)
    ensures
        lines_view(final(lines)@) == separate(lines_view(old(lines)@)),
{
    let ghost before = lines_view(lines@);
    if lines.len() > 0 && lines[lines.len() - 1].len() > 0 {
        lines.push(Vec::new());
        assert(lines_view(lines@) =~= before.push(seq![]));
    }
}

fn with_legend_exec(lines: &mut Vec<Vec<char>>, file: &TaskFile, idx: &Vec<usize>, color: bool)
    requires
        forall|k: int| 0 <= k < idx@.len() ==> #[trigger] idx@[k] < file@.tasks.len(),
    ensures
        lines_view(final(lines)@) == with_legend(lines_view(old(lines)@), file@.tasks, idx_view(idx@), color),
{
    if any_help_exec(file, idx) {
        separate_exec(lines);
        let ghost before = lines_view(lines@);
        let mut l = paint(&str_chars("+"), Style::Task, color);
        append_str(&mut l, " ");
        append(
            &mut l,
            &paint(
                &str_chars("commands with a + have help\nrun `cj help <task>` to view it"),
                Style::SummaryDescription,
                color,
            ),
        );
        let ghost lv = l@;
        lines.push(l);
        assert(lines_view(lines@) =~= before.push(lv));
    }
}

fn join_lines_exec(lines: &Vec<Vec<char>>) -> (r: Vec<char>)
    ensures
        r@ == join_lines(lines_view(lines@)),
{
    let ghost lv = lines_view(lines@);
    let mut r: Vec<char> = Vec::new();
    let mut k: usize = 0;
    assert(lv.take(0) =~= seq![]);
    while k < lines.len()
        invariant
            k <= lines@.len(),
            lv == lines_view(lines@),
            r@ == join_lines(lv.take(k as int)),
        decreases lines@.len() - k,
    {
        if k > 0 {
            r.push('\n');
        }
        append(&mut r, &lines[k]);
        assert(lv.take(k + 1).drop_last() =~= lv.take(k as int));
        assert(lv[k as int] == lines@[k as int]@);
        if k == 0 {
            assert(lv.take(1) =~= seq![lv[0]]);
        }
        assert(r@ =~= join_lines(lv.take(k + 1))) by {
            reveal_strlit("\n");
        }
        k = k + 1;
    }
    assert(lv.take(lines@.len() as int) =~= lv);
    r
}

pub(crate) fn text_lines_exec(s: &Vec<char>) -> (r: Vec<Vec<char>>)
    ensures
        lines_view(r@) == text_lines(s@),
{
    let mut done: Vec<Vec<char>> = Vec::new();
    let mut cur: Vec<char> = Vec::new();
    let mut i: usize = 0;
    assert(lines_view(done@) =~= seq![]);
    assert(cur@ =~= seq![]);
    while i < s.len()
        invariant
            i <= s.len(),
            text_lines_fold(s@.take(i as int)) == (lines_view(done@), cur@),
        decreases s.len() - i,
    {
        assert(s@.take(i + 1).drop_last() =~= s@.take(i as int));
        if s[i] == '\n' {
            let ghost before = lines_view(done@);
            let mut line = cur;
            if line.len() > 0 && line[line.len() - 1] == '\r' {
                line.pop();
            }
            let ghost lv = line@;
            done.push(line);
            cur = Vec::new();
            assert(lines_view(done@) =~= before.push(lv));
            assert(cur@ =~= seq![]);
        } else {
            cur.push(s[i]);
        }
        i = i + 1;
    }
    assert(s@.take(s.len() as int) =~= s@);
    if cur.len() > 0 {
        let ghost before = lines_view(done@);
        let mut line = cur;
        if line[line.len() - 1] == '\r' {
            line.pop();
        }
        let ghost lv = line@;
        done.push(line);
        assert(lines_view(done@) =~= before.push(lv));
    }
    done
}

fn listing_lines_exec(file: &TaskFile, path: &Vec<char>, color: bool, vis: &Vec<usize>) -> (r: Vec<Vec<char>>)
    requires
        idx_view(vis@) == visible_tasks(file@.tasks, file@.tasks.len() as int),
        forall|k: int| 0 <= k < vis@.len() ==> #[trigger] vis@[k] < file@.tasks.len(),
    ensures
        lines_view(r@) == listing_lines(file@, path@, color),
{
    let mut head = str_chars("Tasks in ");
    append(&mut head, path);
    append_str(&mut head, ":");
    let mut r: Vec<Vec<char>> = Vec::new();
    let h = paint(&head, Style::Section, color);
    let ghost hv = h@;
    r.push(h);
    let body = rows_exec(file, vis, color);
    assert(lines_view(r@) =~= seq![hv]);
    append_lines(&mut r, body);
    r
}

/// The task listing that `cj` prints without a task; `path` is the
/// taskfile's display name, `color` whether to color the output.
pub fn format_task_listing(file: &TaskFile, path: &str, color: bool) -> (r: String)
    ensures
        r@ == task_listing_spec(file@, path@, color),
{
    let p = str_chars(path);
    let vis = visible_exec(file);
    let mut lines = listing_lines_exec(file, &p, color, &vis);
    with_legend_exec(&mut lines, file, &vis, color);
    crate::text::string_from(&join_lines_exec(&lines))
}

fn append_lines(out: &mut Vec<Vec<char>>, more: Vec<Vec<char>>)
    ensures
        lines_view(final(out)@) == lines_view(old(out)@) + lines_view(more@),
{
    let ghost before = out@;
    let ghost mv = more@;
    let mut more = more;
    out.append(&mut more);
    assert(lines_view(out@) =~= lines_view(before) + lines_view(mv));
}

/// The top-level help that `cj help` prints.
pub fn format_top_help(file: &TaskFile, path: &str, color: bool) -> (r: String)
    ensures
        r@ == top_help_spec(file@, path@, color),
{
    let p = str_chars(path);
    let vis = visible_exec(file);
    let mut lines: Vec<Vec<char>> = Vec::new();
    assert(lines_view(lines@) =~= seq![]);
    match file.top_help() {
        Some(h) => {
            lines = text_lines_exec(&h);
            separate_exec(&mut lines);
        },
        None => {},
    }
    let listing = listing_lines_exec(file, &p, color, &vis);
    append_lines(&mut lines, listing);
    with_legend_exec(&mut lines, file, &vis, color);
    crate::text::string_from(&join_lines_exec(&lines))
}

/// The help of the task called `name` that `cj help NAME` prints.
pub fn format_task_help(file: &TaskFile, name: &str, path: &str, color: bool) -> (r: Result<String, CjError>)
    ensures
        match r {
            Ok(s) => task_help_spec(file@, name@, path@, color) == Ok::<Seq<char>, Seq<char>>(s@),
            Err(e) => task_help_spec(file@, name@, path@, color) == Err::<Seq<char>, Seq<char>>(e@),
        },
{
    let n = str_chars(name);
    let p = str_chars(path);
    let t = match file.task_index(&n) {
        None => {
            let mut m = wrap_msg("no help section '", &n, "' found in ");
            append(&mut m, &p);
            return Err(CjError::new(&m));
        },
        Some(t) => t,
    };
    let kids = children_exec(file, &n);
    let desc = file.description_of(t);
    let body = file.help_of(t);
    if desc.is_none() && body.is_none() && kids.len() == 0 {
        let mut m = wrap_msg("no help section '", &n, "' found in ");
        append(&mut m, &p);
        return Err(CjError::new(&m));
    }
    let ghost tm = file@.tasks[t as int];
    let ghost kv = children(file@.tasks, n@, file@.tasks.len() as int);
    let mut lines: Vec<Vec<char>> = Vec::new();
    let first = paint(&signature_exec(file, t), Style::Task, color);
    let ghost fv = first@;
    lines.push(first);
    let ghost l1 = seq![paint_spec(signature(tm), Style::Task, color)];
    assert(lines_view(lines@) =~= l1);
    match desc {
        Some(d) => {
            let mut l = str_chars("  ");
            append(&mut l, &paint(&d, Style::Description, color));
            let ghost lv = l@;
            lines.push(l);
            assert(lines_view(lines@) =~= l1.push(lv));
        },
        None => {},
    }
    let ghost l2 = match tm.description {
        Some(d) => l1.push("  "@ + paint_spec(d, Style::Description, color)),
        None => l1,
    };
    assert(lines_view(lines@) == l2);
    match body {
        Some(b) => {
            lines.push(Vec::new());
            assert(lines_view(lines@) =~= l2.push(seq![]));
            append_lines(&mut lines, text_lines_exec(&b));
        },
        None => {},
    }
    let ghost l3 = match tm.help {
        Some(b) => l2.push(seq![]) + text_lines(b),
        None => l2,
    };
    assert(lines_view(lines@) == l3);
    if kids.len() > 0 {
        separate_exec(&mut lines);
        let ghost before = lines_view(lines@);
        let h = paint(&str_chars("Tasks:"), Style::Section, color);
        let ghost hv = h@;
        lines.push(h);
        assert(lines_view(lines@) =~= before.push(hv));
        append_lines(&mut lines, rows_exec(file, &kids, color));
        with_legend_exec(&mut lines, file, &kids, color);
    }
    Ok(crate::text::string_from(&join_lines_exec(&lines)))
}

} // verus!
