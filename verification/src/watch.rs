//! The rules of `@watch`: the one line it restarts, and why that line may
//! not `@await`, not even through the tasks it calls.
use vstd::prelude::*;

use crate::command_text::{split_words, split_words_spec};
use crate::error::{line_prefixed, line_prefixed_text, CjError};
use crate::scan::{line_expressions, split_directive, split_directive_spec, split_line_expressions};
use crate::task_file::{find_task, seq_views, FileModel, TaskFile, TaskLineModel};
use crate::text::{chars_eq, chars_eq_str, str_chars, subvec};

verus! {

pub open spec fn await_in_watch_text(ln: nat) -> Seq<char> {
    line_prefixed_text(ln, "@await cannot be used inside @watch"@)
}

/// The task that an `@task` expression calls first.
pub open spec fn called_task(expr: Seq<char>) -> Option<Seq<char>> {
    if expr.len() > 0 && expr[0] == '@' {
        let (name, args) = split_directive_spec(expr.drop_first());
        if name == "task"@ {
            match split_words_spec(args) {
                Ok(argv) => if argv.len() > 0 {
                    Some(argv[0])
                } else {
                    None
                },
                Err(_) => None,
            }
        } else {
            None
        }
    } else {
        None
    }
}

pub open spec fn is_await(expr: Seq<char>) -> bool {
    expr.len() > 0 && expr[0] == '@' && split_directive_spec(expr.drop_first()).0 == "await"@
}

/// The first `@await` that an expression reaches, through the tasks it
/// calls (each task looked at once; `visited` are the names seen so far),
/// and the names seen after it. `fuel` bounds the depth of calls; it starts
/// at the number of tasks, and each deeper call looks at a task not seen
/// before, so it never runs out.
pub open spec fn watch_expr(file: FileModel, ln: nat, expr: Seq<char>, visited: Seq<Seq<char>>, fuel: nat) -> (
    Option<Seq<char>>,
    Seq<Seq<char>>,
)
    decreases fuel, 1nat, 0nat,
{
    if is_await(expr) {
        (Some(await_in_watch_text(ln)), visited)
    } else {
        match called_task(expr) {
            Some(name) => watch_task(file, name, visited, fuel),
            None => (None, visited),
        }
    }
}

pub open spec fn watch_task(file: FileModel, name: Seq<char>, visited: Seq<Seq<char>>, fuel: nat) -> (
    Option<Seq<char>>,
    Seq<Seq<char>>,
)
    decreases fuel, 0nat, 0nat,
{
    if visited.contains(name) {
        (None, visited)
    } else {
        let v1 = visited.push(name);
        match find_task(file.tasks, name) {
            None => (None, v1),
            Some(t) => if fuel == 0 || !(0 <= t < file.tasks.len()) {
                (None, v1)
            } else {
                watch_lines(file, file.tasks[t].lines, v1, (fuel - 1) as nat)
            },
        }
    }
}

pub open spec fn watch_lines(file: FileModel, lines: Seq<TaskLineModel>, visited: Seq<Seq<char>>, fuel: nat) -> (
    Option<Seq<char>>,
    Seq<Seq<char>>,
)
    decreases fuel, 3nat, lines.len(),
{
    if lines.len() == 0 {
        (None, visited)
    } else {
        let (e, v) = watch_exprs(
            file,
            lines[0].line_number,
            line_expressions(lines[0].text),
            visited,
            fuel,
        );
        if e is Some {
            (e, v)
        } else {
            watch_lines(file, lines.drop_first(), v, fuel)
        }
    }
}

pub open spec fn watch_exprs(
    file: FileModel,
    ln: nat,
    exprs: Seq<Seq<char>>,
    visited: Seq<Seq<char>>,
    fuel: nat,
) -> (Option<Seq<char>>, Seq<Seq<char>>)
    decreases fuel, 2nat, exprs.len(),
{
    if exprs.len() == 0 {
        (None, visited)
    } else {
        let (e, v) = watch_expr(file, ln, exprs[0], visited, fuel);
        if e is Some {
            (e, v)
        } else {
            watch_exprs(file, ln, exprs.drop_first(), v, fuel)
        }
    }
}

/// Why the line that `@watch` restarts may not be watched: it reaches an
/// `@await`.
pub open spec fn watch_line_error(file: FileModel, ln: nat, text: Seq<char>) -> Option<Seq<char>> {
    watch_expr(file, ln, text, seq![], file.tasks.len()).0
}

fn is_await_exec(expr: &Vec<char>) -> (b: bool)
    ensures
        b == is_await(expr@),
{
    if expr.len() > 0 && expr[0] == '@' {
        let rest = subvec(expr, 1, expr.len());
        assert(rest@ =~= expr@.drop_first());
        let (name, _) = split_directive(&rest);
        chars_eq_str(&name, "await")
    } else {
        false
    }
}

fn called_task_exec(expr: &Vec<char>) -> (r: Option<Vec<char>>)
    ensures
        match r {
            Some(n) => called_task(expr@) == Some(n@),
            None => called_task(expr@) is None,
        },
{
    if expr.len() > 0 && expr[0] == '@' {
        let rest = subvec(expr, 1, expr.len());
        assert(rest@ =~= expr@.drop_first());
        let (name, args) = split_directive(&rest);
        if chars_eq_str(&name, "task") {
            match split_words(&args) {
                Ok(argv) => {
                    if argv.len() > 0 {
                        assert(argv@.map_values(|x: Vec<char>| x@)[0] == argv@[0]@);
                        return Some(argv[0].clone());
                    }
                },
                Err(_) => {},
            }
        }
    }
    None
}

fn contains_name(v: &Vec<Vec<char>>, x: &Vec<char>) -> (b: bool)
    ensures
        b == seq_views(v@).contains(x@),
{
    let mut i: usize = 0;
    while i < v.len()
        invariant
            i <= v.len(),
            forall|j: int| 0 <= j < i ==> #[trigger] v@[j]@ != x@,
        decreases v.len() - i,
    {
        if chars_eq(&v[i], x) {
            assert(seq_views(v@)[i as int] == x@);
            return true;
        }
        i = i + 1;
    }
    assert(!seq_views(v@).contains(x@)) by {
        if seq_views(v@).contains(x@) {
            let j = choose|j: int| 0 <= j < seq_views(v@).len() && seq_views(v@)[j] == x@;
            assert(v@[j]@ == x@);
        }
    }
    false
}

pub open spec fn opt_msg(r: Option<CjError>) -> Option<Seq<char>> {
    match r {
        Some(e) => Some(e@),
        None => None,
    }
}

fn watch_expr_exec(
    file: &TaskFile,
    ln: usize,
    expr: &Vec<char>,
    visited: &mut Vec<Vec<char>>,
    fuel: usize,
) -> (r: Option<CjError>)
    ensures
        (opt_msg(r), seq_views(final(visited)@)) == watch_expr(
            file@,
            ln as nat,
            expr@,
            seq_views(old(visited)@),
            fuel as nat,
        ),
    decreases fuel, 1nat, 0nat,
{
    if is_await_exec(expr) {
        return Some(line_prefixed(ln, &str_chars("@await cannot be used inside @watch")));
    }
    match called_task_exec(expr) {
        Some(name) => watch_task_exec(file, &name, visited, fuel),
        None => None,
    }
}

fn watch_task_exec(file: &TaskFile, name: &Vec<char>, visited: &mut Vec<Vec<char>>, fuel: usize) -> (r:
    Option<CjError>)
    ensures
        (opt_msg(r), seq_views(final(visited)@)) == watch_task(
            file@,
            name@,
            seq_views(old(visited)@),
            fuel as nat,
        ),
    decreases fuel, 0nat, 0nat,
{
    if contains_name(visited, name) {
        return None;
    }
    let ghost before = seq_views(visited@);
    visited.push(name.clone());
    assert(seq_views(visited@) =~= before.push(name@));
    match file.task_index(name) {
        None => None,
        Some(t) => {
            if fuel == 0 {
                return None;
            }
            assert(file@.tasks[t as int].lines.skip(0) =~= file@.tasks[t as int].lines);
            watch_lines_exec(file, t, 0, visited, fuel - 1)
        },
    }
}

fn watch_lines_exec(file: &TaskFile, t: usize, from: usize, visited: &mut Vec<Vec<char>>, fuel: usize) -> (r:
    Option<CjError>)
    requires
        t < file@.tasks.len(),
        from <= file@.tasks[t as int].lines.len(),
    ensures
        (opt_msg(r), seq_views(final(visited)@)) == watch_lines(
            file@,
            file@.tasks[t as int].lines.skip(from as int),
            seq_views(old(visited)@),
            fuel as nat,
        ),
    decreases fuel, 3nat, file@.tasks[t as int].lines.len() - from,
{
    let ghost ls = file@.tasks[t as int].lines.skip(from as int);
    if from >= file.line_count(t) {
        assert(ls =~= seq![]);
        return None;
    }
    let (ln, _, text) = file.line_at(t, from);
    assert(ls[0] == file@.tasks[t as int].lines[from as int]);
    let exprs = split_line_expressions(&text);
    assert(seq_views(exprs@) == line_expressions(text@));
    assert(seq_views(exprs@).skip(0) =~= seq_views(exprs@));
    let e = watch_exprs_exec(file, ln, &exprs, 0, visited, fuel);
    if e.is_some() {
        return e;
    }
    assert(ls.drop_first() =~= file@.tasks[t as int].lines.skip(from + 1));
    watch_lines_exec(file, t, from + 1, visited, fuel)
}

fn watch_exprs_exec(
    file: &TaskFile,
    ln: usize,
    exprs: &Vec<Vec<char>>,
    from: usize,
    visited: &mut Vec<Vec<char>>,
    fuel: usize,
) -> (r: Option<CjError>)
    requires
        from <= exprs.len(),
    ensures
        (opt_msg(r), seq_views(final(visited)@)) == watch_exprs(
            file@,
            ln as nat,
            seq_views(exprs@).skip(from as int),
            seq_views(old(visited)@),
            fuel as nat,
        ),
    decreases fuel, 2nat, exprs.len() - from,
{
    let ghost es = seq_views(exprs@).skip(from as int);
    if from >= exprs.len() {
        assert(es =~= seq![]);
        return None;
    }
    assert(es[0] == exprs@[from as int]@);
    let e = watch_expr_exec(file, ln, &exprs[from], visited, fuel);
    if e.is_some() {
        return e;
    }
    assert(es.drop_first() =~= seq_views(exprs@).skip(from + 1));
    watch_exprs_exec(file, ln, exprs, from + 1, visited, fuel)
}

/// The error of a line that `@watch` would restart, if it reaches an
/// `@await`.
pub fn watch_line_check(file: &TaskFile, ln: usize, text: &Vec<char>) -> (r: Option<CjError>)
    ensures
        opt_msg(r) == watch_line_error(file@, ln as nat, text@),
{
    let mut visited: Vec<Vec<char>> = Vec::new();
    assert(seq_views(visited@) =~= seq![]);
    watch_expr_exec(file, ln, text, &mut visited, file.task_count())
}


/// Where a watched line stands: running and watching its paths, or settling
/// after a change until the quiet time is over.
#[derive(Clone, Copy, Debug, PartialEq, Eq, Structural)]
pub enum WatchPhase {
    Watching,
    Settling,
}

/// What the watcher of a line noticed.
pub enum WatchEvent {
    /// The line ended on its own.
    ActionFinished,
    /// A path changed; `true` where the event only records an access.
    Changed(bool),
    /// The watcher reported an error, with its message.
    WatchFailed(Vec<char>),
    /// The watcher stopped.
    Disconnected,
    /// Nothing arrived for a while.
    Quiet,
    /// The quiet time after a change is over.
    SettleTimeOver,
    /// The run was interrupted.
    Interrupted,
}

pub enum WatchEventModel {
    ActionFinished,
    Changed(bool),
    WatchFailed(Seq<char>),
    Disconnected,
    Quiet,
    SettleTimeOver,
    Interrupted,
}

impl View for WatchEvent {
    type V = WatchEventModel;

    open spec fn view(&self) -> WatchEventModel {
        match self {
            WatchEvent::ActionFinished => WatchEventModel::ActionFinished,
            WatchEvent::Changed(a) => WatchEventModel::Changed(*a),
            WatchEvent::WatchFailed(m) => WatchEventModel::WatchFailed(m@),
            WatchEvent::Disconnected => WatchEventModel::Disconnected,
            WatchEvent::Quiet => WatchEventModel::Quiet,
            WatchEvent::SettleTimeOver => WatchEventModel::SettleTimeOver,
            WatchEvent::Interrupted => WatchEventModel::Interrupted,
        }
    }
}

/// What to do next with a watched line.
pub enum WatchAction {
    /// Keep waiting in the same phase.
    Keep,
    /// Start the quiet time: further changes are gathered, not acted on.
    Settle,
    /// Stop the line and start it again.
    Restart,
    /// The line is over: its own outcome is the answer.
    Finish,
    /// The watch failed with this message.
    Fail(Vec<char>),
    /// Stop the line: the run was interrupted.
    Stop,
}

pub enum WatchActionModel {
    Keep,
    Settle,
    Restart,
    Finish,
    Fail(Seq<char>),
    Stop,
}

impl View for WatchAction {
    type V = WatchActionModel;

    open spec fn view(&self) -> WatchActionModel {
        match self {
            WatchAction::Keep => WatchActionModel::Keep,
            WatchAction::Settle => WatchActionModel::Settle,
            WatchAction::Restart => WatchActionModel::Restart,
            WatchAction::Finish => WatchActionModel::Finish,
            WatchAction::Fail(m) => WatchActionModel::Fail(m@),
            WatchAction::Stop => WatchActionModel::Stop,
        }
    }
}

/// The decisions of `@watch`. While watching: the line ending on its own
/// ends the watch; a change that is not a mere access starts the quiet
/// time. While settling, the line's end and further changes are gathered,
/// and the line restarts once the quiet time is over. In either phase a
/// watcher error or a stopped watcher fails the watch, and an interrupt
/// stops it.
pub open spec fn watch_next(phase: WatchPhase, event: WatchEventModel) -> WatchActionModel {
    match event {
        WatchEventModel::Interrupted => WatchActionModel::Stop,
        WatchEventModel::WatchFailed(m) => WatchActionModel::Fail("file watch failed: "@ + m),
        WatchEventModel::Disconnected => WatchActionModel::Fail("file watcher stopped unexpectedly"@),
        WatchEventModel::ActionFinished => match phase {
            WatchPhase::Watching => WatchActionModel::Finish,
            WatchPhase::Settling => WatchActionModel::Keep,
        },
        WatchEventModel::Changed(access) => match phase {
            WatchPhase::Watching => if access {
                WatchActionModel::Keep
            } else {
                WatchActionModel::Settle
            },
            WatchPhase::Settling => WatchActionModel::Keep,
        },
        WatchEventModel::Quiet => WatchActionModel::Keep,
        WatchEventModel::SettleTimeOver => match phase {
            WatchPhase::Watching => WatchActionModel::Keep,
            WatchPhase::Settling => WatchActionModel::Restart,
        },
    }
}

/// The next move of a watched line, from its phase and what was noticed.
pub fn watch_decide(phase: WatchPhase, event: &WatchEvent) -> (a: WatchAction)
    ensures
        a@ == watch_next(phase, event@),
{
    match event {
        WatchEvent::Interrupted => WatchAction::Stop,
        WatchEvent::WatchFailed(m) => {
            let mut msg = str_chars("file watch failed: ");
            crate::text::append(&mut msg, m);
            WatchAction::Fail(msg)
        },
        WatchEvent::Disconnected => WatchAction::Fail(str_chars("file watcher stopped unexpectedly")),
        WatchEvent::ActionFinished => match phase {
            WatchPhase::Watching => WatchAction::Finish,
            WatchPhase::Settling => WatchAction::Keep,
        },
        WatchEvent::Changed(access) => match phase {
            WatchPhase::Watching => if *access {
                WatchAction::Keep
            } else {
                WatchAction::Settle
            },
            WatchPhase::Settling => WatchAction::Keep,
        },
        WatchEvent::Quiet => WatchAction::Keep,
        WatchEvent::SettleTimeOver => match phase {
            WatchPhase::Watching => WatchAction::Keep,
            WatchPhase::Settling => WatchAction::Restart,
        },
    }
}

} // verus!
