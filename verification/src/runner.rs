//! Running a task. The runner decides, line after line, what each command
//! and directive does to the run; what needs the outside world (a process,
//! the file system, the terminal) it hands out as an `Action`, and the caller
//! answers with an `Event`.
use vstd::prelude::*;

use crate::command_text::{
    interpolate_argv, interpolate_argv_spec, interpolate_spec, interpolate_text, split_words,
    split_words_spec, QuoteMode,
};
use crate::conditions::{
    condition_spec, evaluate_condition, is_condition_directive, is_condition_name, Condition,
    ConditionModel,
};
use crate::error::{line_prefixed, line_prefixed_text, CjError};
use crate::names::{env_name_error, task_name_error, validate_env_name, validate_task_name};
use crate::runtime::{
    back_spec, bump_kind_name, bump_kind_of, cd_spec, cwd_wf, pop_scope_spec, push_scope_spec,
    scope_base_of, BumpKind, CwdModel, CwdState,
};
use crate::scan::{split_directive, split_directive_spec, strip_matching_quotes,
    strip_matching_quotes_spec};
use crate::task_file::{find_task, FileModel, TaskFile, TaskLineModel};
use crate::task_header::{wrap, wrap_msg};
use crate::scan::line_expressions;
use crate::watch::watch_line_error;
use crate::text::{
    append, append_str, chars_eq, chars_eq_str, chars_is_blank, chars_starts_with_str, decimal,
    push_decimal, starts_with, str_chars, subvec, trim,
};
use crate::values::{
    capture_name_spec, export_mutation_spec, is_set_capture_args, parse_env_mutation,
    parse_export_mutation, parse_set_capture_name, return_status_spec, return_value_status,
    set_capture_args, set_mutation_spec,
};
use crate::vars::VarMap;

verus! {

/// The most lines a run may take before it is stopped as a likely endless loop.
pub const MAX_EXECUTION_STEPS: usize = 1000000;

/// What happens when a block ends.
pub enum Finish {
    /// The body of a task call: the variables and exports seen at the call.
    Task(VarMap, VarMap),
    /// A nested block: its status is the status of the directive that opened it.
    Plain,
    /// A capturing `@set NAME:` block.
    Capture(Vec<char>),
}

pub enum FinishModel {
    Task(Map<Seq<char>, Seq<char>>, Map<Seq<char>, Seq<char>>),
    Plain,
    Capture(Seq<char>),
}

/// A block being run: lines `index..end` of a task at indentation `indent`.
pub struct Frame {
    pub task: usize,
    pub index: usize,
    pub end: usize,
    pub indent: usize,
    pub previous: i32,
    pub finish: Finish,
}

pub struct FrameModel {
    pub task: int,
    pub index: int,
    pub end: int,
    pub indent: int,
    pub previous: i32,
    pub finish: FinishModel,
}

/// What the runner waits for.
pub enum Wait {
    Idle,
    Status,
    Branch(usize, usize, Option<(usize, usize)>, bool),
    Cd(usize),
    Printed(i32),
    Removed,
    Bumped(Vec<char>, BumpKind),
    StopTask,
    Awaited(usize, usize),
}

pub enum WaitModel {
    Idle,
    Status,
    Branch(int, int, Option<(int, int)>, bool),
    Cd(nat),
    Printed(i32),
    Removed,
    Bumped(Seq<char>, BumpKind),
    StopTask,
    Awaited(int, int),
}

/// A file system directive.
#[derive(Clone, Copy, Debug, PartialEq, Eq, Structural)]
pub enum FileOp {
    /// `@mkdir PATH...`: create directories.
    MakeDirs,
    /// `@cp SOURCE... DESTINATION`: copy files.
    CopyFiles,
    /// `@cpdir SOURCE... DESTINATION`: copy directories.
    CopyDirs,
    /// `@rename SOURCE DESTINATION`: rename without moving.
    Rename,
}

/// Outside work for the caller.
pub enum Action {
    /// Run a program with arguments in a directory (capturing its output when set).
    Run(Vec<Vec<char>>, Vec<char>, bool),
    /// Run a command line through `/bin/sh -c` in a directory.
    Shell(Vec<char>, Vec<char>, bool),
    /// Write text to standard output.
    Print(Vec<char>),
    /// Report whether the path joined to the directory is a directory.
    IsDir(Vec<char>, Vec<char>),
    /// Report whether the path joined to the directory exists.
    Exists(Vec<char>, Vec<char>),
    /// Remove the path joined to the directory, unless it is the scope base
    /// (third field) or lies outside it; the last field is the line of the
    /// directive.
    Remove(Vec<char>, Vec<char>, Vec<char>, usize),
    /// Bump the named `@version` header in the taskfile (operation, optional
    /// prerelease, line of the directive).
    Bump(Vec<char>, Vec<char>, Option<Vec<char>>, usize),
    /// Carry out a file system directive in a directory (its arguments and
    /// the line of the directive).
    Files(FileOp, Vec<char>, Vec<Vec<char>>, usize),
    /// Open a URL with the system browser.
    Open(Vec<char>),
    /// Print the help of the named task.
    SelfHelp(Vec<char>),
    /// Run the named tasks in parallel from a directory, each task once.
    Await(Vec<Vec<char>>, Vec<char>),
    /// Watch paths (relative to a directory) while line `line` of task
    /// `task` runs at indentation `indent`; restart it when they change
    /// before it ends. The last field is the line of the directive.
    Watch(Vec<Vec<char>>, Vec<char>, usize, usize, usize, usize),
    /// The run ended with this status.
    Finished(i32),
    /// The run failed.
    Failed(CjError),
}

pub enum ActionModel {
    Run(Seq<Seq<char>>, Seq<char>, bool),
    Shell(Seq<char>, Seq<char>, bool),
    Print(Seq<char>),
    IsDir(Seq<char>, Seq<char>),
    Exists(Seq<char>, Seq<char>),
    Remove(Seq<char>, Seq<char>, Seq<char>, nat),
    Bump(Seq<char>, Seq<char>, Option<Seq<char>>, nat),
    Files(FileOp, Seq<char>, Seq<Seq<char>>, nat),
    Open(Seq<char>),
    SelfHelp(Seq<char>),
    Await(Seq<Seq<char>>, Seq<char>),
    Watch(Seq<Seq<char>>, Seq<char>, int, int, int, nat),
    Finished(i32),
    Failed(Seq<char>),
}

/// The caller's answer.
pub enum Event {
    /// A process ended with a status; its output where it was captured.
    Status(i32, Vec<char>),
    /// A path was looked at: the joined path and the answer.
    Path(Vec<char>, bool),
    /// The output was written or the path removed.
    Done,
    /// The version was bumped: its variable and its new value.
    Bumped(Vec<char>, Vec<char>),
    /// The awaited tasks ended: the first status that was not zero (or
    /// zero), and the values they exported that the caller takes over.
    Awaited(i32, VarMap),
    /// The outside work failed.
    Failed(CjError),
}

pub enum EventModel {
    Status(i32, Seq<char>),
    Path(Seq<char>, bool),
    Done,
    Bumped(Seq<char>, Seq<char>),
    Awaited(i32, Map<Seq<char>, Seq<char>>),
    Failed(Seq<char>),
}

/// The state of a run.
pub struct RunModel {
    pub frames: Seq<FrameModel>,
    pub vars: Map<Seq<char>, Seq<char>>,
    pub exports: Map<Seq<char>, Seq<char>>,
    pub bumped: Map<Seq<char>, Seq<char>>,
    pub cwd: CwdModel,
    pub calls: Seq<int>,
    pub captures: Seq<Seq<char>>,
    pub steps: nat,
    pub pending: Option<i32>,
    pub wait: WaitModel,
}

/// One move of the runner: go on, or stop with an action.
pub enum TickModel {
    Continue(RunModel),
    Stop(RunModel, ActionModel),
}

pub open spec fn int_text(s: i32) -> Seq<char> {
    if s < 0 {
        "-"@ + decimal((0 - s) as nat)
    } else {
        decimal(s as nat)
    }
}

pub open spec fn lines_of(file: FileModel, t: int) -> Seq<TaskLineModel> {
    file.tasks[t].lines
}

pub open spec fn directive_named(text: Seq<char>, name: Seq<char>) -> bool {
    text.len() > 0 && text[0] == '@' && split_directive_spec(text.drop_first()).0 == name
}

/// Whether the line at `index` is an `@and` or an `@or` at the frame's
/// level: a chain that goes on after a failure.
pub open spec fn next_is_chain(file: FileModel, f: FrameModel, index: int) -> bool {
    index < f.end && lines_of(file, f.task)[index].indent == f.indent && (directive_named(
        lines_of(file, f.task)[index].text,
        "or"@,
    ) || directive_named(lines_of(file, f.task)[index].text, "and"@))
}

/// The end of the block of lines deeper than `indent` that starts at `start`.
pub open spec fn block_end(lines: Seq<TaskLineModel>, start: int, end: int, indent: int) -> int
    decreases end - start,
{
    if start < end && lines[start].indent > indent {
        block_end(lines, start + 1, end, indent)
    } else {
        start
    }
}

pub proof fn lemma_block_end(lines: Seq<TaskLineModel>, start: int, end: int, indent: int)
    ensures
        block_end(lines, start, end, indent) >= start,
        start <= end ==> block_end(lines, start, end, indent) <= end,
    decreases end - start,
{
    if start < end && lines[start].indent > indent {
        lemma_block_end(lines, start + 1, end, indent);
    }
}

pub open spec fn top(m: RunModel) -> FrameModel {
    m.frames.last()
}

pub open spec fn set_top(m: RunModel, f: FrameModel) -> RunModel {
    RunModel { frames: m.frames.update(m.frames.len() - 1, f), ..m }
}

pub open spec fn advance(m: RunModel) -> RunModel {
    set_top(m, FrameModel { index: top(m).index + 1, ..top(m) })
}

pub open spec fn with_pending(m: RunModel, s: i32) -> RunModel {
    RunModel { pending: Some(s), ..m }
}

/// The variables after a task call returns: those of the caller, less the
/// ones that were exported at the call and are exported no more, with every
/// current export laid over them.
pub open spec fn restore_spec(
    snapshot: Map<Seq<char>, Seq<char>>,
    previous: Map<Seq<char>, Seq<char>>,
    exports: Map<Seq<char>, Seq<char>>,
) -> Map<Seq<char>, Seq<char>> {
    Map::new(
        |k: Seq<char>|
            (snapshot.contains_key(k) && !(previous.contains_key(k) && !exports.contains_key(k)))
                || exports.contains_key(k),
        |k: Seq<char>|
            if exports.contains_key(k) {
                exports[k]
            } else {
                snapshot[k]
            },
    )
}

/// The top frame removed, with what leaving a task call undoes.
pub open spec fn pop_frame(m: RunModel) -> RunModel {
    let m1 = RunModel { frames: m.frames.drop_last(), cwd: pop_scope_spec(m.cwd), ..m };
    match top(m).finish {
        FinishModel::Task(snap, exps) => RunModel {
            vars: restore_spec(snap, exps, m.exports),
            calls: m.calls.drop_last(),
            ..m1
        },
        _ => m1,
    }
}

/// Every frame removed, as when the run fails.
pub open spec fn unwind(m: RunModel) -> RunModel
    decreases m.frames.len(),
{
    if m.frames.len() == 0 {
        RunModel { captures: seq![], pending: None, wait: WaitModel::Idle, ..m }
    } else {
        unwind(pop_frame(m))
    }
}

pub open spec fn fail(m: RunModel, msg: Seq<char>) -> TickModel {
    TickModel::Stop(unwind(m), ActionModel::Failed(msg))
}

/// Text with trailing carriage returns and newlines removed.
pub open spec fn trim_newlines(s: Seq<char>) -> Seq<char>
    decreases s.len(),
{
    if s.len() > 0 && (s.last() == '\r' || s.last() == '\n') {
        trim_newlines(s.drop_last())
    } else {
        s
    }
}

/// The top block ended with status `s`.
pub open spec fn finish_frame(m: RunModel, s: i32) -> TickModel {
    let m1 = pop_frame(m);
    match top(m).finish {
        FinishModel::Capture(name) => if s == 0 {
            TickModel::Continue(
                RunModel {
                    vars: m1.vars.insert(name, trim_newlines(m1.captures.last())),
                    captures: m1.captures.drop_last(),
                    pending: Some(0),
                    ..m1
                },
            )
        } else {
            fail(m1, "captured @set block failed with status "@ + int_text(s))
        },
        _ => TickModel::Continue(with_pending(m1, s)),
    }
}

/// A finished command or directive hands its status to the block: a
/// failure ends the block unless an `@and` or `@or` follows.
pub open spec fn deliver(m: RunModel, file: FileModel, s: i32) -> TickModel {
    let m0 = RunModel { pending: None, ..m };
    if m.frames.len() == 0 {
        TickModel::Stop(m0, ActionModel::Finished(s))
    } else {
        let f = FrameModel { previous: s, ..top(m) };
        let m1 = set_top(m0, f);
        if s != 0 && !next_is_chain(file, f, f.index) {
            finish_frame(m1, s)
        } else {
            TickModel::Continue(m1)
        }
    }
}

pub open spec fn push_block(m: RunModel, task: int, start: int, end: int, indent: int) -> RunModel {
    RunModel {
        frames: m.frames.push(
            FrameModel { task, index: start, end, indent, previous: 0, finish: FinishModel::Plain },
        ),
        cwd: push_scope_spec(m.cwd),
        ..m
    }
}

/// Runs lines `start..end` as a block, or gives status 0 where there are none.
pub open spec fn run_range(m: RunModel, task: int, start: int, end: int, indent: int) -> TickModel {
    if start < end {
        TickModel::Continue(push_block(m, task, start, end, indent))
    } else {
        TickModel::Continue(with_pending(m, 0))
    }
}

/// Writes text: into the innermost capture, or to standard output.
pub open spec fn output(m: RunModel, text: Seq<char>, s: i32) -> TickModel {
    if m.captures.len() > 0 {
        TickModel::Continue(
            RunModel {
                captures: m.captures.update(m.captures.len() - 1, m.captures.last() + text),
                pending: Some(s),
                ..m
            },
        )
    } else {
        TickModel::Stop(RunModel { wait: WaitModel::Printed(s), ..m }, ActionModel::Print(text))
    }
}

/// The position of the first call of `name` on the call stack.
pub open spec fn first_call_of(file: FileModel, calls: Seq<int>, name: Seq<char>) -> Option<int>
    decreases calls.len(),
{
    if calls.len() == 0 {
        None
    } else {
        match first_call_of(file, calls.drop_last(), name) {
            Some(i) => Some(i),
            None => if file.tasks[calls.last()].name == name {
                Some(calls.len() - 1)
            } else {
                None
            },
        }
    }
}

/// Task names joined with ` -> `.
pub open spec fn join_arrows(names: Seq<Seq<char>>) -> Seq<char>
    decreases names.len(),
{
    if names.len() == 0 {
        seq![]
    } else if names.len() == 1 {
        names[0]
    } else {
        join_arrows(names.drop_last()) + " -> "@ + names.last()
    }
}

pub open spec fn call_names(file: FileModel, calls: Seq<int>) -> Seq<Seq<char>> {
    calls.map_values(|t: int| file.tasks[t].name)
}

pub open spec fn cycle_message(file: FileModel, calls: Seq<int>, k: int, name: Seq<char>) -> Seq<char> {
    "recursive @task cycle detected: "@ + join_arrows(call_names(file, calls.skip(k)).push(name))
}

pub open spec fn arity_message(file: FileModel, name: Seq<char>, t: int, args: Seq<Seq<char>>) -> Seq<
    char,
> {
    let n = file.tasks[t].arguments.len();
    let base = "task '"@ + name + "' expects "@ + decimal(n) + " arguments, received "@ + decimal(
        args.len(),
    );
    if n == 0 && args.len() == 1 && find_task(file.tasks, name + ":"@ + args[0]) is Some {
        base + ". Did you mean `"@ + name + ":"@ + args[0] + "`?"@
    } else {
        base
    }
}

/// The variables with the arguments bound to the declared names, in order.
pub open spec fn bind(vars: Map<Seq<char>, Seq<char>>, names: Seq<Seq<char>>, values: Seq<Seq<char>>) -> Map<
    Seq<char>,
    Seq<char>,
>
    decreases names.len(),
{
    if names.len() == 0 || values.len() == 0 {
        vars
    } else {
        bind(vars, names.drop_last(), values.drop_last()).insert(names.last(), values.last())
    }
}

/// A call of task `name` with arguments: checked, then its body opened as a
/// new frame that remembers the caller's variables.
#[verifier::opaque]
pub open spec fn call_task(m: RunModel, file: FileModel, name: Seq<char>, args: Seq<Seq<char>>) -> TickModel {
    match task_name_error(name) {
        Some(e) => fail(m, wrap("invalid task name '"@, name, "': "@ + e.spec_message())),
        None => match first_call_of(file, m.calls, name) {
            Some(k) => fail(m, cycle_message(file, m.calls, k, name)),
            None => match find_task(file.tasks, name) {
                None => fail(m, "task not found: "@ + name),
                Some(t) => if args.len() != file.tasks[t].arguments.len() {
                    fail(m, arity_message(file, name, t, args))
                } else {
                    TickModel::Continue(
                        RunModel {
                            frames: m.frames.push(
                                FrameModel {
                                    task: t,
                                    index: 0,
                                    end: file.tasks[t].lines.len() as int,
                                    indent: 2,
                                    previous: 0,
                                    finish: FinishModel::Task(m.vars, m.exports),
                                },
                            ),
                            vars: bind(m.vars, file.tasks[t].arguments, args),
                            calls: m.calls.push(t),
                            cwd: push_scope_spec(m.cwd),
                            ..m
                        },
                    )
                },
            },
        },
    }
}

/// `@and` and `@or`: the indented block below runs when the previous
/// status succeeded (for `@and`) or failed (for `@or`); otherwise `@and`
/// gives 1 and `@or` gives 0.
#[verifier::opaque]
pub open spec fn chain_step(m: RunModel, file: FileModel, ln: nat, name: Seq<char>) -> TickModel {
    let f = top(m);
    let start = f.index + 1;
    let end = block_end(lines_of(file, f.task), start, f.end, f.indent);
    let m1 = set_top(m, FrameModel { index: end, ..f });
    if start == end {
        fail(m1, line_prefixed_text(ln, "@"@ + name + " expects an indented block"@))
    } else if (name == "and"@ && f.previous == 0) || (name == "or"@ && f.previous != 0) {
        TickModel::Continue(push_block(m1, f.task, start, end, f.indent + 2))
    } else {
        TickModel::Continue(
            with_pending(
                m1,
                if name == "and"@ {
                    1
                } else {
                    0
                },
            ),
        )
    }
}

pub open spec fn capturing(m: RunModel) -> bool {
    m.captures.len() > 0
}

/// The `@case` and `@default` entries of a `@switch` body: the body of the
/// first case whose value matches and the body of the first default.
pub open spec fn scan_cases(
    lines: Seq<TaskLineModel>,
    cursor: int,
    end: int,
    case_indent: int,
    value: Seq<char>,
    vars: Map<Seq<char>, Seq<char>>,
    selected: Option<(int, int)>,
    default: Option<(int, int)>,
) -> Result<(Option<(int, int)>, Option<(int, int)>), Seq<char>>
    decreases end - cursor,
{
    if cursor >= end {
        Ok((selected, default))
    } else {
        let l = lines[cursor];
        if l.indent != case_indent {
            Err(line_prefixed_text(l.line_number, "@switch body must contain @case or @default entries"@))
        } else if !(l.text.len() > 0 && l.text[0] == '@') {
            Err(line_prefixed_text(l.line_number, "@switch body entries must use @case or @default"@))
        } else {
            let (nm, a) = split_directive_spec(l.text.drop_first());
            if nm != "case"@ && nm != "default"@ {
                Err(line_prefixed_text(l.line_number, "@switch body entries must use @case or @default"@))
            } else {
                let body_end = block_end(lines, cursor + 1, end, case_indent);
                proof {
                    lemma_block_end(lines, cursor + 1, end, case_indent);
                }
                if nm == "case"@ {
                    match interpolate_argv_spec(a, vars) {
                        Err(e) => Err(e),
                        Ok(cv) => if cv.len() != 1 {
                            Err(line_prefixed_text(l.line_number, "@case expects exactly one value"@))
                        } else {
                            scan_cases(
                                lines,
                                body_end,
                                end,
                                case_indent,
                                value,
                                vars,
                                if selected is None && cv[0] == value {
                                    Some((cursor + 1, body_end))
                                } else {
                                    selected
                                },
                                default,
                            )
                        },
                    }
                } else if trim(a).len() > 0 {
                    Err(line_prefixed_text(l.line_number, "@default does not take arguments"@))
                } else {
                    scan_cases(
                        lines,
                        body_end,
                        end,
                        case_indent,
                        value,
                        vars,
                        selected,
                        if default is None {
                            Some((cursor + 1, body_end))
                        } else {
                            default
                        },
                    )
                }
            }
        }
    }
}

/// `@switch VALUE` with its `@case` and `@default` entries.
#[verifier::opaque]
pub open spec fn switch_step(m: RunModel, file: FileModel, ln: nat, args: Seq<char>) -> TickModel {
    let f = top(m);
    match interpolate_argv_spec(args, m.vars) {
        Err(e) => fail(m, e),
        Ok(vals) => if vals.len() != 1 {
            fail(m, line_prefixed_text(ln, "@switch expects exactly one value"@))
        } else {
            let lines = lines_of(file, f.task);
            let start = f.index + 1;
            let end = block_end(lines, start, f.end, f.indent);
            match scan_cases(lines, start, end, f.indent + 2, vals[0], m.vars, None, None) {
                Err(e) => fail(m, e),
                Ok((sel, def)) => {
                    let m1 = set_top(m, FrameModel { index: end, ..f });
                    let chosen = if sel is Some {
                        sel
                    } else {
                        def
                    };
                    match chosen {
                        Some((a, b)) => run_range(m1, f.task, a, b, f.indent + 4),
                        None => TickModel::Continue(with_pending(m1, 0)),
                    }
                },
            }
        },
    }
}

/// Runs the then-block or the else-block of a condition.
pub open spec fn branch(
    m: RunModel,
    task: int,
    indent: int,
    then_start: int,
    then_end: int,
    else_range: Option<(int, int)>,
    cond: bool,
) -> TickModel {
    if cond {
        run_range(m, task, then_start, then_end, indent + 2)
    } else {
        match else_range {
            Some((a, b)) => run_range(m, task, a, b, indent + 2),
            None => TickModel::Continue(with_pending(m, 0)),
        }
    }
}

/// `@if` and its relatives, with an optional `@else` block at the same level.
#[verifier::opaque]
pub open spec fn if_step(m: RunModel, file: FileModel, name: Seq<char>, args: Seq<char>) -> TickModel {
    let f = top(m);
    match condition_spec(name, args, m.vars, m.bumped) {
        Err(e) => fail(m, e),
        Ok(c) => {
            let lines = lines_of(file, f.task);
            let then_start = f.index + 1;
            let then_end = block_end(lines, then_start, f.end, f.indent);
            let has_else = then_end < f.end && lines[then_end].indent == f.indent
                && lines[then_end].text == "@else"@;
            let else_range = if has_else {
                Some((then_end + 1, block_end(lines, then_end + 1, f.end, f.indent)))
            } else {
                None
            };
            let next = if has_else {
                block_end(lines, then_end + 1, f.end, f.indent)
            } else {
                then_end
            };
            let m1 = set_top(m, FrameModel { index: next, ..f });
            match c {
                ConditionModel::Known(b) => branch(
                    m1,
                    f.task,
                    f.indent,
                    then_start,
                    then_end,
                    else_range,
                    b,
                ),
                ConditionModel::PathCheck(p, expect) => TickModel::Stop(
                    RunModel {
                        wait: WaitModel::Branch(then_start, then_end, else_range, expect),
                        ..m1
                    },
                    ActionModel::Exists(m.cwd.current, p),
                ),
            }
        },
    }
}

/// `@return`: with an indented block, the block's status; otherwise the
/// status of its value. Nothing is written out.
#[verifier::opaque]
pub open spec fn return_step(m: RunModel, file: FileModel, args: Seq<char>) -> TickModel {
    let f = top(m);
    let start = f.index + 1;
    let end = block_end(lines_of(file, f.task), start, f.end, f.indent);
    if start < end {
        TickModel::Continue(
            push_block(set_top(m, FrameModel { index: end, ..f }), f.task, start, end, f.indent + 2),
        )
    } else {
        match return_status_spec(args, m.vars) {
            Err(e) => fail(m, e),
            Ok(st) => TickModel::Continue(with_pending(advance(m), st)),
        }
    }
}

/// `@set NAME VALUE`, or `@set NAME:` over an indented block whose output
/// becomes the value.
#[verifier::opaque]
pub open spec fn set_step(m: RunModel, file: FileModel, ln: nat, args: Seq<char>) -> TickModel {
    let f = top(m);
    let start = f.index + 1;
    let end = block_end(lines_of(file, f.task), start, f.end, f.indent);
    if start < end && set_capture_args(args) {
        match capture_name_spec(args, m.vars, ln) {
            Err(e) => fail(m, e),
            Ok(k) => {
                let m1 = set_top(m, FrameModel { index: end, ..f });
                TickModel::Continue(
                    RunModel {
                        frames: m1.frames.push(
                            FrameModel {
                                task: f.task,
                                index: start,
                                end,
                                indent: f.indent + 2,
                                previous: 0,
                                finish: FinishModel::Capture(k),
                            },
                        ),
                        captures: m1.captures.push(seq![]),
                        cwd: push_scope_spec(m1.cwd),
                        ..m1
                    },
                )
            },
        }
    } else {
        match set_mutation_spec(args, m.vars, ln) {
            Err(e) => fail(m, e),
            Ok((k, v)) => TickModel::Continue(
                with_pending(RunModel { vars: m.vars.insert(k, v), ..advance(m) }, 0),
            ),
        }
    }
}

/// `@unset NAME`.
#[verifier::opaque]
pub open spec fn unset_step(m: RunModel, ln: nat, args: Seq<char>) -> TickModel {
    match interpolate_argv_spec(args, m.vars) {
        Err(e) => fail(m, e),
        Ok(w) => if w.len() != 1 {
            fail(m, line_prefixed_text(ln, "@unset expects exactly one variable name"@))
        } else {
            match env_name_error(w[0]) {
                Some(e) => fail(
                    m,
                    line_prefixed_text(ln, wrap("invalid env name '"@, w[0], "': "@ + e.spec_message())),
                ),
                None => TickModel::Continue(
                    with_pending(
                        RunModel {
                            vars: m.vars.remove(w[0]),
                            exports: m.exports.remove(w[0]),
                            ..advance(m)
                        },
                        0,
                    ),
                ),
            }
        },
    }
}

/// Arguments interpolated into exactly one word, for directives that take a path.
#[verifier::opaque]
pub open spec fn path_step(m: RunModel, ln: nat, args: Seq<char>, usage: Seq<char>, cd: bool) -> TickModel {
    match interpolate_argv_spec(args, m.vars) {
        Err(e) => fail(m, e),
        Ok(argv) => if argv.len() != 1 {
            fail(m, line_prefixed_text(ln, usage))
        } else if cd {
            TickModel::Stop(
                RunModel { wait: WaitModel::Cd(ln), ..advance(m) },
                ActionModel::IsDir(m.cwd.current, argv[0]),
            )
        } else {
            TickModel::Stop(
                RunModel { wait: WaitModel::Removed, ..advance(m) },
                ActionModel::Remove(m.cwd.current, argv[0], scope_base_of(m.cwd), ln),
            )
        }
    }
}

/// The kind of bump a bump directive makes.
pub open spec fn bump_directive_kind(name: Seq<char>) -> Option<BumpKind> {
    if name == "pre"@ {
        Some(BumpKind::Pre)
    } else if name == "patch"@ || name == "minor"@ || name == "major"@ || name == "release"@ {
        bump_kind_of(name)
    } else {
        None
    }
}

/// `@patch NAME`, `@minor NAME`, `@major NAME`, `@release NAME`,
/// `@pre NAME PRERELEASE`: a version may be bumped once per run.
#[verifier::opaque]
pub open spec fn bump_step(m: RunModel, ln: nat, name: Seq<char>, args: Seq<char>) -> TickModel {
    match interpolate_argv_spec(args, m.vars) {
        Err(e) => fail(m, e),
        Ok(argv) => if name == "pre"@ && argv.len() != 2 {
            fail(m, line_prefixed_text(ln, "@pre expects <name> <prerelease>"@))
        } else if name != "pre"@ && argv.len() != 1 {
            fail(m, line_prefixed_text(ln, "version bump directive expects exactly one version name"@))
        } else if m.bumped.contains_key(argv[0]) {
            fail(
                m,
                line_prefixed_text(
                    ln,
                    wrap("version '"@, argv[0], "' was already bumped as "@) + m.bumped[argv[0]]
                        + " in this run"@,
                ),
            )
        } else {
            TickModel::Stop(
                RunModel {
                    wait: WaitModel::Bumped(argv[0], bump_directive_kind(name)->0),
                    ..advance(m)
                },
                ActionModel::Bump(
                    argv[0],
                    name,
                    if name == "pre"@ {
                        Some(argv[1])
                    } else {
                        None
                    },
                    ln,
                ),
            )
        },
    }
}

/// The file system directive of a name.
pub open spec fn file_op_of(name: Seq<char>) -> Option<FileOp> {
    if name == "mkdir"@ {
        Some(FileOp::MakeDirs)
    } else if name == "cp"@ {
        Some(FileOp::CopyFiles)
    } else if name == "cpdir"@ {
        Some(FileOp::CopyDirs)
    } else if name == "rename"@ {
        Some(FileOp::Rename)
    } else {
        None
    }
}

/// What is wrong with the number of arguments of a file system directive.
pub open spec fn files_usage(op: FileOp, n: nat) -> Option<Seq<char>> {
    match op {
        FileOp::MakeDirs => if n == 0 {
            Some("@mkdir expects at least one path"@)
        } else {
            None
        },
        FileOp::CopyFiles => if n < 2 {
            Some("@cp expects one or more source files and a destination"@)
        } else {
            None
        },
        FileOp::CopyDirs => if n < 2 {
            Some("@cpdir expects one or more source directories and a destination"@)
        } else {
            None
        },
        FileOp::Rename => if n != 2 {
            Some("@rename expects source and destination"@)
        } else {
            None
        },
    }
}

/// `@mkdir`, `@cp`, `@cpdir`, `@rename`: the interpolated arguments are
/// handed out with the working directory.
pub open spec fn files_step(m: RunModel, ln: nat, op: FileOp, args: Seq<char>) -> TickModel {
    match interpolate_argv_spec(args, m.vars) {
        Err(e) => fail(m, e),
        Ok(argv) => match files_usage(op, argv.len()) {
            Some(u) => fail(m, line_prefixed_text(ln, u)),
            None => TickModel::Stop(
                RunModel { wait: WaitModel::Removed, ..advance(m) },
                ActionModel::Files(op, m.cwd.current, argv, ln),
            ),
        },
    }
}

/// `@open URL`: one `http://` or `https://` URL, opened with the system
/// browser; the opener's status is the directive's.
pub open spec fn open_step(m: RunModel, ln: nat, args: Seq<char>) -> TickModel {
    match interpolate_argv_spec(args, m.vars) {
        Err(e) => fail(m, e),
        Ok(argv) => if argv.len() != 1 {
            fail(m, line_prefixed_text(ln, "@open expects exactly one URL"@))
        } else if !(starts_with(argv[0], "http://"@) || starts_with(argv[0], "https://"@)) {
            fail(m, line_prefixed_text(ln, "@open URL must begin with http:// or https://"@))
        } else {
            TickModel::Stop(
                RunModel { wait: WaitModel::Status, ..advance(m) },
                ActionModel::Open(argv[0]),
            )
        },
    }
}

/// `@selfhelp`: the running task's help is printed, then the task stops.
pub open spec fn selfhelp_step(m: RunModel, file: FileModel, ln: nat, args: Seq<char>) -> TickModel {
    if trim(args).len() > 0 {
        fail(m, line_prefixed_text(ln, "@selfhelp does not take arguments"@))
    } else {
        TickModel::Stop(
            RunModel { wait: WaitModel::StopTask, ..advance(m) },
            ActionModel::SelfHelp(file.tasks[top(m).task].name),
        )
    }
}

/// `@await TASK...`: the tasks run in parallel; when all succeed, the
/// indented block below runs.
pub open spec fn await_step(m: RunModel, file: FileModel, ln: nat, args: Seq<char>) -> TickModel {
    let f = top(m);
    let start = f.index + 1;
    let end = block_end(lines_of(file, f.task), start, f.end, f.indent);
    match interpolate_argv_spec(args, m.vars) {
        Err(e) => fail(m, e),
        Ok(names) => if names.len() == 0 {
            fail(m, line_prefixed_text(ln, "@await expects at least one task name"@))
        } else {
            TickModel::Stop(
                RunModel { wait: WaitModel::Awaited(start, end), ..set_top(m, FrameModel { index: end, ..f }) },
                ActionModel::Await(names, m.cwd.current),
            )
        },
    }
}

pub open spec fn is_extra_directive(name: Seq<char>) -> bool {
    file_op_of(name) is Some || name == "open"@ || name == "selfhelp"@ || name == "await"@ || name
        == "watch"@
}

/// `@watch PATH...` over exactly one indented line, one level deeper, of
/// one expression that reaches no `@await`.
pub open spec fn watch_step(m: RunModel, file: FileModel, ln: nat, args: Seq<char>) -> TickModel {
    let f = top(m);
    let lines = lines_of(file, f.task);
    let start = f.index + 1;
    let end = block_end(lines, start, f.end, f.indent);
    if start == end {
        fail(m, line_prefixed_text(ln, "@watch expects an indented line"@))
    } else if end != start + 1 {
        fail(m, line_prefixed_text(ln, "@watch expects exactly one indented line"@))
    } else if lines[start].indent != f.indent + 2 {
        fail(
            m,
            line_prefixed_text(
                lines[start].line_number,
                "@watch action must be indented exactly one level"@,
            ),
        )
    } else if line_expressions(lines[start].text).len() != 1 {
        fail(m, line_prefixed_text(lines[start].line_number, "@watch action must be one expression"@))
    } else {
        match watch_line_error(file, lines[start].line_number, lines[start].text) {
            Some(e) => fail(m, e),
            None => match interpolate_argv_spec(args, m.vars) {
                Err(e) => fail(m, e),
                Ok(paths) => if paths.len() == 0 {
                    fail(m, line_prefixed_text(ln, "@watch expects at least one path"@))
                } else {
                    TickModel::Stop(
                        RunModel {
                            wait: WaitModel::Status,
                            ..set_top(m, FrameModel { index: end, ..f })
                        },
                        ActionModel::Watch(paths, m.cwd.current, f.task, start, f.indent + 2, ln),
                    )
                },
            },
        }
    }
}

/// The file system directives, `@open`, `@selfhelp` and `@await`.
#[verifier::opaque]
pub open spec fn extra_directive(m: RunModel, file: FileModel, ln: nat, name: Seq<char>, args: Seq<char>) -> TickModel {
    if file_op_of(name) is Some {
        files_step(m, ln, file_op_of(name)->0, args)
    } else if name == "open"@ {
        open_step(m, ln, args)
    } else if name == "selfhelp"@ {
        selfhelp_step(m, file, ln, args)
    } else if name == "await"@ {
        await_step(m, file, ln, args)
    } else {
        watch_step(m, file, ln, args)
    }
}

/// The frames of the running task removed (its captures with them); the
/// task's status is 0.
pub open spec fn stop_task(m: RunModel) -> RunModel
    decreases m.frames.len(),
{
    if m.frames.len() == 0 {
        m
    } else {
        match top(m).finish {
            FinishModel::Task(_, _) => with_pending(pop_frame(m), 0),
            FinishModel::Capture(_) => stop_task(
                RunModel { captures: m.captures.drop_last(), ..pop_frame(m) },
            ),
            FinishModel::Plain => stop_task(pop_frame(m)),
        }
    }
}

/// One directive line `@name args` of the top block.
#[verifier::opaque]
pub open spec fn directive_step(
    m: RunModel,
    file: FileModel,
    ln: nat,
    name: Seq<char>,
    args: Seq<char>,
) -> TickModel {
    if name == "and"@ || name == "or"@ {
        chain_step(m, file, ln, name)
    } else if name == "shell"@ {
        match interpolate_spec(args, m.vars, QuoteMode::Shell) {
            Err(e) => fail(m, e),
            Ok(cmd) => TickModel::Stop(
                RunModel { wait: WaitModel::Status, ..advance(m) },
                ActionModel::Shell(cmd, m.cwd.current, capturing(m)),
            ),
        }
    } else if name == "task"@ {
        match interpolate_argv_spec(args, m.vars) {
            Err(e) => fail(m, e),
            Ok(argv) => if argv.len() == 0 {
                fail(m, line_prefixed_text(ln, "@task expects a task name"@))
            } else {
                call_task(advance(m), file, argv[0], argv.drop_first())
            },
        }
    } else if name == "cd"@ {
        path_step(m, ln, args, "@cd expects exactly one path"@, true)
    } else if name == "back"@ {
        if trim(args).len() > 0 {
            fail(m, line_prefixed_text(ln, "@back does not take arguments"@))
        } else {
            TickModel::Continue(with_pending(RunModel { cwd: back_spec(m.cwd), ..advance(m) }, 0))
        }
    } else if name == "desc"@ || name == "success"@ {
        TickModel::Continue(with_pending(advance(m), 0))
    } else if name == "fail"@ {
        TickModel::Continue(with_pending(advance(m), 1))
    } else if name == "echo"@ {
        match interpolate_spec(args, m.vars, QuoteMode::Raw) {
            Err(e) => fail(m, e),
            Ok(v) => output(advance(m), v + "\n"@, 0),
        }
    } else if name == "clean"@ {
        path_step(m, ln, args, "@clean expects exactly one path"@, false)
    } else if name == "stop"@ {
        if trim(args).len() > 0 {
            match interpolate_spec(args, m.vars, QuoteMode::Raw) {
                Err(e) => fail(m, e),
                Ok(v) => output(advance(m), v + "\n"@, 1),
            }
        } else {
            TickModel::Continue(with_pending(advance(m), 1))
        }
    } else if name == "return"@ {
        return_step(m, file, args)
    } else if name == "set"@ {
        set_step(m, file, ln, args)
    } else if name == "export"@ {
        match export_mutation_spec(args, m.vars, ln) {
            Err(e) => fail(m, e),
            Ok((k, v)) => TickModel::Continue(
                with_pending(
                    RunModel { vars: m.vars.insert(k, v), exports: m.exports.insert(k, v), ..advance(m) },
                    0,
                ),
            ),
        }
    } else if name == "unset"@ {
        unset_step(m, ln, args)
    } else if bump_directive_kind(name) is Some {
        bump_step(m, ln, name, args)
    } else if name == "version"@ {
        fail(m, line_prefixed_text(ln, "@version can only be used as a top-level header"@))
    } else if is_condition_name(name) {
        if_step(m, file, name, args)
    } else if name == "else"@ {
        fail(m, line_prefixed_text(ln, "@else without matching @if"@))
    } else if name == "switch"@ {
        switch_step(m, file, ln, args)
    } else if name == "case"@ || name == "default"@ {
        fail(m, line_prefixed_text(ln, "@"@ + name + " without matching @switch"@))
    } else if is_extra_directive(name) {
        extra_directive(m, file, ln, name, args)
    } else if name.len() == 0 {
        fail(m, line_prefixed_text(ln, "empty directive"@))
    } else {
        fail(m, line_prefixed_text(ln, "unknown directive @"@ + name))
    }
}

/// The next line of the top block.
#[verifier::opaque]
pub open spec fn line_step(m: RunModel, file: FileModel) -> TickModel {
    let f = top(m);
    let l = lines_of(file, f.task)[f.index];
    if l.indent > f.indent {
        fail(m, line_prefixed_text(l.line_number, "unexpected indentation"@))
    } else if l.text.len() > 0 && l.text[0] == '@' {
        let (name, args) = split_directive_spec(l.text.drop_first());
        directive_step(m, file, l.line_number, name, args)
    } else {
        match interpolate_argv_spec(l.text, m.vars) {
            Err(e) => fail(m, e),
            Ok(argv) => if argv.len() == 0 {
                TickModel::Continue(with_pending(advance(m), 0))
            } else {
                TickModel::Stop(
                    RunModel { wait: WaitModel::Status, ..advance(m) },
                    ActionModel::Run(argv, m.cwd.current, capturing(m)),
                )
            },
        }
    }
}

pub open spec fn step_limit_text() -> Seq<char> {
    "execution step limit reached; possible infinite loop"@
}

/// One move: hand a pending status to its block, close a finished block,
/// or take the next line.
#[verifier::opaque]
pub open spec fn tick(m: RunModel, file: FileModel) -> TickModel {
    if m.steps >= MAX_EXECUTION_STEPS {
        fail(m, step_limit_text())
    } else {
        let m1 = RunModel { steps: m.steps + 1, ..m };
        match m1.pending {
            Some(s) => deliver(m1, file, s),
            None => if m1.frames.len() == 0 {
                TickModel::Stop(m1, ActionModel::Finished(0))
            } else {
                let f = top(m1);
                if f.index >= f.end || lines_of(file, f.task)[f.index].indent < f.indent {
                    finish_frame(m1, f.previous)
                } else {
                    line_step(m1, file)
                }
            },
        }
    }
}

/// Moves until an action is due.
pub open spec fn run(m: RunModel, file: FileModel) -> (RunModel, ActionModel)
    decreases MAX_EXECUTION_STEPS - m.steps,
{
    match tick(m, file) {
        TickModel::Stop(m2, a) => (m2, a),
        TickModel::Continue(m2) => if m2.steps > m.steps && m2.steps <= MAX_EXECUTION_STEPS {
            run(m2, file)
        } else {
            (m2, ActionModel::Failed(step_limit_text()))
        },
    }
}

pub open spec fn unexpected_event_text() -> Seq<char> {
    "the runner received an answer it did not ask for"@
}

/// The runner's state once the caller answers.
#[verifier::opaque]
pub open spec fn answer(m: RunModel, event: EventModel) -> TickModel {
    let m0 = RunModel { wait: WaitModel::Idle, ..m };
    match event {
        EventModel::Failed(e) => fail(m, e),
        EventModel::Status(code, out) => match m.wait {
            WaitModel::Awaited(s, e) => if code == 0 {
                run_range(m0, top(m).task, s, e, top(m).indent + 2)
            } else {
                TickModel::Continue(with_pending(m0, code))
            },
            WaitModel::Status => TickModel::Continue(
                RunModel {
                    captures: if m.captures.len() > 0 {
                        m.captures.update(m.captures.len() - 1, m.captures.last() + out)
                    } else {
                        m.captures
                    },
                    pending: Some(code),
                    ..m0
                },
            ),
            _ => fail(m, unexpected_event_text()),
        },
        EventModel::Path(p, yes) => match m.wait {
            WaitModel::Branch(ts, te, el, expect) => branch(
                m0,
                top(m).task,
                top(m).indent,
                ts,
                te,
                el,
                yes == expect,
            ),
            WaitModel::Cd(ln) => if yes {
                TickModel::Continue(RunModel { cwd: cd_spec(m.cwd, p), pending: Some(0), ..m0 })
            } else {
                fail(m, line_prefixed_text(ln, "@cd path is not a directory: "@ + p))
            },
            _ => fail(m, unexpected_event_text()),
        },
        EventModel::Bumped(key, value) => match m.wait {
            WaitModel::Bumped(name, kind) => TickModel::Continue(
                RunModel {
                    vars: m.vars.insert(key, value),
                    exports: m.exports.insert(key, value),
                    bumped: m.bumped.insert(name, bump_kind_name(kind)),
                    pending: Some(0),
                    ..m0
                },
            ),
            _ => fail(m, unexpected_event_text()),
        },
        EventModel::Awaited(code, exported) => match m.wait {
            WaitModel::Awaited(s, e) => {
                let m1 = RunModel {
                    vars: m.vars.union_prefer_right(exported),
                    exports: m.exports.union_prefer_right(exported),
                    ..m0
                };
                if code == 0 {
                    run_range(m1, top(m).task, s, e, top(m).indent + 2)
                } else {
                    TickModel::Continue(with_pending(m1, code))
                }
            },
            _ => fail(m, unexpected_event_text()),
        },
        EventModel::Done => match m.wait {
            WaitModel::Printed(s) => TickModel::Continue(with_pending(m0, s)),
            WaitModel::Removed => TickModel::Continue(with_pending(m0, 0)),
            WaitModel::StopTask => TickModel::Continue(stop_task(m0)),
            _ => fail(m, unexpected_event_text()),
        },
    }
}

pub open spec fn settle_tick(t: TickModel, file: FileModel) -> (RunModel, ActionModel) {
    match t {
        TickModel::Stop(m2, a) => (m2, a),
        TickModel::Continue(m2) => run(m2, file),
    }
}


impl View for Finish {
    type V = FinishModel;

    open spec fn view(&self) -> FinishModel {
        match self {
            Finish::Task(a, b) => FinishModel::Task(a@, b@),
            Finish::Plain => FinishModel::Plain,
            Finish::Capture(n) => FinishModel::Capture(n@),
        }
    }
}

impl View for Frame {
    type V = FrameModel;

    open spec fn view(&self) -> FrameModel {
        FrameModel {
            task: self.task as int,
            index: self.index as int,
            end: self.end as int,
            indent: self.indent as int,
            previous: self.previous,
            finish: self.finish@,
        }
    }
}

pub open spec fn range_view(r: Option<(usize, usize)>) -> Option<(int, int)> {
    match r {
        Some((a, b)) => Some((a as int, b as int)),
        None => None,
    }
}

impl View for Wait {
    type V = WaitModel;

    open spec fn view(&self) -> WaitModel {
        match self {
            Wait::Idle => WaitModel::Idle,
            Wait::Status => WaitModel::Status,
            Wait::Branch(a, b, r, e) => WaitModel::Branch(*a as int, *b as int, range_view(*r), *e),
            Wait::Cd(ln) => WaitModel::Cd(*ln as nat),
            Wait::Printed(s) => WaitModel::Printed(*s),
            Wait::Removed => WaitModel::Removed,
            Wait::Bumped(n, k) => WaitModel::Bumped(n@, *k),
            Wait::StopTask => WaitModel::StopTask,
            Wait::Awaited(a, b) => WaitModel::Awaited(*a as int, *b as int),
        }
    }
}

pub open spec fn opt_text(o: Option<Vec<char>>) -> Option<Seq<char>> {
    match o {
        Some(v) => Some(v@),
        None => None,
    }
}

pub open spec fn argv_view(v: Seq<Vec<char>>) -> Seq<Seq<char>> {
    v.map_values(|x: Vec<char>| x@)
}

impl View for Action {
    type V = ActionModel;

    open spec fn view(&self) -> ActionModel {
        match self {
            Action::Run(a, d, c) => ActionModel::Run(argv_view(a@), d@, *c),
            Action::Shell(a, d, c) => ActionModel::Shell(a@, d@, *c),
            Action::Print(t) => ActionModel::Print(t@),
            Action::IsDir(d, p) => ActionModel::IsDir(d@, p@),
            Action::Exists(d, p) => ActionModel::Exists(d@, p@),
            Action::Remove(d, p, b, ln) => ActionModel::Remove(d@, p@, b@, *ln as nat),
            Action::Bump(n, o, p, l) => ActionModel::Bump(n@, o@, opt_text(*p), *l as nat),
            Action::Files(op, d, a, l) => ActionModel::Files(*op, d@, argv_view(a@), *l as nat),
            Action::Open(u) => ActionModel::Open(u@),
            Action::SelfHelp(n) => ActionModel::SelfHelp(n@),
            Action::Await(n, d) => ActionModel::Await(argv_view(n@), d@),
            Action::Watch(p, d, t, l, i, ln) => ActionModel::Watch(
                argv_view(p@),
                d@,
                *t as int,
                *l as int,
                *i as int,
                *ln as nat,
            ),
            Action::Finished(s) => ActionModel::Finished(*s),
            Action::Failed(e) => ActionModel::Failed(e@),
        }
    }
}

impl View for Event {
    type V = EventModel;

    open spec fn view(&self) -> EventModel {
        match self {
            Event::Status(s, o) => EventModel::Status(*s, o@),
            Event::Path(p, b) => EventModel::Path(p@, *b),
            Event::Done => EventModel::Done,
            Event::Bumped(k, v) => EventModel::Bumped(k@, v@),
            Event::Awaited(s, x) => EventModel::Awaited(*s, x@),
            Event::Failed(e) => EventModel::Failed(e@),
        }
    }
}

/// A run in progress.
pub struct Runner {
    frames: Vec<Frame>,
    vars: VarMap,
    exports: VarMap,
    bumped: VarMap,
    cwd: CwdState,
    calls: Vec<usize>,
    captures: Vec<Vec<char>>,
    steps: usize,
    pending: Option<i32>,
    wait: Wait,
}

pub open spec fn frame_views(v: Seq<Frame>) -> Seq<FrameModel> {
    v.map_values(|f: Frame| f@)
}

pub open spec fn call_views(v: Seq<usize>) -> Seq<int> {
    v.map_values(|t: usize| t as int)
}

pub open spec fn text_views(v: Seq<Vec<char>>) -> Seq<Seq<char>> {
    v.map_values(|x: Vec<char>| x@)
}

impl View for Runner {
    type V = RunModel;

    closed spec fn view(&self) -> RunModel {
        RunModel {
            frames: frame_views(self.frames@),
            vars: self.vars@,
            exports: self.exports@,
            bumped: self.bumped@,
            cwd: self.cwd@,
            calls: call_views(self.calls@),
            captures: text_views(self.captures@),
            steps: self.steps as nat,
            pending: self.pending,
            wait: self.wait@,
        }
    }
}

/// Every line's indentation leaves room for the runner's arithmetic.
pub open spec fn indents_fit(file: FileModel) -> bool {
    forall|t: int, i: int|
        0 <= t < file.tasks.len() && 0 <= i < file.tasks[t].lines.len() ==> #[trigger] file.tasks[t].lines[i].indent
            <= usize::MAX - 16
}

pub open spec fn task_frames(frames: Seq<FrameModel>) -> nat
    decreases frames.len(),
{
    if frames.len() == 0 {
        0
    } else {
        task_frames(frames.drop_last()) + if frames.last().finish is Task {
            1nat
        } else {
            0nat
        }
    }
}

pub open spec fn capture_frames(frames: Seq<FrameModel>) -> nat
    decreases frames.len(),
{
    if frames.len() == 0 {
        0
    } else {
        capture_frames(frames.drop_last()) + if frames.last().finish is Capture {
            1nat
        } else {
            0nat
        }
    }
}

pub open spec fn frame_ok(file: FileModel, f: FrameModel) -> bool {
    &&& 0 <= f.task < file.tasks.len()
    &&& 0 <= f.index <= f.end <= file.tasks[f.task].lines.len()
    &&& 0 <= f.indent <= usize::MAX - 8
}

/// A range that the runner may open as a block below frame `f`.
pub open spec fn range_ok(file: FileModel, f: FrameModel, a: int, b: int, indent: int) -> bool {
    &&& 0 <= a <= b <= f.end
    &&& a < b ==> lines_of(file, f.task)[a].indent > indent
}

impl Runner {
    pub closed spec fn inv(&self, file: FileModel) -> bool {
        let m = self@;
        &&& self.sound(file)
        &&& (m.wait !is Idle ==> m.frames.len() > 0)
        &&& (m.wait matches WaitModel::Awaited(a, b) ==> range_ok(file, top(m), a, b, top(m).indent))
        &&& (m.wait matches WaitModel::Branch(ts, te, el, _) ==> range_ok(
            file,
            top(m),
            ts,
            te,
            top(m).indent,
        ) && (el matches Some((a, b)) ==> range_ok(file, top(m), a, b, top(m).indent)))
    }

    pub closed spec fn sound(&self, file: FileModel) -> bool {
        let m = self@;
        &&& self.vars.wf()
        &&& self.exports.wf()
        &&& self.bumped.wf()
        &&& cwd_wf(m.cwd)
        &&& indents_fit(file)
        &&& forall|k: int| 0 <= k < m.frames.len() ==> #[trigger] frame_ok(file, m.frames[k])
        &&& forall|k: int|
            0 <= k < self.frames@.len() ==> (#[trigger] self.frames@[k].finish matches Finish::Task(a, b)
                ==> a.wf() && b.wf())
        &&& forall|k: int| 0 <= k < m.calls.len() ==> 0 <= #[trigger] m.calls[k] < file.tasks.len()
        &&& m.calls.len() == task_frames(m.frames)
        &&& m.captures.len() == capture_frames(m.frames)
        &&& m.steps <= MAX_EXECUTION_STEPS
    }
}

/// How an exec step reports a move: `None` to go on, or the action.
pub open spec fn moved(t: TickModel, m: RunModel, a: Option<ActionModel>) -> bool {
    match t {
        TickModel::Continue(m2) => a is None && m == m2,
        TickModel::Stop(m2, a2) => a == Some(a2) && m == m2,
    }
}

pub open spec fn opt_action(a: Option<Action>) -> Option<ActionModel> {
    match a {
        Some(x) => Some(x@),
        None => None,
    }
}

/// The variables after a task call returns.
fn restore_vars(snapshot: VarMap, previous: &VarMap, exports: &VarMap) -> (r: VarMap)
    requires
        snapshot.wf(),
        previous.wf(),
        exports.wf(),
    ensures
        r.wf(),
        r@ == restore_spec(snapshot@, previous@, exports@),
{
    let ghost s = snapshot@;
    let ghost e = exports@;
    let ghost pk = previous.key_order();
    let ghost ek = exports.key_order();
    proof {
        previous.lemma_key_order();
        exports.lemma_key_order();
    }
    let mut v = snapshot;
    let mut i: usize = 0;
    assert(v@ =~= Map::new(
        |k: Seq<char>| s.contains_key(k) && !(pk.take(0).contains(k) && !e.contains_key(k)),
        |k: Seq<char>| s[k],
    ));
    while i < previous.len()
        invariant
            v.wf(),
            previous.wf(),
            exports.wf(),
            pk == previous.key_order(),
            e == exports@,
            i <= pk.len(),
            v@ == Map::new(
                |k: Seq<char>| s.contains_key(k) && !(pk.take(i as int).contains(k) && !e.contains_key(k)),
                |k: Seq<char>| s[k],
            ),
        decreases pk.len() - i,
    {
        let (k, _) = previous.entry(i);
        let ghost kv = k@;
        if !exports.contains_key(&k) {
            v.remove(&k);
        }
        assert forall|x: Seq<char>| pk.take(i + 1).contains(x) <==> (pk.take(i as int).contains(x)
            || x == kv) by {
            if pk.take(i + 1).contains(x) {
                let j = choose|j: int| 0 <= j < i + 1 && #[trigger] pk.take(i + 1)[j] == x;
                if j < i {
                    assert(pk.take(i as int)[j] == x);
                }
            }
            if pk.take(i as int).contains(x) {
                let j = choose|j: int| 0 <= j < i && #[trigger] pk.take(i as int)[j] == x;
                assert(pk.take(i + 1)[j] == x);
            }
            if x == kv {
                assert(pk.take(i + 1)[i as int] == x);
            }
        }
        i = i + 1;
        assert(v@ =~= Map::new(
            |k: Seq<char>| s.contains_key(k) && !(pk.take(i as int).contains(k) && !e.contains_key(k)),
            |k: Seq<char>| s[k],
        ));
    }
    assert(pk.take(pk.len() as int) =~= pk);
    let ghost base = v@;
    let mut j: usize = 0;
    assert(v@ =~= Map::new(
        |k: Seq<char>| base.contains_key(k) || ek.take(0).contains(k),
        |k: Seq<char>|
            if ek.take(0).contains(k) {
                e[k]
            } else {
                base[k]
            },
    ));
    while j < exports.len()
        invariant
            v.wf(),
            exports.wf(),
            ek == exports.key_order(),
            e == exports@,
            j <= ek.len(),
            v@ == Map::new(
                |k: Seq<char>| base.contains_key(k) || ek.take(j as int).contains(k),
                |k: Seq<char>|
                    if ek.take(j as int).contains(k) {
                        e[k]
                    } else {
                        base[k]
                    },
            ),
        decreases ek.len() - j,
    {
        let (k, val) = exports.entry(j);
        let ghost kv = k@;
        v.insert(k, val);
        assert forall|x: Seq<char>| ek.take(j + 1).contains(x) <==> (ek.take(j as int).contains(x)
            || x == kv) by {
            if ek.take(j + 1).contains(x) {
                let q = choose|q: int| 0 <= q < j + 1 && #[trigger] ek.take(j + 1)[q] == x;
                if q < j {
                    assert(ek.take(j as int)[q] == x);
                }
            }
            if ek.take(j as int).contains(x) {
                let q = choose|q: int| 0 <= q < j && #[trigger] ek.take(j as int)[q] == x;
                assert(ek.take(j + 1)[q] == x);
            }
            if x == kv {
                assert(ek.take(j + 1)[j as int] == x);
            }
        }
        let ghost target = Map::new(
            |k: Seq<char>| base.contains_key(k) || ek.take(j + 1).contains(k),
            |k: Seq<char>|
                if ek.take(j + 1).contains(k) {
                    e[k]
                } else {
                    base[k]
                },
        );
        assert(ek.take(j + 1)[j as int] == kv);
        assert(ek.take(j + 1).contains(kv));
        assert forall|x: Seq<char>| #[trigger] v@.contains_key(x) == target.contains_key(x) by {
            if ek.take(j as int).contains(x) {
                assert(ek.take(j + 1).contains(x));
            }
        }
        assert forall|x: Seq<char>| v@.contains_key(x) implies #[trigger] v@[x] == target[x] by {
            if x == kv {
                assert(ek.take(j + 1).contains(x));
            } else if ek.take(j as int).contains(x) {
                assert(ek.take(j + 1).contains(x));
            } else {
                assert(!ek.take(j + 1).contains(x));
            }
        }
        assert(v@ =~= target);
        j = j + 1;
        assert(v@ =~= Map::new(
            |k: Seq<char>| base.contains_key(k) || ek.take(j as int).contains(k),
            |k: Seq<char>|
                if ek.take(j as int).contains(k) {
                    e[k]
                } else {
                    base[k]
                },
        ));
    }
    assert(ek.take(ek.len() as int) =~= ek);
    assert(v@ =~= restore_spec(s, previous@, e));
    v
}


proof fn lemma_unwind_captures(m: RunModel, c: Seq<Seq<char>>)
    ensures
        unwind(RunModel { captures: c, ..m }) == unwind(m),
    decreases m.frames.len(),
{
    let m2 = RunModel { captures: c, ..m };
    if m.frames.len() > 0 {
        assert(pop_frame(m2) == RunModel { captures: c, ..pop_frame(m) });
        lemma_unwind_captures(pop_frame(m), c);
    }
}

proof fn lemma_counts_push(frames: Seq<FrameModel>, f: FrameModel)
    ensures
        task_frames(frames.push(f)) == task_frames(frames) + if f.finish is Task {
            1nat
        } else {
            0nat
        },
        capture_frames(frames.push(f)) == capture_frames(frames) + if f.finish is Capture {
            1nat
        } else {
            0nat
        },
{
    assert(frames.push(f).drop_last() =~= frames);
}

proof fn lemma_counts_update_top(frames: Seq<FrameModel>, f: FrameModel)
    requires
        frames.len() > 0,
        f.finish == frames.last().finish,
    ensures
        task_frames(frames.update(frames.len() - 1, f)) == task_frames(frames),
        capture_frames(frames.update(frames.len() - 1, f)) == capture_frames(frames),
{
    assert(frames.update(frames.len() - 1, f).drop_last() =~= frames.drop_last());
}

fn msg(text: &str) -> (r: Vec<char>)
    ensures
        r@ == text@,
{
    str_chars(text)
}

fn at_line(ln: usize, text: &str) -> (e: CjError)
    ensures
        e@ == line_prefixed_text(ln as nat, text@),
{
    line_prefixed(ln, &str_chars(text))
}

fn int_chars(s: i32) -> (r: Vec<char>)
    ensures
        r@ == int_text(s),
{
    if s < 0 {
        let mut r = str_chars("-");
        let w: i64 = s as i64;
        let u: u64 = (0 - w) as u64;
        push_decimal(&mut r, u);
        r
    } else {
        let mut r: Vec<char> = Vec::new();
        push_decimal(&mut r, s as u64);
        assert(r@ =~= decimal(s as nat));
        r
    }
}

fn trim_newline_chars(s: &Vec<char>) -> (r: Vec<char>)
    ensures
        r@ == trim_newlines(s@),
{
    let mut n = s.len();
    assert(s@.take(n as int) =~= s@);
    while n > 0 && (s[n - 1] == '\r' || s[n - 1] == '\n')
        invariant
            n <= s.len(),
            trim_newlines(s@) == trim_newlines(s@.take(n as int)),
        decreases n,
    {
        assert(s@.take(n as int).drop_last() =~= s@.take(n - 1));
        n = n - 1;
    }
    let r = subvec(s, 0, n);
    assert(r@ =~= s@.take(n as int));
    r
}

impl Runner {
    /// The fields of the top frame: task, next line, end, indentation, previous status.
    fn top_fields(&self) -> (r: (usize, usize, usize, usize, i32))
        requires
            self@.frames.len() > 0,
        ensures
            r.0 == top(self@).task,
            r.1 == top(self@).index,
            r.2 == top(self@).end,
            r.3 == top(self@).indent,
            r.4 == top(self@).previous,
    {
        let n = self.frames.len();
        let f = &self.frames[n - 1];
        assert(frame_views(self.frames@)[n - 1] == f@);
        (f.task, f.index, f.end, f.indent, f.previous)
    }

    /// Sets where the top frame goes on and its previous status.
    fn set_top_fields(&mut self, file: &TaskFile, index: usize, previous: i32)
        requires
            old(self).sound(file@),
            old(self)@.frames.len() > 0,
            index <= top(old(self)@).end,
        ensures
            final(self).sound(file@),
            final(self)@ == set_top(
                old(self)@,
                FrameModel { index: index as int, previous, ..top(old(self)@) },
            ),
    {
        let ghost before = frame_views(self.frames@);
        let n = self.frames.len();
        self.frames[n - 1].index = index;
        self.frames[n - 1].previous = previous;
        let ghost nf = FrameModel { index: index as int, previous, ..before.last() };
        assert(frame_views(self.frames@) =~= before.update(n - 1, nf));
        proof {
            lemma_counts_update_top(before, nf);
            assert forall|k: int| 0 <= k < self@.frames.len() implies #[trigger] frame_ok(
                file@,
                self@.frames[k],
            ) by {
                if k != n - 1 {
                    assert(self@.frames[k] == before[k]);
                } else {
                    assert(frame_ok(file@, before[k]));
                }
            }
            assert forall|k: int| 0 <= k < self.frames@.len() implies (
            #[trigger] self.frames@[k].finish matches Finish::Task(a, b) ==> a.wf() && b.wf()) by {
                assert(self.frames@[k].finish == old(self).frames@[k].finish);
            }
        }
    }

    /// Pushes a frame.
    fn push_frame(&mut self, file: &TaskFile, f: Frame)
        requires
            old(self).sound(file@),
            frame_ok(file@, f@),
            f.finish matches Finish::Task(a, b) ==> a.wf() && b.wf(),
            !(f.finish is Task),
            !(f.finish is Capture),
        ensures
            final(self).sound(file@),
            final(self)@ == (RunModel { frames: old(self)@.frames.push(f@), ..old(self)@ }),
    {
        let ghost before = frame_views(self.frames@);
        let ghost fv = f@;
        self.frames.push(f);
        assert(frame_views(self.frames@) =~= before.push(fv));
        proof {
            lemma_counts_push(before, fv);
            assert forall|k: int| 0 <= k < self@.frames.len() implies #[trigger] frame_ok(
                file@,
                self@.frames[k],
            ) by {
                if k < before.len() {
                    assert(self@.frames[k] == before[k]);
                }
            }
            assert forall|k: int| 0 <= k < self.frames@.len() implies (
            #[trigger] self.frames@[k].finish matches Finish::Task(a, b) ==> a.wf() && b.wf()) by {
                if k < before.len() {
                    assert(self.frames@[k] == old(self).frames@[k]);
                }
            }
        }
    }

    /// Removes the top frame, undoing a task call's variables, call and scope.
    fn pop_frame(&mut self, file: &TaskFile)
        requires
            old(self).sound(file@),
            old(self)@.frames.len() > 0,
            !(top(old(self)@).finish is Capture),
        ensures
            final(self).sound(file@),
            final(self)@ == pop_frame(old(self)@),
    {
        let ghost m = self@;
        let ghost before = frame_views(self.frames@);
        let f = self.frames.pop().unwrap();
        assert(frame_views(self.frames@) =~= before.drop_last());
        assert(f@ == before.last());
        proof {
            assert forall|k: int| 0 <= k < self@.frames.len() implies #[trigger] frame_ok(
                file@,
                self@.frames[k],
            ) by {
                assert(self@.frames[k] == before[k]);
            }
            assert forall|k: int| 0 <= k < self.frames@.len() implies (
            #[trigger] self.frames@[k].finish matches Finish::Task(a, b) ==> a.wf() && b.wf()) by {
                assert(self.frames@[k] == old(self).frames@[k]);
            }
        }
        match f.finish {
            Finish::Task(snap, exps) => {
                assert(old(self).frames@[old(self).frames@.len() - 1].finish matches Finish::Task(a, b)
                    ==> a.wf() && b.wf());
                let v = restore_vars(snap, &exps, &self.exports);
                self.vars = v;
                let ghost cb = call_views(self.calls@);
                self.calls.pop();
                assert(call_views(self.calls@) =~= cb.drop_last());
            },
            _ => {},
        }
        self.cwd.pop_scope();
    }

    /// Removes the top frame of a capturing block and its capture.
    fn pop_capture_frame(&mut self, file: &TaskFile) -> (r: (Vec<char>, Vec<char>))
        requires
            old(self).sound(file@),
            old(self)@.frames.len() > 0,
            top(old(self)@).finish is Capture,
        ensures
            final(self).sound(file@),
            final(self)@ == (RunModel {
                captures: old(self)@.captures.drop_last(),
                ..pop_frame(old(self)@)
            }),
            top(old(self)@).finish == FinishModel::Capture(r.0@),
            r.1@ == old(self)@.captures.last(),
    {
        let ghost m = self@;
        let ghost before = frame_views(self.frames@);
        let f = self.frames.pop().unwrap();
        assert(frame_views(self.frames@) =~= before.drop_last());
        assert(f@ == before.last());
        let ghost cb = text_views(self.captures@);
        assert(self.captures@.len() > 0);
        let c = self.captures.pop().unwrap();
        assert(text_views(self.captures@) =~= cb.drop_last());
        proof {
            assert forall|k: int| 0 <= k < self@.frames.len() implies #[trigger] frame_ok(
                file@,
                self@.frames[k],
            ) by {
                assert(self@.frames[k] == before[k]);
            }
            assert forall|k: int| 0 <= k < self.frames@.len() implies (
            #[trigger] self.frames@[k].finish matches Finish::Task(a, b) ==> a.wf() && b.wf()) by {
                assert(self.frames@[k] == old(self).frames@[k]);
            }
        }
        self.cwd.pop_scope();
        match f.finish {
            Finish::Capture(name) => (name, c),
            _ => (Vec::new(), c),
        }
    }

    /// Removes the frames of the running task, its captures with them.
    fn stop_task(&mut self, file: &TaskFile)
        requires
            old(self).sound(file@),
            old(self)@.wait is Idle,
        ensures
            final(self).inv(file@),
            final(self)@ == stop_task(old(self)@),
            final(self)@.wait is Idle,
        decreases old(self)@.frames.len(),
    {
        if self.frames.len() == 0 {
            return;
        }
        let n = self.frames.len();
        assert(frame_views(self.frames@)[n - 1] == self.frames@[n - 1]@);
        match self.frames[n - 1].finish {
            Finish::Task(_, _) => {
                self.pop_frame(file);
                self.pending = Some(0);
            },
            Finish::Capture(_) => {
                let _ = self.pop_capture_frame(file);
                self.stop_task(file);
            },
            Finish::Plain => {
                self.pop_frame(file);
                self.stop_task(file);
            },
        }
    }

    /// Removes every frame, as a failed run does.
    fn unwind(&mut self, file: &TaskFile)
        requires
            old(self).sound(file@),
        ensures
            final(self).inv(file@),
            final(self)@ == unwind(old(self)@),
            final(self)@.steps == old(self)@.steps,
        decreases old(self)@.frames.len(),
    {
        if self.frames.len() == 0 {
            self.captures.clear();
            assert(text_views(self.captures@) =~= seq![]);
            self.pending = None;
            self.wait = Wait::Idle;
            return;
        }
        let n = self.frames.len();
        assert(frame_views(self.frames@)[n - 1] == self.frames@[n - 1]@);
        if let Finish::Capture(_) = self.frames[n - 1].finish {
            let ghost m = self@;
            let _ = self.pop_capture_frame(file);
            proof {
                lemma_unwind_captures(pop_frame(m), m.captures.drop_last());
            }
            self.unwind(file);
            return;
        }
        self.pop_frame(file);
        self.unwind(file);
    }
}


pub proof fn lemma_block_end_first(lines: Seq<TaskLineModel>, start: int, end: int, indent: int)
    ensures
        block_end(lines, start, end, indent) > start ==> start < end && lines[start].indent > indent,
{
}

/// The end of the block deeper than `indent` starting at `start`.
fn block_end_exec(file: &TaskFile, t: usize, start: usize, end: usize, indent: usize) -> (r: usize)
    requires
        t < file@.tasks.len(),
        end <= file@.tasks[t as int].lines.len(),
        start <= end,
    ensures
        r == block_end(lines_of(file@, t as int), start as int, end as int, indent as int),
        start <= r <= end,
{
    let mut c = start;
    while c < end && file.line_at(t, c).1 > indent
        invariant
            t < file@.tasks.len(),
            end <= file@.tasks[t as int].lines.len(),
            start <= c <= end,
            block_end(lines_of(file@, t as int), start as int, end as int, indent as int) == block_end(
                lines_of(file@, t as int),
                c as int,
                end as int,
                indent as int,
            ),
        decreases end - c,
    {
        c = c + 1;
    }
    c
}

fn next_is_chain_exec(file: &TaskFile, t: usize, index: usize, end: usize, indent: usize) -> (b: bool)
    requires
        t < file@.tasks.len(),
        end <= file@.tasks[t as int].lines.len(),
    ensures
        b == next_is_chain(
            file@,
            FrameModel { task: t as int, index: 0, end: end as int, indent: indent as int, previous: 0, finish: FinishModel::Plain },
            index as int,
        ),
{
    if index >= end {
        return false;
    }
    let (_, ind, text) = file.line_at(t, index);
    if ind != indent {
        return false;
    }
    directive_is(&text, "or") || directive_is(&text, "and")
}

fn directive_is(text: &Vec<char>, name: &str) -> (b: bool)
    ensures
        b == directive_named(text@, name@),
{
    if text.len() > 0 && text[0] == '@' {
        let rest = subvec(text, 1, text.len());
        assert(rest@ =~= text@.drop_first());
        let (n, _) = split_directive(&rest);
        chars_eq_str(&n, name)
    } else {
        false
    }
}

impl Runner {
    fn fail(&mut self, file: &TaskFile, e: CjError) -> (a: Action)
        requires
            old(self).sound(file@),
        ensures
            final(self).inv(file@),
            moved(fail(old(self)@, e@), final(self)@, Some(a@)),
            final(self)@.steps == old(self)@.steps,
    {
        self.unwind(file);
        Action::Failed(e)
    }

    fn finish_frame(&mut self, file: &TaskFile, s: i32) -> (r: Option<Action>)
        requires
            old(self).sound(file@),
            old(self)@.frames.len() > 0,
            old(self)@.wait is Idle,
        ensures
            final(self).inv(file@),
            moved(finish_frame(old(self)@, s), final(self)@, opt_action(r)),
    {
        let ghost m = self@;
        let n = self.frames.len();
        assert(frame_views(self.frames@)[n - 1] == self.frames@[n - 1]@);
        if let Finish::Capture(_) = self.frames[n - 1].finish {
            let (name, content) = self.pop_capture_frame(file);
            if s == 0 {
                let v = trim_newline_chars(&content);
                self.vars.insert(name, v);
                self.pending = Some(0);
                None
            } else {
                let mut text = msg("captured @set block failed with status ");
                append(&mut text, &int_chars(s));
                proof {
                    lemma_unwind_captures(pop_frame(m), m.captures.drop_last());
                }
                Some(self.fail(file, CjError::new(&text)))
            }
        } else {
            self.pop_frame(file);
            self.pending = Some(s);
            None
        }
    }

    fn deliver(&mut self, file: &TaskFile, s: i32) -> (r: Option<Action>)
        requires
            old(self).sound(file@),
            old(self)@.wait is Idle,
        ensures
            final(self).inv(file@),
            moved(deliver(old(self)@, file@, s), final(self)@, opt_action(r)),
    {
        self.pending = None;
        if self.frames.len() == 0 {
            return Some(Action::Finished(s));
        }
        let (t, idx, end, ind, _) = self.top_fields();
        proof {
            assert(frame_ok(file@, self@.frames[self@.frames.len() - 1]));
        }
        self.set_top_fields(file, idx, s);
        if s != 0 && !next_is_chain_exec(file, t, idx, end, ind) {
            self.finish_frame(file, s)
        } else {
            None
        }
    }

    fn push_block(&mut self, file: &TaskFile, task: usize, start: usize, end: usize, indent: usize)
        requires
            old(self).sound(file@),
            task < file@.tasks.len(),
            start <= end <= file@.tasks[task as int].lines.len(),
            indent <= usize::MAX - 8,
        ensures
            final(self).sound(file@),
            final(self)@ == push_block(old(self)@, task as int, start as int, end as int, indent as int),
    {
        self.push_frame(
            file,
            Frame { task, index: start, end, indent, previous: 0, finish: Finish::Plain },
        );
        self.cwd.push_scope();
    }

    fn run_range(&mut self, file: &TaskFile, task: usize, start: usize, end: usize, indent: usize) -> (r:
        Option<Action>)
        requires
            old(self).sound(file@),
            old(self)@.wait is Idle,
            task < file@.tasks.len(),
            start <= end <= file@.tasks[task as int].lines.len(),
            start < end ==> indent <= usize::MAX - 8,
        ensures
            final(self).inv(file@),
            moved(
                run_range(old(self)@, task as int, start as int, end as int, indent as int),
                final(self)@,
                opt_action(r),
            ),
    {
        if start < end {
            self.push_block(file, task, start, end, indent);
        } else {
            self.pending = Some(0);
        }
        None
    }

    fn output(&mut self, file: &TaskFile, text: Vec<char>, s: i32) -> (r: Option<Action>)
        requires
            old(self).sound(file@),
            old(self)@.wait is Idle,
            old(self)@.frames.len() > 0,
        ensures
            final(self).inv(file@),
            moved(output(old(self)@, text@, s), final(self)@, opt_action(r)),
    {
        if self.captures.len() > 0 {
            let ghost before = text_views(self.captures@);
            let mut last = self.captures.pop().unwrap();
            append(&mut last, &text);
            self.captures.push(last);
            assert(text_views(self.captures@) =~= before.update(
                before.len() - 1,
                before.last() + text@,
            ));
            self.pending = Some(s);
            None
        } else {
            self.wait = Wait::Printed(s);
            Some(Action::Print(text))
        }
    }

    fn branch(
        &mut self,
        file: &TaskFile,
        task: usize,
        indent: usize,
        ts: usize,
        te: usize,
        el: Option<(usize, usize)>,
        cond: bool,
    ) -> (r: Option<Action>)
        requires
            old(self).sound(file@),
            old(self)@.wait is Idle,
            task < file@.tasks.len(),
            indent <= usize::MAX - 8,
            ts <= te <= file@.tasks[task as int].lines.len(),
            ts < te ==> lines_of(file@, task as int)[ts as int].indent > indent,
            el matches Some((a, b)) ==> a <= b <= file@.tasks[task as int].lines.len() && (a < b
                ==> lines_of(file@, task as int)[a as int].indent > indent),
        ensures
            final(self).inv(file@),
            moved(
                branch(old(self)@, task as int, indent as int, ts as int, te as int, range_view(el), cond),
                final(self)@,
                opt_action(r),
            ),
    {
        proof {
            if ts < te {
                assert(file@.tasks[task as int].lines[ts as int].indent <= usize::MAX - 16);
            }
            if let Some((a, b)) = el {
                if a < b {
                    assert(file@.tasks[task as int].lines[a as int].indent <= usize::MAX - 16);
                }
            }
        }
        if cond {
            self.run_range(file, task, ts, te, indent + 2)
        } else {
            match el {
                Some((a, b)) => self.run_range(file, task, a, b, indent + 2),
                None => {
                    self.pending = Some(0);
                    None
                },
            }
        }
    }
}


fn is_extra_directive_exec(name: &Vec<char>) -> (b: bool)
    ensures
        b == is_extra_directive(name@),
{
    file_op_exec(name).is_some() || chars_eq_str(name, "open") || chars_eq_str(name, "selfhelp")
        || chars_eq_str(name, "await") || chars_eq_str(name, "watch")
}

fn file_op_exec(name: &Vec<char>) -> (r: Option<FileOp>)
    ensures
        r == file_op_of(name@),
{
    if chars_eq_str(name, "mkdir") {
        Some(FileOp::MakeDirs)
    } else if chars_eq_str(name, "cp") {
        Some(FileOp::CopyFiles)
    } else if chars_eq_str(name, "cpdir") {
        Some(FileOp::CopyDirs)
    } else if chars_eq_str(name, "rename") {
        Some(FileOp::Rename)
    } else {
        None
    }
}

fn files_usage_exec(op: FileOp, n: usize) -> (r: Option<&'static str>)
    ensures
        match r {
            Some(u) => files_usage(op, n as nat) == Some(u@),
            None => files_usage(op, n as nat) is None,
        },
{
    match op {
        FileOp::MakeDirs => if n == 0 {
            Some("@mkdir expects at least one path")
        } else {
            None
        },
        FileOp::CopyFiles => if n < 2 {
            Some("@cp expects one or more source files and a destination")
        } else {
            None
        },
        FileOp::CopyDirs => if n < 2 {
            Some("@cpdir expects one or more source directories and a destination")
        } else {
            None
        },
        FileOp::Rename => if n != 2 {
            Some("@rename expects source and destination")
        } else {
            None
        },
    }
}

proof fn lemma_first_call_sticks(file: FileModel, calls: Seq<int>, name: Seq<char>, j: int)
    requires
        0 <= j <= calls.len(),
        first_call_of(file, calls.take(j), name) is Some,
    ensures
        first_call_of(file, calls, name) == first_call_of(file, calls.take(j), name),
    decreases calls.len() - j,
{
    if j < calls.len() {
        assert(calls.take(j + 1).drop_last() =~= calls.take(j));
        lemma_first_call_sticks(file, calls, name, j + 1);
    } else {
        assert(calls.take(j) =~= calls);
    }
}

impl Runner {
    /// The position of the first call of `name` on the call stack.
    fn first_call(&self, file: &TaskFile, name: &Vec<char>) -> (r: Option<usize>)
        requires
            self.sound(file@),
        ensures
            match r {
                Some(k) => k < self@.calls.len() && first_call_of(file@, self@.calls, name@) == Some(
                    k as int,
                ),
                None => first_call_of(file@, self@.calls, name@) is None,
            },
    {
        let ghost cs = self@.calls;
        let mut k: usize = 0;
        assert(cs.take(0) =~= seq![]);
        while k < self.calls.len()
            invariant
                self.sound(file@),
                cs == self@.calls,
                k <= cs.len(),
                first_call_of(file@, cs.take(k as int), name@) is None,
            decreases cs.len() - k,
        {
            assert(cs.take(k + 1).drop_last() =~= cs.take(k as int));
            assert(cs[k as int] == self.calls@[k as int] as int);
            assert(0 <= cs[k as int] < file@.tasks.len());
            let tn = file.task_name(self.calls[k]);
            if chars_eq(&tn, name) {
                proof {
                    lemma_first_call_sticks(file@, cs, name@, k + 1);
                }
                return Some(k);
            }
            k = k + 1;
        }
        assert(cs.take(cs.len() as int) =~= cs);
        None
    }

    /// `recursive @task cycle detected: a -> b -> a`.
    fn cycle_text(&self, file: &TaskFile, k: usize, name: &Vec<char>) -> (r: Vec<char>)
        requires
            self.sound(file@),
            k < self@.calls.len(),
        ensures
            r@ == cycle_message(file@, self@.calls, k as int, name@),
    {
        let ghost names = call_names(file@, self@.calls.skip(k as int)).push(name@);
        let ghost n = self@.calls.len() - k;
        assert(self.calls@.len() == self@.calls.len());
        assert(names.len() == n + 1);
        assert(self@.calls[k as int] == self.calls@[k as int] as int);
        let mut out = file.task_name(self.calls[k]);
        assert(k < self.calls.len());
        let mut j: usize = k + 1;
        assert(names.take(1) =~= seq![names[0]]);
        assert(names[0] == file@.tasks[self@.calls[k as int]].name);
        while j < self.calls.len()
            invariant
                self.sound(file@),
                k < j <= self.calls@.len(),
                names == call_names(file@, self@.calls.skip(k as int)).push(name@),
                names.len() == self@.calls.len() - k + 1,
                out@ == join_arrows(names.take(j - k)),
            decreases self.calls@.len() - j,
        {
            assert(self@.calls[j as int] == self.calls@[j as int] as int);
            assert(0 <= self@.calls[j as int] < file@.tasks.len());
            let tn = file.task_name(self.calls[j]);
            append_str(&mut out, " -> ");
            append(&mut out, &tn);
            assert(names.take(j - k + 1).drop_last() =~= names.take(j - k));
            assert(names[j - k] == file@.tasks[self@.calls[j as int]].name);
            assert(out@ =~= join_arrows(names.take(j - k + 1)));
            j = j + 1;
        }
        append_str(&mut out, " -> ");
        append(&mut out, name);
        assert(names.take(j - k + 1) =~= names);
        assert(names.take(j - k + 1).drop_last() =~= names.take(j - k));
        assert(out@ =~= join_arrows(names));
        let mut r = msg("recursive @task cycle detected: ");
        append(&mut r, &out);
        r
    }
}

fn arity_text(file: &TaskFile, name: &Vec<char>, t: usize, args: &Vec<Vec<char>>) -> (r: Vec<char>)
    requires
        t < file@.tasks.len(),
    ensures
        r@ == arity_message(file@, name@, t as int, argv_view(args@)),
{
    let n = file.argument_count(t);
    let mut m = wrap_msg("task '", name, "' expects ");
    push_decimal(&mut m, n as u64);
    append_str(&mut m, " arguments, received ");
    push_decimal(&mut m, args.len() as u64);
    if n == 0 && args.len() == 1 {
        let mut child = name.clone();
        child.push(':');
        append(&mut child, &args[0]);
        assert(child@ =~= name@ + ":"@ + argv_view(args@)[0]) by {
            reveal_strlit(":");
        }
        if file.task_index(&child).is_some() {
            append_str(&mut m, ". Did you mean `");
            append(&mut m, &child);
            append_str(&mut m, "`?");
        }
    }
    m
}

/// Binds a task's declared arguments to the given values.
fn bind_arguments(vars: &mut VarMap, file: &TaskFile, t: usize, args: &Vec<Vec<char>>)
    requires
        old(vars).wf(),
        t < file@.tasks.len(),
        args@.len() == file@.tasks[t as int].arguments.len(),
    ensures
        final(vars).wf(),
        final(vars)@ == bind(old(vars)@, file@.tasks[t as int].arguments, argv_view(args@)),
{
    let ghost start = vars@;
    let ghost names = file@.tasks[t as int].arguments;
    let ghost values = argv_view(args@);
    let n = file.argument_count(t);
    let mut k: usize = 0;
    assert(names.take(0) =~= seq![]);
    assert(values.take(0) =~= seq![]);
    while k < n
        invariant
            vars.wf(),
            t < file@.tasks.len(),
            n == names.len(),
            n == args@.len(),
            names == file@.tasks[t as int].arguments,
            values == argv_view(args@),
            k <= n,
            vars@ == bind(start, names.take(k as int), values.take(k as int)),
        decreases n - k,
    {
        let a = file.argument(t, k);
        assert(values[k as int] == args@[k as int]@);
        vars.insert(a, args[k].clone());
        assert(names.take(k + 1).drop_last() =~= names.take(k as int));
        assert(values.take(k + 1).drop_last() =~= values.take(k as int));
        k = k + 1;
    }
    assert(names.take(n as int) =~= names);
    assert(values.take(n as int) =~= values);
}

impl Runner {
    /// A task call.
    fn call_task(&mut self, file: &TaskFile, name: &Vec<char>, args: &Vec<Vec<char>>) -> (r: Option<
        Action,
    >)
        requires
            old(self).sound(file@),
            old(self)@.wait is Idle,
        ensures
            final(self).inv(file@),
            moved(call_task(old(self)@, file@, name@, argv_view(args@)), final(self)@, opt_action(r)),
            final(self)@.steps == old(self)@.steps,
            r is None ==> final(self)@.wait is Idle,
    {
        reveal(call_task);
        match validate_task_name(name) {
            Err(e) => {
                let mut m = wrap_msg("invalid task name '", name, "': ");
                append_str(&mut m, e.message());
                assert(m@ =~= wrap("invalid task name '"@, name@, "': "@ + e.spec_message()));
                return Some(self.fail(file, CjError::new(&m)));
            },
            Ok(()) => {},
        }
        match self.first_call(file, name) {
            Some(k) => {
                let m = self.cycle_text(file, k, name);
                return Some(self.fail(file, CjError::new(&m)));
            },
            None => {},
        }
        let t = match file.task_index(name) {
            None => {
                let mut m = msg("task not found: ");
                append(&mut m, name);
                return Some(self.fail(file, CjError::new(&m)));
            },
            Some(t) => t,
        };
        let n = file.argument_count(t);
        if args.len() != n {
            let m = arity_text(file, name, t, args);
            return Some(self.fail(file, CjError::new(&m)));
        }
        let ghost m0 = self@;
        let snap = self.vars.copy();
        let exps = self.exports.copy();
        bind_arguments(&mut self.vars, file, t, args);
        let ghost cb = call_views(self.calls@);
        self.calls.push(t);
        assert(call_views(self.calls@) =~= cb.push(t as int));
        self.cwd.push_scope();
        let end = file.line_count(t);
        let ghost before = frame_views(self.frames@);
        let f = Frame { task: t, index: 0, end, indent: 2, previous: 0, finish: Finish::Task(snap, exps) };
        let ghost fv = f@;
        self.frames.push(f);
        assert(frame_views(self.frames@) =~= before.push(fv));
        proof {
            lemma_counts_push(before, fv);
            assert forall|q: int| 0 <= q < self@.frames.len() implies #[trigger] frame_ok(
                file@,
                self@.frames[q],
            ) by {
                if q < before.len() {
                    assert(self@.frames[q] == before[q]);
                }
            }
            assert forall|q: int| 0 <= q < self.frames@.len() implies (
            #[trigger] self.frames@[q].finish matches Finish::Task(a, b) ==> a.wf() && b.wf()) by {
                if q < before.len() {
                    assert(self.frames@[q] == old(self).frames@[q]);
                }
            }
            assert forall|q: int| 0 <= q < self@.calls.len() implies 0 <= #[trigger] self@.calls[q]
                < file@.tasks.len() by {
                if q < cb.len() {
                    assert(self@.calls[q] == cb[q]);
                }
            }
        }
        None
    }
}


/// The runner is at a line of its top block, with nothing pending.
pub open spec fn on_line(r: RunModel, file: FileModel) -> bool {
    &&& r.wait is Idle
    &&& r.frames.len() > 0
    &&& top(r).index < top(r).end
}

/// The `@case`/`@default` scan, with the ranges it picks lying inside the
/// switch body and deeper than the case lines.
fn scan_cases_exec(
    file: &TaskFile,
    t: usize,
    start: usize,
    end: usize,
    case_indent: usize,
    value: &Vec<char>,
    vars: &VarMap,
) -> (r: Result<(Option<(usize, usize)>, Option<(usize, usize)>), CjError>)
    requires
        t < file@.tasks.len(),
        start <= end <= file@.tasks[t as int].lines.len(),
        vars.wf(),
    ensures
        match r {
            Ok((sel, def)) => scan_cases(
                lines_of(file@, t as int),
                start as int,
                end as int,
                case_indent as int,
                value@,
                vars@,
                None,
                None,
            ) == Ok::<(Option<(int, int)>, Option<(int, int)>), Seq<char>>(
                (range_view(sel), range_view(def)),
            ) && (sel matches Some((a, b)) ==> start < a <= b <= end && (a < b ==> lines_of(
                file@,
                t as int,
            )[a as int].indent > case_indent)) && (def matches Some((a, b)) ==> start < a <= b
                <= end && (a < b ==> lines_of(file@, t as int)[a as int].indent > case_indent)),
            Err(e) => scan_cases(
                lines_of(file@, t as int),
                start as int,
                end as int,
                case_indent as int,
                value@,
                vars@,
                None,
                None,
            ) == Err::<(Option<(int, int)>, Option<(int, int)>), Seq<char>>(e@),
        },
{
    let ghost lines = lines_of(file@, t as int);
    let mut cursor = start;
    let mut sel: Option<(usize, usize)> = None;
    let mut def: Option<(usize, usize)> = None;
    while cursor < end
        invariant
            t < file@.tasks.len(),
            start <= cursor <= end <= file@.tasks[t as int].lines.len(),
            lines == lines_of(file@, t as int),
            vars.wf(),
            scan_cases(lines, start as int, end as int, case_indent as int, value@, vars@, None, None)
                == scan_cases(
                lines,
                cursor as int,
                end as int,
                case_indent as int,
                value@,
                vars@,
                range_view(sel),
                range_view(def),
            ),
            sel matches Some((a, b)) ==> start < a <= b <= cursor && (a < b ==> lines[a as int].indent
                > case_indent),
            def matches Some((a, b)) ==> start < a <= b <= cursor && (a < b ==> lines[a as int].indent
                > case_indent),
        decreases end - cursor,
    {
        let (ln, li, text) = file.line_at(t, cursor);
        if li != case_indent {
            return Err(at_line(ln, "@switch body must contain @case or @default entries"));
        }
        if !(text.len() > 0 && text[0] == '@') {
            return Err(at_line(ln, "@switch body entries must use @case or @default"));
        }
        let rest = subvec(&text, 1, text.len());
        assert(rest@ =~= text@.drop_first());
        let (nm, a) = split_directive(&rest);
        let is_case = chars_eq_str(&nm, "case");
        if !is_case && !chars_eq_str(&nm, "default") {
            return Err(at_line(ln, "@switch body entries must use @case or @default"));
        }
        let body_end = block_end_exec(file, t, cursor + 1, end, case_indent);
        proof {
            lemma_block_end_first(lines, cursor + 1, end as int, case_indent as int);
        }
        if is_case {
            let cv = interpolate_argv(&a, vars)?;
            if cv.len() != 1 {
                return Err(at_line(ln, "@case expects exactly one value"));
            }
            assert(argv_view(cv@)[0] == cv@[0]@);
            if sel.is_none() && chars_eq(&cv[0], value) {
                sel = Some((cursor + 1, body_end));
            }
        } else {
            if !chars_is_blank(&a) {
                return Err(at_line(ln, "@default does not take arguments"));
            }
            if def.is_none() {
                def = Some((cursor + 1, body_end));
            }
        }
        cursor = body_end;
    }
    Ok((sel, def))
}

impl Runner {
    fn advance_top(&mut self, file: &TaskFile)
        requires
            old(self).sound(file@),
            old(self)@.frames.len() > 0,
            top(old(self)@).index < top(old(self)@).end,
        ensures
            final(self).sound(file@),
            final(self)@ == advance(old(self)@),
    {
        let (_, idx, _, _, prev) = self.top_fields();
        self.set_top_fields(file, idx + 1, prev);
    }

    fn push_capture_frame(&mut self, file: &TaskFile, t: usize, start: usize, end: usize, indent: usize, name: Vec<char>)
        requires
            old(self).sound(file@),
            t < file@.tasks.len(),
            start <= end <= file@.tasks[t as int].lines.len(),
            indent <= usize::MAX - 8,
        ensures
            final(self).sound(file@),
            final(self)@ == (RunModel {
                frames: old(self)@.frames.push(
                    FrameModel {
                        task: t as int,
                        index: start as int,
                        end: end as int,
                        indent: indent as int,
                        previous: 0,
                        finish: FinishModel::Capture(name@),
                    },
                ),
                captures: old(self)@.captures.push(seq![]),
                cwd: push_scope_spec(old(self)@.cwd),
                ..old(self)@
            }),
    {
        let ghost before = frame_views(self.frames@);
        let f = Frame { task: t, index: start, end, indent, previous: 0, finish: Finish::Capture(name) };
        let ghost fv = f@;
        self.frames.push(f);
        assert(frame_views(self.frames@) =~= before.push(fv));
        let ghost cb = text_views(self.captures@);
        self.captures.push(Vec::new());
        assert(text_views(self.captures@) =~= cb.push(seq![]));
        self.cwd.push_scope();
        proof {
            lemma_counts_push(before, fv);
            assert forall|q: int| 0 <= q < self@.frames.len() implies #[trigger] frame_ok(
                file@,
                self@.frames[q],
            ) by {
                if q < before.len() {
                    assert(self@.frames[q] == before[q]);
                }
            }
            assert forall|q: int| 0 <= q < self.frames@.len() implies (
            #[trigger] self.frames@[q].finish matches Finish::Task(a, b) ==> a.wf() && b.wf()) by {
                if q < before.len() {
                    assert(self.frames@[q] == old(self).frames@[q]);
                }
            }
        }
    }

    fn chain_step(&mut self, file: &TaskFile, ln: usize, name: &Vec<char>) -> (r: Option<Action>)
        requires
            old(self).sound(file@),
            on_line(old(self)@, file@),
        ensures
            final(self).inv(file@),
            moved(chain_step(old(self)@, file@, ln as nat, name@), final(self)@, opt_action(r)),
            final(self)@.steps == old(self)@.steps,
            r is None ==> final(self)@.wait is Idle,
    {
        reveal(chain_step);
        let (t, idx, end, ind, prev) = self.top_fields();
        proof {
            assert(frame_ok(file@, self@.frames[self@.frames.len() - 1]));
        }
        let start = idx + 1;
        let bend = block_end_exec(file, t, start, end, ind);
        proof {
            lemma_block_end_first(lines_of(file@, t as int), start as int, end as int, ind as int);
            if bend > start {
                assert(file@.tasks[t as int].lines[start as int].indent <= usize::MAX - 16);
            }
        }
        self.set_top_fields(file, bend, prev);
        if start == bend {
            let mut m = msg("@");
            append(&mut m, name);
            append_str(&mut m, " expects an indented block");
            return Some(self.fail(file, line_prefixed(ln, &m)));
        }
        let is_and = chars_eq_str(name, "and");
        if (is_and && prev == 0) || (chars_eq_str(name, "or") && prev != 0) {
            self.push_block(file, t, start, bend, ind + 2);
        } else {
            self.pending = Some(
                if is_and {
                    1
                } else {
                    0
                },
            );
        }
        None
    }

    fn if_step(&mut self, file: &TaskFile, name: &Vec<char>, args: &Vec<char>) -> (r: Option<Action>)
        requires
            old(self).sound(file@),
            on_line(old(self)@, file@),
            is_condition_name(name@),
        ensures
            final(self).inv(file@),
            moved(if_step(old(self)@, file@, name@, args@), final(self)@, opt_action(r)),
            final(self)@.steps == old(self)@.steps,
            r is None ==> final(self)@.wait is Idle,
    {
        reveal(if_step);
        let c = match evaluate_condition(name, args, &self.vars, &self.bumped) {
            Err(e) => {
                return Some(self.fail(file, e));
            },
            Ok(c) => c,
        };
        let (t, idx, end, ind, prev) = self.top_fields();
        proof {
            assert(frame_ok(file@, self@.frames[self@.frames.len() - 1]));
        }
        let ghost lines = lines_of(file@, t as int);
        let ts = idx + 1;
        let te = block_end_exec(file, t, ts, end, ind);
        proof {
            lemma_block_end_first(lines, ts as int, end as int, ind as int);
        }
        let mut has_else = false;
        if te < end {
            let (_, li, lt) = file.line_at(t, te);
            has_else = li == ind && chars_eq_str(&lt, "@else");
        }
        let el = if has_else {
            let ee = block_end_exec(file, t, te + 1, end, ind);
            proof {
                lemma_block_end_first(lines, te + 1, end as int, ind as int);
            }
            Some((te + 1, ee))
        } else {
            None
        };
        let next = match el {
            Some((_, ee)) => ee,
            None => te,
        };
        self.set_top_fields(file, next, prev);
        match c {
            Condition::Known(b) => self.branch(file, t, ind, ts, te, el, b),
            Condition::PathCheck(p, expect) => {
                self.wait = Wait::Branch(ts, te, el, expect);
                Some(Action::Exists(self.cwd.current(), p))
            },
        }
    }

    fn return_step(&mut self, file: &TaskFile, args: &Vec<char>) -> (r: Option<Action>)
        requires
            old(self).sound(file@),
            on_line(old(self)@, file@),
        ensures
            final(self).inv(file@),
            moved(return_step(old(self)@, file@, args@), final(self)@, opt_action(r)),
            final(self)@.steps == old(self)@.steps,
            r is None ==> final(self)@.wait is Idle,
    {
        reveal(return_step);
        let (t, idx, end, ind, prev) = self.top_fields();
        proof {
            assert(frame_ok(file@, self@.frames[self@.frames.len() - 1]));
        }
        let start = idx + 1;
        let bend = block_end_exec(file, t, start, end, ind);
        proof {
            lemma_block_end_first(lines_of(file@, t as int), start as int, end as int, ind as int);
            if bend > start {
                assert(file@.tasks[t as int].lines[start as int].indent <= usize::MAX - 16);
            }
        }
        if start < bend {
            self.set_top_fields(file, bend, prev);
            self.push_block(file, t, start, bend, ind + 2);
            return None;
        }
        let st = match return_value_status(args, &self.vars) {
            Err(e) => {
                return Some(self.fail(file, e));
            },
            Ok(s) => s,
        };
        self.advance_top(file);
        self.pending = Some(st);
        None
    }

    fn set_step(&mut self, file: &TaskFile, ln: usize, args: &Vec<char>) -> (r: Option<Action>)
        requires
            old(self).sound(file@),
            on_line(old(self)@, file@),
        ensures
            final(self).inv(file@),
            moved(set_step(old(self)@, file@, ln as nat, args@), final(self)@, opt_action(r)),
            final(self)@.steps == old(self)@.steps,
            r is None ==> final(self)@.wait is Idle,
    {
        reveal(set_step);
        let (t, idx, end, ind, prev) = self.top_fields();
        proof {
            assert(frame_ok(file@, self@.frames[self@.frames.len() - 1]));
        }
        let start = idx + 1;
        let bend = block_end_exec(file, t, start, end, ind);
        proof {
            lemma_block_end_first(lines_of(file@, t as int), start as int, end as int, ind as int);
            if bend > start {
                assert(file@.tasks[t as int].lines[start as int].indent <= usize::MAX - 16);
            }
        }
        if start < bend && is_set_capture_args(args) {
            let k = match parse_set_capture_name(args, &self.vars, ln) {
                Err(e) => {
                    return Some(self.fail(file, e));
                },
                Ok(k) => k,
            };
            self.set_top_fields(file, bend, prev);
            self.push_capture_frame(file, t, start, bend, ind + 2, k);
            return None;
        }
        match parse_env_mutation(args, &self.vars, ln) {
            Err(e) => Some(self.fail(file, e)),
            Ok((k, v)) => {
                self.advance_top(file);
                self.vars.insert(k, v);
                self.pending = Some(0);
                None
            },
        }
    }

    fn unset_step(&mut self, file: &TaskFile, ln: usize, args: &Vec<char>) -> (r: Option<Action>)
        requires
            old(self).sound(file@),
            on_line(old(self)@, file@),
        ensures
            final(self).inv(file@),
            moved(unset_step(old(self)@, ln as nat, args@), final(self)@, opt_action(r)),
            final(self)@.steps == old(self)@.steps,
            r is None ==> final(self)@.wait is Idle,
    {
        reveal(unset_step);
        let w = match interpolate_argv(args, &self.vars) {
            Err(e) => {
                return Some(self.fail(file, e));
            },
            Ok(w) => w,
        };
        if w.len() != 1 {
            return Some(self.fail(file, at_line(ln, "@unset expects exactly one variable name")));
        }
        assert(argv_view(w@)[0] == w@[0]@);
        match validate_env_name(&w[0]) {
            Err(e) => {
                let mut m = wrap_msg("invalid env name '", &w[0], "': ");
                append_str(&mut m, e.message());
                assert(m@ =~= wrap("invalid env name '"@, w@[0]@, "': "@ + e.spec_message()));
                Some(self.fail(file, line_prefixed(ln, &m)))
            },
            Ok(()) => {
                self.advance_top(file);
                self.vars.remove(&w[0]);
                self.exports.remove(&w[0]);
                self.pending = Some(0);
                None
            },
        }
    }

    fn path_step(&mut self, file: &TaskFile, ln: usize, args: &Vec<char>, usage: &str, cd: bool) -> (r:
        Option<Action>)
        requires
            old(self).sound(file@),
            on_line(old(self)@, file@),
        ensures
            final(self).inv(file@),
            moved(path_step(old(self)@, ln as nat, args@, usage@, cd), final(self)@, opt_action(r)),
            final(self)@.steps == old(self)@.steps,
            r is None ==> final(self)@.wait is Idle,
    {
        reveal(path_step);
        let argv = match interpolate_argv(args, &self.vars) {
            Err(e) => {
                return Some(self.fail(file, e));
            },
            Ok(a) => a,
        };
        if argv.len() != 1 {
            return Some(self.fail(file, at_line(ln, usage)));
        }
        assert(argv_view(argv@)[0] == argv@[0]@);
        let dir = self.cwd.current();
        let base = self.cwd.scope_base();
        self.advance_top(file);
        let mut argv = argv;
        let p = argv.remove(0);
        if cd {
            self.wait = Wait::Cd(ln);
            Some(Action::IsDir(dir, p))
        } else {
            self.wait = Wait::Removed;
            Some(Action::Remove(dir, p, base, ln))
        }
    }

    fn switch_step(&mut self, file: &TaskFile, ln: usize, args: &Vec<char>) -> (r: Option<Action>)
        requires
            old(self).sound(file@),
            on_line(old(self)@, file@),
        ensures
            final(self).inv(file@),
            moved(switch_step(old(self)@, file@, ln as nat, args@), final(self)@, opt_action(r)),
            final(self)@.steps == old(self)@.steps,
            r is None ==> final(self)@.wait is Idle,
    {
        reveal(switch_step);
        let vals = match interpolate_argv(args, &self.vars) {
            Err(e) => {
                return Some(self.fail(file, e));
            },
            Ok(v) => v,
        };
        if vals.len() != 1 {
            return Some(self.fail(file, at_line(ln, "@switch expects exactly one value")));
        }
        assert(argv_view(vals@)[0] == vals@[0]@);
        let (t, idx, end, ind, prev) = self.top_fields();
        proof {
            assert(frame_ok(file@, self@.frames[self@.frames.len() - 1]));
        }
        let start = idx + 1;
        let send = block_end_exec(file, t, start, end, ind);
        match scan_cases_exec(file, t, start, send, ind + 2, &vals[0], &self.vars) {
            Err(e) => Some(self.fail(file, e)),
            Ok((sel, def)) => {
                self.set_top_fields(file, send, prev);
                let chosen = if sel.is_some() {
                    sel
                } else {
                    def
                };
                match chosen {
                    Some((a, b)) => {
                        proof {
                            if a < b {
                                assert(file@.tasks[t as int].lines[a as int].indent <= usize::MAX - 16);
                            }
                        }
                        self.run_range(file, t, a, b, ind + 4)
                    },
                    None => {
                        self.pending = Some(0);
                        None
                    },
                }
            },
        }
    }
}


pub(crate) fn bump_kind_exec(name: &Vec<char>) -> (r: Option<BumpKind>)
    ensures
        r == bump_directive_kind(name@),
{
    if chars_eq_str(name, "pre") {
        Some(BumpKind::Pre)
    } else if chars_eq_str(name, "patch") || chars_eq_str(name, "minor") || chars_eq_str(name, "major")
        || chars_eq_str(name, "release") {
        BumpKind::parse(name)
    } else {
        None
    }
}

impl Runner {
    fn bump_step(&mut self, file: &TaskFile, ln: usize, name: &Vec<char>, args: &Vec<char>, kind: BumpKind) -> (r:
        Option<Action>)
        requires
            old(self).sound(file@),
            on_line(old(self)@, file@),
            bump_directive_kind(name@) == Some(kind),
        ensures
            final(self).inv(file@),
            moved(bump_step(old(self)@, ln as nat, name@, args@), final(self)@, opt_action(r)),
            final(self)@.steps == old(self)@.steps,
            r is None ==> final(self)@.wait is Idle,
    {
        reveal(bump_step);
        let argv = match interpolate_argv(args, &self.vars) {
            Err(e) => {
                return Some(self.fail(file, e));
            },
            Ok(a) => a,
        };
        let is_pre = chars_eq_str(name, "pre");
        if is_pre && argv.len() != 2 {
            return Some(self.fail(file, at_line(ln, "@pre expects <name> <prerelease>")));
        }
        if !is_pre && argv.len() != 1 {
            return Some(
                self.fail(file, at_line(ln, "version bump directive expects exactly one version name")),
            );
        }
        assert(argv_view(argv@)[0] == argv@[0]@);
        match self.bumped.get(&argv[0]) {
            Some(prev) => {
                let mut m = wrap_msg("version '", &argv[0], "' was already bumped as ");
                append(&mut m, &prev);
                append_str(&mut m, " in this run");
                return Some(self.fail(file, line_prefixed(ln, &m)));
            },
            None => {},
        }
        self.advance_top(file);
        let mut argv = argv;
        let ghost av = argv_view(argv@);
        let first = argv.remove(0);
        let pre = if is_pre {
            assert(argv@[0]@ == av[1]);
            Some(argv.remove(0))
        } else {
            None
        };
        self.wait = Wait::Bumped(first.clone(), kind);
        Some(Action::Bump(first, name.clone(), pre, ln))
    }

    fn directive_step(&mut self, file: &TaskFile, ln: usize, name: &Vec<char>, args: &Vec<char>) -> (r:
        Option<Action>)
        requires
            old(self).sound(file@),
            on_line(old(self)@, file@),
        ensures
            final(self).inv(file@),
            moved(directive_step(old(self)@, file@, ln as nat, name@, args@), final(self)@, opt_action(r)),
            final(self)@.steps == old(self)@.steps,
            r is None ==> final(self)@.wait is Idle,
    {
        reveal(directive_step);
        if chars_eq_str(name, "and") || chars_eq_str(name, "or") {
            return self.chain_step(file, ln, name);
        }
        if chars_eq_str(name, "shell") {
            return match interpolate_text(args, &self.vars, QuoteMode::Shell) {
                Err(m) => Some(self.fail(file, CjError::new(&m))),
                Ok(cmd) => {
                    let dir = self.cwd.current();
                    let cap = self.captures.len() > 0;
                    self.advance_top(file);
                    self.wait = Wait::Status;
                    Some(Action::Shell(cmd, dir, cap))
                },
            };
        }
        if chars_eq_str(name, "task") {
            let argv = match interpolate_argv(args, &self.vars) {
                Err(e) => {
                    return Some(self.fail(file, e));
                },
                Ok(a) => a,
            };
            if argv.len() == 0 {
                return Some(self.fail(file, at_line(ln, "@task expects a task name")));
            }
            self.advance_top(file);
            let ghost av = argv_view(argv@);
            let mut rest = argv;
            let first = rest.remove(0);
            assert(argv_view(rest@) =~= av.drop_first());
            return self.call_task(file, &first, &rest);
        }
        if chars_eq_str(name, "cd") {
            return self.path_step(file, ln, args, "@cd expects exactly one path", true);
        }
        if chars_eq_str(name, "back") {
            if !chars_is_blank(args) {
                return Some(self.fail(file, at_line(ln, "@back does not take arguments")));
            }
            self.advance_top(file);
            self.cwd.back();
            self.pending = Some(0);
            return None;
        }
        if chars_eq_str(name, "desc") || chars_eq_str(name, "success") {
            self.advance_top(file);
            self.pending = Some(0);
            return None;
        }
        if chars_eq_str(name, "fail") {
            self.advance_top(file);
            self.pending = Some(1);
            return None;
        }
        if chars_eq_str(name, "echo") {
            return match interpolate_text(args, &self.vars, QuoteMode::Raw) {
                Err(m) => Some(self.fail(file, CjError::new(&m))),
                Ok(v) => {
                    let mut v = v;
                    let ghost ov = v@;
                    v.push('\n');
                    assert(v@ =~= ov + "\n"@) by {
                        reveal_strlit("\n");
                    }
                    self.advance_top(file);
                    self.output(file, v, 0)
                },
            };
        }
        if chars_eq_str(name, "clean") {
            return self.path_step(file, ln, args, "@clean expects exactly one path", false);
        }
        if chars_eq_str(name, "stop") {
            if !chars_is_blank(args) {
                return match interpolate_text(args, &self.vars, QuoteMode::Raw) {
                    Err(m) => Some(self.fail(file, CjError::new(&m))),
                    Ok(v) => {
                        let mut v = v;
                        let ghost ov = v@;
                        v.push('\n');
                        assert(v@ =~= ov + "\n"@) by {
                            reveal_strlit("\n");
                        }
                        self.advance_top(file);
                        self.output(file, v, 1)
                    },
                };
            }
            self.advance_top(file);
            self.pending = Some(1);
            return None;
        }
        if chars_eq_str(name, "return") {
            return self.return_step(file, args);
        }
        if chars_eq_str(name, "set") {
            return self.set_step(file, ln, args);
        }
        if chars_eq_str(name, "export") {
            return match parse_export_mutation(args, &self.vars, ln) {
                Err(e) => Some(self.fail(file, e)),
                Ok((k, v)) => {
                    self.advance_top(file);
                    self.vars.insert(k.clone(), v.clone());
                    self.exports.insert(k, v);
                    self.pending = Some(0);
                    None
                },
            };
        }
        if chars_eq_str(name, "unset") {
            return self.unset_step(file, ln, args);
        }
        match bump_kind_exec(name) {
            Some(kind) => {
                return self.bump_step(file, ln, name, args, kind);
            },
            None => {},
        }
        if chars_eq_str(name, "version") {
            return Some(self.fail(file, at_line(ln, "@version can only be used as a top-level header")));
        }
        if is_condition_directive(name) {
            return self.if_step(file, name, args);
        }
        if chars_eq_str(name, "else") {
            return Some(self.fail(file, at_line(ln, "@else without matching @if")));
        }
        if chars_eq_str(name, "switch") {
            return self.switch_step(file, ln, args);
        }
        if chars_eq_str(name, "case") || chars_eq_str(name, "default") {
            let mut m = msg("@");
            append(&mut m, name);
            append_str(&mut m, " without matching @switch");
            return Some(self.fail(file, line_prefixed(ln, &m)));
        }
        if is_extra_directive_exec(name) {
            return self.extra_step(file, ln, name, args);
        }
        if name.len() == 0 {
            return Some(self.fail(file, at_line(ln, "empty directive")));
        }
        let mut m = msg("unknown directive @");
        append(&mut m, name);
        Some(self.fail(file, line_prefixed(ln, &m)))
    }

    fn watch_step(&mut self, file: &TaskFile, ln: usize, args: &Vec<char>) -> (r: Option<Action>)
        requires
            old(self).sound(file@),
            on_line(old(self)@, file@),
        ensures
            final(self).inv(file@),
            moved(watch_step(old(self)@, file@, ln as nat, args@), final(self)@, opt_action(r)),
            final(self)@.steps == old(self)@.steps,
            r is None ==> final(self)@.wait is Idle,
    {
        let (t, idx, end, ind, prev) = self.top_fields();
        proof {
            assert(frame_ok(file@, self@.frames[self@.frames.len() - 1]));
        }
        let start = idx + 1;
        let stop = block_end_exec(file, t, start, end, ind);
        if start == stop {
            return Some(self.fail(file, at_line(ln, "@watch expects an indented line")));
        }
        if stop != start + 1 {
            return Some(self.fail(file, at_line(ln, "@watch expects exactly one indented line")));
        }
        let (aln, aind, atext) = file.line_at(t, start);
        if aind != ind + 2 {
            return Some(self.fail(file, at_line(aln, "@watch action must be indented exactly one level")));
        }
        let exprs = crate::scan::split_line_expressions(&atext);
        if exprs.len() != 1 {
            return Some(self.fail(file, at_line(aln, "@watch action must be one expression")));
        }
        match crate::watch::watch_line_check(file, aln, &atext) {
            Some(e) => {
                return Some(self.fail(file, e));
            },
            None => {},
        }
        let paths = match interpolate_argv(args, &self.vars) {
            Err(e) => {
                return Some(self.fail(file, e));
            },
            Ok(a) => a,
        };
        if paths.len() == 0 {
            return Some(self.fail(file, at_line(ln, "@watch expects at least one path")));
        }
        let dir = self.cwd.current();
        self.set_top_fields(file, stop, prev);
        self.wait = Wait::Status;
        Some(Action::Watch(paths, dir, t, start, ind + 2, ln))
    }

    fn extra_step(&mut self, file: &TaskFile, ln: usize, name: &Vec<char>, args: &Vec<char>) -> (r:
        Option<Action>)
        requires
            old(self).sound(file@),
            on_line(old(self)@, file@),
            is_extra_directive(name@),
        ensures
            final(self).inv(file@),
            moved(extra_directive(old(self)@, file@, ln as nat, name@, args@), final(self)@, opt_action(r)),
            final(self)@.steps == old(self)@.steps,
            r is None ==> final(self)@.wait is Idle,
    {
        reveal(extra_directive);
        match file_op_exec(name) {
            Some(op) => {
                let argv = match interpolate_argv(args, &self.vars) {
                    Err(e) => {
                        return Some(self.fail(file, e));
                    },
                    Ok(a) => a,
                };
                match files_usage_exec(op, argv.len()) {
                    Some(u) => {
                        return Some(self.fail(file, at_line(ln, u)));
                    },
                    None => {},
                }
                let dir = self.cwd.current();
                self.advance_top(file);
                self.wait = Wait::Removed;
                return Some(Action::Files(op, dir, argv, ln));
            },
            None => {},
        }
        if chars_eq_str(name, "open") {
            let argv = match interpolate_argv(args, &self.vars) {
                Err(e) => {
                    return Some(self.fail(file, e));
                },
                Ok(a) => a,
            };
            if argv.len() != 1 {
                return Some(self.fail(file, at_line(ln, "@open expects exactly one URL")));
            }
            assert(argv_view(argv@)[0] == argv@[0]@);
            if !(chars_starts_with_str(&argv[0], "http://") || chars_starts_with_str(&argv[0], "https://")) {
                return Some(self.fail(file, at_line(ln, "@open URL must begin with http:// or https://")));
            }
            self.advance_top(file);
            self.wait = Wait::Status;
            let mut argv = argv;
            let url = argv.remove(0);
            return Some(Action::Open(url));
        }
        if chars_eq_str(name, "selfhelp") {
            if !chars_is_blank(args) {
                return Some(self.fail(file, at_line(ln, "@selfhelp does not take arguments")));
            }
            let (t, _, _, _, _) = self.top_fields();
            proof {
                assert(frame_ok(file@, self@.frames[self@.frames.len() - 1]));
            }
            let task_name = file.task_name(t);
            self.advance_top(file);
            self.wait = Wait::StopTask;
            return Some(Action::SelfHelp(task_name));
        }
        if chars_eq_str(name, "watch") {
            proof {
                reveal_strlit("watch");
                reveal_strlit("await");
                assert("watch"@[0] != "await"@[0]);
            }
            return self.watch_step(file, ln, args);
        }
        let (t, idx, end, ind, prev) = self.top_fields();
        proof {
            assert(frame_ok(file@, self@.frames[self@.frames.len() - 1]));
        }
        let names = match interpolate_argv(args, &self.vars) {
            Err(e) => {
                return Some(self.fail(file, e));
            },
            Ok(a) => a,
        };
        if names.len() == 0 {
            return Some(self.fail(file, at_line(ln, "@await expects at least one task name")));
        }
        let start = idx + 1;
        let stop = block_end_exec(file, t, start, end, ind);
        proof {
            lemma_block_end_first(lines_of(file@, t as int), start as int, end as int, ind as int);
        }
        let dir = self.cwd.current();
        self.set_top_fields(file, stop, prev);
        self.wait = Wait::Awaited(start, stop);
        Some(Action::Await(names, dir))
    }

    fn line_step(&mut self, file: &TaskFile) -> (r: Option<Action>)
        requires
            old(self).sound(file@),
            on_line(old(self)@, file@),
        ensures
            final(self).inv(file@),
            moved(line_step(old(self)@, file@), final(self)@, opt_action(r)),
            final(self)@.steps == old(self)@.steps,
            r is None ==> final(self)@.wait is Idle,
    {
        reveal(line_step);
        let (t, idx, _, ind, _) = self.top_fields();
        proof {
            assert(frame_ok(file@, self@.frames[self@.frames.len() - 1]));
        }
        let (ln, li, text) = file.line_at(t, idx);
        if li > ind {
            return Some(self.fail(file, at_line(ln, "unexpected indentation")));
        }
        if text.len() > 0 && text[0] == '@' {
            let rest = subvec(&text, 1, text.len());
            assert(rest@ =~= text@.drop_first());
            let (name, args) = split_directive(&rest);
            return self.directive_step(file, ln, &name, &args);
        }
        let argv = match interpolate_argv(&text, &self.vars) {
            Err(e) => {
                return Some(self.fail(file, e));
            },
            Ok(a) => a,
        };
        let dir = self.cwd.current();
        let cap = self.captures.len() > 0;
        self.advance_top(file);
        if argv.len() == 0 {
            self.pending = Some(0);
            None
        } else {
            self.wait = Wait::Status;
            Some(Action::Run(argv, dir, cap))
        }
    }

    fn tick(&mut self, file: &TaskFile) -> (r: Option<Action>)
        requires
            old(self).inv(file@),
            old(self)@.wait is Idle,
        ensures
            final(self).inv(file@),
            moved(tick(old(self)@, file@), final(self)@, opt_action(r)),
            r is None ==> final(self)@.wait is Idle && final(self)@.steps == old(self)@.steps + 1
                && old(self)@.steps < MAX_EXECUTION_STEPS,
    {
        reveal(tick);
        if self.steps >= MAX_EXECUTION_STEPS {
            let e = CjError::from_str("execution step limit reached; possible infinite loop");
            return Some(self.fail(file, e));
        }
        self.steps = self.steps + 1;
        match self.pending {
            Some(s) => self.deliver(file, s),
            None => {
                if self.frames.len() == 0 {
                    return Some(Action::Finished(0));
                }
                let (t, idx, end, ind, prev) = self.top_fields();
                proof {
                    assert(frame_ok(file@, self@.frames[self@.frames.len() - 1]));
                }
                if idx >= end {
                    return self.finish_frame(file, prev);
                }
                let (_, li, _) = file.line_at(t, idx);
                if li < ind {
                    return self.finish_frame(file, prev);
                }
                self.line_step(file)
            },
        }
    }

    /// Moves until an action is due.
    fn run_until_action(&mut self, file: &TaskFile) -> (a: Action)
        requires
            old(self).inv(file@),
            old(self)@.wait is Idle,
        ensures
            final(self).inv(file@),
            (final(self)@, a@) == run(old(self)@, file@),
    {
        let ghost init = self@;
        loop
            invariant
                self.inv(file@),
                self@.wait is Idle,
                init == old(self)@,
                run(self@, file@) == run(init, file@),
            decreases MAX_EXECUTION_STEPS - self@.steps,
        {
            let ghost before = self@;
            match self.tick(file) {
                Some(a) => {
                    assert(run(before, file@) == (self@, a@));
                    return a;
                },
                None => {
                    assert(run(before, file@) == run(self@, file@));
                },
            }
        }
    }

    /// A run that has not started, with the given variables (all of them
    /// exported) and base directory.
    pub fn new(initial: &VarMap, base_dir: &Vec<char>) -> (r: Runner)
        requires
            initial.wf(),
        ensures
            r@.frames.len() == 0,
            r@.vars == initial@,
            r@.exports == initial@,
            r@.bumped == Map::<Seq<char>, Seq<char>>::empty(),
            r@.cwd.current == base_dir@,
            r@.cwd.history.len() == 0,
            r@.cwd.scopes.len() == 0,
            r@.calls.len() == 0,
            r@.captures.len() == 0,
            r@.steps == 0,
            r@.pending is None,
            r@.wait is Idle,
            r.fresh(),
    {
        let r = Runner {
            frames: Vec::new(),
            vars: initial.copy(),
            exports: initial.copy(),
            bumped: VarMap::new(),
            cwd: CwdState::new(base_dir),
            calls: Vec::new(),
            captures: Vec::new(),
            steps: 0,
            pending: None,
            wait: Wait::Idle,
        };
        assert(frame_views(r.frames@) =~= seq![]);
        assert(call_views(r.calls@) =~= seq![]);
        assert(text_views(r.captures@) =~= seq![]);
        r
    }

    /// A runner that has not started, like `new`, whose run has already
    /// taken `steps` of the steps it may take.
    pub fn new_after_steps(initial: &VarMap, base_dir: &Vec<char>, steps: usize) -> (r: Runner)
        requires
            initial.wf(),
            steps <= MAX_EXECUTION_STEPS,
        ensures
            r@.frames.len() == 0,
            r@.vars == initial@,
            r@.exports == initial@,
            r@.bumped == Map::<Seq<char>, Seq<char>>::empty(),
            r@.cwd.current == base_dir@,
            r@.cwd.history.len() == 0,
            r@.cwd.scopes.len() == 0,
            r@.calls.len() == 0,
            r@.captures.len() == 0,
            r@.steps == steps,
            r@.pending is None,
            r@.wait is Idle,
            r.fresh(),
    {
        let mut r = Runner::new(initial, base_dir);
        r.steps = steps;
        r
    }

    /// A runner for a task that this run awaits: it has not started, and it
    /// begins with this run's variables, exports and bumped versions, in
    /// `dir`.
    pub fn child(&self, file: &TaskFile, dir: &Vec<char>) -> (r: Runner)
        requires
            self.ready(file@),
        ensures
            r.fresh(),
            r@.vars == self@.vars,
            r@.exports == self@.exports,
            r@.bumped == self@.bumped,
            r@.cwd.current == dir@,
            r@.cwd.history.len() == 0,
            r@.cwd.scopes.len() == 0,
    {
        let r = Runner {
            frames: Vec::new(),
            vars: self.vars.copy(),
            exports: self.exports.copy(),
            bumped: self.bumped.copy(),
            cwd: CwdState::new(dir),
            calls: Vec::new(),
            captures: Vec::new(),
            steps: 0,
            pending: None,
            wait: Wait::Idle,
        };
        assert(frame_views(r.frames@) =~= seq![]);
        assert(call_views(r.calls@) =~= seq![]);
        assert(text_views(r.captures@) =~= seq![]);
        r
    }

    /// A runner for the line that a `@watch` of this run restarts: that one
    /// line as a block, with this run's variables, exports, bumped versions
    /// and working directory.
    pub fn watch_child(&self, file: &TaskFile, task: usize, line: usize, indent: usize) -> (r: Runner)
        requires
            self.ready(file@),
            task < file@.tasks.len(),
            line < file@.tasks[task as int].lines.len(),
            indent <= usize::MAX - 8,
        ensures
            r.ready(file@),
            r@.frames == seq![
                FrameModel {
                    task: task as int,
                    index: line as int,
                    end: line + 1,
                    indent: indent as int,
                    previous: 0,
                    finish: FinishModel::Plain,
                },
            ],
            r@.vars == self@.vars,
            r@.exports == self@.exports,
            r@.bumped == self@.bumped,
            r@.cwd == self@.cwd,
            r@.calls.len() == 0,
            r@.captures.len() == 0,
            r@.steps == 0,
            r@.pending is None,
            r@.wait is Idle,
    {
        let count = file.line_count(task);
        assert(line < count);
        let mut frames: Vec<Frame> = Vec::new();
        frames.push(Frame { task, index: line, end: line + 1, indent, previous: 0, finish: Finish::Plain });
        let r = Runner {
            frames,
            vars: self.vars.copy(),
            exports: self.exports.copy(),
            bumped: self.bumped.copy(),
            cwd: self.cwd.copy(),
            calls: Vec::new(),
            captures: Vec::new(),
            steps: 0,
            pending: None,
            wait: Wait::Idle,
        };
        assert(frame_views(r.frames@) =~= seq![
            FrameModel {
                task: task as int,
                index: line as int,
                end: line + 1,
                indent: indent as int,
                previous: 0,
                finish: FinishModel::Plain,
            },
        ]);
        assert(call_views(r.calls@) =~= seq![]);
        assert(text_views(r.captures@) =~= seq![]);
        proof {
            reveal_with_fuel(task_frames, 2);
            reveal_with_fuel(capture_frames, 2);
            assert(frame_views(r.frames@).drop_last() =~= seq![]);
        }
        r
    }

    /// Moves until an action is due (a runner that waits for nothing).
    pub fn proceed(&mut self, file: &TaskFile) -> (a: Action)
        requires
            old(self).ready(file@),
            old(self)@.wait is Idle,
        ensures
            final(self).ready(file@),
            (final(self)@, a@) == run(old(self)@, file@),
    {
        self.run_until_action(file)
    }

    /// Whether the runner can work on this file.
    pub closed spec fn ready(&self, file: FileModel) -> bool {
        self.inv(file)
    }

    /// A runner that has not started.
    pub closed spec fn fresh(&self) -> bool {
        &&& self.vars.wf()
        &&& self.exports.wf()
        &&& self.bumped.wf()
        &&& cwd_wf(self@.cwd)
        &&& self@.frames.len() == 0
        &&& self@.calls.len() == 0
        &&& self@.captures.len() == 0
        &&& self@.steps <= MAX_EXECUTION_STEPS
        &&& self@.pending is None
        &&& self@.wait is Idle
    }

    /// Starts a run of task `name` with arguments: the call is checked, then
    /// the runner moves until the first action.
    pub fn start(&mut self, file: &TaskFile, name: &Vec<char>, args: &Vec<Vec<char>>) -> (a: Action)
        requires
            old(self).fresh(),
            indents_fit(file@),
        ensures
            final(self).ready(file@),
            (final(self)@, a@) == settle_tick(
                call_task(old(self)@, file@, name@, argv_view(args@)),
                file@,
            ),
    {
        assert(frame_views(self.frames@) =~= seq![]);
        match self.call_task(file, name, args) {
            Some(a) => a,
            None => self.run_until_action(file),
        }
    }

    /// Answers the runner's last action and moves until the next one.
    pub fn resume(&mut self, file: &TaskFile, event: Event) -> (a: Action)
        requires
            old(self).ready(file@),
            event matches Event::Awaited(_, x) ==> x.wf(),
        ensures
            final(self).ready(file@),
            (final(self)@, a@) == settle_tick(answer(old(self)@, event@), file@),
    {
        match self.answer(file, event) {
            Some(a) => a,
            None => self.run_until_action(file),
        }
    }

    fn answer(&mut self, file: &TaskFile, event: Event) -> (r: Option<Action>)
        requires
            old(self).inv(file@),
            event matches Event::Awaited(_, x) ==> x.wf(),
        ensures
            final(self).inv(file@),
            moved(answer(old(self)@, event@), final(self)@, opt_action(r)),
            r is None ==> final(self)@.wait is Idle,
    {
        reveal(answer);
        match event {
            Event::Failed(e) => Some(self.fail(file, e)),
            Event::Status(code, out) => {
                if let Wait::Awaited(a, b) = self.wait {
                    self.wait = Wait::Idle;
                    if code == 0 {
                        let (t, _, end, ind, _) = self.top_fields();
                        proof {
                            assert(frame_ok(file@, self@.frames[self@.frames.len() - 1]));
                            if a < b {
                                assert(file@.tasks[t as int].lines[a as int].indent <= usize::MAX - 16);
                            }
                        }
                        return self.run_range(file, t, a, b, ind + 2);
                    } else {
                        self.pending = Some(code);
                        return None;
                    }
                }
                if let Wait::Status = self.wait {
                    self.wait = Wait::Idle;
                    if self.captures.len() > 0 {
                        let ghost before = text_views(self.captures@);
                        let mut last = self.captures.pop().unwrap();
                        append(&mut last, &out);
                        self.captures.push(last);
                        assert(text_views(self.captures@) =~= before.update(
                            before.len() - 1,
                            before.last() + out@,
                        ));
                    }
                    self.pending = Some(code);
                    None
                } else {
                    Some(self.fail(file, CjError::from_str("the runner received an answer it did not ask for")))
                }
            },
            Event::Path(p, yes) => {
                match self.wait {
                    Wait::Branch(ts, te, el, expect) => {
                        let (t, _, _, ind, _) = self.top_fields();
                        proof {
                            assert(frame_ok(file@, self@.frames[self@.frames.len() - 1]));
                        }
                        self.wait = Wait::Idle;
                        self.branch(file, t, ind, ts, te, el, yes == expect)
                    },
                    Wait::Cd(ln) => {
                        if yes {
                            self.wait = Wait::Idle;
                            self.cwd.cd(p);
                            self.pending = Some(0);
                            None
                        } else {
                            let mut m = msg("@cd path is not a directory: ");
                            append(&mut m, &p);
                            Some(self.fail(file, line_prefixed(ln, &m)))
                        }
                    },
                    _ => Some(
                        self.fail(file, CjError::from_str("the runner received an answer it did not ask for")),
                    ),
                }
            },
            Event::Bumped(key, value) => {
                if let Wait::Bumped(name, kind) = &self.wait {
                    let n = name.clone();
                    let k = *kind;
                    self.wait = Wait::Idle;
                    self.vars.insert(key.clone(), value.clone());
                    self.exports.insert(key, value);
                    self.bumped.insert(n, str_chars(k.as_str()));
                    self.pending = Some(0);
                    None
                } else {
                    Some(self.fail(file, CjError::from_str("the runner received an answer it did not ask for")))
                }
            },
            Event::Awaited(code, exported) => {
                if let Wait::Awaited(a, b) = self.wait {
                    self.wait = Wait::Idle;
                    self.vars.extend_from(&exported);
                    self.exports.extend_from(&exported);
                    if code == 0 {
                        let (t, _, end, ind, _) = self.top_fields();
                        proof {
                            assert(frame_ok(file@, self@.frames[self@.frames.len() - 1]));
                            if a < b {
                                assert(file@.tasks[t as int].lines[a as int].indent <= usize::MAX - 16);
                            }
                        }
                        self.run_range(file, t, a, b, ind + 2)
                    } else {
                        self.pending = Some(code);
                        None
                    }
                } else {
                    Some(self.fail(file, CjError::from_str("the runner received an answer it did not ask for")))
                }
            },
            Event::Done => {
                match self.wait {
                    Wait::Printed(s) => {
                        self.wait = Wait::Idle;
                        self.pending = Some(s);
                        None
                    },
                    Wait::Removed => {
                        self.wait = Wait::Idle;
                        self.pending = Some(0);
                        None
                    },
                    Wait::StopTask => {
                        self.wait = Wait::Idle;
                        self.stop_task(file);
                        None
                    },
                    _ => Some(
                        self.fail(file, CjError::from_str("the runner received an answer it did not ask for")),
                    ),
                }
            },
        }
    }

    /// The variables of the run.
    pub fn vars(&self) -> (r: &VarMap)
        ensures
            r@ == self@.vars,
    {
        &self.vars
    }

    /// The exported variables, the environment of every process the run starts.
    pub fn exports(&self) -> (r: &VarMap)
        ensures
            r@ == self@.exports,
    {
        &self.exports
    }
}


/// Whether every line's indentation leaves room for the runner's
/// arithmetic; a caller checks this before starting a run.
pub fn file_indents_fit(file: &TaskFile) -> (b: bool)
    ensures
        b == indents_fit(file@),
{
    let n = file.task_count();
    let mut t: usize = 0;
    while t < n
        invariant
            n == file@.tasks.len(),
            t <= n,
            forall|a: int, i: int|
                0 <= a < t && 0 <= i < file@.tasks[a].lines.len() ==> #[trigger] file@.tasks[a].lines[i].indent
                    <= usize::MAX - 16,
        decreases n - t,
    {
        let m = file.line_count(t);
        let mut i: usize = 0;
        while i < m
            invariant
                n == file@.tasks.len(),
                t < n,
                m == file@.tasks[t as int].lines.len(),
                i <= m,
                forall|a: int, j: int|
                    0 <= a < t && 0 <= j < file@.tasks[a].lines.len() ==> #[trigger] file@.tasks[a].lines[j].indent
                        <= usize::MAX - 16,
                forall|j: int| 0 <= j < i ==> #[trigger] file@.tasks[t as int].lines[j].indent <= usize::MAX - 16,
            decreases m - i,
        {
            let (_, ind, _) = file.line_at(t, i);
            if ind > usize::MAX - 16 {
                return false;
            }
            i = i + 1;
        }
        assert forall|a: int, j: int|
            0 <= a < t + 1 && 0 <= j < file@.tasks[a].lines.len() implies #[trigger] file@.tasks[a].lines[j].indent
                <= usize::MAX - 16 by {
            if a == t {
                assert(file@.tasks[t as int].lines[j].indent <= usize::MAX - 16);
            }
        }
        t = t + 1;
    }
    true
}

/// A task that exports nothing leaves its caller's variables as they were:
/// when the exports are those of the call and agree with the caller's
/// variables, restoring gives back the caller's variables.
pub proof fn lemma_restore_without_exports(
    snapshot: Map<Seq<char>, Seq<char>>,
    exports: Map<Seq<char>, Seq<char>>,
)
    requires
        forall|k: Seq<char>| #[trigger] exports.contains_key(k) ==> snapshot.contains_key(k) && snapshot[k]
            == exports[k],
    ensures
        restore_spec(snapshot, exports, exports) == snapshot,
{
    assert(restore_spec(snapshot, exports, exports) =~= snapshot);
}

/// Whatever a task set locally, after it returns every exported variable
/// has its exported value, and a variable of the caller that was never
/// exported keeps the caller's value.
pub proof fn lemma_restore_keeps_exports_and_locals(
    snapshot: Map<Seq<char>, Seq<char>>,
    previous: Map<Seq<char>, Seq<char>>,
    exports: Map<Seq<char>, Seq<char>>,
    k: Seq<char>,
)
    ensures
        exports.contains_key(k) ==> restore_spec(snapshot, previous, exports).contains_key(k)
            && restore_spec(snapshot, previous, exports)[k] == exports[k],
        snapshot.contains_key(k) && !previous.contains_key(k) && !exports.contains_key(k)
            ==> restore_spec(snapshot, previous, exports).contains_key(k) && restore_spec(
            snapshot,
            previous,
            exports,
        )[k] == snapshot[k],
        !snapshot.contains_key(k) && !exports.contains_key(k) ==> !restore_spec(
            snapshot,
            previous,
            exports,
        ).contains_key(k),
{
}

/// Whether a path lies strictly below a directory, both written as the
/// canonical paths of the file system (no `.` or `..`, no trailing `/` but
/// for the root).
pub open spec fn strictly_inside(target: Seq<char>, base: Seq<char>) -> bool {
    &&& target.len() > base.len()
    &&& target.take(base.len() as int) == base
    &&& (target[base.len() as int] == '/' || (base.len() > 0 && base.last() == '/'))
}

pub open spec fn clean_refused_text(ln: nat) -> Seq<char> {
    line_prefixed_text(ln, "@clean cannot remove the current scope directory or any parent directory"@)
}

/// Why `@clean` of line `ln` may not remove `target`: it is the scope base
/// or not below it (both canonical paths).
pub fn clean_target_error(target: &Vec<char>, base: &Vec<char>, ln: usize) -> (r: Option<CjError>)
    ensures
        match r {
            Some(e) => !strictly_inside(target@, base@) && e@ == clean_refused_text(ln as nat),
            None => strictly_inside(target@, base@),
        },
{
    let n = base.len();
    let mut ok = target.len() > n;
    if ok {
        let mut same = true;
        let mut i: usize = 0;
        while i < n
            invariant
                i <= n,
                n == base@.len(),
                target@.len() > n,
                same <==> forall|j: int| 0 <= j < i ==> target@[j] == base@[j],
            decreases n - i,
        {
            if target[i] != base[i] {
                same = false;
            }
            i = i + 1;
        }
        if same {
            assert(target@.take(n as int) =~= base@);
            ok = target[n] == '/' || (n > 0 && base[n - 1] == '/');
        } else {
            let ghost j = choose|j: int| 0 <= j < n && target@[j] != base@[j];
            assert(target@.take(n as int)[j] != base@[j]);
            ok = false;
        }
    }
    if ok {
        None
    } else {
        Some(line_prefixed(ln, &str_chars("@clean cannot remove the current scope directory or any parent directory")))
    }
}

/// A path without the slashes that end it (a lone `/` stays).
pub open spec fn trim_end_slashes(p: Seq<char>) -> Seq<char>
    decreases p.len(),
{
    if p.len() > 1 && p.last() == '/' {
        trim_end_slashes(p.drop_last())
    } else {
        p
    }
}

/// The position of the last `/`.
pub open spec fn last_slash(p: Seq<char>) -> Option<int>
    decreases p.len(),
{
    if p.len() == 0 {
        None
    } else if p.last() == '/' {
        Some(p.len() - 1)
    } else {
        last_slash(p.drop_last())
    }
}

/// The directory part of a path: what comes before its last `/`.
pub open spec fn parent_text(p: Seq<char>) -> Seq<char> {
    let t = trim_end_slashes(p);
    match last_slash(t) {
        Some(i) => t.take(i),
        None => seq![],
    }
}

pub open spec fn rename_refused_text(ln: nat) -> Seq<char> {
    line_prefixed_text(ln, "@rename cannot move across directories"@)
}

fn parent_text_exec(p: &Vec<char>) -> (r: Vec<char>)
    ensures
        r@ == parent_text(p@),
{
    let mut n = p.len();
    assert(p@.take(n as int) =~= p@);
    while n > 1 && p[n - 1] == '/'
        invariant
            n <= p.len(),
            trim_end_slashes(p@) == trim_end_slashes(p@.take(n as int)),
        decreases n,
    {
        assert(p@.take(n as int).drop_last() =~= p@.take(n - 1));
        n = n - 1;
    }
    let ghost t = p@.take(n as int);
    assert(trim_end_slashes(t) == t);
    assert(t.take(n as int) =~= t);
    let mut k = n;
    while k > 0 && p[k - 1] != '/'
        invariant
            k <= n,
            n <= p.len(),
            t == p@.take(n as int),
            last_slash(t) == last_slash(t.take(k as int)),
        decreases k,
    {
        assert(t.take(k as int).drop_last() =~= t.take(k - 1));
        k = k - 1;
    }
    if k == 0 {
        assert(t.take(0) =~= seq![]);
        Vec::new()
    } else {
        assert(t.take(k as int).last() == '/');
        let r = subvec(p, 0, k - 1);
        assert(r@ =~= t.take(k - 1));
        r
    }
}

/// Why `@rename` of line `ln` may not move `source` to `destination`:
/// they lie in different directories.
pub fn rename_target_error(source: &Vec<char>, destination: &Vec<char>, ln: usize) -> (r: Option<CjError>)
    ensures
        match r {
            Some(e) => parent_text(source@) != parent_text(destination@) && e@ == rename_refused_text(ln as nat),
            None => parent_text(source@) == parent_text(destination@),
        },
{
    let a = parent_text_exec(source);
    let b = parent_text_exec(destination);
    if chars_eq(&a, &b) {
        None
    } else {
        Some(line_prefixed(ln, &str_chars("@rename cannot move across directories")))
    }
}

/// A failed run leaves nothing running: no block, no capture, no task
/// call, no awaited answer.
pub proof fn lemma_failure_unwinds(m: RunModel)
    requires
        m.calls.len() == task_frames(m.frames),
    ensures
        unwind(m).frames.len() == 0,
        unwind(m).captures.len() == 0,
        unwind(m).pending is None,
        unwind(m).wait is Idle,
        unwind(m).calls.len() == 0,
    decreases m.frames.len(),
{
    if m.frames.len() > 0 {
        assert(pop_frame(m).frames == m.frames.drop_last());
        assert(task_frames(m.frames) == task_frames(m.frames.drop_last()) + if m.frames.last().finish is Task {
            1nat
        } else {
            0nat
        });
        lemma_failure_unwinds(pop_frame(m));
    }
}

} // verus!
