//! The taskfile reader: `@version` headers, `@env:`, top-level `@help:`,
//! tasks with arguments, one level of nested task groups, descriptions, task
//! help, and the lines of each task split into same-level expressions.
use vstd::prelude::*;

use crate::command_text::{
    contains_interpolation_spec, contains_variable_interpolation, split_words, split_words_spec,
    unescape_spec, unescape_variable_literals,
};
use crate::error::{line_error, line_error_text, CjError};
use crate::names::{
    colon_count, count_colons, task_name_error, validate_env_name, validate_task_name,
    env_name_error, version_env_key, version_env_key_spec, TaskNameError,
};
use crate::scan::{
    finish_help, finish_help_spec, indent_count, indent_has, indent_width, leading_indent,
    lemma_indent_count_bound, lemma_source_lines_len, line_expressions, source_lines,
    split_directive, split_directive_spec, split_line_expressions, split_source_lines,
    split_whitespace, strip_indent, strip_indent_width, strip_matching_quotes,
    strip_matching_quotes_spec, strip_one_leading_space, strip_one_leading_space_spec, ws_words,
};
use crate::semver::{failure_message, parse_semver, parse_semver_spec, SemverFailure};
use crate::task_header::{
    check_directive_syntax, check_expression_syntax, directive_syntax_error,
    expression_syntax_error, is_nested_header, nested_header, parse_task_header,
    parse_task_header_spec, wrap, wrap_msg,
};
use crate::text::{
    append, append_str, chars_eq, chars_eq_str, chars_find, chars_starts_with_str, chars_trim,
    find_char, is_ws, lemma_find_char, starts_with, str_chars, string_chars, string_from, subvec,
    trim,
};
use crate::vars::VarMap;

verus! {

/// One expression of a task: its source line, its indentation relative to
/// the task header, and its text.
#[derive(Debug)]
pub struct TaskLine {
    pub line_number: usize,
    pub indent: usize,
    pub text: String,
}

pub struct TaskLineModel {
    pub line_number: nat,
    pub indent: nat,
    pub text: Seq<char>,
}

impl View for TaskLine {
    type V = TaskLineModel;

    open spec fn view(&self) -> TaskLineModel {
        TaskLineModel { line_number: self.line_number as nat, indent: self.indent as nat, text: self.text@ }
    }
}

/// A task as declared.
#[derive(Debug)]
pub struct TaskEntry {
    pub name: Vec<char>,
    pub arguments: Vec<Vec<char>>,
    pub lines: Vec<TaskLine>,
    pub description: Option<Vec<char>>,
    pub help: Option<Vec<char>>,
}

pub struct TaskModel {
    pub name: Seq<char>,
    pub arguments: Seq<Seq<char>>,
    pub lines: Seq<TaskLineModel>,
    pub description: Option<Seq<char>>,
    pub help: Option<Seq<char>>,
}

pub open spec fn opt_chars(o: Option<Vec<char>>) -> Option<Seq<char>> {
    match o {
        Some(v) => Some(v@),
        None => None,
    }
}

pub open spec fn seq_views(v: Seq<Vec<char>>) -> Seq<Seq<char>> {
    v.map_values(|x: Vec<char>| x@)
}

pub open spec fn line_views(v: Seq<TaskLine>) -> Seq<TaskLineModel> {
    v.map_values(|x: TaskLine| x@)
}

impl View for TaskEntry {
    type V = TaskModel;

    open spec fn view(&self) -> TaskModel {
        TaskModel {
            name: self.name@,
            arguments: seq_views(self.arguments@),
            lines: line_views(self.lines@),
            description: opt_chars(self.description),
            help: opt_chars(self.help),
        }
    }
}

/// A `@version NAME VALUE` header.
#[derive(Debug)]
pub struct VersionEntry {
    pub name: Vec<char>,
    pub line_number: usize,
    pub env_key: Vec<char>,
}

pub struct VersionModel {
    pub name: Seq<char>,
    pub line_number: nat,
    pub env_key: Seq<char>,
}

impl View for VersionEntry {
    type V = VersionModel;

    open spec fn view(&self) -> VersionModel {
        VersionModel { name: self.name@, line_number: self.line_number as nat, env_key: self.env_key@ }
    }
}

/// A parsed taskfile.
#[derive(Debug)]
pub struct TaskFile {
    overrides: VarMap,
    fallbacks: VarMap,
    tasks: Vec<TaskEntry>,
    help: Option<Vec<char>>,
    versions: Vec<VersionEntry>,
}

/// What a taskfile declares: environment entries that override and that
/// only fill in, the tasks in declaration order, the top-level help, and the
/// version headers.
pub struct FileModel {
    pub overrides: Map<Seq<char>, Seq<char>>,
    pub fallbacks: Map<Seq<char>, Seq<char>>,
    pub tasks: Seq<TaskModel>,
    pub help: Option<Seq<char>>,
    pub versions: Seq<VersionModel>,
}

pub open spec fn task_views(v: Seq<TaskEntry>) -> Seq<TaskModel> {
    v.map_values(|x: TaskEntry| x@)
}

pub open spec fn version_views(v: Seq<VersionEntry>) -> Seq<VersionModel> {
    v.map_values(|x: VersionEntry| x@)
}

impl View for TaskFile {
    type V = FileModel;

    closed spec fn view(&self) -> FileModel {
        FileModel {
            overrides: self.overrides@,
            fallbacks: self.fallbacks@,
            tasks: task_views(self.tasks@),
            help: opt_chars(self.help),
            versions: version_views(self.versions@),
        }
    }
}

impl TaskFile {
    pub closed spec fn wf(&self) -> bool {
        self.overrides.wf() && self.fallbacks.wf()
    }
}

/// Which part of the file the reader is in.
#[derive(Clone, Copy, Debug, PartialEq, Eq, Structural)]
pub enum Section {
    Top,
    Env,
    Task,
    Help,
}

/// The reader between two lines: the file read so far, the section, the
/// open task headers (index of the task and its header indentation), which
/// headers were seen, an open task `@help:` block (task, indentation, lines)
/// and the lines of the top-level `@help:`.
pub struct ParseState {
    pub file: FileModel,
    pub section: Section,
    pub contexts: Seq<(int, nat)>,
    pub seen_env: bool,
    pub seen_help: bool,
    pub seen_task: bool,
    pub active_help: Option<(int, nat, Seq<Seq<char>>)>,
    pub help_lines: Seq<Seq<char>>,
}

pub open spec fn lerr(path: Seq<char>, ln: nat, msg: Seq<char>) -> Seq<char> {
    line_error_text(path, ln, msg)
}

pub open spec fn initial_state() -> ParseState {
    ParseState {
        file: FileModel {
            overrides: Map::empty(),
            fallbacks: Map::empty(),
            tasks: seq![],
            help: None,
            versions: seq![],
        },
        section: Section::Top,
        contexts: seq![],
        seen_env: false,
        seen_help: false,
        seen_task: false,
        active_help: None,
        help_lines: seq![],
    }
}

pub open spec fn with_task(file: FileModel, ti: int, t: TaskModel) -> FileModel {
    FileModel { tasks: file.tasks.update(ti, t), ..file }
}

/// Closes an open task `@help:` block.
pub open spec fn finish_active(st: ParseState) -> ParseState {
    match st.active_help {
        Some((ti, _, hl)) => ParseState {
            file: with_task(
                st.file,
                ti,
                TaskModel { help: Some(finish_help_spec(hl)), ..st.file.tasks[ti] },
            ),
            active_help: None,
            ..st
        },
        None => st,
    }
}

pub open spec fn task_exists(tasks: Seq<TaskModel>, name: Seq<char>) -> bool {
    exists|i: int| 0 <= i < tasks.len() && #[trigger] tasks[i].name == name
}

/// Declares a task with a header at the given indentation.
pub open spec fn add_task(
    st: ParseState,
    key: Seq<char>,
    args: Seq<Seq<char>>,
    hi: nat,
    ln: nat,
    path: Seq<char>,
) -> Result<ParseState, Seq<char>> {
    match task_name_error(key) {
        Some(e) => Err(lerr(path, ln, wrap("invalid task name '"@, key, "': "@ + e.spec_message()))),
        None => if colon_count(key) > 1 {
            Err(
                lerr(
                    path,
                    ln,
                    wrap(
                        "invalid task name '"@,
                        key,
                        "': "@ + TaskNameError::TooDeep.spec_message(),
                    ),
                ),
            )
        } else if task_exists(st.file.tasks, key) {
            Err(lerr(path, ln, wrap("duplicate task '"@, key, "'"@)))
        } else {
            Ok(
                ParseState {
                    file: FileModel {
                        tasks: st.file.tasks.push(
                            TaskModel {
                                name: key,
                                arguments: args,
                                lines: seq![],
                                description: None,
                                help: None,
                            },
                        ),
                        ..st.file
                    },
                    contexts: st.contexts.push((st.file.tasks.len() as int, hi)),
                    seen_task: true,
                    section: Section::Task,
                    ..st
                },
            )
        },
    }
}

/// A `@version NAME VALUE` header: before any task, a valid version name
/// whose key is not declared yet, a semantic version; the value becomes an
/// environment override.
pub open spec fn version_header(st: ParseState, ln: nat, args: Seq<char>, path: Seq<char>) -> Result<
    ParseState,
    Seq<char>,
> {
    if st.seen_task {
        Err(lerr(path, ln, "@version must appear before tasks"@))
    } else {
        let parts = ws_words(args);
        if parts.len() != 2 {
            Err(lerr(path, ln, "@version expects name and value"@))
        } else {
            match version_env_key_spec(parts[0]) {
                Err(e) => Err(
                    lerr(
                        path,
                        ln,
                        wrap("invalid version name '"@, parts[0], "': "@ + e.spec_message()),
                    ),
                ),
                Ok(key) => if st.file.overrides.contains_key(key) || st.file.fallbacks.contains_key(
                    key,
                ) {
                    Err(lerr(path, ln, wrap("duplicate env entry '"@, key, "'"@)))
                } else if parse_semver_spec(parts[1]) is None {
                    Err(lerr(path, ln, failure_message(SemverFailure::Invalid(parts[1]))))
                } else {
                    Ok(
                        ParseState {
                            file: FileModel {
                                overrides: st.file.overrides.insert(key, parts[1]),
                                versions: st.file.versions.push(
                                    VersionModel { name: parts[0], line_number: ln, env_key: key },
                                ),
                                ..st.file
                            },
                            section: Section::Top,
                            ..st
                        },
                    )
                },
            }
        }
    }
}

pub open spec fn is_version_line(line: Seq<char>) -> bool {
    line.len() > 0 && line[0] == '@' && split_directive_spec(line.drop_first()).0 == "version"@
}

/// A line without indentation.
pub open spec fn top_level(st: ParseState, ln: nat, line: Seq<char>, path: Seq<char>) -> Result<
    ParseState,
    Seq<char>,
> {
    if is_version_line(line) {
        version_header(st, ln, split_directive_spec(line.drop_first()).1, path)
    } else if line == "@help:"@ {
        if st.seen_help {
            Err(lerr(path, ln, "multiple help sections are not allowed"@))
        } else {
            Ok(ParseState { seen_help: true, section: Section::Help, ..st })
        }
    } else {
        match parse_task_header_spec(line) {
            Err(m) => Err(lerr(path, ln, m)),
            Ok((key, args)) => if key == "@env"@ {
                if st.seen_task {
                    Err(lerr(path, ln, "@env: must appear before tasks"@))
                } else if st.seen_env {
                    Err(lerr(path, ln, "multiple @env: sections are not allowed"@))
                } else {
                    Ok(ParseState { seen_env: true, section: Section::Env, ..st })
                }
            } else {
                add_task(st, key, args, 0, ln, path)
            },
        }
    }
}

/// An `@env:` entry `NAME: value` (override) or `NAME?: value` (used only
/// where the variable is absent).
pub open spec fn env_entry(st: ParseState, entry: Seq<char>, ln: nat, path: Seq<char>) -> Result<
    ParseState,
    Seq<char>,
> {
    match find_char(entry, ':') {
        None => Err(lerr(path, ln, "env entry must contain ':'"@)),
        Some(i) => {
            let raw = entry.take(i);
            let fallback = raw.len() > 0 && raw.last() == '?';
            let key = if fallback {
                raw.drop_last()
            } else {
                raw
            };
            match env_name_error(key) {
                Some(e) => Err(
                    lerr(path, ln, wrap("invalid env name '"@, key, "': "@ + e.spec_message())),
                ),
                None => if st.file.overrides.contains_key(key) || st.file.fallbacks.contains_key(
                    key,
                ) {
                    Err(lerr(path, ln, wrap("duplicate env entry '"@, key, "'"@)))
                } else {
                    let value = strip_matching_quotes_spec(
                        strip_one_leading_space_spec(entry.skip(i + 1)),
                    );
                    if fallback {
                        Ok(
                            ParseState {
                                file: FileModel {
                                    fallbacks: st.file.fallbacks.insert(key, value),
                                    ..st.file
                                },
                                ..st
                            },
                        )
                    } else {
                        Ok(
                            ParseState {
                                file: FileModel {
                                    overrides: st.file.overrides.insert(key, value),
                                    ..st.file
                                },
                                ..st
                            },
                        )
                    }
                },
            }
        },
    }
}

/// The open task headers that a line at indentation `w` still belongs to.
pub open spec fn pop_contexts(ctx: Seq<(int, nat)>, w: nat) -> Seq<(int, nat)>
    decreases ctx.len(),
{
    if ctx.len() > 1 && w <= ctx.last().1 {
        pop_contexts(ctx.drop_last(), w)
    } else {
        ctx
    }
}

/// The arguments of `@desc`, when the text is that directive.
pub open spec fn description_args(text: Seq<char>) -> Option<Seq<char>> {
    if starts_with(text, "@desc"@) {
        let a = text.skip(5);
        if a.len() == 0 || is_ws(a[0]) {
            Some(a)
        } else {
            None
        }
    } else {
        None
    }
}

/// The first syntax problem among a line's expressions.
pub open spec fn exprs_error(exprs: Seq<Seq<char>>) -> Option<Seq<char>>
    decreases exprs.len(),
{
    if exprs.len() == 0 {
        None
    } else if expression_syntax_error(exprs[0]) is Some {
        expression_syntax_error(exprs[0])
    } else if directive_syntax_error(exprs[0]) is Some {
        directive_syntax_error(exprs[0])
    } else {
        exprs_error(exprs.drop_first())
    }
}

pub open spec fn expr_lines(exprs: Seq<Seq<char>>, ln: nat, indent: nat) -> Seq<TaskLineModel> {
    exprs.map_values(|e: Seq<char>| TaskLineModel { line_number: ln, indent, text: e })
}

/// An indented line under a task: a nested task header, `@desc`, `@help:`,
/// or expressions added to the task.
pub open spec fn task_body(st: ParseState, ln: nat, line: Seq<char>, path: Seq<char>) -> Result<
    ParseState,
    Seq<char>,
> {
    let w = indent_width(line);
    let ctx = pop_contexts(st.contexts, w);
    if ctx.len() == 0 {
        Err(lerr(path, ln, "command without a task"@))
    } else {
        let ti = ctx.last().0;
        let hi = ctx.last().1;
        let text = line.skip(indent_count(line) as int);
        let logical = w - hi;
        let st1 = ParseState { contexts: ctx, ..st };
        let task = st.file.tasks[ti];
        if logical == 2 && is_nested_header(text) {
            match parse_task_header_spec(text) {
                Err(m) => Err(lerr(path, ln, m)),
                Ok((child, args)) => add_task(st1, task.name + ":"@ + child, args, w, ln, path),
            }
        } else if logical == 2 && description_args(text) is Some {
            let d = description_args(text)->0;
            if contains_interpolation_spec(d) {
                Err(lerr(path, ln, "@desc text cannot contain variables"@))
            } else {
                Ok(
                    ParseState {
                        file: with_task(
                            st.file,
                            ti,
                            TaskModel { description: Some(unescape_spec(trim(d))), ..task },
                        ),
                        ..st1
                    },
                )
            }
        } else if logical == 2 && text == "@help:"@ {
            Ok(ParseState { active_help: Some((ti, w, seq![])), ..st1 })
        } else {
            let exprs = line_expressions(text);
            match exprs_error(exprs) {
                Some(m) => Err(lerr(path, ln, m)),
                None => Ok(
                    ParseState {
                        file: with_task(
                            st.file,
                            ti,
                            TaskModel {
                                lines: task.lines + expr_lines(exprs, ln, logical as nat),
                                ..task
                            },
                        ),
                        ..st1
                    },
                ),
            }
        }
    }
}

/// An indented line.
pub open spec fn indented(st: ParseState, ln: nat, line: Seq<char>, path: Seq<char>) -> Result<
    ParseState,
    Seq<char>,
> {
    let w = indent_width(line);
    if w < 2 || w % 2 != 0 {
        Err(lerr(path, ln, "indented entries must use full indentation levels: an even number of spaces, at least two"@))
    } else {
        match st.section {
            Section::Env => if w != 2 {
                Err(lerr(path, ln, "env entries must use exactly one indentation level"@))
            } else {
                env_entry(st, line.skip(indent_count(line) as int), ln, path)
            },
            Section::Task => task_body(st, ln, line, path),
            _ => Err(lerr(path, ln, "indented entry is not under env or a task"@)),
        }
    }
}

/// A line outside any `@help:` block.
pub open spec fn step_line(st: ParseState, ln: nat, line: Seq<char>, path: Seq<char>) -> Result<
    ParseState,
    Seq<char>,
> {
    let t = trim(line);
    if t.len() == 0 || t[0] == '#' {
        Ok(st)
    } else if indent_count(line) == 0 {
        top_level(ParseState { contexts: seq![], ..st }, ln, line, path)
    } else {
        indented(st, ln, line, path)
    }
}

/// A line after any task `@help:` block is handled: the top-level help
/// section takes blank and indented lines.
pub open spec fn step_after_help(st: ParseState, ln: nat, line: Seq<char>, path: Seq<char>) -> Result<
    ParseState,
    Seq<char>,
> {
    if st.section == Section::Help {
        if trim(line).len() == 0 {
            Ok(ParseState { help_lines: st.help_lines.push(seq![]), ..st })
        } else if indent_count(line) > 0 {
            if indent_width(line) < 2 {
                Err(lerr(path, ln, "help entries must use at least two leading spaces"@))
            } else if contains_interpolation_spec(line.skip(indent_count(line) as int)) {
                Err(lerr(path, ln, "@help: text cannot contain variables"@))
            } else {
                Ok(
                    ParseState {
                        help_lines: st.help_lines.push(
                            unescape_spec(strip_indent_width(line, 2)),
                        ),
                        ..st
                    },
                )
            }
        } else {
            step_line(ParseState { section: Section::Top, ..st }, ln, line, path)
        }
    } else {
        step_line(st, ln, line, path)
    }
}

/// One line of the file.
#[verifier::opaque]
pub open spec fn step(st: ParseState, ln: nat, line: Seq<char>, path: Seq<char>) -> Result<
    ParseState,
    Seq<char>,
> {
    match st.active_help {
        Some((ti, hi, hl)) => if trim(line).len() == 0 {
            Ok(ParseState { active_help: Some((ti, hi, hl.push(seq![]))), ..st })
        } else if indent_count(line) > 0 && indent_width(line) > hi {
            if contains_interpolation_spec(line.skip(indent_count(line) as int)) {
                Err(lerr(path, ln, "@help: text cannot contain variables"@))
            } else {
                Ok(
                    ParseState {
                        active_help: Some(
                            (ti, hi, hl.push(unescape_spec(strip_indent_width(line, hi + 2)))),
                        ),
                        ..st
                    },
                )
            }
        } else {
            step_after_help(finish_active(st), ln, line, path)
        },
        None => step_after_help(st, ln, line, path),
    }
}

/// The reader after the given lines (numbered from one).
pub open spec fn parse_fold(lines: Seq<Seq<char>>, path: Seq<char>) -> Result<ParseState, Seq<char>>
    decreases lines.len(),
{
    if lines.len() == 0 {
        Ok(initial_state())
    } else {
        match parse_fold(lines.drop_last(), path) {
            Err(m) => Err(m),
            Ok(st) => step(st, lines.len(), lines.last(), path),
        }
    }
}

/// Which leading whitespace kinds the first lines use, and the first line
/// (numbered from one) where spaces and tabs meet.
pub open spec fn mixed_fold(lines: Seq<Seq<char>>) -> (bool, bool, Option<nat>)
    decreases lines.len(),
{
    if lines.len() == 0 {
        (false, false, None)
    } else {
        let (s, t, e) = mixed_fold(lines.drop_last());
        let line = lines.last();
        let hs = indent_has(line, ' ');
        let ht = indent_has(line, '\t');
        let s2 = s || hs;
        let t2 = t || ht;
        let e2 = if e is Some {
            e
        } else if (hs && ht) || (s2 && t2) {
            Some(lines.len())
        } else {
            None
        };
        (s2, t2, e2)
    }
}

pub open spec fn mixed_message() -> Seq<char> {
    "taskfile uses both leading spaces and tabs for indentation; use one indentation style per file or run `cj --format` to normalize indentation to spaces"@
}

/// The position of a task by name.
pub open spec fn find_task(tasks: Seq<TaskModel>, name: Seq<char>) -> Option<int>
    decreases tasks.len(),
{
    if tasks.len() == 0 {
        None
    } else if tasks[0].name == name {
        Some(0)
    } else {
        match find_task(tasks.drop_first(), name) {
            Some(i) => Some(i + 1),
            None => None,
        }
    }
}

pub open spec fn requires_arguments(tasks: Seq<TaskModel>, name: Seq<char>) -> bool {
    match find_task(tasks, name) {
        Some(i) => tasks[i].arguments.len() > 0,
        None => false,
    }
}

/// The first awaited word that names a task with arguments.
pub open spec fn first_awaited_with_arguments(words: Seq<Seq<char>>, tasks: Seq<TaskModel>) -> Option<
    Seq<char>,
>
    decreases words.len(),
{
    if words.len() == 0 {
        None
    } else if requires_arguments(tasks, words[0]) {
        Some(words[0])
    } else {
        first_awaited_with_arguments(words.drop_first(), tasks)
    }
}

/// The task named by an `@await` line that cannot be awaited because it
/// takes arguments.
pub open spec fn await_line_error(tasks: Seq<TaskModel>, text: Seq<char>) -> Option<Seq<char>> {
    if text.len() > 0 && text[0] == '@' && split_directive_spec(text.drop_first()).0 == "await"@ {
        match split_words_spec(split_directive_spec(text.drop_first()).1) {
            Ok(words) => first_awaited_with_arguments(words, tasks),
            Err(_) => None,
        }
    } else {
        None
    }
}

/// All task lines, task after task.
pub open spec fn all_lines(tasks: Seq<TaskModel>) -> Seq<TaskLineModel>
    decreases tasks.len(),
{
    if tasks.len() == 0 {
        seq![]
    } else {
        all_lines(tasks.drop_last()) + tasks.last().lines
    }
}

/// The first `@await` of a task that takes arguments.
pub open spec fn first_await_error(lines: Seq<TaskLineModel>, tasks: Seq<TaskModel>, path: Seq<char>) -> Option<
    Seq<char>,
>
    decreases lines.len(),
{
    if lines.len() == 0 {
        None
    } else {
        match await_line_error(tasks, lines[0].text) {
            Some(w) => Some(
                lerr(path, lines[0].line_number, wrap("awaited task '"@, w, "' requires arguments"@)),
            ),
            None => first_await_error(lines.drop_first(), tasks, path),
        }
    }
}

/// The file once every line is read: the open help block closed, the
/// top-level help finished.
pub open spec fn finish_file(st: ParseState) -> FileModel {
    let st2 = finish_active(st);
    FileModel {
        help: if st2.seen_help {
            Some(finish_help_spec(st2.help_lines))
        } else {
            None
        },
        ..st2.file
    }
}

/// What a taskfile text declares, or the message of its first problem.
pub open spec fn parse_task_file_spec(source: Seq<char>, path: Seq<char>) -> Result<
    FileModel,
    Seq<char>,
> {
    let lines = source_lines(source);
    match mixed_fold(lines).2 {
        Some(ln) => Err(lerr(path, ln, mixed_message())),
        None => match parse_fold(lines, path) {
            Err(m) => Err(m),
            Ok(st) => {
                let file = finish_file(st);
                match first_await_error(all_lines(file.tasks), file.tasks, path) {
                    Some(m) => Err(m),
                    None => Ok(file),
                }
            },
        },
    }
}

/// The reader's state.
struct Parser {
    file: TaskFile,
    section: Section,
    contexts: Vec<(usize, usize)>,
    seen_env: bool,
    seen_help: bool,
    seen_task: bool,
    active_help: Option<(usize, usize, Vec<Vec<char>>)>,
    help_lines: Vec<Vec<char>>,
}

pub(crate) open spec fn ctx_views(c: Seq<(usize, usize)>) -> Seq<(int, nat)> {
    c.map_values(|p: (usize, usize)| (p.0 as int, p.1 as nat))
}

spec fn active_view(a: Option<(usize, usize, Vec<Vec<char>>)>) -> Option<(int, nat, Seq<Seq<char>>)> {
    match a {
        Some((i, h, l)) => Some((i as int, h as nat, seq_views(l@))),
        None => None,
    }
}

impl Parser {
    spec fn view(&self) -> ParseState {
        ParseState {
            file: self.file@,
            section: self.section,
            contexts: ctx_views(self.contexts@),
            seen_env: self.seen_env,
            seen_help: self.seen_help,
            seen_task: self.seen_task,
            active_help: active_view(self.active_help),
            help_lines: seq_views(self.help_lines@),
        }
    }

    spec fn wf(&self) -> bool {
        &&& self.file.wf()
        &&& forall|k: int|
            0 <= k < self.contexts@.len() ==> #[trigger] self.contexts@[k].0 < self.file.tasks@.len()
        &&& self.contexts@.len() > 0 ==> self.contexts@[0].1 == 0
        &&& self.active_help matches Some((i, _, _)) ==> i < self.file.tasks@.len()
    }
}

fn task_name_exists(tasks: &Vec<TaskEntry>, name: &Vec<char>) -> (b: bool)
    ensures
        b == task_exists(task_views(tasks@), name@),
{
    let mut i: usize = 0;
    while i < tasks.len()
        invariant
            i <= tasks.len(),
            forall|j: int| 0 <= j < i ==> #[trigger] task_views(tasks@)[j].name != name@,
        decreases tasks.len() - i,
    {
        if chars_eq(&tasks[i].name, name) {
            assert(task_views(tasks@)[i as int].name == name@);
            return true;
        }
        i = i + 1;
    }
    false
}

fn error_at(path: &Vec<char>, ln: usize, msg: &str) -> (e: CjError)
    ensures
        e@ == lerr(path@, ln as nat, msg@),
{
    let m = str_chars(msg);
    line_error(path, ln, &m)
}

impl Parser {
    fn new() -> (p: Parser)
        ensures
            p.wf(),
            p.view() == initial_state(),
    {
        let p = Parser {
            file: TaskFile {
                overrides: VarMap::new(),
                fallbacks: VarMap::new(),
                tasks: Vec::new(),
                help: None,
                versions: Vec::new(),
            },
            section: Section::Top,
            contexts: Vec::new(),
            seen_env: false,
            seen_help: false,
            seen_task: false,
            active_help: None,
            help_lines: Vec::new(),
        };
        assert(task_views(p.file.tasks@) =~= seq![]);
        assert(version_views(p.file.versions@) =~= seq![]);
        assert(ctx_views(p.contexts@) =~= seq![]);
        assert(seq_views(p.help_lines@) =~= seq![]);
        p
    }

    fn finish_active_help(&mut self)
        requires
            old(self).wf(),
        ensures
            final(self).wf(),
            final(self).view() == finish_active(old(self).view()),
    {
        let a = self.active_help.take();
        match a {
            Some((ti, hi, hl)) => {
                let h = finish_help(&hl);
                let ghost before = task_views(self.file.tasks@);
                self.file.tasks[ti].help = Some(h);
                assert(task_views(self.file.tasks@) =~= before.update(
                    ti as int,
                    TaskModel { help: Some(finish_help_spec(seq_views(hl@))), ..before[ti as int] },
                ));
            },
            None => {},
        }
    }

    fn add_task(
        &mut self,
        key: Vec<char>,
        args: Vec<Vec<char>>,
        hi: usize,
        ln: usize,
        path: &Vec<char>,
    ) -> (r: Result<(), CjError>)
        requires
            old(self).wf(),
            old(self).contexts@.len() == 0 ==> hi == 0,
        ensures
            match r {
                Ok(()) => final(self).wf() && add_task(
                    old(self).view(),
                    key@,
                    seq_views(args@),
                    hi as nat,
                    ln as nat,
                    path@,
                ) == Ok::<ParseState, Seq<char>>(final(self).view()),
                Err(e) => add_task(
                    old(self).view(),
                    key@,
                    seq_views(args@),
                    hi as nat,
                    ln as nat,
                    path@,
                ) == Err::<ParseState, Seq<char>>(e@),
            },
    {
        match validate_task_name(&key) {
            Err(e) => {
                let mut m = wrap_msg("invalid task name '", &key, "': ");
                append_str(&mut m, e.message());
                assert(m@ =~= wrap("invalid task name '"@, key@, "': "@ + e.spec_message()));
                return Err(line_error(path, ln, &m));
            },
            Ok(()) => {},
        }
        if count_colons(&key) > 1 {
            let mut m = wrap_msg("invalid task name '", &key, "': ");
            append_str(&mut m, TaskNameError::TooDeep.message());
            assert(m@ =~= wrap(
                "invalid task name '"@,
                key@,
                "': "@ + TaskNameError::TooDeep.spec_message(),
            ));
            return Err(line_error(path, ln, &m));
        }
        if task_name_exists(&self.file.tasks, &key) {
            let m = wrap_msg("duplicate task '", &key, "'");
            return Err(line_error(path, ln, &m));
        }
        let idx = self.file.tasks.len();
        let ghost before = task_views(self.file.tasks@);
        let ghost kv = key@;
        let ghost av = seq_views(args@);
        let entry = TaskEntry {
            name: key,
            arguments: args,
            lines: Vec::new(),
            description: None,
            help: None,
        };
        assert(line_views(entry.lines@) =~= seq![]);
        self.file.tasks.push(entry);
        assert(task_views(self.file.tasks@) =~= before.push(
            TaskModel { name: kv, arguments: av, lines: seq![], description: None, help: None },
        ));
        let ghost cbefore = ctx_views(self.contexts@);
        self.contexts.push((idx, hi));
        assert(ctx_views(self.contexts@) =~= cbefore.push((idx as int, hi as nat)));
        self.seen_task = true;
        self.section = Section::Task;
        Ok(())
    }

    fn version_header(&mut self, ln: usize, args: &Vec<char>, path: &Vec<char>) -> (r: Result<
        (),
        CjError,
    >)
        requires
            old(self).wf(),
        ensures
            match r {
                Ok(()) => final(self).wf() && version_header(
                    old(self).view(),
                    ln as nat,
                    args@,
                    path@,
                ) == Ok::<ParseState, Seq<char>>(final(self).view()),
                Err(e) => version_header(old(self).view(), ln as nat, args@, path@) == Err::<
                    ParseState,
                    Seq<char>,
                >(e@),
            },
    {
        if self.seen_task {
            return Err(error_at(path, ln, "@version must appear before tasks"));
        }
        let parts = split_whitespace(args);
        if parts.len() != 2 {
            return Err(error_at(path, ln, "@version expects name and value"));
        }
        assert(ws_words(args@)[0] == parts@[0]@);
        assert(ws_words(args@)[1] == parts@[1]@);
        let key = match version_env_key(&parts[0]) {
            Err(e) => {
                let mut m = wrap_msg("invalid version name '", &parts[0], "': ");
                append_str(&mut m, e.message());
                assert(m@ =~= wrap("invalid version name '"@, parts@[0]@, "': "@ + e.spec_message()));
                return Err(line_error(path, ln, &m));
            },
            Ok(k) => k,
        };
        if self.file.overrides.contains_key(&key) || self.file.fallbacks.contains_key(&key) {
            let m = wrap_msg("duplicate env entry '", &key, "'");
            return Err(line_error(path, ln, &m));
        }
        if parse_semver(&parts[1]).is_none() {
            let err = crate::semver::SemverError::Invalid(parts[1].clone());
            let m = err.message();
            assert(err@ == SemverFailure::Invalid(parts@[1]@));
            return Err(line_error(path, ln, &m));
        }
        let ghost vbefore = version_views(self.file.versions@);
        let entry = VersionEntry { name: parts[0].clone(), line_number: ln, env_key: key.clone() };
        self.file.overrides.insert(key, parts[1].clone());
        self.file.versions.push(entry);
        assert(version_views(self.file.versions@) =~= vbefore.push(
            VersionModel { name: parts@[0]@, line_number: ln as nat, env_key: version_env_key_spec(parts@[0]@)->Ok_0 },
        ));
        self.section = Section::Top;
        Ok(())
    }
}

pub(crate) fn is_version_line_exec(line: &Vec<char>) -> (r: Option<Vec<char>>)
    ensures
        match r {
            Some(args) => is_version_line(line@) && args@ == split_directive_spec(
                line@.drop_first(),
            ).1,
            None => !is_version_line(line@),
        },
{
    if line.len() > 0 && line[0] == '@' {
        let rest = subvec(line, 1, line.len());
        assert(rest@ =~= line@.drop_first());
        let (name, args) = split_directive(&rest);
        if chars_eq_str(&name, "version") {
            return Some(args);
        }
    }
    None
}

pub(crate) proof fn lemma_pop_contexts(ctx: Seq<(int, nat)>, w: nat)
    ensures
        pop_contexts(ctx, w).len() > 1 ==> w > pop_contexts(ctx, w).last().1,
        pop_contexts(ctx, w).len() <= ctx.len(),
        ctx.len() > 0 ==> pop_contexts(ctx, w).len() > 0,
    decreases ctx.len(),
{
    if ctx.len() > 1 && w <= ctx.last().1 {
        lemma_pop_contexts(ctx.drop_last(), w);
    }
}

pub(crate) fn pop_contexts_exec(ctx: &mut Vec<(usize, usize)>, w: usize)
    ensures
        ctx_views(final(ctx)@) == pop_contexts(ctx_views(old(ctx)@), w as nat),
        final(ctx)@.len() <= old(ctx)@.len(),
        forall|k: int| 0 <= k < final(ctx)@.len() ==> #[trigger] final(ctx)@[k] == old(ctx)@[k],
{
    let ghost start = ctx@;
    while ctx.len() > 1 && w <= ctx[ctx.len() - 1].1
        invariant
            ctx@.len() <= start.len(),
            forall|k: int| 0 <= k < ctx@.len() ==> #[trigger] ctx@[k] == start[k],
            pop_contexts(ctx_views(start), w as nat) == pop_contexts(ctx_views(ctx@), w as nat),
        decreases ctx.len(),
    {
        let ghost before = ctx@;
        ctx.pop();
        assert(ctx_views(before).drop_last() =~= ctx_views(ctx@));
    }
}

pub(crate) fn description_args_exec(text: &Vec<char>) -> (r: Option<Vec<char>>)
    ensures
        match r {
            Some(a) => description_args(text@) == Some(a@),
            None => description_args(text@) is None,
        },
{
    if chars_starts_with_str(text, "@desc") {
        proof {
            reveal_strlit("@desc");
        }
        let a = subvec(text, 5, text.len());
        if a.len() == 0 || crate::text::char_is_ws(a[0]) {
            return Some(a);
        }
    }
    None
}

fn first_expr_error(exprs: &Vec<Vec<char>>) -> (r: Option<Vec<char>>)
    ensures
        match r {
            Some(m) => exprs_error(seq_views(exprs@)) == Some(m@),
            None => exprs_error(seq_views(exprs@)) is None,
        },
{
    let ghost all = seq_views(exprs@);
    let mut k: usize = 0;
    assert(all.skip(0) =~= all);
    while k < exprs.len()
        invariant
            k <= exprs.len(),
            all == seq_views(exprs@),
            exprs_error(all) == exprs_error(all.skip(k as int)),
        decreases exprs.len() - k,
    {
        assert(all.skip(k as int)[0] == exprs@[k as int]@);
        match check_expression_syntax(&exprs[k]) {
            Some(m) => {
                return Some(m);
            },
            None => {},
        }
        match check_directive_syntax(&exprs[k]) {
            Some(m) => {
                return Some(m);
            },
            None => {},
        }
        assert(all.skip(k as int).drop_first() =~= all.skip(k + 1));
        k = k + 1;
    }
    None
}

fn push_lines(tasks: &mut Vec<TaskEntry>, ti: usize, exprs: &Vec<Vec<char>>, ln: usize, logical: usize)
    requires
        ti < old(tasks)@.len(),
    ensures
        task_views(final(tasks)@) == task_views(old(tasks)@).update(
            ti as int,
            TaskModel {
                lines: task_views(old(tasks)@)[ti as int].lines + expr_lines(
                    seq_views(exprs@),
                    ln as nat,
                    logical as nat,
                ),
                ..task_views(old(tasks)@)[ti as int]
            },
        ),
{
    let ghost before = task_views(tasks@);
    let ghost old_lines = before[ti as int].lines;
    let ghost ev = seq_views(exprs@);
    let mut k: usize = 0;
    assert(task_views(tasks@) =~= before.update(
        ti as int,
        TaskModel { lines: old_lines + expr_lines(ev.take(0), ln as nat, logical as nat), ..before[ti as int] },
    ));
    while k < exprs.len()
        invariant
            k <= exprs.len(),
            ti < tasks@.len(),
            before.len() == tasks@.len(),
            ev == seq_views(exprs@),
            old_lines == before[ti as int].lines,
            task_views(tasks@) == before.update(
                ti as int,
                TaskModel {
                    lines: old_lines + expr_lines(ev.take(k as int), ln as nat, logical as nat),
                    ..before[ti as int]
                },
            ),
        decreases exprs.len() - k,
    {
        let t = string_from(&exprs[k]);
        let ghost tb = task_views(tasks@);
        let ghost prev_lines = tasks@[ti as int].lines@;
        let ghost item = TaskLineModel { line_number: ln as nat, indent: logical as nat, text: ev[k as int] };
        tasks[ti].lines.push(TaskLine { line_number: ln, indent: logical, text: t });
        assert(line_views(tasks@[ti as int].lines@) =~= line_views(prev_lines).push(item));
        assert(expr_lines(ev.take(k + 1), ln as nat, logical as nat) =~= expr_lines(
            ev.take(k as int),
            ln as nat,
            logical as nat,
        ).push(item));
        assert(tb[ti as int].lines == old_lines + expr_lines(ev.take(k as int), ln as nat, logical as nat));
        assert(old_lines + expr_lines(ev.take(k + 1), ln as nat, logical as nat) =~= tb[ti as int].lines.push(item));
        assert(task_views(tasks@)[ti as int] == (TaskModel { lines: tb[ti as int].lines.push(item), ..tb[ti as int] }));
        assert forall|j: int| 0 <= j < tasks@.len() && j != ti implies task_views(tasks@)[j] == tb[j] by {
        }
        let ghost target = before.update(
            ti as int,
            TaskModel {
                lines: old_lines + expr_lines(ev.take(k + 1), ln as nat, logical as nat),
                ..before[ti as int]
            },
        );
        assert forall|j: int| 0 <= j < tasks@.len() implies task_views(tasks@)[j] == target[j] by {
            if j != ti {
                assert(tb[j] == before[j]);
            } else {
                assert(tb[j].name == before[j].name);
                assert(task_views(tasks@)[j].lines == target[j].lines);
            }
        }
        assert(task_views(tasks@) =~= target);
        k = k + 1;
    }
    assert(ev.take(exprs.len() as int) =~= ev);
}

impl Parser {
    fn top_level(&mut self, ln: usize, line: &Vec<char>, path: &Vec<char>) -> (r: Result<
        (),
        CjError,
    >)
        requires
            old(self).wf(),
            old(self).contexts@.len() == 0,
        ensures
            match r {
                Ok(()) => final(self).wf() && top_level(old(self).view(), ln as nat, line@, path@)
                    == Ok::<ParseState, Seq<char>>(final(self).view()),
                Err(e) => top_level(old(self).view(), ln as nat, line@, path@) == Err::<
                    ParseState,
                    Seq<char>,
                >(e@),
            },
    {
        match is_version_line_exec(line) {
            Some(args) => {
                return self.version_header(ln, &args, path);
            },
            None => {},
        }
        if chars_eq_str(line, "@help:") {
            if self.seen_help {
                return Err(error_at(path, ln, "multiple help sections are not allowed"));
            }
            self.seen_help = true;
            self.section = Section::Help;
            return Ok(());
        }
        match parse_task_header(line) {
            Err(m) => Err(line_error(path, ln, &m)),
            Ok((key, args)) => {
                if chars_eq_str(&key, "@env") {
                    if self.seen_task {
                        return Err(error_at(path, ln, "@env: must appear before tasks"));
                    }
                    if self.seen_env {
                        return Err(error_at(path, ln, "multiple @env: sections are not allowed"));
                    }
                    self.seen_env = true;
                    self.section = Section::Env;
                    Ok(())
                } else {
                    self.add_task(key, args, 0, ln, path)
                }
            },
        }
    }

    fn env_entry(&mut self, entry: &Vec<char>, ln: usize, path: &Vec<char>) -> (r: Result<
        (),
        CjError,
    >)
        requires
            old(self).wf(),
        ensures
            match r {
                Ok(()) => final(self).wf() && env_entry(old(self).view(), entry@, ln as nat, path@)
                    == Ok::<ParseState, Seq<char>>(final(self).view()),
                Err(e) => env_entry(old(self).view(), entry@, ln as nat, path@) == Err::<
                    ParseState,
                    Seq<char>,
                >(e@),
            },
    {
        let i = match chars_find(entry, ':') {
            None => {
                return Err(error_at(path, ln, "env entry must contain ':'"));
            },
            Some(i) => i,
        };
        proof {
            lemma_find_char(entry@, ':');
        }
        let raw = subvec(entry, 0, i);
        let fallback = raw.len() > 0 && raw[raw.len() - 1] == '?';
        let key = if fallback {
            subvec(&raw, 0, raw.len() - 1)
        } else {
            raw
        };
        assert(fallback ==> key@ =~= raw@.drop_last());
        match validate_env_name(&key) {
            Err(e) => {
                let mut m = wrap_msg("invalid env name '", &key, "': ");
                append_str(&mut m, e.message());
                assert(m@ =~= wrap("invalid env name '"@, key@, "': "@ + e.spec_message()));
                return Err(line_error(path, ln, &m));
            },
            Ok(()) => {},
        }
        if self.file.overrides.contains_key(&key) || self.file.fallbacks.contains_key(&key) {
            let m = wrap_msg("duplicate env entry '", &key, "'");
            return Err(line_error(path, ln, &m));
        }
        assert(i < entry.len());
        let rest = subvec(entry, i + 1, entry.len());
        let value = strip_matching_quotes(&strip_one_leading_space(&rest));
        if fallback {
            self.file.fallbacks.insert(key, value);
        } else {
            self.file.overrides.insert(key, value);
        }
        Ok(())
    }

    fn task_body(&mut self, ln: usize, line: &Vec<char>, path: &Vec<char>) -> (r: Result<
        (),
        CjError,
    >)
        requires
            old(self).wf(),
            line.len() <= usize::MAX / 2,
            indent_count(line@) > 0,
            indent_width(line@) >= 2,
        ensures
            match r {
                Ok(()) => final(self).wf() && task_body(old(self).view(), ln as nat, line@, path@)
                    == Ok::<ParseState, Seq<char>>(final(self).view()),
                Err(e) => task_body(old(self).view(), ln as nat, line@, path@) == Err::<
                    ParseState,
                    Seq<char>,
                >(e@),
            },
    {
        let ind = leading_indent(line);
        let w = ind.width;
        pop_contexts_exec(&mut self.contexts, w);
        if self.contexts.len() == 0 {
            return Err(error_at(path, ln, "command without a task"));
        }
        let (ti, hi) = self.contexts[self.contexts.len() - 1];
        assert(ctx_views(self.contexts@).last() == (ti as int, hi as nat));
        proof {
            lemma_pop_contexts(ctx_views(old(self).contexts@), w as nat);
            if self.contexts@.len() > 1 {
                assert(!(w <= hi));
            } else {
                assert(self.contexts@[0] == old(self).contexts@[0]);
            }
        }
        assert(w > hi);
        let text = subvec(line, ind.count, line.len());
        let logical = w - hi;
        if logical == 2 && nested_header(&text) {
            return match parse_task_header(&text) {
                Err(m) => Err(line_error(path, ln, &m)),
                Ok((child, args)) => {
                    let mut name = self.file.tasks[ti].name.clone();
                    name.push(':');
                    append(&mut name, &child);
                    assert(name@ =~= self.file.tasks@[ti as int].name@ + ":"@ + child@) by {
                        reveal_strlit(":");
                    }
                    self.add_task(name, args, w, ln, path)
                },
            };
        }
        if logical == 2 {
            match description_args_exec(&text) {
                Some(d) => {
                    if contains_variable_interpolation(&d) {
                        return Err(error_at(path, ln, "@desc text cannot contain variables"));
                    }
                    let t = chars_trim(&d);
                    let desc = unescape_variable_literals(&t);
                    let ghost before = task_views(self.file.tasks@);
                    self.file.tasks[ti].description = Some(desc);
                    assert(task_views(self.file.tasks@) =~= before.update(
                        ti as int,
                        TaskModel { description: Some(unescape_spec(trim(d@))), ..before[ti as int] },
                    ));
                    return Ok(());
                },
                None => {},
            }
            if chars_eq_str(&text, "@help:") {
                let empty: Vec<Vec<char>> = Vec::new();
                assert(seq_views(empty@) =~= seq![]);
                self.active_help = Some((ti, w, empty));
                return Ok(());
            }
        }
        let exprs = split_line_expressions(&text);
        match first_expr_error(&exprs) {
            Some(m) => {
                return Err(line_error(path, ln, &m));
            },
            None => {},
        }
        let ghost before = task_views(self.file.tasks@);
        push_lines(&mut self.file.tasks, ti, &exprs, ln, logical);
        assert(task_views(self.file.tasks@).len() == before.len());
        assert(self.file.tasks@.len() == old(self).file.tasks@.len());
        assert(self.file.wf());
        assert(self.contexts@.len() > 0 ==> self.contexts@[0].1 == 0);
        assert(forall|k: int|
            0 <= k < self.contexts@.len() ==> #[trigger] self.contexts@[k].0 < self.file.tasks@.len());
        assert(self.wf());
        assert(seq_views(exprs@) == line_expressions(text@));
        assert(text@ == line@.skip(indent_count(line@) as int));
        assert(ctx_views(self.contexts@) == pop_contexts(ctx_views(old(self).contexts@), indent_width(line@)));
        assert(before == old(self).view().file.tasks);
        assert(self.file.overrides == old(self).file.overrides);
        Ok(())
    }
}

impl Parser {
    fn indented(&mut self, ln: usize, line: &Vec<char>, path: &Vec<char>) -> (r: Result<
        (),
        CjError,
    >)
        requires
            old(self).wf(),
            line.len() <= usize::MAX / 2,
            indent_count(line@) > 0,
        ensures
            match r {
                Ok(()) => final(self).wf() && indented(old(self).view(), ln as nat, line@, path@)
                    == Ok::<ParseState, Seq<char>>(final(self).view()),
                Err(e) => indented(old(self).view(), ln as nat, line@, path@) == Err::<
                    ParseState,
                    Seq<char>,
                >(e@),
            },
    {
        let ind = leading_indent(line);
        if ind.width < 2 || ind.width % 2 != 0 {
            return Err(error_at(path, ln, "indented entries must use full indentation levels: an even number of spaces, at least two"));
        }
        match self.section {
            Section::Env => {
                if ind.width != 2 {
                    return Err(
                        error_at(path, ln, "env entries must use exactly one indentation level"),
                    );
                }
                let entry = subvec(line, ind.count, line.len());
                self.env_entry(&entry, ln, path)
            },
            Section::Task => self.task_body(ln, line, path),
            _ => Err(error_at(path, ln, "indented entry is not under env or a task")),
        }
    }

    fn step_line(&mut self, ln: usize, line: &Vec<char>, path: &Vec<char>) -> (r: Result<
        (),
        CjError,
    >)
        requires
            old(self).wf(),
            line.len() <= usize::MAX / 2,
        ensures
            match r {
                Ok(()) => final(self).wf() && step_line(old(self).view(), ln as nat, line@, path@)
                    == Ok::<ParseState, Seq<char>>(final(self).view()),
                Err(e) => step_line(old(self).view(), ln as nat, line@, path@) == Err::<
                    ParseState,
                    Seq<char>,
                >(e@),
            },
    {
        let t = chars_trim(line);
        if t.len() == 0 || t[0] == '#' {
            return Ok(());
        }
        let ind = leading_indent(line);
        if ind.count == 0 {
            self.contexts.clear();
            assert(ctx_views(self.contexts@) =~= seq![]);
            self.top_level(ln, line, path)
        } else {
            self.indented(ln, line, path)
        }
    }

    fn step_after_help(&mut self, ln: usize, line: &Vec<char>, path: &Vec<char>) -> (r: Result<
        (),
        CjError,
    >)
        requires
            old(self).wf(),
            line.len() <= usize::MAX / 2,
        ensures
            match r {
                Ok(()) => final(self).wf() && step_after_help(
                    old(self).view(),
                    ln as nat,
                    line@,
                    path@,
                ) == Ok::<ParseState, Seq<char>>(final(self).view()),
                Err(e) => step_after_help(old(self).view(), ln as nat, line@, path@) == Err::<
                    ParseState,
                    Seq<char>,
                >(e@),
            },
    {
        if self.section == Section::Help {
            let t = chars_trim(line);
            if t.len() == 0 {
                let ghost before = seq_views(self.help_lines@);
                self.help_lines.push(Vec::new());
                assert(seq_views(self.help_lines@) =~= before.push(seq![]));
                return Ok(());
            }
            let ind = leading_indent(line);
            if ind.count > 0 {
                if ind.width < 2 {
                    return Err(
                        error_at(path, ln, "help entries must use at least two leading spaces"),
                    );
                }
                let body = subvec(line, ind.count, line.len());
                if contains_variable_interpolation(&body) {
                    return Err(error_at(path, ln, "@help: text cannot contain variables"));
                }
                let stripped = strip_indent(line, 2);
                let text = unescape_variable_literals(&stripped);
                let ghost before = seq_views(self.help_lines@);
                let ghost tv = text@;
                self.help_lines.push(text);
                assert(seq_views(self.help_lines@) =~= before.push(tv));
                return Ok(());
            }
            self.section = Section::Top;
            self.step_line(ln, line, path)
        } else {
            self.step_line(ln, line, path)
        }
    }

    fn step(&mut self, ln: usize, line: &Vec<char>, path: &Vec<char>) -> (r: Result<(), CjError>)
        requires
            old(self).wf(),
            line.len() <= usize::MAX / 2,
        ensures
            match r {
                Ok(()) => final(self).wf() && step(old(self).view(), ln as nat, line@, path@)
                    == Ok::<ParseState, Seq<char>>(final(self).view()),
                Err(e) => step(old(self).view(), ln as nat, line@, path@) == Err::<
                    ParseState,
                    Seq<char>,
                >(e@),
            },
    {
        reveal(step);
        let a = self.active_help.take();
        match a {
            Some((ti, hi, hl)) => {
                let t = chars_trim(line);
                if t.len() == 0 {
                    let mut hl = hl;
                    let ghost before = seq_views(hl@);
                    hl.push(Vec::new());
                    assert(seq_views(hl@) =~= before.push(seq![]));
                    self.active_help = Some((ti, hi, hl));
                    return Ok(());
                }
                let ind = leading_indent(line);
                if ind.count > 0 && ind.width > hi {
                    let body = subvec(line, ind.count, line.len());
                    if contains_variable_interpolation(&body) {
                        return Err(error_at(path, ln, "@help: text cannot contain variables"));
                    }
                    let stripped = strip_indent(line, hi + 2);
                    let text = unescape_variable_literals(&stripped);
                    let mut hl = hl;
                    let ghost before = seq_views(hl@);
                    let ghost tv = text@;
                    hl.push(text);
                    assert(seq_views(hl@) =~= before.push(tv));
                    self.active_help = Some((ti, hi, hl));
                    return Ok(());
                }
                self.active_help = Some((ti, hi, hl));
                self.finish_active_help();
                self.step_after_help(ln, line, path)
            },
            None => self.step_after_help(ln, line, path),
        }
    }
}

pub(crate) fn mixed_indentation_line(lines: &Vec<Vec<char>>) -> (r: Option<usize>)
    requires
        forall|k: int| 0 <= k < lines@.len() ==> #[trigger] lines@[k].len() <= usize::MAX / 2,
    ensures
        match r {
            Some(ln) => mixed_fold(seq_views(lines@)).2 == Some(ln as nat),
            None => mixed_fold(seq_views(lines@)).2 is None,
        },
{
    let ghost all = seq_views(lines@);
    let mut saw_spaces = false;
    let mut saw_tabs = false;
    let mut k: usize = 0;
    assert(all.take(0) =~= seq![]);
    while k < lines.len()
        invariant
            k <= lines@.len(),
            all == seq_views(lines@),
            forall|j: int| 0 <= j < lines@.len() ==> #[trigger] lines@[j].len() <= usize::MAX / 2,
            mixed_fold(all.take(k as int)) == (saw_spaces, saw_tabs, None::<nat>),
        decreases lines.len() - k,
    {
        let ind = leading_indent(&lines[k]);
        assert(all.take(k + 1).drop_last() =~= all.take(k as int));
        assert(all.take(k + 1).last() == lines@[k as int]@);
        saw_spaces = saw_spaces || ind.has_spaces;
        saw_tabs = saw_tabs || ind.has_tabs;
        if (ind.has_spaces && ind.has_tabs) || (saw_spaces && saw_tabs) {
            proof {
                lemma_mixed_sticks(all, k + 1);
            }
            return Some(k + 1);
        }
        k = k + 1;
    }
    assert(all.take(lines.len() as int) =~= all);
    None
}

proof fn lemma_mixed_sticks(lines: Seq<Seq<char>>, j: int)
    requires
        0 <= j <= lines.len(),
        mixed_fold(lines.take(j)).2 is Some,
    ensures
        mixed_fold(lines).2 == mixed_fold(lines.take(j)).2,
    decreases lines.len() - j,
{
    if j < lines.len() {
        assert(lines.take(j + 1).drop_last() =~= lines.take(j));
        lemma_mixed_sticks(lines, j + 1);
    } else {
        assert(lines.take(j) =~= lines);
    }
}

proof fn lemma_parse_error_sticks(lines: Seq<Seq<char>>, j: int, path: Seq<char>)
    requires
        0 <= j <= lines.len(),
        parse_fold(lines.take(j), path) is Err,
    ensures
        parse_fold(lines, path) == parse_fold(lines.take(j), path),
    decreases lines.len() - j,
{
    if j < lines.len() {
        assert(lines.take(j + 1).drop_last() =~= lines.take(j));
        lemma_parse_error_sticks(lines, j + 1, path);
    } else {
        assert(lines.take(j) =~= lines);
    }
}


pub open spec fn shift(o: Option<int>, k: int) -> Option<int> {
    match o {
        Some(j) => Some(j + k),
        None => None,
    }
}

fn find_task_exec(tasks: &Vec<TaskEntry>, name: &Vec<char>) -> (r: Option<usize>)
    ensures
        match r {
            Some(i) => i < tasks.len() && find_task(task_views(tasks@), name@) == Some(i as int),
            None => find_task(task_views(tasks@), name@) is None,
        },
{
    let ghost tv = task_views(tasks@);
    let mut i: usize = 0;
    assert(tv.skip(0) =~= tv);
    while i < tasks.len()
        invariant
            i <= tasks.len(),
            tv == task_views(tasks@),
            find_task(tv, name@) == shift(find_task(tv.skip(i as int), name@), i as int),
        decreases tasks.len() - i,
    {
        assert(tv.skip(i as int)[0] == tv[i as int]);
        if chars_eq(&tasks[i].name, name) {
            return Some(i);
        }
        assert(tv.skip(i as int).drop_first() =~= tv.skip(i + 1));
        i = i + 1;
    }
    None
}

fn task_requires_arguments(tasks: &Vec<TaskEntry>, name: &Vec<char>) -> (b: bool)
    ensures
        b == requires_arguments(task_views(tasks@), name@),
{
    match find_task_exec(tasks, name) {
        Some(i) => {
            assert(task_views(tasks@)[i as int].arguments.len() == tasks@[i as int].arguments@.len());
            tasks[i].arguments.len() > 0
        },
        None => false,
    }
}

fn first_awaited_exec(words: &Vec<Vec<char>>, tasks: &Vec<TaskEntry>) -> (r: Option<Vec<char>>)
    ensures
        match r {
            Some(w) => first_awaited_with_arguments(seq_views(words@), task_views(tasks@)) == Some(
                w@,
            ),
            None => first_awaited_with_arguments(seq_views(words@), task_views(tasks@)) is None,
        },
{
    let ghost wv = seq_views(words@);
    let mut k: usize = 0;
    assert(wv.skip(0) =~= wv);
    while k < words.len()
        invariant
            k <= words.len(),
            wv == seq_views(words@),
            first_awaited_with_arguments(wv, task_views(tasks@)) == first_awaited_with_arguments(
                wv.skip(k as int),
                task_views(tasks@),
            ),
        decreases words.len() - k,
    {
        assert(wv.skip(k as int)[0] == words@[k as int]@);
        if task_requires_arguments(tasks, &words[k]) {
            return Some(words[k].clone());
        }
        assert(wv.skip(k as int).drop_first() =~= wv.skip(k + 1));
        k = k + 1;
    }
    None
}

fn await_line_error_exec(tasks: &Vec<TaskEntry>, text: &Vec<char>) -> (r: Option<Vec<char>>)
    ensures
        match r {
            Some(w) => await_line_error(task_views(tasks@), text@) == Some(w@),
            None => await_line_error(task_views(tasks@), text@) is None,
        },
{
    if text.len() > 0 && text[0] == '@' {
        let rest = subvec(text, 1, text.len());
        assert(rest@ =~= text@.drop_first());
        let (name, args) = split_directive(&rest);
        if chars_eq_str(&name, "await") {
            return match split_words(&args) {
                Ok(words) => first_awaited_exec(&words, tasks),
                Err(_) => None,
            };
        }
    }
    None
}

proof fn lemma_await_concat(
    a: Seq<TaskLineModel>,
    b: Seq<TaskLineModel>,
    tasks: Seq<TaskModel>,
    path: Seq<char>,
)
    ensures
        first_await_error(a + b, tasks, path) == (match first_await_error(a, tasks, path) {
            Some(m) => Some(m),
            None => first_await_error(b, tasks, path),
        }),
    decreases a.len(),
{
    if a.len() == 0 {
        assert(a + b =~= b);
    } else {
        assert((a + b).drop_first() =~= a.drop_first() + b);
        assert((a + b)[0] == a[0]);
        lemma_await_concat(a.drop_first(), b, tasks, path);
    }
}

proof fn lemma_await_sticks(tv: Seq<TaskModel>, k: int, path: Seq<char>)
    requires
        0 <= k <= tv.len(),
        first_await_error(all_lines(tv.take(k)), tv, path) is Some,
    ensures
        first_await_error(all_lines(tv), tv, path) == first_await_error(
            all_lines(tv.take(k)),
            tv,
            path,
        ),
    decreases tv.len() - k,
{
    if k < tv.len() {
        assert(tv.take(k + 1).drop_last() =~= tv.take(k));
        assert(all_lines(tv.take(k + 1)) == all_lines(tv.take(k)) + tv[k].lines);
        lemma_await_concat(all_lines(tv.take(k)), tv[k].lines, tv, path);
        lemma_await_sticks(tv, k + 1, path);
    } else {
        assert(tv.take(k) =~= tv);
    }
}

proof fn lemma_await_single(l: TaskLineModel, tasks: Seq<TaskModel>, path: Seq<char>)
    ensures
        first_await_error(seq![l], tasks, path) == (match await_line_error(tasks, l.text) {
            Some(w) => Some(lerr(path, l.line_number, wrap("awaited task '"@, w, "' requires arguments"@))),
            None => None::<Seq<char>>,
        }),
{
    reveal_with_fuel(first_await_error, 2);
    assert(seq![l].drop_first() =~= seq![]);
}

fn first_await_error_exec(tasks: &Vec<TaskEntry>, path: &Vec<char>) -> (r: Option<CjError>)
    ensures
        match r {
            Some(e) => first_await_error(all_lines(task_views(tasks@)), task_views(tasks@), path@)
                == Some(e@),
            None => first_await_error(all_lines(task_views(tasks@)), task_views(tasks@), path@) is None,
        },
{
    let ghost tv = task_views(tasks@);
    let mut i: usize = 0;
    assert(all_lines(tv.take(0)) =~= seq![]);
    while i < tasks.len()
        invariant
            i <= tasks.len(),
            tv == task_views(tasks@),
            first_await_error(all_lines(tv.take(i as int)), tv, path@) is None,
        decreases tasks.len() - i,
    {
        let ghost prefix = all_lines(tv.take(i as int));
        let ghost lines = tv[i as int].lines;
        let mut j: usize = 0;
        assert(lines.take(0) =~= seq![]);
        while j < tasks[i].lines.len()
            invariant
                i < tasks.len(),
                j <= tasks@[i as int].lines@.len(),
                tv == task_views(tasks@),
                lines == tv[i as int].lines,
                lines.len() == tasks@[i as int].lines@.len(),
                prefix == all_lines(tv.take(i as int)),
                first_await_error(prefix, tv, path@) is None,
                first_await_error(lines.take(j as int), tv, path@) is None,
            decreases tasks@[i as int].lines@.len() - j,
        {
            let text = string_chars(&tasks[i].lines[j].text);
            let ln = tasks[i].lines[j].line_number;
            assert(lines[j as int] == tasks@[i as int].lines@[j as int]@);
            proof {
                lemma_await_single(lines[j as int], tv, path@);
                assert(lines.take(j + 1) =~= lines.take(j as int) + seq![lines[j as int]]);
                lemma_await_concat(lines.take(j as int), seq![lines[j as int]], tv, path@);
            }
            match await_line_error_exec(tasks, &text) {
                Some(w) => {
                    let m = wrap_msg("awaited task '", &w, "' requires arguments");
                    let e = line_error(path, ln, &m);
                    proof {
                        assert(lines =~= lines.take(j + 1) + lines.skip(j + 1));
                        lemma_await_concat(lines.take(j + 1), lines.skip(j + 1), tv, path@);
                        lemma_await_concat(prefix, lines, tv, path@);
                        assert(tv.take(i + 1).drop_last() =~= tv.take(i as int));
                        assert(all_lines(tv.take(i + 1)) == prefix + lines);
                        lemma_await_sticks(tv, i + 1, path@);
                    }
                    return Some(e);
                },
                None => {},
            }
            j = j + 1;
        }
        proof {
            assert(lines.take(j as int) =~= lines);
            assert(tv.take(i + 1).drop_last() =~= tv.take(i as int));
            assert(all_lines(tv.take(i + 1)) == prefix + lines);
            lemma_await_concat(prefix, lines, tv, path@);
        }
        i = i + 1;
    }
    assert(tv.take(tasks.len() as int) =~= tv);
    None
}

/// Reads a taskfile. `path` is the name that error messages start with.
/// The result is exactly what `parse_task_file_spec` says the text declares,
/// and each error is its first problem, in the form `path:line: message`.
pub fn parse_task_file(source: &str, path: &str) -> (r: Result<TaskFile, CjError>)
    requires
        source@.len() <= usize::MAX / 2,
    ensures
        match r {
            Ok(f) => f.wf() && parse_task_file_spec(source@, path@) == Ok::<FileModel, Seq<char>>(
                f@,
            ),
            Err(e) => parse_task_file_spec(source@, path@) == Err::<FileModel, Seq<char>>(e@),
        },
{
    let src = str_chars(source);
    let p = str_chars(path);
    let lines = split_source_lines(&src);
    let ghost lv = seq_views(lines@);
    proof {
        lemma_source_lines_len(src@);
        assert(lv =~= source_lines(src@));
        assert forall|k: int| 0 <= k < lines@.len() implies #[trigger] lines@[k].len()
            <= usize::MAX / 2 by {
            assert(lv[k] == lines@[k]@);
        }
    }
    match mixed_indentation_line(&lines) {
        Some(ln) => {
            let m = str_chars(
                "taskfile uses both leading spaces and tabs for indentation; use one indentation style per file or run `cj --format` to normalize indentation to spaces",
            );
            return Err(line_error(&p, ln, &m));
        },
        None => {},
    }
    let mut parser = Parser::new();
    let mut k: usize = 0;
    assert(lv.take(0) =~= seq![]);
    while k < lines.len()
        invariant
            k <= lines.len(),
            lv == seq_views(lines@),
            forall|j: int| 0 <= j < lines@.len() ==> #[trigger] lines@[j].len() <= usize::MAX / 2,
            parser.wf(),
            parse_fold(lv.take(k as int), p@) == Ok::<ParseState, Seq<char>>(parser.view()),
            mixed_fold(lv).2 is None,
            lv == source_lines(source@),
            p@ == path@,
        decreases lines.len() - k,
    {
        assert(lv.take(k + 1).drop_last() =~= lv.take(k as int));
        assert(lv.take(k + 1).last() == lines@[k as int]@);
        match parser.step(k + 1, &lines[k], &p) {
            Err(e) => {
                proof {
                    assert(parse_fold(lv.take(k + 1), p@) == Err::<ParseState, Seq<char>>(e@));
                    lemma_parse_error_sticks(lv, k + 1, p@);
                    assert(parse_fold(lv, p@) == Err::<ParseState, Seq<char>>(e@));
                    assert(mixed_fold(lv).2 is None);
                    assert(lv == source_lines(source@));
                }
                return Err(e);
            },
            Ok(()) => {},
        }
        k = k + 1;
    }
    assert(lv.take(lines.len() as int) =~= lv);
    let ghost st = parser.view();
    assert(parse_fold(lv, p@) == Ok::<ParseState, Seq<char>>(st));
    parser.finish_active_help();
    let ghost st2 = parser.view();
    assert(st2 == finish_active(st));
    let Parser { file, seen_help, help_lines, .. } = parser;
    let mut file = file;
    file.help = if seen_help {
        Some(finish_help(&help_lines))
    } else {
        None
    };
    assert(file@ == finish_file(st));
    assert(file.wf());
    match first_await_error_exec(&file.tasks, &p) {
        Some(e) => Err(e),
        None => Ok(file),
    }
}


pub open spec fn opt_string(o: Option<Vec<char>>) -> Option<Seq<char>> {
    opt_chars(o)
}

fn opt_to_string(o: &Option<Vec<char>>) -> (r: Option<String>)
    ensures
        match r {
            Some(s) => opt_chars(*o) == Some(s@),
            None => o.is_none(),
        },
{
    match o {
        Some(v) => Some(string_from(v)),
        None => None,
    }
}

impl TaskFile {
    /// Number of tasks.
    pub fn task_count(&self) -> (n: usize)
        ensures
            n == self@.tasks.len(),
    {
        self.tasks.len()
    }

    /// The name of the task at position `t` of the declaration order.
    pub fn task_name(&self, t: usize) -> (r: Vec<char>)
        requires
            t < self@.tasks.len(),
        ensures
            r@ == self@.tasks[t as int].name,
    {
        self.tasks[t].name.clone()
    }

    /// The position of the task called `name`.
    pub fn task_index(&self, name: &Vec<char>) -> (r: Option<usize>)
        ensures
            match r {
                Some(i) => i < self@.tasks.len() && find_task(self@.tasks, name@) == Some(i as int),
                None => find_task(self@.tasks, name@) is None,
            },
    {
        find_task_exec(&self.tasks, name)
    }

    /// Number of lines of task `t`.
    pub fn line_count(&self, t: usize) -> (n: usize)
        requires
            t < self@.tasks.len(),
        ensures
            n == self@.tasks[t as int].lines.len(),
    {
        self.tasks[t].lines.len()
    }

    /// Line `i` of task `t`: its source line number, its indentation and its text.
    pub fn line_at(&self, t: usize, i: usize) -> (r: (usize, usize, Vec<char>))
        requires
            t < self@.tasks.len(),
            i < self@.tasks[t as int].lines.len(),
        ensures
            r.0 == self@.tasks[t as int].lines[i as int].line_number,
            r.1 == self@.tasks[t as int].lines[i as int].indent,
            r.2@ == self@.tasks[t as int].lines[i as int].text,
    {
        let l = &self.tasks[t].lines[i];
        assert(task_views(self.tasks@)[t as int].lines[i as int] == l@);
        (l.line_number, l.indent, string_chars(&l.text))
    }

    /// Number of declared arguments of task `t`.
    pub fn argument_count(&self, t: usize) -> (n: usize)
        requires
            t < self@.tasks.len(),
        ensures
            n == self@.tasks[t as int].arguments.len(),
    {
        self.tasks[t].arguments.len()
    }

    /// Declared argument `k` of task `t`.
    pub fn argument(&self, t: usize, k: usize) -> (r: Vec<char>)
        requires
            t < self@.tasks.len(),
            k < self@.tasks[t as int].arguments.len(),
        ensures
            r@ == self@.tasks[t as int].arguments[k as int],
    {
        assert(task_views(self.tasks@)[t as int].arguments[k as int] == self.tasks@[t as int].arguments@[k as int]@);
        self.tasks[t].arguments[k].clone()
    }

    /// The `@desc` text of task `t`.
    pub fn description_of(&self, t: usize) -> (r: Option<Vec<char>>)
        requires
            t < self@.tasks.len(),
        ensures
            opt_chars(r) == self@.tasks[t as int].description,
    {
        self.tasks[t].description.clone()
    }

    /// The `@help:` text of task `t`.
    pub fn help_of(&self, t: usize) -> (r: Option<Vec<char>>)
        requires
            t < self@.tasks.len(),
        ensures
            opt_chars(r) == self@.tasks[t as int].help,
    {
        self.tasks[t].help.clone()
    }

    /// The top-level `@help:` text.
    pub fn top_help(&self) -> (r: Option<Vec<char>>)
        ensures
            opt_chars(r) == self@.help,
    {
        self.help.clone()
    }

    /// The environment entries that override.
    pub fn overrides(&self) -> (r: &VarMap)
        requires
            self.wf(),
        ensures
            r.wf(),
            r@ == self@.overrides,
    {
        &self.overrides
    }

    /// The environment entries used only where a variable is absent.
    pub fn fallbacks(&self) -> (r: &VarMap)
        requires
            self.wf(),
        ensures
            r.wf(),
            r@ == self@.fallbacks,
    {
        &self.fallbacks
    }

    /// Number of `@version` headers.
    pub fn version_count(&self) -> (n: usize)
        ensures
            n == self@.versions.len(),
    {
        self.versions.len()
    }

    /// Version header `i`: its name, its line and its variable.
    pub fn version_at(&self, i: usize) -> (r: (Vec<char>, usize, Vec<char>))
        requires
            i < self@.versions.len(),
        ensures
            r.0@ == self@.versions[i as int].name,
            r.1 == self@.versions[i as int].line_number,
            r.2@ == self@.versions[i as int].env_key,
    {
        let v = &self.versions[i];
        assert(version_views(self.versions@)[i as int] == v@);
        (v.name.clone(), v.line_number, v.env_key.clone())
    }

    /// The task names in declaration order.
    pub fn task_order(&self) -> (r: Vec<String>)
        ensures
            r@.len() == self@.tasks.len(),
            forall|i: int| 0 <= i < r@.len() ==> #[trigger] r@[i]@ == self@.tasks[i].name,
    {
        let mut r: Vec<String> = Vec::new();
        let mut i: usize = 0;
        while i < self.tasks.len()
            invariant
                i <= self.tasks.len(),
                r@.len() == i,
                forall|j: int| 0 <= j < i ==> #[trigger] r@[j]@ == task_views(self.tasks@)[j].name,
            decreases self.tasks.len() - i,
        {
            r.push(string_from(&self.tasks[i].name));
            i = i + 1;
        }
        r
    }

    /// The texts of the lines of the task called `name`.
    pub fn task_lines(&self, name: &str) -> (r: Option<Vec<String>>)
        ensures
            match r {
                Some(v) => find_task(self@.tasks, name@) is Some && v@.len() == self@.tasks[find_task(
                    self@.tasks,
                    name@,
                )->0].lines.len() && forall|i: int|
                    0 <= i < v@.len() ==> #[trigger] v@[i]@ == self@.tasks[find_task(
                        self@.tasks,
                        name@,
                    )->0].lines[i].text,
                None => find_task(self@.tasks, name@) is None,
            },
    {
        let n = str_chars(name);
        let t = match find_task_exec(&self.tasks, &n) {
            Some(t) => t,
            None => {
                return None;
            },
        };
        let mut r: Vec<String> = Vec::new();
        let mut i: usize = 0;
        while i < self.tasks[t].lines.len()
            invariant
                t < self.tasks.len(),
                i <= self.tasks@[t as int].lines@.len(),
                r@.len() == i,
                forall|j: int|
                    0 <= j < i ==> #[trigger] r@[j]@ == task_views(self.tasks@)[t as int].lines[j].text,
            decreases self.tasks@[t as int].lines@.len() - i,
        {
            assert(task_views(self.tasks@)[t as int].lines[i as int] == self.tasks@[t as int].lines@[i as int]@);
            r.push(self.tasks[t].lines[i].text.clone());
            i = i + 1;
        }
        Some(r)
    }

    /// The `@desc` text of the task called `name`.
    pub fn description(&self, name: &str) -> (r: Option<String>)
        ensures
            match r {
                Some(s) => find_task(self@.tasks, name@) is Some && self@.tasks[find_task(
                    self@.tasks,
                    name@,
                )->0].description == Some(s@),
                None => find_task(self@.tasks, name@) is None || self@.tasks[find_task(
                    self@.tasks,
                    name@,
                )->0].description is None,
            },
    {
        let n = str_chars(name);
        match find_task_exec(&self.tasks, &n) {
            Some(t) => opt_to_string(&self.tasks[t].description),
            None => None,
        }
    }

    /// The `@help:` text of the task called `name`.
    pub fn task_help(&self, name: &str) -> (r: Option<String>)
        ensures
            match r {
                Some(s) => find_task(self@.tasks, name@) is Some && self@.tasks[find_task(
                    self@.tasks,
                    name@,
                )->0].help == Some(s@),
                None => find_task(self@.tasks, name@) is None || self@.tasks[find_task(
                    self@.tasks,
                    name@,
                )->0].help is None,
            },
    {
        let n = str_chars(name);
        match find_task_exec(&self.tasks, &n) {
            Some(t) => opt_to_string(&self.tasks[t].help),
            None => None,
        }
    }

    /// The declared arguments of the task called `name`.
    pub fn task_arguments(&self, name: &str) -> (r: Option<Vec<String>>)
        ensures
            match r {
                Some(v) => find_task(self@.tasks, name@) is Some && v@.len() == self@.tasks[find_task(
                    self@.tasks,
                    name@,
                )->0].arguments.len() && forall|i: int|
                    0 <= i < v@.len() ==> #[trigger] v@[i]@ == self@.tasks[find_task(
                        self@.tasks,
                        name@,
                    )->0].arguments[i],
                None => find_task(self@.tasks, name@) is None,
            },
    {
        let n = str_chars(name);
        let t = match find_task_exec(&self.tasks, &n) {
            Some(t) => t,
            None => {
                return None;
            },
        };
        let mut r: Vec<String> = Vec::new();
        let mut i: usize = 0;
        while i < self.tasks[t].arguments.len()
            invariant
                t < self.tasks.len(),
                i <= self.tasks@[t as int].arguments@.len(),
                r@.len() == i,
                forall|j: int|
                    0 <= j < i ==> #[trigger] r@[j]@ == task_views(self.tasks@)[t as int].arguments[j],
            decreases self.tasks@[t as int].arguments@.len() - i,
        {
            assert(task_views(self.tasks@)[t as int].arguments[i as int] == self.tasks@[t as int].arguments@[i as int]@);
            r.push(string_from(&self.tasks[t].arguments[i]));
            i = i + 1;
        }
        Some(r)
    }

    /// The top-level `@help:` text.
    pub fn help(&self) -> (r: Option<String>)
        ensures
            match r {
                Some(s) => self@.help == Some(s@),
                None => self@.help is None,
            },
    {
        opt_to_string(&self.help)
    }

    /// The value of an overriding `@env:` entry.
    pub fn env_override(&self, name: &str) -> (r: Option<String>)
        requires
            self.wf(),
        ensures
            match r {
                Some(s) => self@.overrides.contains_key(name@) && self@.overrides[name@] == s@,
                None => !self@.overrides.contains_key(name@),
            },
    {
        let n = str_chars(name);
        match self.overrides.get(&n) {
            Some(v) => Some(string_from(&v)),
            None => None,
        }
    }

    /// The value of a fallback (`NAME?:`) `@env:` entry.
    pub fn env_fallback(&self, name: &str) -> (r: Option<String>)
        requires
            self.wf(),
        ensures
            match r {
                Some(s) => self@.fallbacks.contains_key(name@) && self@.fallbacks[name@] == s@,
                None => !self@.fallbacks.contains_key(name@),
            },
    {
        let n = str_chars(name);
        match self.fallbacks.get(&n) {
            Some(v) => Some(string_from(&v)),
            None => None,
        }
    }
}


impl TaskFile {
    /// The environment entries, the tasks, the top-level help and the
    /// version headers, taken apart.
    pub(crate) fn into_parts(self) -> (r: (VarMap, VarMap, Vec<TaskEntry>, Option<Vec<char>>, Vec<VersionEntry>))
        requires
            self.wf(),
        ensures
            r.0.wf(),
            r.1.wf(),
            r.0@ == self@.overrides,
            r.1@ == self@.fallbacks,
            task_views(r.2@) == self@.tasks,
            opt_chars(r.3) == self@.help,
            version_views(r.4@) == self@.versions,
    {
        (self.overrides, self.fallbacks, self.tasks, self.help, self.versions)
    }

    /// A taskfile that declares nothing.
    pub fn empty() -> (f: TaskFile)
        ensures
            f.wf(),
            f@ == (FileModel {
                overrides: Map::empty(),
                fallbacks: Map::empty(),
                tasks: seq![],
                help: None,
                versions: seq![],
            }),
    {
        let f = TaskFile {
            overrides: VarMap::new(),
            fallbacks: VarMap::new(),
            tasks: Vec::new(),
            help: None,
            versions: Vec::new(),
        };
        assert(task_views(f.tasks@) =~= seq![]);
        assert(version_views(f.versions@) =~= seq![]);
        f
    }

    /// A taskfile put together from its parts.
    pub(crate) fn from_parts(
        overrides: VarMap,
        fallbacks: VarMap,
        tasks: Vec<TaskEntry>,
        help: Option<Vec<char>>,
        versions: Vec<VersionEntry>,
    ) -> (f: TaskFile)
        requires
            overrides.wf(),
            fallbacks.wf(),
        ensures
            f.wf(),
            f@ == (FileModel {
                overrides: overrides@,
                fallbacks: fallbacks@,
                tasks: task_views(tasks@),
                help: opt_chars(help),
                versions: version_views(versions@),
            }),
    {
        TaskFile { overrides, fallbacks, tasks, help, versions }
    }
}

} // verus!
