//! What an editor learns of a taskfile: every problem found, each as a
//! diagnostic with its place (line, and byte columns), the tasks with the
//! span of their blocks, and the variables that the file names. Unlike the
//! reader of `task_file`, this analysis does not stop at the first problem.
use vstd::prelude::*;

use crate::command_text::{
    contains_interpolation_spec, contains_variable_interpolation, split_words, split_words_spec,
    unescape_spec, unescape_variable_literals, variable_references, variable_references_spec,
};
use crate::conditions::{
    if_error_text, if_in_error_text, parse_variable_name_token, variable_name_spec,
};
use crate::directive_info::{directive, directive_spec, ArgumentRule};
use crate::error::line_prefixed_text;
use crate::names::{
    colon_count, count_colons, env_name_error, task_name_error, validate_env_name,
    validate_task_name, version_env_key, version_env_key_spec, TaskNameError,
};
use crate::scan::{
    expr_fold,
    chars_find_ws, find_ws, indent_count, indent_width, leading_indent, line_expressions,
    lemma_find_ws, source_lines, split_directive, split_directive_spec, split_line_expressions,
    split_source_lines, split_whitespace, strip_cr, ws_words,
};
use crate::semver::{failure_message, parse_semver, parse_semver_spec, SemverFailure};
use crate::task_file::{
    ctx_views, description_args, description_args_exec, is_version_line, is_version_line_exec, lemma_pop_contexts,
    mixed_fold, mixed_indentation_line, mixed_message, pop_contexts, pop_contexts_exec, seq_views,
};
use crate::task_header::{
    check_directive_syntax, check_expression_syntax, directive_syntax_error,
    expression_syntax_error, is_nested_header, nested_header, parse_task_header,
    parse_task_header_spec, wrap, wrap_msg,
};
use crate::text::{
    append, append_str, chars_ends_with_str, chars_eq, chars_eq_str, chars_find, chars_trim,
    chars_trim_end, chars_trim_start, decimal, ends_with, find_char, push_decimal, str_chars,
    subvec, trim, trim_end, trim_start,
};
use crate::values::{chars_trim_end_char, trim_end_char};

verus! {

/// The number of bytes of a char in UTF-8.
pub open spec fn char_bytes(c: char) -> nat {
    if (c as u32) < 0x80 {
        1
    } else if (c as u32) < 0x800 {
        2
    } else if (c as u32) < 0x10000 {
        3
    } else {
        4
    }
}

/// The number of bytes of a text in UTF-8.
pub open spec fn utf8_len(s: Seq<char>) -> nat
    decreases s.len(),
{
    if s.len() == 0 {
        0
    } else {
        utf8_len(s.drop_last()) + char_bytes(s.last())
    }
}

/// The number of UTF-16 code units of a text.
pub open spec fn utf16_len(s: Seq<char>) -> nat
    decreases s.len(),
{
    if s.len() == 0 {
        0
    } else {
        utf16_len(s.drop_last()) + if (s.last() as u32) >= 0x10000 {
            2nat
        } else {
            1nat
        }
    }
}

/// A problem at a place: the line (from zero) and the byte columns it spans.
pub struct DiagModel {
    pub line: nat,
    pub start: nat,
    pub end: nat,
    pub message: Seq<char>,
}

/// A task as the editor sees it: its name and arguments, where its name
/// stands (`line`, `start`..`end`), where its block ends (`end_line`,
/// `end_character`), its description and the indentation of its header.
pub struct TaskDefModel {
    pub name: Seq<char>,
    pub arguments: Seq<Seq<char>>,
    pub line: nat,
    pub start: nat,
    pub end: nat,
    pub end_line: nat,
    pub end_character: nat,
    pub description: Option<Seq<char>>,
    pub header_indent: nat,
}

/// The diagnostics in the order found, the tasks in the order declared, the
/// variables named, each once, in the order first named.
pub struct AnalysisModel {
    pub diagnostics: Seq<DiagModel>,
    pub tasks: Seq<TaskDefModel>,
    pub variables: Seq<Seq<char>>,
}

/// Which part of the file a line belongs to.
#[derive(Clone, Copy, Debug, PartialEq, Eq, Structural)]
pub enum LspSection {
    Top,
    Env,
    Task,
    Help,
}

/// The analysis between two lines: what was found, the section, the open
/// task headers (task index, header indentation), which headers were seen,
/// the environment names declared, and the indentation of an open task
/// `@help:` block.
pub struct AState {
    pub out: AnalysisModel,
    pub section: LspSection,
    pub contexts: Seq<(int, nat)>,
    pub seen_env: bool,
    pub seen_task: bool,
    pub env_names: Seq<Seq<char>>,
    pub help_indent: Option<nat>,
}

/// A diagnostic; an empty span is widened to one column.
pub open spec fn diag_at(line: nat, start: nat, end: nat, message: Seq<char>) -> DiagModel {
    DiagModel {
        line,
        start,
        end: if end > start {
            end
        } else {
            start + 1
        },
        message,
    }
}

pub open spec fn report(st: AState, line: nat, start: nat, end: nat, message: Seq<char>) -> AState {
    AState {
        out: AnalysisModel {
            diagnostics: st.out.diagnostics.push(diag_at(line, start, end, message)),
            ..st.out
        },
        ..st
    }
}

/// A set of names kept in order of insertion.
pub open spec fn insert_name(names: Seq<Seq<char>>, n: Seq<char>) -> Seq<Seq<char>> {
    if names.contains(n) {
        names
    } else {
        names.push(n)
    }
}

pub open spec fn note_var(st: AState, n: Seq<char>) -> AState {
    AState { out: AnalysisModel { variables: insert_name(st.out.variables, n), ..st.out }, ..st }
}

pub open spec fn note_vars(st: AState, ns: Seq<Seq<char>>) -> AState
    decreases ns.len(),
{
    if ns.len() == 0 {
        st
    } else {
        note_var(note_vars(st, ns.drop_last()), ns.last())
    }
}

/// Help and description text must not refer to variables.
pub open spec fn metadata_check(
    st: AState,
    line: nat,
    start: nat,
    end: nat,
    directive: Seq<char>,
    text: Seq<char>,
) -> AState {
    if contains_interpolation_spec(text) {
        report(st, line, start, end, directive + " text cannot contain variables"@)
    } else {
        st
    }
}

pub open spec fn lsp_task_exists(tasks: Seq<TaskDefModel>, name: Seq<char>) -> bool {
    exists|i: int| 0 <= i < tasks.len() && #[trigger] tasks[i].name == name
}

/// Declares a task, or reports why its name is refused; says whether it was
/// declared. Its arguments become variables.
pub open spec fn add_task_lsp(
    st: AState,
    key: Seq<char>,
    args: Seq<Seq<char>>,
    line: nat,
    start: nat,
    end: nat,
    hi: nat,
) -> (AState, bool) {
    match task_name_error(key) {
        Some(e) => (
            report(st, line, start, end, wrap("invalid task name '"@, key, "': "@ + e.spec_message())),
            false,
        ),
        None => if colon_count(key) > 1 {
            (
                report(
                    st,
                    line,
                    start,
                    end,
                    wrap("invalid task name '"@, key, "': "@ + TaskNameError::TooDeep.spec_message()),
                ),
                false,
            )
        } else if lsp_task_exists(st.out.tasks, key) {
            (report(st, line, start, end, wrap("duplicate task '"@, key, "'"@)), false)
        } else {
            let st1 = note_vars(st, args);
            (
                AState {
                    out: AnalysisModel {
                        tasks: st1.out.tasks.push(
                            TaskDefModel {
                                name: key,
                                arguments: args,
                                line,
                                start,
                                end,
                                end_line: line,
                                end_character: end,
                                description: None,
                                header_indent: hi,
                            },
                        ),
                        ..st1.out
                    },
                    ..st1
                },
                true,
            )
        },
    }
}

/// A top-level `@version NAME VALUE` header.
pub open spec fn version_lsp(st: AState, k: nat, line: Seq<char>) -> AState {
    let args = split_directive_spec(line.drop_first()).1;
    let end = utf8_len(line);
    let st2 = if st.seen_task {
        report(st, k, 0, end, "@version must appear before tasks"@)
    } else {
        let parts = ws_words(args);
        if parts.len() != 2 {
            report(st, k, 0, end, "@version expects name and value"@)
        } else {
            let st1 = match version_env_key_spec(parts[0]) {
                Ok(key) => note_var(
                    if st.env_names.contains(key) {
                        report(st, k, 0, end, wrap("duplicate env entry '"@, key, "'"@))
                    } else {
                        AState { env_names: st.env_names.push(key), ..st }
                    },
                    key,
                ),
                Err(e) => report(
                    st,
                    k,
                    0,
                    end,
                    wrap("invalid version name '"@, parts[0], "': "@ + e.spec_message()),
                ),
            };
            if parse_semver_spec(parts[1]) is None {
                report(
                    st1,
                    k,
                    0,
                    end,
                    line_prefixed_text(k, failure_message(SemverFailure::Invalid(parts[1]))),
                )
            } else {
                st1
            }
        }
    };
    AState { section: LspSection::Top, ..st2 }
}

/// A line without indentation (the open task headers already closed).
pub open spec fn top_lsp(st: AState, k: nat, line: Seq<char>) -> AState {
    if is_version_line(line) {
        version_lsp(st, k, line)
    } else if line == "@help:"@ {
        AState { section: LspSection::Help, ..st }
    } else {
        let end = utf8_len(line);
        match parse_task_header_spec(line) {
            Ok((key, args)) => if key == "@env"@ {
                if st.seen_task {
                    AState {
                        section: LspSection::Top,
                        ..report(st, k, 0, end, "@env: must appear before tasks"@)
                    }
                } else if st.seen_env {
                    AState {
                        section: LspSection::Top,
                        ..report(
                            st,
                            k,
                            0,
                            end,
                            "multiple @env: sections are not allowed in the same block"@,
                        )
                    }
                } else {
                    AState { seen_env: true, section: LspSection::Env, ..st }
                }
            } else {
                let (st1, ok) = add_task_lsp(st, key, args, k, 0, utf8_len(key), 0);
                if ok {
                    AState {
                        seen_task: true,
                        contexts: st1.contexts.push((st.out.tasks.len() as int, 0nat)),
                        section: LspSection::Task,
                        ..st1
                    }
                } else {
                    AState { section: LspSection::Task, ..st1 }
                }
            },
            Err(m) => AState { section: LspSection::Top, ..report(st, k, 0, end, m) },
        }
    }
}

/// An `@env:` entry: its name must be valid and new; it becomes a variable.
pub open spec fn env_lsp(st: AState, k: nat, ic: nat, entry: Seq<char>) -> AState {
    match find_char(entry, ':') {
        None => report(st, k, ic, utf8_len(entry) + ic, "env entry must contain ':'"@),
        Some(i) => {
            let raw = entry.take(i);
            let key = if raw.len() > 0 && raw.last() == '?' {
                raw.drop_last()
            } else {
                raw
            };
            let end = utf8_len(raw) + ic;
            match env_name_error(key) {
                Some(e) => report(
                    st,
                    k,
                    ic,
                    end,
                    wrap("invalid env name '"@, key, "': "@ + e.spec_message()),
                ),
                None => note_var(
                    if st.env_names.contains(key) {
                        report(st, k, ic, end, wrap("duplicate env entry '"@, key, "'"@))
                    } else {
                        AState { env_names: st.env_names.push(key), ..st }
                    },
                    key,
                ),
            }
        },
    }
}

pub open spec fn arg_count(args: Seq<char>) -> Option<nat> {
    match split_words_spec(args) {
        Ok(w) => Some(w.len()),
        Err(_) => None,
    }
}

/// A version named by a bump directive becomes a variable, unless the name
/// is only known when the task runs.
pub open spec fn static_bump(st: AState, k: nat, ind: nat, end: nat, name: Seq<char>) -> AState {
    if contains_interpolation_spec(name) {
        st
    } else {
        match version_env_key_spec(name) {
            Ok(key) => note_var(st, key),
            Err(e) => report(
                st,
                k,
                ind,
                end,
                wrap("invalid version name '"@, name, "': "@ + e.spec_message()),
            ),
        }
    }
}

/// The variable that `@set` arguments name: before the trailing colons of a
/// capture, else the first word.
pub open spec fn set_args_name(args: Seq<char>) -> Seq<char> {
    if ends_with(trim_end(args), ":"@) {
        trim(trim_end_char(trim_end(args), ':'))
    } else {
        let t = trim_start(args);
        match find_ws(t) {
            Some(i) => t.take(i),
            None => seq![],
        }
    }
}

pub open spec fn set_args_lsp(st: AState, k: nat, ind: nat, end: nat, args: Seq<char>) -> AState {
    if trim(args).len() == 0 {
        report(st, k, ind, end, "@set expects NAME and value, or NAME: for capture"@)
    } else {
        let name = set_args_name(args);
        match env_name_error(name) {
            Some(e) => report(
                st,
                k,
                ind,
                end,
                wrap("invalid env name '"@, name, "': "@ + e.spec_message()),
            ),
            None => note_var(st, name),
        }
    }
}

pub open spec fn export_args_lsp(st: AState, k: nat, ind: nat, end: nat, args: Seq<char>) -> AState {
    let words = ws_words(args);
    if words.len() == 0 {
        report(st, k, ind, end, "@export expects NAME or NAME value"@)
    } else {
        match env_name_error(words[0]) {
            Some(e) => report(
                st,
                k,
                ind,
                end,
                wrap("invalid env name '"@, words[0], "': "@ + e.spec_message()),
            ),
            None => note_var(st, words[0]),
        }
    }
}

pub open spec fn version_bump_lsp(st: AState, k: nat, ind: nat, end: nat, args: Seq<char>) -> AState {
    match split_words_spec(args) {
        Ok(w) => if w.len() == 1 {
            static_bump(st, k, ind, end, w[0])
        } else {
            report(st, k, ind, end, "version bump directive expects exactly one version name"@)
        },
        Err(_) => report(st, k, ind, end, "version bump directive expects exactly one version name"@),
    }
}

pub open spec fn pre_bump_lsp(st: AState, k: nat, ind: nat, end: nat, args: Seq<char>) -> AState {
    match split_words_spec(args) {
        Ok(w) => if w.len() == 2 {
            static_bump(st, k, ind, end, w[0])
        } else {
            report(st, k, ind, end, "@pre expects <name> <prerelease>"@)
        },
        Err(_) => report(st, k, ind, end, "@pre expects <name> <prerelease>"@),
    }
}

pub open spec fn is_compare_op(s: Seq<char>) -> bool {
    s == "=="@ || s == "!="@ || s == "<"@ || s == "<="@ || s == ">"@ || s == ">="@
}

pub open spec fn is_release_word(s: Seq<char>) -> bool {
    s == "prerelease"@ || s == "pre"@ || s == "release"@
}

pub open spec fn noun(n: usize) -> Seq<char> {
    if n == 1 {
        " argument"@
    } else {
        " arguments"@
    }
}

/// The check of a directive's arguments against its rule.
#[verifier::opaque]
pub open spec fn rule_check(
    st: AState,
    k: nat,
    ind: nat,
    end: nat,
    name: Seq<char>,
    args: Seq<char>,
    rule: ArgumentRule,
) -> AState {
    let at = "@"@ + name;
    match rule {
        ArgumentRule::NoArguments => if trim(args).len() > 0 {
            report(st, k, ind, end, at + " does not take arguments"@)
        } else {
            st
        },
        ArgumentRule::Exactly(n) => if arg_count(args) != Some(n as nat) {
            report(st, k, ind, end, at + " expects exactly "@ + decimal(n as nat) + noun(n))
        } else {
            st
        },
        ArgumentRule::AtLeast(m) => match arg_count(args) {
            Some(c) => if c >= m {
                st
            } else {
                report(st, k, ind, end, at + " expects at least "@ + decimal(m as nat) + " argument(s)"@)
            },
            None => report(st, k, ind, end, at + " expects at least "@ + decimal(m as nat) + " argument(s)"@),
        },
        ArgumentRule::Variable => match split_words_spec(args) {
            Ok(w) => if w.len() == 1 {
                match variable_name_spec(w[0]) {
                    Ok(v) => note_var(st, v),
                    Err(_) => st,
                }
            } else {
                report(st, k, ind, end, at + " expects exactly one variable name"@)
            },
            Err(_) => report(st, k, ind, end, at + " expects exactly one variable name"@),
        },
        ArgumentRule::IfCondition => match split_words_spec(args) {
            Ok(w) => if w.len() == 1 || (w.len() == 3 && (w[1] == "=="@ || w[1] == "!="@)) {
                st
            } else {
                report(st, k, ind, end, if_error_text())
            },
            Err(_) => report(st, k, ind, end, if_error_text()),
        },
        ArgumentRule::IfInCondition => match split_words_spec(args) {
            Ok(w) => if w.len() >= 2 {
                st
            } else {
                report(st, k, ind, end, if_in_error_text())
            },
            Err(_) => report(st, k, ind, end, if_in_error_text()),
        },
        ArgumentRule::VersionCondition => match split_words_spec(args) {
            Ok(w) => if (w.len() == 2 && is_release_word(w[1])) || (w.len() == 3 && is_compare_op(
                w[1],
            )) {
                st
            } else {
                report(
                    st,
                    k,
                    ind,
                    end,
                    at
                        + " expects '<name> <op> <version>', '<name> prerelease', or '<name> release'"@,
                )
            },
            Err(_) => report(
                st,
                k,
                ind,
                end,
                at + " expects '<name> <op> <version>', '<name> prerelease', or '<name> release'"@,
            ),
        },
        ArgumentRule::BumpedCondition => match split_words_spec(args) {
            Ok(w) => if w.len() <= 1 {
                st
            } else {
                report(st, k, ind, end, at + " expects no arguments or '<name>'"@)
            },
            Err(_) => report(st, k, ind, end, at + " expects no arguments or '<name>'"@),
        },
        ArgumentRule::BumpKindCondition => match split_words_spec(args) {
            Ok(w) => if w.len() == 1 {
                st
            } else {
                report(st, k, ind, end, at + " expects exactly one version name"@)
            },
            Err(_) => report(st, k, ind, end, at + " expects exactly one version name"@),
        },
        ArgumentRule::SetValue => set_args_lsp(st, k, ind, end, args),
        ArgumentRule::Export => export_args_lsp(st, k, ind, end, args),
        ArgumentRule::VersionBump => version_bump_lsp(st, k, ind, end, args),
        ArgumentRule::PreBump => pre_bump_lsp(st, k, ind, end, args),
        ArgumentRule::Any => st,
    }
}

pub open spec fn version_tail(st: AState, k: nat, ind: nat, end: nat, name: Seq<char>) -> AState {
    if name == "version"@ {
        report(st, k, ind, end, "@version can only be used as a top-level header"@)
    } else {
        st
    }
}

/// Whether a directive whose spelling is wrong gets no further checks.
pub open spec fn stops_after_syntax(name: Seq<char>, args: Seq<char>) -> bool {
    name == "help"@ || ends_with(name, ":"@) || ends_with(trim_end(args), ":"@)
}

/// One expression of a task line, at byte column `ind`.
#[verifier::opaque]
pub open spec fn expression_lsp(st: AState, k: nat, ind: nat, expr: Seq<char>) -> AState {
    let end = ind + utf8_len(expr);
    let st1 = match expression_syntax_error(expr) {
        Some(m) => report(st, k, ind, end, m),
        None => st,
    };
    if !(expr.len() > 0 && expr[0] == '@') {
        note_vars(st1, variable_references_spec(expr))
    } else {
        let (name, args) = split_directive_spec(expr.drop_first());
        let st2 = if name == "desc"@ {
            metadata_check(st1, k, ind, end, "@desc"@, args)
        } else {
            note_vars(st1, variable_references_spec(expr))
        };
        if name.len() == 0 {
            report(st2, k, ind, ind + 1, "empty directive"@)
        } else {
            match directive_spec(name) {
                None => report(st2, k, ind, ind + utf8_len(name) + 1, "unknown directive @"@ + name),
                Some((_, rule)) => match directive_syntax_error(expr) {
                    Some(m) => {
                        let st3 = report(st2, k, ind, end, m);
                        if stops_after_syntax(name, args) {
                            st3
                        } else {
                            version_tail(rule_check(st3, k, ind, end, name, args, rule), k, ind, end, name)
                        }
                    },
                    None => version_tail(rule_check(st2, k, ind, end, name, args, rule), k, ind, end, name),
                },
            }
        }
    }
}

/// A `@desc` directly under a task describes it, unless it names variables.
pub open spec fn describe_lsp(st: AState, ti: int, expr: Seq<char>) -> AState {
    match description_args(expr) {
        Some(a) => if contains_interpolation_spec(a) {
            st
        } else {
            AState {
                out: AnalysisModel {
                    tasks: st.out.tasks.update(
                        ti,
                        TaskDefModel { description: Some(unescape_spec(trim(a))), ..st.out.tasks[ti] },
                    ),
                    ..st.out
                },
                ..st
            }
        },
        None => st,
    }
}

/// The expressions of a task line, in order.
pub open spec fn exprs_lsp(
    st: AState,
    k: nat,
    ind: nat,
    w: nat,
    ti: int,
    logical: nat,
    exprs: Seq<Seq<char>>,
) -> AState
    decreases exprs.len(),
{
    if exprs.len() == 0 {
        st
    } else {
        let st0 = exprs_lsp(st, k, ind, w, ti, logical, exprs.drop_last());
        let e = exprs.last();
        let st1 = if logical == 2 {
            describe_lsp(st0, ti, e)
        } else {
            st0
        };
        let st2 = if e == "@help:"@ {
            AState { help_indent: Some(w), ..st1 }
        } else {
            st1
        };
        expression_lsp(st2, k, ind, e)
    }
}

/// An indented line under a task: a nested task header or expressions.
pub open spec fn task_lsp(st: AState, k: nat, line: Seq<char>) -> AState {
    let w = indent_width(line);
    let ic = indent_count(line);
    let ctx = pop_contexts(st.contexts, w);
    let st1 = AState { contexts: ctx, ..st };
    if ctx.len() == 0 {
        report(st1, k, 0, utf8_len(line), "command without a task"@)
    } else {
        let ti = ctx.last().0;
        let hi = ctx.last().1;
        let text = line.skip(ic as int);
        let logical: nat = if w >= hi {
            (w - hi) as nat
        } else {
            0
        };
        if logical == 2 && is_nested_header(text) {
            match parse_task_header_spec(text) {
                Ok((child, args)) => {
                    let (st2, ok) = add_task_lsp(
                        st1,
                        st.out.tasks[ti].name + ":"@ + child,
                        args,
                        k,
                        ic,
                        ic + utf8_len(child),
                        w,
                    );
                    if ok {
                        AState { contexts: st2.contexts.push((st1.out.tasks.len() as int, w)), ..st2 }
                    } else {
                        st2
                    }
                },
                Err(m) => report(st1, k, ic, utf8_len(line), m),
            }
        } else {
            exprs_lsp(st1, k, ic, w, ti, logical, line_expressions(text))
        }
    }
}

/// An indented line.
pub open spec fn indented_lsp(st: AState, k: nat, line: Seq<char>) -> AState {
    let w = indent_width(line);
    let ic = indent_count(line);
    if w < 2 || w % 2 != 0 {
        report(st, k, 0, ic, "indented entries must use full indentation levels: an even number of spaces, at least two"@)
    } else {
        match st.section {
            LspSection::Env => if w != 2 {
                report(st, k, 0, ic, "env entries must use exactly one indentation level"@)
            } else {
                env_lsp(st, k, ic, line.skip(ic as int))
            },
            LspSection::Task => task_lsp(st, k, line),
            LspSection::Top => report(
                st,
                k,
                0,
                utf8_len(line),
                "indented entry is not under env or a task"@,
            ),
            LspSection::Help => st,
        }
    }
}

/// A line outside any help text.
pub open spec fn plain_lsp(st: AState, k: nat, line: Seq<char>) -> AState {
    let t = trim(line);
    if t.len() == 0 || t[0] == '#' {
        st
    } else if indent_count(line) == 0 {
        top_lsp(AState { contexts: seq![], ..st }, k, line)
    } else {
        indented_lsp(st, k, line)
    }
}

/// A line once an open task help block is handled: the top-level help
/// section takes blank and indented lines.
pub open spec fn after_help_lsp(st: AState, k: nat, line: Seq<char>) -> AState {
    if st.section == LspSection::Help {
        if trim(line).len() == 0 {
            st
        } else if indent_count(line) > 0 {
            metadata_check(
                st,
                k,
                indent_count(line),
                utf8_len(line),
                "@help:"@,
                line.skip(indent_count(line) as int),
            )
        } else {
            plain_lsp(AState { section: LspSection::Top, ..st }, k, line)
        }
    } else {
        plain_lsp(st, k, line)
    }
}

/// One line, numbered from zero.
#[verifier::opaque]
pub open spec fn line_lsp(st: AState, k: nat, line: Seq<char>) -> AState {
    match st.help_indent {
        Some(hi) => if trim(line).len() == 0 {
            st
        } else if indent_count(line) > 0 && indent_width(line) > hi {
            metadata_check(
                st,
                k,
                indent_count(line),
                utf8_len(line),
                "@help:"@,
                line.skip(indent_count(line) as int),
            )
        } else {
            after_help_lsp(AState { help_indent: None, ..st }, k, line)
        },
        None => after_help_lsp(st, k, line),
    }
}

pub open spec fn initial_lsp() -> AState {
    AState {
        out: AnalysisModel { diagnostics: seq![], tasks: seq![], variables: seq![] },
        section: LspSection::Top,
        contexts: seq![],
        seen_env: false,
        seen_task: false,
        env_names: seq![],
        help_indent: None,
    }
}

/// The analysis after the given lines.
pub open spec fn lsp_fold(lines: Seq<Seq<char>>) -> AState
    decreases lines.len(),
{
    if lines.len() == 0 {
        initial_lsp()
    } else {
        line_lsp(lsp_fold(lines.drop_last()), (lines.len() - 1) as nat, lines.last())
    }
}

/// The first line from `from` on that closes the block of a task whose
/// header has indentation `hi`: a line that is neither blank nor a comment,
/// and is not indented, or (for a nested task) not indented deeper.
pub open spec fn block_end(lines: Seq<Seq<char>>, from: nat, hi: nat) -> Option<nat>
    decreases lines.len() - from,
{
    if from >= lines.len() {
        None
    } else {
        let line = lines[from as int];
        let t = trim(line);
        if t.len() == 0 || t[0] == '#' {
            block_end(lines, from + 1, hi)
        } else if indent_count(line) == 0 || (hi > 0 && indent_width(line) <= hi) {
            Some(from)
        } else {
            block_end(lines, from + 1, hi)
        }
    }
}

pub open spec fn newline_count(s: Seq<char>) -> nat
    decreases s.len(),
{
    if s.len() == 0 {
        0
    } else {
        newline_count(s.drop_last()) + if s.last() == '\n' {
            1nat
        } else {
            0nat
        }
    }
}

/// The text after the last line feed.
pub open spec fn last_piece(s: Seq<char>) -> Seq<char>
    decreases s.len(),
{
    if s.len() == 0 {
        seq![]
    } else if s.last() == '\n' {
        seq![]
    } else {
        last_piece(s.drop_last()).push(s.last())
    }
}

/// The end of the document: the last line (from zero) and its length in
/// UTF-16 units, a trailing carriage return not counted.
pub open spec fn document_end(text: Seq<char>) -> (nat, nat) {
    (newline_count(text), utf16_len(strip_cr(last_piece(text))))
}

/// A task with the end of its block: the next closing line, else the end
/// of the document.
pub open spec fn finish_task(lines: Seq<Seq<char>>, text: Seq<char>, t: TaskDefModel) -> TaskDefModel {
    match block_end(lines, t.line + 1, t.header_indent) {
        Some(j) => TaskDefModel { end_line: j, end_character: 0, ..t },
        None => TaskDefModel {
            end_line: document_end(text).0,
            end_character: document_end(text).1,
            ..t
        },
    }
}

pub open spec fn finish_tasks(lines: Seq<Seq<char>>, text: Seq<char>, ts: Seq<TaskDefModel>) -> Seq<
    TaskDefModel,
> {
    ts.map_values(|t: TaskDefModel| finish_task(lines, text, t))
}

/// What the editor is told of a taskfile text. A file that mixes spaces and
/// tabs in its indentation gets that one diagnostic and nothing else.
pub open spec fn analyze_spec(text: Seq<char>) -> AnalysisModel {
    let lines = source_lines(text);
    match mixed_fold(lines).2 {
        Some(n) => AnalysisModel {
            diagnostics: seq![
                diag_at((n - 1) as nat, 0, indent_count(lines[n - 1]), mixed_message()),
            ],
            tasks: seq![],
            variables: seq![],
        },
        None => {
            let out = lsp_fold(lines).out;
            AnalysisModel { tasks: finish_tasks(lines, text, out.tasks), ..out }
        },
    }
}

pub proof fn lemma_trim_start_len(s: Seq<char>)
    ensures
        trim_start(s).len() <= s.len(),
    decreases s.len(),
{
    if s.len() > 0 && crate::text::is_ws(s[0]) {
        lemma_trim_start_len(s.drop_first());
    }
}

pub proof fn lemma_trim_end_len(s: Seq<char>)
    ensures
        trim_end(s).len() <= s.len(),
    decreases s.len(),
{
    if s.len() > 0 && crate::text::is_ws(s.last()) {
        lemma_trim_end_len(s.drop_last());
    }
}

pub proof fn lemma_trim_len(s: Seq<char>)
    ensures
        trim(s).len() <= s.len(),
{
    lemma_trim_start_len(s);
    lemma_trim_end_len(trim_start(s));
}

proof fn lemma_expr_fold_len(s: Seq<char>)
    ensures
        expr_fold(s).cur.len() <= s.len(),
        forall|k: int|
            0 <= k < expr_fold(s).parts.len() ==> #[trigger] expr_fold(s).parts[k].len() <= s.len(),
    decreases s.len(),
{
    if s.len() > 0 {
        lemma_expr_fold_len(s.drop_last());
        lemma_trim_len(expr_fold(s.drop_last()).cur);
    }
}

/// No expression of a line is longer than the line.
pub proof fn lemma_line_expressions_len(s: Seq<char>)
    ensures
        forall|k: int|
            0 <= k < line_expressions(s).len() ==> #[trigger] line_expressions(s)[k].len() <= s.len(),
{
    lemma_expr_fold_len(s);
    lemma_trim_len(expr_fold(s).cur);
}

/// A header's task name is no longer than the header.
pub proof fn lemma_header_name_len(line: Seq<char>)
    ensures
        parse_task_header_spec(line) matches Ok((name, _)) ==> name.len() <= line.len(),
{
    reveal_strlit(":");
    if ends_with(line, ":"@) {
        let head = line.drop_last();
        crate::text::lemma_find_char(head, '(');
        match find_char(head, '(') {
            Some(p) => lemma_trim_len(head.take(p)),
            None => {},
        }
    }
}

proof fn lemma_utf8_len_bound(s: Seq<char>)
    ensures
        utf8_len(s) <= 4 * s.len(),
    decreases s.len(),
{
    if s.len() > 0 {
        lemma_utf8_len_bound(s.drop_last());
    }
}

fn char_width(c: char) -> (n: usize)
    ensures
        n == char_bytes(c),
        1 <= n <= 4,
{
    let u = c as u32;
    if u < 0x80 {
        1
    } else if u < 0x800 {
        2
    } else if u < 0x10000 {
        3
    } else {
        4
    }
}

/// The number of bytes of a text in UTF-8.
pub fn utf8_width(s: &Vec<char>) -> (n: usize)
    requires
        s.len() <= usize::MAX / 4,
    ensures
        n == utf8_len(s@),
        n <= 4 * s.len(),
{
    let mut n: usize = 0;
    let mut i: usize = 0;
    assert(s@.take(0) =~= seq![]);
    while i < s.len()
        invariant
            i <= s.len(),
            s.len() <= usize::MAX / 4,
            n == utf8_len(s@.take(i as int)),
            n <= 4 * i,
        decreases s.len() - i,
    {
        assert(s@.take(i + 1).drop_last() =~= s@.take(i as int));
        n = n + char_width(s[i]);
        i = i + 1;
    }
    assert(s@.take(s.len() as int) =~= s@);
    n
}

/// A problem at a place: the line (from zero) and the byte columns it spans.
#[derive(Clone, Debug)]
pub struct LspDiagnostic {
    pub line: usize,
    pub start: usize,
    pub end: usize,
    pub message: Vec<char>,
}

impl View for LspDiagnostic {
    type V = DiagModel;

    open spec fn view(&self) -> DiagModel {
        DiagModel {
            line: self.line as nat,
            start: self.start as nat,
            end: self.end as nat,
            message: self.message@,
        }
    }
}

/// A task as the editor sees it.
#[derive(Clone, Debug)]
pub struct LspTask {
    pub name: Vec<char>,
    pub arguments: Vec<Vec<char>>,
    pub line: usize,
    pub start: usize,
    pub end: usize,
    pub end_line: usize,
    pub end_character: usize,
    pub description: Option<Vec<char>>,
    pub header_indent: usize,
}

impl View for LspTask {
    type V = TaskDefModel;

    open spec fn view(&self) -> TaskDefModel {
        TaskDefModel {
            name: self.name@,
            arguments: seq_views(self.arguments@),
            line: self.line as nat,
            start: self.start as nat,
            end: self.end as nat,
            end_line: self.end_line as nat,
            end_character: self.end_character as nat,
            description: match self.description {
                Some(d) => Some(d@),
                None => None,
            },
            header_indent: self.header_indent as nat,
        }
    }
}

/// Diagnostics, tasks and variables of a taskfile.
#[derive(Clone, Debug)]
pub struct Analysis {
    pub diagnostics: Vec<LspDiagnostic>,
    pub tasks: Vec<LspTask>,
    pub variables: Vec<Vec<char>>,
}

pub open spec fn diag_views(v: Seq<LspDiagnostic>) -> Seq<DiagModel> {
    v.map_values(|d: LspDiagnostic| d@)
}

pub open spec fn lsp_task_views(v: Seq<LspTask>) -> Seq<TaskDefModel> {
    v.map_values(|t: LspTask| t@)
}

impl View for Analysis {
    type V = AnalysisModel;

    open spec fn view(&self) -> AnalysisModel {
        AnalysisModel {
            diagnostics: diag_views(self.diagnostics@),
            tasks: lsp_task_views(self.tasks@),
            variables: seq_views(self.variables@),
        }
    }
}

/// The analysis while lines are read.
struct Analyzer {
    out: Analysis,
    section: LspSection,
    contexts: Vec<(usize, usize)>,
    seen_env: bool,
    seen_task: bool,
    env_names: Vec<Vec<char>>,
    help_indent: Option<usize>,
}

impl Analyzer {
    spec fn view(&self) -> AState {
        AState {
            out: self.out@,
            section: self.section,
            contexts: ctx_views(self.contexts@),
            seen_env: self.seen_env,
            seen_task: self.seen_task,
            env_names: seq_views(self.env_names@),
            help_indent: match self.help_indent {
                Some(h) => Some(h as nat),
                None => None,
            },
        }
    }

    spec fn wf(&self) -> bool {
        &&& forall|k: int|
            0 <= k < self.contexts@.len() ==> #[trigger] self.contexts@[k].0 < self.out.tasks@.len()
        &&& self.contexts@.len() > 0 ==> self.contexts@[0].1 == 0
        &&& forall|j: int| 0 <= j < self.out.tasks@.len() ==> #[trigger] self.out.tasks@[j].line < usize::MAX
        &&& forall|j: int|
            0 <= j < self.out.tasks@.len() ==> colon_count(#[trigger] self.out.tasks@[j].name@) <= 1
    }
}

fn contains_name(names: &Vec<Vec<char>>, n: &Vec<char>) -> (b: bool)
    ensures
        b == seq_views(names@).contains(n@),
{
    let mut i: usize = 0;
    while i < names.len()
        invariant
            i <= names.len(),
            forall|j: int| 0 <= j < i ==> #[trigger] names@[j]@ != n@,
        decreases names.len() - i,
    {
        if chars_eq(&names[i], n) {
            assert(seq_views(names@)[i as int] == n@);
            return true;
        }
        i = i + 1;
    }
    assert(!seq_views(names@).contains(n@)) by {
        if seq_views(names@).contains(n@) {
            let j = choose|j: int| 0 <= j < seq_views(names@).len() && seq_views(names@)[j] == n@;
            assert(names@[j]@ == n@);
        }
    }
    false
}

/// Adds a name to a set kept in order of insertion.
fn insert_name_exec(names: &mut Vec<Vec<char>>, n: Vec<char>)
    ensures
        seq_views(final(names)@) == insert_name(seq_views(old(names)@), n@),
{
    if !contains_name(names, &n) {
        let ghost before = seq_views(names@);
        let ghost nv = n@;
        names.push(n);
        assert(seq_views(names@) =~= before.push(nv));
    }
}

impl Analyzer {
    fn report(&mut self, line: usize, start: usize, end: usize, message: Vec<char>)
        requires
            old(self).wf(),
            start < usize::MAX,
        ensures
            final(self).wf(),
            final(self)@ == report(old(self)@, line as nat, start as nat, end as nat, message@),
            final(self).contexts == old(self).contexts,
            final(self).out.tasks == old(self).out.tasks,
    {
        let e = if end > start {
            end
        } else {
            start + 1
        };
        let d = LspDiagnostic { line, start, end: e, message };
        let ghost before = diag_views(self.out.diagnostics@);
        let ghost dv = d@;
        self.out.diagnostics.push(d);
        assert(diag_views(self.out.diagnostics@) =~= before.push(dv));
    }

    fn report_str(&mut self, line: usize, start: usize, end: usize, message: &str)
        requires
            old(self).wf(),
            start < usize::MAX,
        ensures
            final(self).wf(),
            final(self)@ == report(old(self)@, line as nat, start as nat, end as nat, message@),
            final(self).contexts == old(self).contexts,
            final(self).out.tasks == old(self).out.tasks,
    {
        self.report(line, start, end, str_chars(message));
    }

    fn note_var(&mut self, n: Vec<char>)
        requires
            old(self).wf(),
        ensures
            final(self).wf(),
            final(self)@ == note_var(old(self)@, n@),
            final(self).contexts == old(self).contexts,
            final(self).out.tasks == old(self).out.tasks,
    {
        insert_name_exec(&mut self.out.variables, n);
    }

    fn note_vars(&mut self, ns: &Vec<Vec<char>>)
        requires
            old(self).wf(),
        ensures
            final(self).wf(),
            final(self)@ == note_vars(old(self)@, seq_views(ns@)),
            final(self).contexts == old(self).contexts,
            final(self).out.tasks == old(self).out.tasks,
    {
        let ghost start = self@;
        let ghost all = seq_views(ns@);
        let mut i: usize = 0;
        assert(all.take(0) =~= seq![]);
        while i < ns.len()
            invariant
                i <= ns.len(),
                all == seq_views(ns@),
                self.wf(),
                self@ == note_vars(start, all.take(i as int)),
                self.contexts == old(self).contexts,
                self.out.tasks == old(self).out.tasks,
            decreases ns.len() - i,
        {
            assert(all.take(i + 1).drop_last() =~= all.take(i as int));
            assert(all.take(i + 1).last() == ns@[i as int]@);
            self.note_var(ns[i].clone());
            i = i + 1;
        }
        assert(all.take(ns.len() as int) =~= all);
    }

    fn metadata_check(
        &mut self,
        line: usize,
        start: usize,
        end: usize,
        directive: &str,
        text: &Vec<char>,
    )
        requires
            old(self).wf(),
            start < usize::MAX,
        ensures
            final(self).wf(),
            final(self)@ == metadata_check(old(self)@, line as nat, start as nat, end as nat, directive@, text@),
            final(self).contexts == old(self).contexts,
            final(self).out.tasks == old(self).out.tasks,
    {
        if contains_variable_interpolation(text) {
            let mut m = str_chars(directive);
            append_str(&mut m, " text cannot contain variables");
            self.report(line, start, end, m);
        }
    }
}

fn lsp_task_exists_exec(tasks: &Vec<LspTask>, name: &Vec<char>) -> (b: bool)
    ensures
        b == lsp_task_exists(lsp_task_views(tasks@), name@),
{
    let mut i: usize = 0;
    while i < tasks.len()
        invariant
            i <= tasks.len(),
            forall|j: int| 0 <= j < i ==> #[trigger] tasks@[j].name@ != name@,
        decreases tasks.len() - i,
    {
        if chars_eq(&tasks[i].name, name) {
            assert(lsp_task_views(tasks@)[i as int].name == name@);
            return true;
        }
        i = i + 1;
    }
    assert(!lsp_task_exists(lsp_task_views(tasks@), name@)) by {
        if lsp_task_exists(lsp_task_views(tasks@), name@) {
            let j = choose|j: int|
                0 <= j < lsp_task_views(tasks@).len() && #[trigger] lsp_task_views(tasks@)[j].name
                    == name@;
            assert(tasks@[j].name@ == name@);
        }
    }
    false
}

impl Analyzer {
    fn add_task(
        &mut self,
        key: Vec<char>,
        args: Vec<Vec<char>>,
        line: usize,
        start: usize,
        end: usize,
        hi: usize,
    ) -> (ok: bool)
        requires
            old(self).wf(),
            start < usize::MAX,
            line < usize::MAX,
        ensures
            final(self).wf(),
            (final(self)@, ok) == add_task_lsp(
                old(self)@,
                key@,
                seq_views(args@),
                line as nat,
                start as nat,
                end as nat,
                hi as nat,
            ),
            final(self).contexts == old(self).contexts,
            ok ==> final(self).out.tasks@.len() == old(self).out.tasks@.len() + 1,
    {
        match validate_task_name(&key) {
            Err(e) => {
                let mut m = wrap_msg("invalid task name '", &key, "': ");
                append_str(&mut m, e.message());
                assert(m@ =~= wrap("invalid task name '"@, key@, "': "@ + e.spec_message()));
                self.report(line, start, end, m);
                return false;
            },
            Ok(()) => {},
        }
        if count_colons(&key) > 1 {
            let mut m = wrap_msg("invalid task name '", &key, "': ");
            append_str(&mut m, TaskNameError::TooDeep.message());
            assert(m@ =~= wrap(
                "invalid task name '"@,
                key@,
                "': "@ + TaskNameError::TooDeep.spec_message(),
            ));
            self.report(line, start, end, m);
            return false;
        }
        if lsp_task_exists_exec(&self.out.tasks, &key) {
            let m = wrap_msg("duplicate task '", &key, "'");
            self.report(line, start, end, m);
            return false;
        }
        self.note_vars(&args);
        let ghost before = lsp_task_views(self.out.tasks@);
        let t = LspTask {
            name: key,
            arguments: args,
            line,
            start,
            end,
            end_line: line,
            end_character: end,
            description: None,
            header_indent: hi,
        };
        let ghost tv = t@;
        self.out.tasks.push(t);
        assert(lsp_task_views(self.out.tasks@) =~= before.push(tv));
        true
    }

    fn version_line(&mut self, k: usize, line: &Vec<char>, args: &Vec<char>)
        requires
            old(self).wf(),
            is_version_line(line@),
            args@ == split_directive_spec(line@.drop_first()).1,
            line.len() <= usize::MAX / 16,
        ensures
            final(self).wf(),
            final(self)@ == version_lsp(old(self)@, k as nat, line@),
    {
        let end = utf8_width(line);
        if self.seen_task {
            self.report_str(k, 0, end, "@version must appear before tasks");
        } else {
            let parts = split_whitespace(args);
            if parts.len() != 2 {
                self.report_str(k, 0, end, "@version expects name and value");
            } else {
                assert(ws_words(args@)[0] == parts@[0]@);
                assert(ws_words(args@)[1] == parts@[1]@);
                match version_env_key(&parts[0]) {
                    Ok(key) => {
                        if contains_name(&self.env_names, &key) {
                            let m = wrap_msg("duplicate env entry '", &key, "'");
                            self.report(k, 0, end, m);
                        } else {
                            let ghost before = seq_views(self.env_names@);
                            let ghost kv = key@;
                            self.env_names.push(key.clone());
                            assert(seq_views(self.env_names@) =~= before.push(kv));
                        }
                        self.note_var(key);
                    },
                    Err(e) => {
                        let mut m = wrap_msg("invalid version name '", &parts[0], "': ");
                        append_str(&mut m, e.message());
                        assert(m@ =~= wrap(
                            "invalid version name '"@,
                            parts@[0]@,
                            "': "@ + e.spec_message(),
                        ));
                        self.report(k, 0, end, m);
                    },
                }
                if parse_semver(&parts[1]).is_none() {
                    let err = crate::semver::SemverError::Invalid(parts[1].clone());
                    assert(err@ == SemverFailure::Invalid(parts@[1]@));
                    let mut m = str_chars("line ");
                    push_decimal(&mut m, k as u64);
                    append_str(&mut m, ": ");
                    let tail = err.message();
                    append(&mut m, &tail);
                    assert(m@ =~= line_prefixed_text(
                        k as nat,
                        failure_message(SemverFailure::Invalid(parts@[1]@)),
                    ));
                    self.report(k, 0, end, m);
                }
            }
        }
        self.section = LspSection::Top;
    }

    fn top_line(&mut self, k: usize, line: &Vec<char>)
        requires
            old(self).wf(),
            k < usize::MAX,
            old(self).contexts@.len() == 0,
            line.len() <= usize::MAX / 16,
        ensures
            final(self).wf(),
            final(self)@ == top_lsp(old(self)@, k as nat, line@),
    {
        match is_version_line_exec(line) {
            Some(args) => {
                self.version_line(k, line, &args);
                return;
            },
            None => {},
        }
        if chars_eq_str(line, "@help:") {
            self.section = LspSection::Help;
            return;
        }
        let end = utf8_width(line);
        match parse_task_header(line) {
            Ok((key, args)) => {
                if chars_eq_str(&key, "@env") {
                    if self.seen_task {
                        self.report_str(k, 0, end, "@env: must appear before tasks");
                        self.section = LspSection::Top;
                    } else if self.seen_env {
                        self.report_str(
                            k,
                            0,
                            end,
                            "multiple @env: sections are not allowed in the same block",
                        );
                        self.section = LspSection::Top;
                    } else {
                        self.seen_env = true;
                        self.section = LspSection::Env;
                    }
                } else {
                    proof {
                        lemma_header_name_len(line@);
                    }
                    let kend = utf8_width(&key);
                    let idx = self.out.tasks.len();
                    let ok = self.add_task(key, args, k, 0, kend, 0);
                    if ok {
                        self.seen_task = true;
                        let ghost cb = ctx_views(self.contexts@);
                        self.contexts.push((idx, 0));
                        assert(ctx_views(self.contexts@) =~= cb.push((idx as int, 0nat)));
                    }
                    self.section = LspSection::Task;
                }
            },
            Err(m) => {
                self.report(k, 0, end, m);
                self.section = LspSection::Top;
            },
        }
    }
}

/// Both parts of a split directive are no longer than the directive.
pub proof fn lemma_split_directive_len(d: Seq<char>)
    ensures
        split_directive_spec(d).0.len() <= d.len(),
        split_directive_spec(d).1.len() <= d.len(),
{
    let t = trim_start(d);
    lemma_trim_start_len(d);
    lemma_find_ws(t);
    match find_ws(t) {
        Some(i) => lemma_trim_start_len(t.skip(i)),
        None => {},
    }
}

impl Analyzer {
    fn env_line(&mut self, k: usize, ic: usize, entry: &Vec<char>)
        requires
            old(self).wf(),
            entry.len() <= usize::MAX / 16,
            ic <= usize::MAX / 16,
        ensures
            final(self).wf(),
            final(self)@ == env_lsp(old(self)@, k as nat, ic as nat, entry@),
    {
        match chars_find(entry, ':') {
            None => {
                let w = utf8_width(entry);
                self.report_str(k, ic, w + ic, "env entry must contain ':'");
            },
            Some(i) => {
                proof {
                    crate::text::lemma_find_char(entry@, ':');
                }
                let raw = subvec(entry, 0, i);
                let key = if raw.len() > 0 && raw[raw.len() - 1] == '?' {
                    subvec(&raw, 0, raw.len() - 1)
                } else {
                    raw.clone()
                };
                assert(key@ == (if raw@.len() > 0 && raw@.last() == '?' {
                    raw@.drop_last()
                } else {
                    raw@
                }));
                let end = utf8_width(&raw) + ic;
                match validate_env_name(&key) {
                    Err(e) => {
                        let mut m = wrap_msg("invalid env name '", &key, "': ");
                        append_str(&mut m, e.message());
                        assert(m@ =~= wrap("invalid env name '"@, key@, "': "@ + e.spec_message()));
                        self.report(k, ic, end, m);
                    },
                    Ok(()) => {
                        if contains_name(&self.env_names, &key) {
                            let m = wrap_msg("duplicate env entry '", &key, "'");
                            self.report(k, ic, end, m);
                        } else {
                            let ghost before = seq_views(self.env_names@);
                            let ghost kv = key@;
                            self.env_names.push(key.clone());
                            assert(seq_views(self.env_names@) =~= before.push(kv));
                        }
                        self.note_var(key);
                    },
                }
            },
        }
    }

    fn static_bump(&mut self, k: usize, ind: usize, end: usize, name: &Vec<char>)
        requires
            old(self).wf(),
            ind < usize::MAX,
        ensures
            final(self).wf(),
            final(self).out.tasks@.len() == old(self).out.tasks@.len(),
            final(self)@ == static_bump(old(self)@, k as nat, ind as nat, end as nat, name@),
    {
        if contains_variable_interpolation(name) {
            return;
        }
        match version_env_key(name) {
            Ok(key) => self.note_var(key),
            Err(e) => {
                let mut m = wrap_msg("invalid version name '", name, "': ");
                append_str(&mut m, e.message());
                assert(m@ =~= wrap("invalid version name '"@, name@, "': "@ + e.spec_message()));
                self.report(k, ind, end, m);
            },
        }
    }

    fn set_args(&mut self, k: usize, ind: usize, end: usize, args: &Vec<char>)
        requires
            old(self).wf(),
            ind < usize::MAX,
        ensures
            final(self).wf(),
            final(self).out.tasks@.len() == old(self).out.tasks@.len(),
            final(self)@ == set_args_lsp(old(self)@, k as nat, ind as nat, end as nat, args@),
    {
        let t = chars_trim(args);
        if t.len() == 0 {
            self.report_str(k, ind, end, "@set expects NAME and value, or NAME: for capture");
            return;
        }
        let te = chars_trim_end(args);
        let name = if chars_ends_with_str(&te, ":") {
            let stripped = chars_trim_end_char(&te, ':');
            chars_trim(&stripped)
        } else {
            let ts = chars_trim_start(args);
            match chars_find_ws(&ts) {
                Some(i) => {
                    proof {
                        lemma_find_ws(ts@);
                    }
                    subvec(&ts, 0, i)
                },
                None => Vec::new(),
            }
        };
        assert(name@ =~= set_args_name(args@));
        match validate_env_name(&name) {
            Err(e) => {
                let mut m = wrap_msg("invalid env name '", &name, "': ");
                append_str(&mut m, e.message());
                assert(m@ =~= wrap("invalid env name '"@, name@, "': "@ + e.spec_message()));
                self.report(k, ind, end, m);
            },
            Ok(()) => self.note_var(name),
        }
    }

    fn export_args(&mut self, k: usize, ind: usize, end: usize, args: &Vec<char>)
        requires
            old(self).wf(),
            ind < usize::MAX,
        ensures
            final(self).wf(),
            final(self).out.tasks@.len() == old(self).out.tasks@.len(),
            final(self)@ == export_args_lsp(old(self)@, k as nat, ind as nat, end as nat, args@),
    {
        let words = split_whitespace(args);
        if words.len() == 0 {
            self.report_str(k, ind, end, "@export expects NAME or NAME value");
            return;
        }
        assert(ws_words(args@)[0] == words@[0]@);
        match validate_env_name(&words[0]) {
            Err(e) => {
                let mut m = wrap_msg("invalid env name '", &words[0], "': ");
                append_str(&mut m, e.message());
                assert(m@ =~= wrap("invalid env name '"@, words@[0]@, "': "@ + e.spec_message()));
                self.report(k, ind, end, m);
            },
            Ok(()) => self.note_var(words[0].clone()),
        }
    }

    fn version_bump_args(&mut self, k: usize, ind: usize, end: usize, args: &Vec<char>)
        requires
            old(self).wf(),
            ind < usize::MAX,
        ensures
            final(self).wf(),
            final(self).out.tasks@.len() == old(self).out.tasks@.len(),
            final(self)@ == version_bump_lsp(old(self)@, k as nat, ind as nat, end as nat, args@),
    {
        match split_words(args) {
            Ok(w) => {
                if w.len() == 1 {
                    assert(w@[0]@ == split_words_spec(args@)->Ok_0[0]);
                    self.static_bump(k, ind, end, &w[0]);
                } else {
                    self.report_str(
                        k,
                        ind,
                        end,
                        "version bump directive expects exactly one version name",
                    );
                }
            },
            Err(_) => self.report_str(
                k,
                ind,
                end,
                "version bump directive expects exactly one version name",
            ),
        }
    }

    fn pre_bump_args(&mut self, k: usize, ind: usize, end: usize, args: &Vec<char>)
        requires
            old(self).wf(),
            ind < usize::MAX,
        ensures
            final(self).wf(),
            final(self).out.tasks@.len() == old(self).out.tasks@.len(),
            final(self)@ == pre_bump_lsp(old(self)@, k as nat, ind as nat, end as nat, args@),
    {
        match split_words(args) {
            Ok(w) => {
                if w.len() == 2 {
                    assert(w@[0]@ == split_words_spec(args@)->Ok_0[0]);
                    self.static_bump(k, ind, end, &w[0]);
                } else {
                    self.report_str(k, ind, end, "@pre expects <name> <prerelease>");
                }
            },
            Err(_) => self.report_str(k, ind, end, "@pre expects <name> <prerelease>"),
        }
    }
}

fn at_message(name: &Vec<char>, tail: &str) -> (m: Vec<char>)
    ensures
        m@ == "@"@ + name@ + tail@,
{
    let mut m = str_chars("@");
    append(&mut m, name);
    append_str(&mut m, tail);
    m
}

fn is_compare_op_exec(w: &Vec<char>) -> (b: bool)
    ensures
        b == is_compare_op(w@),
{
    chars_eq_str(w, "==") || chars_eq_str(w, "!=") || chars_eq_str(w, "<") || chars_eq_str(w, "<=")
        || chars_eq_str(w, ">") || chars_eq_str(w, ">=")
}

fn is_release_word_exec(w: &Vec<char>) -> (b: bool)
    ensures
        b == is_release_word(w@),
{
    chars_eq_str(w, "prerelease") || chars_eq_str(w, "pre") || chars_eq_str(w, "release")
}

impl Analyzer {
    fn check_rule(
        &mut self,
        k: usize,
        ind: usize,
        end: usize,
        name: &Vec<char>,
        args: &Vec<char>,
        rule: ArgumentRule,
    )
        requires
            old(self).wf(),
            ind < usize::MAX,
        ensures
            final(self).wf(),
            final(self).out.tasks@.len() == old(self).out.tasks@.len(),
            final(self)@ == rule_check(old(self)@, k as nat, ind as nat, end as nat, name@, args@, rule),
    {
        reveal(rule_check);
        match rule {
            ArgumentRule::NoArguments => {
                let t = chars_trim(args);
                if t.len() > 0 {
                    let m = at_message(name, " does not take arguments");
                    self.report(k, ind, end, m);
                }
            },
            ArgumentRule::Exactly(n) => {
                let count = match split_words(args) {
                    Ok(w) => Some(w.len()),
                    Err(_) => None,
                };
                assert(match count {
                    Some(c) => arg_count(args@) == Some(c as nat),
                    None => arg_count(args@) is None,
                });
                if count != Some(n) {
                    let mut m = at_message(name, " expects exactly ");
                    push_decimal(&mut m, n as u64);
                    if n == 1 {
                        append_str(&mut m, " argument");
                    } else {
                        append_str(&mut m, " arguments");
                    }
                    assert(m@ =~= "@"@ + name@ + " expects exactly "@ + decimal(n as nat) + noun(n));
                    self.report(k, ind, end, m);
                }
            },
            ArgumentRule::AtLeast(min) => {
                let enough = match split_words(args) {
                    Ok(w) => w.len() >= min,
                    Err(_) => false,
                };
                if !enough {
                    let mut m = at_message(name, " expects at least ");
                    push_decimal(&mut m, min as u64);
                    append_str(&mut m, " argument(s)");
                    assert(m@ =~= "@"@ + name@ + " expects at least "@ + decimal(min as nat)
                        + " argument(s)"@);
                    self.report(k, ind, end, m);
                }
            },
            ArgumentRule::Variable => {
                match split_words(args) {
                    Ok(w) => {
                        if w.len() == 1 {
                            assert(w@[0]@ == split_words_spec(args@)->Ok_0[0]);
                            match parse_variable_name_token(&w[0]) {
                                Ok(v) => self.note_var(v),
                                Err(_) => {},
                            }
                        } else {
                            let m = at_message(name, " expects exactly one variable name");
                            self.report(k, ind, end, m);
                        }
                    },
                    Err(_) => {
                        let m = at_message(name, " expects exactly one variable name");
                        self.report(k, ind, end, m);
                    },
                }
            },
            ArgumentRule::IfCondition => {
                let fine = match split_words(args) {
                    Ok(w) => {
                        if w.len() == 3 {
                            assert(w@[1]@ == split_words_spec(args@)->Ok_0[1]);
                        }
                        w.len() == 1 || (w.len() == 3 && (chars_eq_str(&w[1], "==") || chars_eq_str(
                            &w[1],
                            "!=",
                        )))
                    },
                    Err(_) => false,
                };
                if !fine {
                    self.report_str(
                        k,
                        ind,
                        end,
                        "@if expects a value, '<left> == <right>', or '<left> != <right>'",
                    );
                }
            },
            ArgumentRule::IfInCondition => {
                let fine = match split_words(args) {
                    Ok(w) => w.len() >= 2,
                    Err(_) => false,
                };
                if !fine {
                    self.report_str(k, ind, end, "@if-in expects '<needle> <candidate>...'");
                }
            },
            ArgumentRule::VersionCondition => {
                let fine = match split_words(args) {
                    Ok(w) => {
                        if w.len() == 2 || w.len() == 3 {
                            assert(w@[1]@ == split_words_spec(args@)->Ok_0[1]);
                        }
                        (w.len() == 2 && is_release_word_exec(&w[1])) || (w.len() == 3
                            && is_compare_op_exec(&w[1]))
                    },
                    Err(_) => false,
                };
                if !fine {
                    let m = at_message(
                        name,
                        " expects '<name> <op> <version>', '<name> prerelease', or '<name> release'",
                    );
                    self.report(k, ind, end, m);
                }
            },
            ArgumentRule::BumpedCondition => {
                let fine = match split_words(args) {
                    Ok(w) => w.len() <= 1,
                    Err(_) => false,
                };
                if !fine {
                    let m = at_message(name, " expects no arguments or '<name>'");
                    self.report(k, ind, end, m);
                }
            },
            ArgumentRule::BumpKindCondition => {
                let fine = match split_words(args) {
                    Ok(w) => w.len() == 1,
                    Err(_) => false,
                };
                if !fine {
                    let m = at_message(name, " expects exactly one version name");
                    self.report(k, ind, end, m);
                }
            },
            ArgumentRule::SetValue => self.set_args(k, ind, end, args),
            ArgumentRule::Export => self.export_args(k, ind, end, args),
            ArgumentRule::VersionBump => self.version_bump_args(k, ind, end, args),
            ArgumentRule::PreBump => self.pre_bump_args(k, ind, end, args),
            ArgumentRule::Any => {},
        }
    }

    fn expression(&mut self, k: usize, ind: usize, expr: &Vec<char>)
        requires
            old(self).wf(),
            expr.len() <= usize::MAX / 16,
            ind <= usize::MAX / 16,
        ensures
            final(self).wf(),
            final(self).out.tasks@.len() == old(self).out.tasks@.len(),
            final(self)@ == expression_lsp(old(self)@, k as nat, ind as nat, expr@),
    {
        reveal(expression_lsp);
        let end = ind + utf8_width(expr);
        match check_expression_syntax(expr) {
            Some(m) => self.report(k, ind, end, m),
            None => {},
        }
        if !(expr.len() > 0 && expr[0] == '@') {
            let refs = variable_references(expr);
            self.note_vars(&refs);
            return;
        }
        let rest = subvec(expr, 1, expr.len());
        assert(rest@ =~= expr@.drop_first());
        let (name, args) = split_directive(&rest);
        proof {
            lemma_split_directive_len(rest@);
        }
        if chars_eq_str(&name, "desc") {
            self.metadata_check(k, ind, end, "@desc", &args);
        } else {
            let refs = variable_references(expr);
            self.note_vars(&refs);
        }
        if name.len() == 0 {
            self.report_str(k, ind, ind + 1, "empty directive");
            return;
        }
        match directive(&name) {
            None => {
                let mut m = str_chars("unknown directive @");
                append(&mut m, &name);
                let nw = utf8_width(&name);
                self.report(k, ind, ind + nw + 1, m);
            },
            Some(info) => {
                let rule = info.arguments;
                match check_directive_syntax(expr) {
                    Some(m) => {
                        self.report(k, ind, end, m);
                        let targs = chars_trim_end(&args);
                        if chars_eq_str(&name, "help") || chars_ends_with_str(&name, ":")
                            || chars_ends_with_str(&targs, ":") {
                            return;
                        }
                    },
                    None => {},
                }
                self.check_rule(k, ind, end, &name, &args, rule);
                if chars_eq_str(&name, "version") {
                    self.report_str(k, ind, end, "@version can only be used as a top-level header");
                }
            },
        }
    }
}

impl Analyzer {
    fn describe(&mut self, ti: usize, expr: &Vec<char>)
        requires
            old(self).wf(),
            ti < old(self).out.tasks@.len(),
        ensures
            final(self).wf(),
            final(self).out.tasks@.len() == old(self).out.tasks@.len(),
            final(self)@ == describe_lsp(old(self)@, ti as int, expr@),
    {
        match description_args_exec(expr) {
            Some(a) => {
                if !contains_variable_interpolation(&a) {
                    let t = chars_trim(&a);
                    let d = unescape_variable_literals(&t);
                    let ghost before = lsp_task_views(self.out.tasks@);
                    self.out.tasks[ti].description = Some(d);
                    assert(lsp_task_views(self.out.tasks@) =~= before.update(
                        ti as int,
                        TaskDefModel { description: Some(unescape_spec(trim(a@))), ..before[ti as int] },
                    ));
                }
            },
            None => {},
        }
    }

    fn expressions(
        &mut self,
        k: usize,
        ind: usize,
        w: usize,
        ti: usize,
        logical: usize,
        exprs: &Vec<Vec<char>>,
    )
        requires
            old(self).wf(),
            ti < old(self).out.tasks@.len(),
            ind <= usize::MAX / 16,
            forall|j: int| 0 <= j < exprs@.len() ==> #[trigger] exprs@[j].len() <= usize::MAX / 16,
        ensures
            final(self).wf(),
            final(self)@ == exprs_lsp(
                old(self)@,
                k as nat,
                ind as nat,
                w as nat,
                ti as int,
                logical as nat,
                seq_views(exprs@),
            ),
    {
        let ghost start = self@;
        let ghost all = seq_views(exprs@);
        let mut i: usize = 0;
        assert(all.take(0) =~= seq![]);
        while i < exprs.len()
            invariant
                i <= exprs.len(),
                all == seq_views(exprs@),
                self.wf(),
                ti < self.out.tasks@.len(),
                ind <= usize::MAX / 16,
                forall|j: int| 0 <= j < exprs@.len() ==> #[trigger] exprs@[j].len() <= usize::MAX / 16,
                self@ == exprs_lsp(start, k as nat, ind as nat, w as nat, ti as int, logical as nat, all.take(i as int)),
            decreases exprs.len() - i,
        {
            assert(all.take(i + 1).drop_last() =~= all.take(i as int));
            assert(all.take(i + 1).last() == exprs@[i as int]@);
            let e = &exprs[i];
            if logical == 2 {
                self.describe(ti, e);
            }
            if chars_eq_str(e, "@help:") {
                self.help_indent = Some(w);
            }
            self.expression(k, ind, e);
            i = i + 1;
        }
        assert(all.take(exprs.len() as int) =~= all);
    }

    fn task_line(&mut self, k: usize, line: &Vec<char>)
        requires
            old(self).wf(),
            line.len() <= usize::MAX / 16,
            k < usize::MAX,
        ensures
            final(self).wf(),
            final(self)@ == task_lsp(old(self)@, k as nat, line@),
    {
        let ind = leading_indent(line);
        let w = ind.width;
        let ic = ind.count;
        pop_contexts_exec(&mut self.contexts, w);
        proof {
            lemma_pop_contexts(ctx_views(old(self).contexts@), w as nat);
        }
        if self.contexts.len() == 0 {
            let lw = utf8_width(line);
            self.report_str(k, 0, lw, "command without a task");
            return;
        }
        let (ti, hi) = self.contexts[self.contexts.len() - 1];
        assert(ctx_views(self.contexts@).last() == (ti as int, hi as nat));
        let text = subvec(line, ic, line.len());
        let logical = if w >= hi {
            w - hi
        } else {
            0
        };
        if logical == 2 && nested_header(&text) {
            match parse_task_header(&text) {
                Ok((child, args)) => {
                    proof {
                        lemma_header_name_len(text@);
                    }
                    let mut name = self.out.tasks[ti].name.clone();
                    name.push(':');
                    append(&mut name, &child);
                    assert(name@ =~= old(self).out.tasks@[ti as int].name@ + ":"@ + child@) by {
                        reveal_strlit(":");
                    }
                    let cw = utf8_width(&child);
                    let idx = self.out.tasks.len();
                    let ok = self.add_task(name, args, k, ic, ic + cw, w);
                    if ok {
                        let ghost cb = ctx_views(self.contexts@);
                        self.contexts.push((idx, w));
                        assert(ctx_views(self.contexts@) =~= cb.push((idx as int, w as nat)));
                    }
                },
                Err(m) => {
                    let lw = utf8_width(line);
                    self.report(k, ic, lw, m);
                },
            }
            return;
        }
        let exprs = split_line_expressions(&text);
        proof {
            lemma_line_expressions_len(text@);
            assert forall|j: int| 0 <= j < exprs@.len() implies #[trigger] exprs@[j].len() <= usize::MAX / 16 by {
                assert(seq_views(exprs@)[j] == exprs@[j]@);
            }
        }
        self.expressions(k, ic, w, ti, logical, &exprs);
    }

    fn indented_line(&mut self, k: usize, line: &Vec<char>)
        requires
            old(self).wf(),
            line.len() <= usize::MAX / 16,
            k < usize::MAX,
        ensures
            final(self).wf(),
            final(self)@ == indented_lsp(old(self)@, k as nat, line@),
    {
        let ind = leading_indent(line);
        let w = ind.width;
        let ic = ind.count;
        if w < 2 || w % 2 != 0 {
            self.report_str(k, 0, ic, "indented entries must use full indentation levels: an even number of spaces, at least two");
            return;
        }
        match self.section {
            LspSection::Env => {
                if w != 2 {
                    self.report_str(k, 0, ic, "env entries must use exactly one indentation level");
                } else {
                    let entry = subvec(line, ic, line.len());
                    self.env_line(k, ic, &entry);
                }
            },
            LspSection::Task => self.task_line(k, line),
            LspSection::Top => {
                let lw = utf8_width(line);
                self.report_str(k, 0, lw, "indented entry is not under env or a task");
            },
            LspSection::Help => {},
        }
    }

    fn plain_line(&mut self, k: usize, line: &Vec<char>)
        requires
            old(self).wf(),
            line.len() <= usize::MAX / 16,
            k < usize::MAX,
        ensures
            final(self).wf(),
            final(self)@ == plain_lsp(old(self)@, k as nat, line@),
    {
        let t = chars_trim(line);
        if t.len() == 0 || t[0] == '#' {
            return;
        }
        let ind = leading_indent(line);
        if ind.count == 0 {
            self.contexts = Vec::new();
            assert(ctx_views(self.contexts@) =~= seq![]);
            self.top_line(k, line);
        } else {
            self.indented_line(k, line);
        }
    }

    fn after_help_line(&mut self, k: usize, line: &Vec<char>)
        requires
            old(self).wf(),
            line.len() <= usize::MAX / 16,
            k < usize::MAX,
        ensures
            final(self).wf(),
            final(self)@ == after_help_lsp(old(self)@, k as nat, line@),
    {
        if self.section == LspSection::Help {
            let t = chars_trim(line);
            if t.len() == 0 {
                return;
            }
            let ind = leading_indent(line);
            if ind.count > 0 {
                let lw = utf8_width(line);
                let rest = subvec(line, ind.count, line.len());
                self.metadata_check(k, ind.count, lw, "@help:", &rest);
            } else {
                self.section = LspSection::Top;
                self.plain_line(k, line);
            }
        } else {
            self.plain_line(k, line);
        }
    }

    fn line(&mut self, k: usize, line: &Vec<char>)
        requires
            old(self).wf(),
            line.len() <= usize::MAX / 16,
            k < usize::MAX,
        ensures
            final(self).wf(),
            final(self)@ == line_lsp(old(self)@, k as nat, line@),
    {
        reveal(line_lsp);
        match self.help_indent {
            Some(hi) => {
                let t = chars_trim(line);
                if t.len() == 0 {
                    return;
                }
                let ind = leading_indent(line);
                if ind.count > 0 && ind.width > hi {
                    let lw = utf8_width(line);
                    let rest = subvec(line, ind.count, line.len());
                    self.metadata_check(k, ind.count, lw, "@help:", &rest);
                } else {
                    self.help_indent = None;
                    self.after_help_line(k, line);
                }
            },
            None => self.after_help_line(k, line),
        }
    }
}

fn block_end_exec(lines: &Vec<Vec<char>>, from: usize, hi: usize) -> (r: Option<usize>)
    requires
        forall|j: int| 0 <= j < lines@.len() ==> #[trigger] lines@[j].len() <= usize::MAX / 2,
    ensures
        match r {
            Some(j) => block_end(seq_views(lines@), from as nat, hi as nat) == Some(j as nat),
            None => block_end(seq_views(lines@), from as nat, hi as nat) is None,
        },
{
    let ghost all = seq_views(lines@);
    let mut j = from;
    while j < lines.len()
        invariant
            from <= j,
            all == seq_views(lines@),
            forall|i: int| 0 <= i < lines@.len() ==> #[trigger] lines@[i].len() <= usize::MAX / 2,
            block_end(all, from as nat, hi as nat) == block_end(all, j as nat, hi as nat),
        decreases lines.len() - j,
    {
        assert(all[j as int] == lines@[j as int]@);
        let line = &lines[j];
        let t = chars_trim(line);
        if !(t.len() == 0 || t[0] == '#') {
            let ind = leading_indent(line);
            if ind.count == 0 || (hi > 0 && ind.width <= hi) {
                return Some(j);
            }
        }
        j = j + 1;
    }
    None
}

fn utf16_width(s: &Vec<char>) -> (n: usize)
    requires
        s.len() <= usize::MAX / 2,
    ensures
        n == utf16_len(s@),
{
    let mut n: usize = 0;
    let mut i: usize = 0;
    assert(s@.take(0) =~= seq![]);
    while i < s.len()
        invariant
            i <= s.len(),
            s.len() <= usize::MAX / 2,
            n == utf16_len(s@.take(i as int)),
            n <= 2 * i,
        decreases s.len() - i,
    {
        assert(s@.take(i + 1).drop_last() =~= s@.take(i as int));
        let u = s[i] as u32;
        if u >= 0x10000 {
            n = n + 2;
        } else {
            n = n + 1;
        }
        i = i + 1;
    }
    assert(s@.take(s.len() as int) =~= s@);
    n
}

fn document_end_exec(text: &Vec<char>) -> (r: (usize, usize))
    requires
        text.len() <= usize::MAX / 2,
    ensures
        (r.0 as nat, r.1 as nat) == document_end(text@),
{
    let mut count: usize = 0;
    let mut piece: Vec<char> = Vec::new();
    let mut i: usize = 0;
    assert(text@.take(0) =~= seq![]);
    while i < text.len()
        invariant
            i <= text.len(),
            text.len() <= usize::MAX / 2,
            count == newline_count(text@.take(i as int)),
            count <= i,
            piece@ == last_piece(text@.take(i as int)),
            piece.len() <= i,
        decreases text.len() - i,
    {
        assert(text@.take(i + 1).drop_last() =~= text@.take(i as int));
        let c = text[i];
        if c == '\n' {
            count = count + 1;
            piece = Vec::new();
            assert(piece@ =~= seq![]);
        } else {
            piece.push(c);
        }
        i = i + 1;
    }
    assert(text@.take(text.len() as int) =~= text@);
    if piece.len() > 0 && piece[piece.len() - 1] == '\r' {
        piece.pop();
    }
    assert(piece@ == strip_cr(last_piece(text@)));
    (count, utf16_width(&piece))
}

fn finish_task_ranges(lines: &Vec<Vec<char>>, text: &Vec<char>, tasks: Vec<LspTask>) -> (r: Vec<LspTask>)
    requires
        forall|j: int| 0 <= j < lines@.len() ==> #[trigger] lines@[j].len() <= usize::MAX / 2,
        text.len() <= usize::MAX / 2,
        forall|j: int| 0 <= j < tasks@.len() ==> #[trigger] tasks@[j].line < usize::MAX,
    ensures
        lsp_task_views(r@) == finish_tasks(seq_views(lines@), text@, lsp_task_views(tasks@)),
        r@.len() == tasks@.len(),
        forall|j: int| 0 <= j < r@.len() ==> #[trigger] r@[j].name@ == tasks@[j].name@,
{
    let ghost ls = seq_views(lines@);
    let ghost ts = lsp_task_views(tasks@);
    let doc_end = document_end_exec(text);
    let mut out: Vec<LspTask> = Vec::new();
    let mut i: usize = 0;
    while i < tasks.len()
        invariant
            i <= tasks.len(),
            ls == seq_views(lines@),
            ts == lsp_task_views(tasks@),
            forall|j: int| 0 <= j < lines@.len() ==> #[trigger] lines@[j].len() <= usize::MAX / 2,
            forall|j: int| 0 <= j < tasks@.len() ==> #[trigger] tasks@[j].line < usize::MAX,
            (doc_end.0 as nat, doc_end.1 as nat) == document_end(text@),
            lsp_task_views(out@) == ts.take(i as int).map_values(
                |t: TaskDefModel| finish_task(ls, text@, t),
            ),
            out@.len() == i,
            forall|j: int| 0 <= j < i ==> #[trigger] out@[j].name@ == tasks@[j].name@,
        decreases tasks.len() - i,
    {
        let mut t = tasks[i].clone_task();
        let ghost tv = ts[i as int];
        assert(t@ == tv);
        match block_end_exec(lines, t.line + 1, t.header_indent) {
            Some(j) => {
                t.end_line = j;
                t.end_character = 0;
            },
            None => {
                t.end_line = doc_end.0;
                t.end_character = doc_end.1;
            },
        }
        assert(t@ == finish_task(ls, text@, tv));
        let ghost before = lsp_task_views(out@);
        let ghost fv = t@;
        out.push(t);
        assert(lsp_task_views(out@) =~= before.push(fv));
        assert(ts.take(i + 1).map_values(|t: TaskDefModel| finish_task(ls, text@, t)) =~= ts.take(
            i as int,
        ).map_values(|t: TaskDefModel| finish_task(ls, text@, t)).push(fv));
        i = i + 1;
    }
    assert(ts.take(tasks.len() as int) =~= ts);
    out
}

fn clone_names(v: &Vec<Vec<char>>) -> (r: Vec<Vec<char>>)
    ensures
        seq_views(r@) == seq_views(v@),
{
    let mut r: Vec<Vec<char>> = Vec::new();
    let mut i: usize = 0;
    while i < v.len()
        invariant
            i <= v.len(),
            seq_views(r@) == seq_views(v@).take(i as int),
        decreases v.len() - i,
    {
        let ghost before = seq_views(r@);
        let x = v[i].clone();
        assert(x@ == v@[i as int]@);
        r.push(x);
        assert(seq_views(r@) =~= before.push(v@[i as int]@));
        assert(seq_views(v@).take(i + 1) =~= seq_views(v@).take(i as int).push(v@[i as int]@));
        i = i + 1;
    }
    assert(seq_views(v@).take(v.len() as int) =~= seq_views(v@));
    r
}

impl LspTask {
    /// A copy of the task.
    pub fn clone_task(&self) -> (r: LspTask)
        ensures
            r@ == self@,
    {
        let description = match &self.description {
            Some(d) => Some(d.clone()),
            None => None,
        };
        let name = self.name.clone();
        assert(name@ == self.name@);
        let r = LspTask {
            name,
            arguments: clone_names(&self.arguments),
            line: self.line,
            start: self.start,
            end: self.end,
            end_line: self.end_line,
            end_character: self.end_character,
            description,
            header_indent: self.header_indent,
        };
        assert(r.description matches Some(d) ==> d@ == self.description->Some_0@);
        r
    }
}

/// What the editor is told of a taskfile text: each problem found, the
/// tasks with the span of their blocks, the variables that the file names.
/// Columns are counted in UTF-8 bytes and UTF-16 units (up to four per
/// char) and summed along a line, so the text is bounded to keep every such
/// sum within `usize`; a text that fits in memory on a 64-bit machine is far
/// below the bound.
pub fn analyze(text: &str) -> (r: Analysis)
    requires
        text@.len() <= usize::MAX / 16,
    ensures
        r@ == analyze_spec(text@),
        forall|j: int| 0 <= j < r@.tasks.len() ==> colon_count(#[trigger] r@.tasks[j].name) <= 1,
{
    let chars = str_chars(text);
    let lines = split_source_lines(&chars);
    let ghost ls = seq_views(lines@);
    proof {
        crate::scan::lemma_source_lines_len(chars@);
        lemma_source_lines_count(chars@);
        assert(ls == source_lines(chars@));
        assert forall|j: int| 0 <= j < lines@.len() implies #[trigger] lines@[j].len() <= usize::MAX / 16 by {
            assert(ls[j] == lines@[j]@);
        }
    }
    match mixed_indentation_line(&lines) {
        Some(n) => {
            proof {
                lemma_mixed_line_bound(ls);
            }
            let ind = leading_indent(&lines[n - 1]);
            let d = LspDiagnostic {
                line: n - 1,
                start: 0,
                end: if ind.count > 0 {
                    ind.count
                } else {
                    1
                },
                message: str_chars(
                    "taskfile uses both leading spaces and tabs for indentation; use one indentation style per file or run `cj --format` to normalize indentation to spaces",
                ),
            };
            let mut diagnostics: Vec<LspDiagnostic> = Vec::new();
            diagnostics.push(d);
            let r = Analysis { diagnostics, tasks: Vec::new(), variables: Vec::new() };
            assert(r@.diagnostics =~= seq![
                diag_at((n - 1) as nat, 0, indent_count(ls[n - 1]), mixed_message()),
            ]);
            assert(r@.tasks =~= seq![]);
            assert(r@.variables =~= seq![]);
            return r;
        },
        None => {},
    }
    let mut a = Analyzer {
        out: Analysis { diagnostics: Vec::new(), tasks: Vec::new(), variables: Vec::new() },
        section: LspSection::Top,
        contexts: Vec::new(),
        seen_env: false,
        seen_task: false,
        env_names: Vec::new(),
        help_indent: None,
    };
    assert(a@.out.diagnostics =~= seq![]);
    assert(a@.out.tasks =~= seq![]);
    assert(a@.out.variables =~= seq![]);
    assert(a@.contexts =~= seq![]);
    assert(a@.env_names =~= seq![]);
    assert(a@ == initial_lsp());
    let mut k: usize = 0;
    assert(ls.take(0) =~= seq![]);
    while k < lines.len()
        invariant
            k <= lines.len(),
            ls == seq_views(lines@),
            lines@.len() <= usize::MAX / 16,
            forall|j: int| 0 <= j < lines@.len() ==> #[trigger] lines@[j].len() <= usize::MAX / 16,
            a.wf(),
            a@ == lsp_fold(ls.take(k as int)),
        decreases lines.len() - k,
    {
        assert(ls.take(k + 1).drop_last() =~= ls.take(k as int));
        assert(ls.take(k + 1).last() == lines@[k as int]@);
        a.line(k, &lines[k]);
        k = k + 1;
    }
    assert(ls.take(lines.len() as int) =~= ls);
    let Analyzer { out, .. } = a;
    let Analysis { diagnostics, tasks, variables } = out;
    let ghost pre = tasks@;
    let finished = finish_task_ranges(&lines, &chars, tasks);
    assert forall|j: int| 0 <= j < finished@.len() implies colon_count(#[trigger] finished@[j].name@) <= 1 by {
        assert(finished@[j].name@ == pre[j].name@);
    }
    let r = Analysis { diagnostics, tasks: finished, variables };
    assert forall|j: int| 0 <= j < r@.tasks.len() implies colon_count(#[trigger] r@.tasks[j].name) <= 1 by {
        assert(r@.tasks[j] == r.tasks@[j]@);
    }
    r
}

proof fn lemma_lines_fold_count(s: Seq<char>)
    ensures
        crate::scan::lines_fold(s).0.len() + (if crate::scan::lines_fold(s).1.len() > 0 {
            1int
        } else {
            0int
        }) <= s.len(),
    decreases s.len(),
{
    if s.len() > 0 {
        lemma_lines_fold_count(s.drop_last());
    }
}

/// A text has no more lines than chars.
pub proof fn lemma_source_lines_count(s: Seq<char>)
    ensures
        source_lines(s).len() <= s.len(),
{
    lemma_lines_fold_count(s);
}

pub(crate) proof fn lemma_mixed_line_bound(lines: Seq<Seq<char>>)
    ensures
        mixed_fold(lines).2 matches Some(n) ==> 1 <= n <= lines.len(),
    decreases lines.len(),
{
    if lines.len() > 0 {
        lemma_mixed_line_bound(lines.drop_last());
    }
}

/// Where a document ends: its last line (from zero) and that line's length
/// in UTF-16 units; what a whole-document edit replaces up to.
pub fn document_end_position(text: &str) -> (r: (usize, usize))
    requires
        text@.len() <= usize::MAX / 2,
    ensures
        (r.0 as nat, r.1 as nat) == document_end(text@),
{
    document_end_exec(&str_chars(text))
}

} // verus!
