//! Command-line decisions: what the arguments ask for, where the taskfile
//! is, and the shell completion scripts.
use vstd::prelude::*;

use crate::error::CjError;
use crate::names::{task_name_error, validate_task_name};
use crate::task_file::{FileModel, TaskFile};
use crate::task_header::{wrap, wrap_msg};
use crate::text::{append, append_str, chars_eq_str, str_chars, string_from};

verus! {

/// A shell that completions are written for.
#[derive(Clone, Copy, Debug, PartialEq, Eq, Structural)]
pub enum CompletionShell {
    Bash,
    Zsh,
    Fish,
}

/// Completions for bash.
pub const BASH_COMPLETIONS: &'static str = r#"_cj_tasks() {
  cj 2>/dev/null | awk '
    /^  [A-Za-z0-9_-]+(:[A-Za-z0-9_-]+)?/ { print $1 }
  '
}

_cj_help_sections() {
  cj 2>/dev/null | awk '
    $0 == "Help available:" { help = 1; next }
    help && /^  / { print $1 }
  '
}

_cj() {
  local cur prev
  COMPREPLY=()
  cur="${COMP_WORDS[COMP_CWORD]}"
  prev="${COMP_WORDS[COMP_CWORD-1]}"

  if [[ "$prev" == "--completions" || "$prev" == "--install-completions" ]]; then
    COMPREPLY=( $(compgen -W "bash zsh fish" -- "$cur") )
    return 0
  fi

  if [[ "${COMP_WORDS[1]}" == "help" && "$COMP_CWORD" -eq 2 ]]; then
    COMPREPLY=( $(compgen -W "$(_cj_help_sections)" -- "$cur") )
    return 0
  fi

  if [[ "$COMP_CWORD" -eq 1 ]]; then
    COMPREPLY=( $(compgen -W "--help --default -d --format --completions --install-completions help $(_cj_tasks)" -- "$cur") )
    return 0
  fi

  if [[ "$prev" == "--format" || "$prev" == "--default" || "$prev" == "-d" ]]; then
    compopt -o default 2>/dev/null
    return 0
  fi

  COMPREPLY=( $(compgen -W "$(_cj_tasks)" -- "$cur") )
}

complete -F _cj cj
complete -F _cj cjtaskrunner
"#;

/// Completions for zsh.
pub const ZSH_COMPLETIONS: &'static str = r#"#compdef cj cjtaskrunner

_cj_tasks() {
  cj 2>/dev/null | awk '/^  [A-Za-z0-9_-]+(:[A-Za-z0-9_-]+)?/ { print $1 }'
}

_cj_help_sections() {
  cj 2>/dev/null | awk '$0 == "Help available:" { help = 1; next } help && /^  / { print $1 }'
}

_cj() {
  local -a commands shells tasks help_sections
  commands=(--help --default -d --format --completions --install-completions help)
  shells=(bash zsh fish)
  tasks=(${(f)"$(_cj_tasks)"})
  help_sections=(${(f)"$(_cj_help_sections)"})

  if (( CURRENT > 2 )) && [[ ${words[CURRENT-1]} == "--completions" || ${words[CURRENT-1]} == "--install-completions" ]]; then
    _describe 'shell' shells
    return
  fi

  if [[ ${words[2]} == "help" && $CURRENT -eq 3 ]]; then
    _describe 'help section' help_sections
    return
  fi

  if (( CURRENT == 2 )); then
    _describe 'command' commands
    _describe 'task' tasks
    return
  fi

  if [[ ${words[CURRENT-1]} == "--format" || ${words[CURRENT-1]} == "--default" || ${words[CURRENT-1]} == "-d" ]]; then
    _files
    return
  fi

  _describe 'task' tasks
}

_cj "$@"
"#;

/// Completions for fish.
pub const FISH_COMPLETIONS: &'static str = r#"function __cj_tasks
    cj 2>/dev/null | awk '/^  [A-Za-z0-9_-]+(:[A-Za-z0-9_-]+)?/ { print $1 }'
end

function __cj_help_sections
    cj 2>/dev/null | awk '$0 == "Help available:" { help = 1; next } help && /^  / { print $1 }'
end

complete -c cj -f -n '__fish_use_subcommand' -a '(__cj_tasks)' -d 'Task'
complete -c cjtaskrunner -f -n '__fish_use_subcommand' -a '(__cj_tasks)' -d 'Task'

complete -c cj -f -n '__fish_use_subcommand' -a 'help' -d 'Show taskfile help'
complete -c cjtaskrunner -f -n '__fish_use_subcommand' -a 'help' -d 'Show taskfile help'
complete -c cj -f -n '__fish_seen_subcommand_from help' -a '(__cj_help_sections)' -d 'Help section'
complete -c cjtaskrunner -f -n '__fish_seen_subcommand_from help' -a '(__cj_help_sections)' -d 'Help section'

complete -c cj -l help -d 'Show CLI help'
complete -c cjtaskrunner -l help -d 'Show CLI help'
complete -c cj -l default -s d -r -d 'Run default task'
complete -c cjtaskrunner -l default -s d -r -d 'Run default task'
complete -c cj -l format -r -d 'Format taskfile'
complete -c cjtaskrunner -l format -r -d 'Format taskfile'
complete -c cj -l completions -f -a 'bash zsh fish' -d 'Print shell completions'
complete -c cjtaskrunner -l completions -f -a 'bash zsh fish' -d 'Print shell completions'
complete -c cj -l install-completions -f -a 'bash zsh fish' -d 'Install shell completions'
complete -c cjtaskrunner -l install-completions -f -a 'bash zsh fish' -d 'Install shell completions'
"#;

/// The completion script of a shell.
pub fn completion_script(shell: CompletionShell) -> (r: &'static str)
    ensures
        r@ == (match shell {
            CompletionShell::Bash => BASH_COMPLETIONS@,
            CompletionShell::Zsh => ZSH_COMPLETIONS@,
            CompletionShell::Fish => FISH_COMPLETIONS@,
        }),
{
    match shell {
        CompletionShell::Bash => BASH_COMPLETIONS,
        CompletionShell::Zsh => ZSH_COMPLETIONS,
        CompletionShell::Fish => FISH_COMPLETIONS,
    }
}

pub open spec fn shell_spec(args: Seq<Seq<char>>, command: Seq<char>) -> Result<CompletionShell, Seq<char>> {
    if args.len() != 1 {
        Err("usage: cj "@ + command + " <bash|zsh|fish>"@)
    } else if args[0] == "bash"@ {
        Ok(CompletionShell::Bash)
    } else if args[0] == "zsh"@ {
        Ok(CompletionShell::Zsh)
    } else if args[0] == "fish"@ {
        Ok(CompletionShell::Fish)
    } else {
        Err(wrap("unsupported shell '"@, args[0], "'; expected bash, zsh, or fish"@))
    }
}

pub open spec fn words(v: Seq<Vec<char>>) -> Seq<Seq<char>> {
    v.map_values(|x: Vec<char>| x@)
}

/// The shell named by the arguments of `--completions` or `--install-completions`.
pub fn parse_shell_arg(args: &Vec<Vec<char>>, command: &str) -> (r: Result<CompletionShell, CjError>)
    ensures
        match r {
            Ok(s) => shell_spec(words(args@), command@) == Ok::<CompletionShell, Seq<char>>(s),
            Err(e) => shell_spec(words(args@), command@) == Err::<CompletionShell, Seq<char>>(e@),
        },
{
    if args.len() != 1 {
        let mut m = str_chars("usage: cj ");
        append_str(&mut m, command);
        append_str(&mut m, " <bash|zsh|fish>");
        return Err(CjError::new(&m));
    }
    assert(words(args@)[0] == args@[0]@);
    if chars_eq_str(&args[0], "bash") {
        Ok(CompletionShell::Bash)
    } else if chars_eq_str(&args[0], "zsh") {
        Ok(CompletionShell::Zsh)
    } else if chars_eq_str(&args[0], "fish") {
        Ok(CompletionShell::Fish)
    } else {
        let m = wrap_msg("unsupported shell '", &args[0], "'; expected bash, zsh, or fish");
        Err(CjError::new(&m))
    }
}

/// Where a taskfile is looked for: the current directory, or a path given
/// on the command line.
pub enum Location {
    Cwd,
    Path(Vec<char>),
}

pub enum LocationModel {
    Cwd,
    Path(Seq<char>),
}

impl View for Location {
    type V = LocationModel;

    open spec fn view(&self) -> LocationModel {
        match self {
            Location::Cwd => LocationModel::Cwd,
            Location::Path(p) => LocationModel::Path(p@),
        }
    }
}

/// What the command line asks for.
pub enum Command {
    /// Print the usage text.
    Usage,
    /// Print the completion script of a shell.
    Completions(CompletionShell),
    /// Install the completion script of a shell.
    InstallCompletions(CompletionShell),
    /// Format the taskfile found at a location.
    Format(Location),
    /// Print the help of the taskfile in the current directory, or one of its sections.
    Help(Option<Vec<char>>),
    /// List the tasks of the taskfile found at a location.
    List(Location),
    /// Run a task with arguments from the taskfile found at a location.
    Run(Location, Vec<char>, Vec<Vec<char>>),
    /// Create an empty taskfile in the current directory.
    Init,
    /// Import the tasks of other task systems into the taskfile.
    Auto,
    /// Run one line as a task, without a taskfile.
    RunLine(Vec<char>),
    /// Open the taskfile found at a location with the editor.
    Edit(Location),
}

pub enum CommandModel {
    Usage,
    Completions(CompletionShell),
    InstallCompletions(CompletionShell),
    Format(LocationModel),
    Help(Option<Seq<char>>),
    List(LocationModel),
    Run(LocationModel, Seq<char>, Seq<Seq<char>>),
    Init,
    Auto,
    RunLine(Seq<char>),
    Edit(LocationModel),
}

impl View for Command {
    type V = CommandModel;

    open spec fn view(&self) -> CommandModel {
        match self {
            Command::Usage => CommandModel::Usage,
            Command::Completions(s) => CommandModel::Completions(*s),
            Command::InstallCompletions(s) => CommandModel::InstallCompletions(*s),
            Command::Format(l) => CommandModel::Format(l@),
            Command::Help(s) => CommandModel::Help(
                match s {
                    Some(v) => Some(v@),
                    None => None,
                },
            ),
            Command::List(l) => CommandModel::List(l@),
            Command::Run(l, t, a) => CommandModel::Run(l@, t@, words(a@)),
            Command::Init => CommandModel::Init,
            Command::Auto => CommandModel::Auto,
            Command::RunLine(t) => CommandModel::RunLine(t@),
            Command::Edit(l) => CommandModel::Edit(l@),
        }
    }
}

pub open spec fn usage_text() -> Seq<char> {
    "usage: cj | cj --default [taskfile-or-directory] | cj <task> | cj <taskfile-or-directory> <task> | cj --format [taskfile-or-directory]"@
}

pub open spec fn checked_task(name: Seq<char>) -> Result<Seq<char>, Seq<char>> {
    match task_name_error(name) {
        Some(e) => Err(wrap("invalid task name '"@, name, "': "@ + e.spec_message())),
        None => Ok(name),
    }
}

/// What the arguments ask for. `first_is_path` says whether the first
/// argument names an existing file or directory: then, with a task after
/// it, it is where the taskfile is; otherwise the first argument is the task.
pub open spec fn command_spec(args: Seq<Seq<char>>, first_is_path: bool) -> Result<CommandModel, Seq<char>> {
    if args.len() == 0 {
        Ok(CommandModel::List(LocationModel::Cwd))
    } else if args[0] == "--help"@ || args[0] == "-h"@ {
        Ok(CommandModel::Usage)
    } else if args[0] == "--completions"@ {
        match shell_spec(args.drop_first(), "--completions"@) {
            Ok(s) => Ok(CommandModel::Completions(s)),
            Err(m) => Err(m),
        }
    } else if args[0] == "--install-completions"@ {
        match shell_spec(args.drop_first(), "--install-completions"@) {
            Ok(s) => Ok(CommandModel::InstallCompletions(s)),
            Err(m) => Err(m),
        }
    } else if args[0] == "--format"@ {
        if args.len() == 1 {
            Ok(CommandModel::Format(LocationModel::Cwd))
        } else if args.len() == 2 {
            Ok(CommandModel::Format(LocationModel::Path(args[1])))
        } else {
            Err("usage: cj --format [taskfile-or-directory]"@)
        }
    } else if args[0] == "help"@ {
        if args.len() == 1 {
            Ok(CommandModel::Help(None))
        } else if args.len() == 2 {
            Ok(CommandModel::Help(Some(args[1])))
        } else {
            Err("usage: cj help [section]"@)
        }
    } else if args[0] == "--init"@ || args[0] == "--auto"@ {
        if args.len() != 1 {
            Err(usage_text())
        } else if args[0] == "--init"@ {
            Ok(CommandModel::Init)
        } else {
            Ok(CommandModel::Auto)
        }
    } else if args[0] == "--run"@ {
        if args.len() == 2 {
            Ok(CommandModel::RunLine(args[1]))
        } else {
            Err(usage_text())
        }
    } else if args[0] == "-e"@ || args[0] == "--edit"@ {
        if args.len() == 1 {
            Ok(CommandModel::Edit(LocationModel::Cwd))
        } else if args.len() == 2 {
            Ok(CommandModel::Edit(LocationModel::Path(args[1])))
        } else {
            Err(usage_text())
        }
    } else if args[0] == "--default"@ || args[0] == "-d"@ {
        if args.len() == 1 {
            Ok(CommandModel::Run(LocationModel::Cwd, "default"@, seq![]))
        } else if args.len() == 2 {
            Ok(CommandModel::Run(LocationModel::Path(args[1]), "default"@, seq![]))
        } else {
            Err(usage_text())
        }
    } else if first_is_path && args.len() >= 2 {
        match checked_task(args[1]) {
            Err(m) => Err(m),
            Ok(t) => Ok(CommandModel::Run(LocationModel::Path(args[0]), t, args.skip(2))),
        }
    } else {
        match checked_task(args[0]) {
            Err(m) => Err(m),
            Ok(t) => Ok(CommandModel::Run(LocationModel::Cwd, t, args.drop_first())),
        }
    }
}

fn tail(args: &Vec<Vec<char>>, from: usize) -> (r: Vec<Vec<char>>)
    requires
        from <= args@.len(),
    ensures
        words(r@) == words(args@).skip(from as int),
{
    let mut r: Vec<Vec<char>> = Vec::new();
    let mut k = from;
    while k < args.len()
        invariant
            from <= k <= args@.len(),
            words(r@) == words(args@).subrange(from as int, k as int),
        decreases args@.len() - k,
    {
        let ghost before = words(r@);
        let c = args[k].clone();
        assert(c@ =~= args@[k as int]@);
        let ghost cv = c@;
        r.push(c);
        assert(words(r@) =~= before.push(cv));
        assert(words(args@)[k as int] == cv);
        assert(words(args@).subrange(from as int, k + 1) =~= words(args@).subrange(from as int, k as int).push(cv));
        k = k + 1;
    }
    assert(words(args@).subrange(from as int, args@.len() as int) =~= words(args@).skip(from as int));
    r
}

fn checked_task_exec(name: &Vec<char>) -> (r: Result<Vec<char>, CjError>)
    ensures
        match r {
            Ok(t) => checked_task(name@) == Ok::<Seq<char>, Seq<char>>(t@),
            Err(e) => checked_task(name@) == Err::<Seq<char>, Seq<char>>(e@),
        },
{
    match validate_task_name(name) {
        Err(e) => {
            let mut m = wrap_msg("invalid task name '", name, "': ");
            append_str(&mut m, e.message());
            assert(m@ =~= wrap("invalid task name '"@, name@, "': "@ + e.spec_message()));
            Err(CjError::new(&m))
        },
        Ok(()) => Ok(name.clone()),
    }
}

fn usage_error() -> (e: CjError)
    ensures
        e@ == usage_text(),
{
    CjError::from_str(
        "usage: cj | cj --default [taskfile-or-directory] | cj <task> | cj <taskfile-or-directory> <task> | cj --format [taskfile-or-directory]",
    )
}

/// Directives that open an indented block.
pub open spec fn opens_block(name: Seq<char>) -> bool {
    crate::task_header::is_block_directive(name) || name == "and"@ || name == "or"@ || name
        == "watch"@ || name == "await"@
}

/// What `cj --run LINE` refuses: a task label, or a directive that needs
/// an indented block.
pub open spec fn run_line_error(line: Seq<char>) -> Option<Seq<char>> {
    let t = crate::text::trim(line);
    if t.len() > 0 && t[0] == '@' {
        if opens_block(crate::scan::split_directive_spec(t.drop_first()).0) {
            Some("--run does not accept block directives"@)
        } else {
            None
        }
    } else if crate::text::ends_with(t, ":"@) {
        Some("--run does not accept task labels"@)
    } else {
        None
    }
}

/// The name of the task that `cj --run` makes of its line.
pub open spec fn run_line_task() -> Seq<char> {
    "run"@
}

/// The taskfile text that `cj --run LINE` runs: one task holding the line.
pub open spec fn run_line_source(line: Seq<char>) -> Seq<char> {
    run_line_task() + ":\n  "@ + crate::text::trim(line) + "\n"@
}

/// The taskfile text for `cj --run LINE`, or why the line is refused.
pub fn run_line_taskfile(line: &Vec<char>) -> (r: Result<String, CjError>)
    ensures
        match run_line_error(line@) {
            Some(m) => r matches Err(e) && e@ == m,
            None => r matches Ok(s) && s@ == run_line_source(line@),
        },
{
    let t = crate::text::chars_trim(line);
    if t.len() > 0 && t[0] == '@' {
        let rest = crate::text::subvec(&t, 1, t.len());
        assert(rest@ =~= t@.drop_first());
        let (name, _) = crate::scan::split_directive(&rest);
        if crate::task_header::is_block_directive_exec(&name) || chars_eq_str(&name, "and")
            || chars_eq_str(&name, "or") || chars_eq_str(&name, "watch") || chars_eq_str(&name, "await") {
            return Err(CjError::from_str("--run does not accept block directives"));
        }
    } else if crate::text::chars_ends_with_str(&t, ":") {
        return Err(CjError::from_str("--run does not accept task labels"));
    }
    let mut src = str_chars("run:\n  ");
    append(&mut src, &t);
    append_str(&mut src, "\n");
    proof {
        reveal_strlit("run:\n  ");
        reveal_strlit("run");
        reveal_strlit(":\n  ");
    }
    assert(src@ =~= run_line_source(line@));
    Ok(string_from(&src))
}

/// Decides what the command line asks for.
pub fn plan_command(args: &Vec<Vec<char>>, first_is_path: bool) -> (r: Result<Command, CjError>)
    ensures
        match r {
            Ok(c) => command_spec(words(args@), first_is_path) == Ok::<CommandModel, Seq<char>>(c@),
            Err(e) => command_spec(words(args@), first_is_path) == Err::<CommandModel, Seq<char>>(e@),
        },
{
    let ghost a = words(args@);
    if args.len() == 0 {
        return Ok(Command::List(Location::Cwd));
    }
    assert(a[0] == args@[0]@);
    let first = &args[0];
    if chars_eq_str(first, "--help") || chars_eq_str(first, "-h") {
        return Ok(Command::Usage);
    }
    if chars_eq_str(first, "--completions") {
        let rest = tail(args, 1);
        assert(a.skip(1) =~= a.drop_first());
        return match parse_shell_arg(&rest, "--completions") {
            Ok(s) => Ok(Command::Completions(s)),
            Err(e) => Err(e),
        };
    }
    if chars_eq_str(first, "--install-completions") {
        let rest = tail(args, 1);
        assert(a.skip(1) =~= a.drop_first());
        return match parse_shell_arg(&rest, "--install-completions") {
            Ok(s) => Ok(Command::InstallCompletions(s)),
            Err(e) => Err(e),
        };
    }
    if chars_eq_str(first, "--format") {
        if args.len() == 1 {
            return Ok(Command::Format(Location::Cwd));
        } else if args.len() == 2 {
            assert(a[1] == args@[1]@);
            return Ok(Command::Format(Location::Path(args[1].clone())));
        } else {
            return Err(CjError::from_str("usage: cj --format [taskfile-or-directory]"));
        }
    }
    if chars_eq_str(first, "help") {
        if args.len() == 1 {
            return Ok(Command::Help(None));
        } else if args.len() == 2 {
            assert(a[1] == args@[1]@);
            return Ok(Command::Help(Some(args[1].clone())));
        } else {
            return Err(CjError::from_str("usage: cj help [section]"));
        }
    }
    if chars_eq_str(first, "--init") || chars_eq_str(first, "--auto") {
        if args.len() != 1 {
            return Err(usage_error());
        }
        return if chars_eq_str(first, "--init") {
            Ok(Command::Init)
        } else {
            Ok(Command::Auto)
        };
    }
    if chars_eq_str(first, "--run") {
        if args.len() == 2 {
            assert(a[1] == args@[1]@);
            return Ok(Command::RunLine(args[1].clone()));
        }
        return Err(usage_error());
    }
    if chars_eq_str(first, "-e") || chars_eq_str(first, "--edit") {
        if args.len() == 1 {
            return Ok(Command::Edit(Location::Cwd));
        } else if args.len() == 2 {
            assert(a[1] == args@[1]@);
            return Ok(Command::Edit(Location::Path(args[1].clone())));
        }
        return Err(usage_error());
    }
    if chars_eq_str(first, "--default") || chars_eq_str(first, "-d") {
        if args.len() == 1 {
            let empty: Vec<Vec<char>> = Vec::new();
            assert(words(empty@) =~= seq![]);
            return Ok(Command::Run(Location::Cwd, str_chars("default"), empty));
        } else if args.len() == 2 {
            assert(a[1] == args@[1]@);
            let empty: Vec<Vec<char>> = Vec::new();
            assert(words(empty@) =~= seq![]);
            return Ok(Command::Run(Location::Path(args[1].clone()), str_chars("default"), empty));
        } else {
            return Err(
                CjError::from_str(
                    "usage: cj | cj --default [taskfile-or-directory] | cj <task> | cj <taskfile-or-directory> <task> | cj --format [taskfile-or-directory]",
                ),
            );
        }
    }
    if first_is_path && args.len() >= 2 {
        assert(a[1] == args@[1]@);
        let t = checked_task_exec(&args[1])?;
        let rest = tail(args, 2);
        return Ok(Command::Run(Location::Path(args[0].clone()), t, rest));
    }
    let t = checked_task_exec(&args[0])?;
    let rest = tail(args, 1);
    assert(a.skip(1) =~= a.drop_first());
    Ok(Command::Run(Location::Cwd, t, rest))
}

/// The taskfile names that are recognized, in the order discovery prefers
/// them: the base file, then the overlays from the most local.
pub open spec fn discovery_name(i: int) -> Seq<char> {
    if i == 0 {
        "cjtasks"@
    } else if i == 1 {
        "local.cjtasks"@
    } else if i == 2 {
        "development.cjtasks"@
    } else if i == 3 {
        "staging.cjtasks"@
    } else {
        "production.cjtasks"@
    }
}

pub fn discovery_names() -> (r: Vec<&'static str>)
    ensures
        r@.len() == 5,
        forall|i: int| 0 <= i < 5 ==> #[trigger] r@[i]@ == discovery_name(i),
{
    let mut r: Vec<&'static str> = Vec::new();
    r.push("cjtasks");
    r.push("local.cjtasks");
    r.push("development.cjtasks");
    r.push("staging.cjtasks");
    r.push("production.cjtasks");
    r
}

pub open spec fn recognized_name(name: Seq<char>) -> bool {
    exists|i: int| 0 <= i < 5 && discovery_name(i) == name
}

/// Whether a file name is one of the recognized taskfile names.
pub fn is_recognized_taskfile_name(name: &Vec<char>) -> (b: bool)
    ensures
        b == recognized_name(name@),
{
    let names = discovery_names();
    let mut i: usize = 0;
    while i < 5
        invariant
            i <= 5,
            names@.len() == 5,
            forall|j: int| 0 <= j < 5 ==> #[trigger] names@[j]@ == discovery_name(j),
            forall|j: int| 0 <= j < i ==> discovery_name(j) != name@,
        decreases 5 - i,
    {
        if chars_eq_str(name, names[i]) {
            assert(discovery_name(i as int) == name@);
            return true;
        }
        i = i + 1;
    }
    false
}

/// The first recognized taskfile present, given for each name of the
/// discovery order whether it is a file.
pub open spec fn pick_spec(present: Seq<bool>) -> Option<int> {
    if exists|i: int| 0 <= i < present.len() && present[i] {
        Some(choose|i: int| 0 <= i < present.len() && present[i] && forall|j: int| 0 <= j < i ==> !present[j])
    } else {
        None
    }
}

/// The position of the first `true`.
pub fn pick_taskfile(present: &Vec<bool>) -> (r: Option<usize>)
    ensures
        match r {
            Some(i) => i < present@.len() && present@[i as int] && forall|j: int| 0 <= j < i ==> !present@[j],
            None => forall|j: int| 0 <= j < present@.len() ==> !present@[j],
        },
{
    let mut i: usize = 0;
    while i < present.len()
        invariant
            i <= present@.len(),
            forall|j: int| 0 <= j < i ==> !present@[j],
        decreases present@.len() - i,
    {
        if present[i] {
            return Some(i);
        }
        i = i + 1;
    }
    None
}

/// `no recognized taskfile found in DIR`.
pub fn no_taskfile_error(dir: &Vec<char>) -> (e: CjError)
    ensures
        e@ == "no recognized taskfile found in "@ + dir@,
{
    let mut m = str_chars("no recognized taskfile found in ");
    append(&mut m, dir);
    CjError::new(&m)
}

/// What a path given on the command line is.
#[derive(Clone, Copy, Debug, PartialEq, Eq, Structural)]
pub enum PathKind {
    Dir,
    File,
    Other,
    Missing,
}

/// Whether a taskfile is to be looked for in the directory (`true`) or the
/// path is the taskfile (`false`); `shown` is how the path is displayed and
/// `name` its file name.
pub open spec fn target_spec(kind: PathKind, shown: Seq<char>, name: Seq<char>) -> Result<bool, Seq<char>> {
    match kind {
        PathKind::Dir => Ok(true),
        PathKind::File => if recognized_name(name) {
            Ok(false)
        } else {
            Err("taskfile must be named 'cjtasks' or use the '.cjtasks' extension: "@ + shown)
        },
        PathKind::Other => Err("path is neither a recognized taskfile nor a directory: "@ + shown),
        PathKind::Missing => Err("path does not exist: "@ + shown),
    }
}

pub fn resolve_target(kind: PathKind, shown: &Vec<char>, name: &Vec<char>) -> (r: Result<bool, CjError>)
    ensures
        match r {
            Ok(b) => target_spec(kind, shown@, name@) == Ok::<bool, Seq<char>>(b),
            Err(e) => target_spec(kind, shown@, name@) == Err::<bool, Seq<char>>(e@),
        },
{
    match kind {
        PathKind::Dir => Ok(true),
        PathKind::File => if is_recognized_taskfile_name(name) {
            Ok(false)
        } else {
            let mut m = str_chars("taskfile must be named 'cjtasks' or use the '.cjtasks' extension: ");
            append(&mut m, shown);
            Err(CjError::new(&m))
        },
        PathKind::Other => {
            let mut m = str_chars("path is neither a recognized taskfile nor a directory: ");
            append(&mut m, shown);
            Err(CjError::new(&m))
        },
        PathKind::Missing => {
            let mut m = str_chars("path does not exist: ");
            append(&mut m, shown);
            Err(CjError::new(&m))
        },
    }
}

/// `task name conflicts with directory: NAME`.
pub fn directory_conflict_error(name: &Vec<char>) -> (e: CjError)
    ensures
        e@ == "task name conflicts with directory: "@ + name@,
{
    let mut m = str_chars("task name conflicts with directory: ");
    append(&mut m, name);
    CjError::new(&m)
}

/// The help sections of a taskfile: `help` where there is top-level help,
/// then every task with help, in order.
pub open spec fn sections_fold(file: FileModel, n: int) -> Seq<Seq<char>>
    decreases n,
{
    if n <= 0 {
        if file.help is Some {
            seq!["help"@]
        } else {
            seq![]
        }
    } else if file.tasks[n - 1].help is Some {
        sections_fold(file, n - 1).push(file.tasks[n - 1].name)
    } else {
        sections_fold(file, n - 1)
    }
}

pub fn help_sections(file: &TaskFile) -> (r: Vec<String>)
    ensures
        r@.map_values(|s: String| s@) == sections_fold(file@, file@.tasks.len() as int),
{
    let mut r: Vec<String> = Vec::new();
    if file.top_help().is_some() {
        r.push(crate::text::string_of_str("help"));
    }
    assert(r@.map_values(|s: String| s@) =~= sections_fold(file@, 0));
    let n = file.task_count();
    let mut t: usize = 0;
    while t < n
        invariant
            n == file@.tasks.len(),
            t <= n,
            r@.map_values(|s: String| s@) == sections_fold(file@, t as int),
        decreases n - t,
    {
        if file.help_of(t).is_some() {
            let ghost before = r@.map_values(|s: String| s@);
            let name = string_from(&file.task_name(t));
            let ghost nv = name@;
            r.push(name);
            assert(r@.map_values(|s: String| s@) =~= before.push(nv));
        }
        t = t + 1;
    }
    r
}

/// The program and arguments that open a URL on a platform.
pub enum Platform {
    MacOs,
    Windows,
    OtherUnix,
}

pub struct OpenCommand {
    pub program: String,
    pub args: Vec<String>,
}

pub open spec fn open_program(p: Platform) -> Seq<char> {
    match p {
        Platform::MacOs => "open"@,
        Platform::Windows => "cmd"@,
        Platform::OtherUnix => "xdg-open"@,
    }
}

pub open spec fn open_args(p: Platform, url: Seq<char>) -> Seq<Seq<char>> {
    match p {
        Platform::Windows => seq!["/C"@, "start"@, ""@, url],
        _ => seq![url],
    }
}

/// `open URL` on macOS, `cmd /C start "" URL` on Windows, `xdg-open URL` elsewhere.
pub fn open_command_for(url: &str, platform: Platform) -> (r: OpenCommand)
    ensures
        r.program@ == open_program(platform),
        r.args@.map_values(|s: String| s@) == open_args(platform, url@),
{
    let u = crate::text::string_of_str(url);
    match platform {
        Platform::MacOs => {
            let mut args: Vec<String> = Vec::new();
            args.push(u);
            assert(args@.map_values(|s: String| s@) =~= seq![url@]);
            OpenCommand { program: crate::text::string_of_str("open"), args }
        },
        Platform::Windows => {
            let mut args: Vec<String> = Vec::new();
            args.push(crate::text::string_of_str("/C"));
            args.push(crate::text::string_of_str("start"));
            args.push(crate::text::string_of_str(""));
            args.push(u);
            assert(args@.map_values(|s: String| s@) =~= seq!["/C"@, "start"@, ""@, url@]);
            OpenCommand { program: crate::text::string_of_str("cmd"), args }
        },
        Platform::OtherUnix => {
            let mut args: Vec<String> = Vec::new();
            args.push(u);
            assert(args@.map_values(|s: String| s@) =~= seq![url@]);
            OpenCommand { program: crate::text::string_of_str("xdg-open"), args }
        },
    }
}

/// A child gets its own process group unless both standard input and
/// standard output are terminals, where it must stay in the foreground group.
pub fn should_isolate_child_process_group(stdin_is_terminal: bool, stdout_is_terminal: bool) -> (b: bool)
    ensures
        b == !(stdin_is_terminal && stdout_is_terminal),
{
    !(stdin_is_terminal && stdout_is_terminal)
}

/// A directory setting that counts: set and not empty.
pub open spec fn set_dir(v: Option<Seq<char>>) -> Option<Seq<char>> {
    match v {
        Some(d) => if d.len() > 0 {
            Some(d)
        } else {
            None
        },
        None => None,
    }
}

pub open spec fn opt_text(v: Option<Vec<char>>) -> Option<Seq<char>> {
    match v {
        Some(d) => Some(d@),
        None => None,
    }
}

/// Where `--install-completions` writes a shell's script: under
/// `$XDG_DATA_HOME` (else `$HOME/.local/share`) for bash and zsh, under
/// `$XDG_CONFIG_HOME` (else `$HOME/.config`) for fish.
pub open spec fn completion_path_spec(
    shell: CompletionShell,
    data_home: Option<Seq<char>>,
    config_home: Option<Seq<char>>,
    home: Option<Seq<char>>,
) -> Result<Seq<char>, Seq<char>> {
    let (xdg, fallback, tail) = match shell {
        CompletionShell::Bash => (data_home, "/.local/share"@, "/bash-completion/completions/cj"@),
        CompletionShell::Zsh => (data_home, "/.local/share"@, "/zsh/site-functions/_cj"@),
        CompletionShell::Fish => (config_home, "/.config"@, "/fish/completions/cj.fish"@),
    };
    match set_dir(xdg) {
        Some(d) => Ok(d + tail),
        None => match set_dir(home) {
            Some(h) => Ok(h + fallback + tail),
            None => Err("HOME is not set"@),
        },
    }
}

fn set_dir_exec(v: &Option<Vec<char>>) -> (r: Option<Vec<char>>)
    ensures
        opt_text(r) == set_dir(opt_text(*v)),
{
    match v {
        Some(d) => if d.len() > 0 {
            Some(d.clone())
        } else {
            None
        },
        None => None,
    }
}

/// The file that `--install-completions` writes for a shell, from the
/// values of `XDG_DATA_HOME`, `XDG_CONFIG_HOME` and `HOME`.
pub fn completion_install_path(
    shell: CompletionShell,
    data_home: &Option<Vec<char>>,
    config_home: &Option<Vec<char>>,
    home: &Option<Vec<char>>,
) -> (r: Result<Vec<char>, CjError>)
    ensures
        match r {
            Ok(p) => completion_path_spec(shell, opt_text(*data_home), opt_text(*config_home), opt_text(*home))
                == Ok::<Seq<char>, Seq<char>>(p@),
            Err(e) => completion_path_spec(shell, opt_text(*data_home), opt_text(*config_home), opt_text(*home))
                == Err::<Seq<char>, Seq<char>>(e@),
        },
{
    let (xdg, fallback, tail) = match shell {
        CompletionShell::Bash => (set_dir_exec(data_home), "/.local/share", "/bash-completion/completions/cj"),
        CompletionShell::Zsh => (set_dir_exec(data_home), "/.local/share", "/zsh/site-functions/_cj"),
        CompletionShell::Fish => (set_dir_exec(config_home), "/.config", "/fish/completions/cj.fish"),
    };
    match xdg {
        Some(d) => {
            let mut p = d;
            append_str(&mut p, tail);
            Ok(p)
        },
        None => match set_dir_exec(home) {
            Some(h) => {
                let mut p = h;
                append_str(&mut p, fallback);
                append_str(&mut p, tail);
                Ok(p)
            },
            None => Err(CjError::from_str("HOME is not set")),
        },
    }
}

/// The command that `--edit` runs: the words of `$EDITOR`, then the
/// taskfile's path; refused where the editor is unset or blank.
pub open spec fn editor_command_spec(editor: Option<Seq<char>>, path: Seq<char>) -> Result<Seq<Seq<char>>, Seq<char>> {
    match editor {
        None => Err("EDITOR is not set"@),
        Some(e) => match crate::command_text::split_words_spec(e) {
            Err(m) => Err(m),
            Ok(w) => if w.len() == 0 {
                Err("EDITOR is not set"@)
            } else {
                Ok(w.push(path))
            },
        },
    }
}

/// The program and arguments that open the taskfile at `path` in the editor.
pub fn editor_command(editor: &Option<Vec<char>>, path: &Vec<char>) -> (r: Result<Vec<Vec<char>>, CjError>)
    ensures
        match r {
            Ok(argv) => editor_command_spec(opt_text(*editor), path@) == Ok::<Seq<Seq<char>>, Seq<char>>(
                words(argv@),
            ),
            Err(e) => editor_command_spec(opt_text(*editor), path@) == Err::<Seq<Seq<char>>, Seq<char>>(e@),
        },
{
    match editor {
        None => Err(CjError::from_str("EDITOR is not set")),
        Some(e) => match crate::command_text::split_words(e) {
            Err(m) => Err(CjError::new(&m)),
            Ok(w) => if w.len() == 0 {
                Err(CjError::from_str("EDITOR is not set"))
            } else {
                let ghost before = words(w@);
                let mut w = w;
                let p = path.clone();
                w.push(p);
                assert(words(w@) =~= before.push(path@));
                Ok(w)
            },
        },
    }
}

} // verus!
