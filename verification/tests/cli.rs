use cjtaskrunner::cli::{
    completion_install_path, completion_script, editor_command, directory_conflict_error, discovery_names, no_taskfile_error, pick_taskfile,
    plan_command, resolve_target, run_line_taskfile, Command, CompletionShell, Location, PathKind,
};
use cjtaskrunner::formatter::format_taskfile_source;
use cjtaskrunner::help_output::{format_task_help, format_task_listing, format_top_help};
use cjtaskrunner::task_file::{parse_task_file, TaskFile};

fn chars(s: &str) -> Vec<char> {
    s.chars().collect()
}

fn text(v: &[char]) -> String {
    v.iter().collect()
}

fn args(v: &[&str]) -> Vec<Vec<char>> {
    v.iter().map(|a| chars(a)).collect()
}

fn run_parts(c: Command) -> (Option<String>, String, Vec<String>) {
    match c {
        Command::Run(location, task, arguments) => {
            let at = match location {
                Location::Cwd => None,
                Location::Path(p) => Some(text(&p)),
            };
            (at, text(&task), arguments.iter().map(|a| text(a)).collect())
        }
        _ => panic!("expected a run"),
    }
}

fn parse(source: &str) -> TaskFile {
    parse_task_file(source, "cjtasks").expect("parse")
}

#[test]
fn invocation_resolves_single_arg_from_current_directory() {
    let resolved = plan_command(&args(&["run"]), false).expect("resolve");
    assert_eq!(run_parts(resolved), (None, "run".to_string(), Vec::new()));
    let listed = plan_command(&args(&[]), false).expect("resolve list");
    assert!(matches!(listed, Command::List(Location::Cwd)));
}

#[test]
fn invocation_resolves_two_arg_directory_and_direct_file() {
    let from_dir = plan_command(&args(&["/tmp/two-arg", "run"]), true).expect("resolve dir");
    assert_eq!(run_parts(from_dir), (Some("/tmp/two-arg".to_string()), "run".to_string(), Vec::new()));
    assert_eq!(resolve_target(PathKind::Dir, &chars("/tmp/two-arg"), &chars("two-arg")).expect("dir"), true);

    let from_file = plan_command(&args(&["/tmp/two-arg/cjtasks", "run"]), true).expect("resolve file");
    assert_eq!(
        run_parts(from_file),
        (Some("/tmp/two-arg/cjtasks".to_string()), "run".to_string(), Vec::new())
    );
    assert_eq!(
        resolve_target(PathKind::File, &chars("/tmp/two-arg/cjtasks"), &chars("cjtasks")).expect("file"),
        false
    );
}

#[test]
fn resolves_task_arguments_with_and_without_explicit_location() {
    let local = plan_command(&args(&["deploy", "production", "v1.2.3"]), false).expect("resolve local task arguments");
    assert_eq!(
        run_parts(local),
        (None, "deploy".to_string(), vec!["production".to_string(), "v1.2.3".to_string()])
    );
    let explicit = plan_command(&args(&["/tmp/dir", "deploy", "staging", "v2.0.0"]), true)
        .expect("resolve explicit task arguments");
    assert_eq!(
        run_parts(explicit),
        (Some("/tmp/dir".to_string()), "deploy".to_string(), vec!["staging".to_string(), "v2.0.0".to_string()])
    );
}

#[test]
fn invocation_rejects_unrecognized_taskfile_name() {
    assert!(resolve_target(PathKind::File, &chars("/tmp/x/unknown.cjtasks"), &chars("unknown.cjtasks")).is_err());
    let err = resolve_target(PathKind::File, &chars("/tmp/x/other-tasks"), &chars("other-tasks"))
        .expect_err("unrecognized taskfile name should fail");
    assert_eq!(
        err.to_string(),
        "taskfile must be named 'cjtasks' or use the '.cjtasks' extension: /tmp/x/other-tasks"
    );
}

#[test]
fn missing_and_odd_paths_are_reported() {
    let err = resolve_target(PathKind::Missing, &chars("/nowhere"), &chars("nowhere")).expect_err("missing");
    assert_eq!(err.to_string(), "path does not exist: /nowhere");
    let err = resolve_target(PathKind::Other, &chars("/dev/null"), &chars("null")).expect_err("other");
    assert_eq!(err.to_string(), "path is neither a recognized taskfile nor a directory: /dev/null");
}

#[test]
fn execution_discovers_default_cjtasks() {
    let names = discovery_names();
    assert_eq!(names[pick_taskfile(&vec![true, true, false, false, false]).expect("discover")], "cjtasks");
}

#[test]
fn discovers_highest_precedence_overlay_when_cjtasks_is_absent() {
    let names = discovery_names();
    assert_eq!(
        names,
        vec!["cjtasks", "local.cjtasks", "development.cjtasks", "staging.cjtasks", "production.cjtasks"]
    );
    let discovered = pick_taskfile(&vec![false, true, true, false, true]).expect("discover overlay");
    assert_eq!(names[discovered], "local.cjtasks");
    assert_eq!(names[pick_taskfile(&vec![false, false, true, false, true]).expect("development")], "development.cjtasks");
    assert_eq!(pick_taskfile(&vec![false, false, false, false, false]), None);
    let err = no_taskfile_error(&chars("/tmp/overlay-discover"));
    assert!(err.to_string().contains("no recognized taskfile found"));
}

#[test]
fn completions_command_prints_supported_shells() {
    assert!(matches!(
        plan_command(&args(&["--completions", "fish"]), false),
        Ok(Command::Completions(CompletionShell::Fish))
    ));
    assert!(completion_script(CompletionShell::Fish).contains("complete -c cj"));
    let err = plan_command(&args(&["--completions", "powershell"]), false).err().expect("unsupported shell");
    assert!(err.to_string().contains("unsupported shell"));
}

#[test]
fn default_flag_runs_default_task() {
    let planned = plan_command(&args(&["--default"]), false).expect("default");
    assert_eq!(run_parts(planned), (None, "default".to_string(), Vec::new()));
    let planned = plan_command(&args(&["-d", "sub"]), false).expect("default in sub");
    assert_eq!(run_parts(planned), (Some("sub".to_string()), "default".to_string(), Vec::new()));
}

#[test]
fn invalid_task_names_are_refused_before_running() {
    let err = plan_command(&args(&["bad name"]), false).err().expect("invalid");
    assert!(err.to_string().starts_with("invalid task name 'bad name': "));
}

#[test]
fn too_many_arguments_to_a_flag_show_the_usage() {
    let err = plan_command(&args(&["--format", "a", "b"]), false).err().expect("usage");
    assert_eq!(err.to_string(), "usage: cj --format [taskfile-or-directory]");
    let err = plan_command(&args(&["help", "a", "b"]), false).err().expect("usage");
    assert_eq!(err.to_string(), "usage: cj help [section]");
}

#[test]
fn task_names_cannot_conflict_with_directories() {
    let err = directory_conflict_error(&chars("build"));
    assert!(err.to_string().contains("task name conflicts with directory"));
    assert_eq!(err.to_string(), "task name conflicts with directory: build");
}

#[test]
fn run_flag_executes_one_line_task_without_taskfile() {
    let source = run_line_taskfile(&chars("@shell printf run-line > out.txt")).expect("run line");
    assert_eq!(source, "run:\n  @shell printf run-line > out.txt\n");
    let file = parse_task_file(&source, "--run").expect("parse");
    assert_eq!(file.task_order(), vec!["run".to_string()]);
}

#[test]
fn run_flag_rejects_labels_and_block_only_directives() {
    let label = run_line_taskfile(&chars("build:")).expect_err("label");
    assert!(label.to_string().contains("--run does not accept task labels"));
    let nested = run_line_taskfile(&chars("@if true")).expect_err("block");
    assert!(nested.to_string().contains("--run does not accept block directives"));
}

#[test]
fn other_flags_are_planned() {
    assert!(matches!(plan_command(&args(&["--init"]), false), Ok(Command::Init)));
    assert!(matches!(plan_command(&args(&["--auto"]), false), Ok(Command::Auto)));
    assert!(matches!(plan_command(&args(&["-e"]), false), Ok(Command::Edit(Location::Cwd))));
    assert!(matches!(plan_command(&args(&["--help"]), false), Ok(Command::Usage)));
    assert!(matches!(plan_command(&args(&["--format"]), false), Ok(Command::Format(Location::Cwd))));
    match plan_command(&args(&["--run", "true"]), false) {
        Ok(Command::RunLine(line)) => assert_eq!(text(&line), "true"),
        _ => panic!("expected --run"),
    }
}

#[test]
fn format_flag_formats_discovered_taskfile() {
    assert_eq!(format_taskfile_source("run:\t\n\ttrue\t\n"), "run:\n  true\n");
}

const HELP_TASKFILE: &str = r#"@help:
  Project help.

build:
  @desc build tasks
  @help:
    Build task group.
  dev:
    @desc build development assets
    @help:
      Build development assets.

      Produces a local debug bundle.
    true
  docs:
    @desc build documentation
    true

deploy:
  prod:
    @desc deploy production assets
    @help:
      Deploy production assets.
    true

cli:
  @desc cli command group
  @help:
    CLI help body.
  @selfhelp
  @shell printf should-not-run > selfhelp-ran.txt
  build:
    @desc build cli
    true
"#;

#[test]
fn help_command_prints_nested_child_name_desc_and_help_body() {
    let file = parse(HELP_TASKFILE);
    let help = format_task_help(&file, "build:dev", "cjtasks", false).expect("help");
    assert!(help.starts_with(
        "build:dev\n  build development assets\n\nBuild development assets.\n\nProduces a local debug bundle."
    ));
    assert!(!help.contains("\nHelp available:\n"));
}

#[test]
fn help_command_prints_parent_name_desc_body_and_nested_descs() {
    let file = parse(HELP_TASKFILE);
    let help = format_task_help(&file, "build", "cjtasks", false).expect("help");
    assert!(help.starts_with("build\n  build tasks\n\nBuild task group.\n"));
    assert!(help.contains("\nTasks:\n"));
    assert!(help.contains("    build:dev"));
    assert!(help.contains("build development assets"));
    assert!(help.contains("    build:docs"));
    assert!(help.contains("build documentation"));
    assert!(help.contains("+ commands with a + have help"));
    assert!(help.contains("run `cj help <task>` to view it"));
}

#[test]
fn help_command_prints_top_help_before_task_listing_and_sections() {
    let file = parse(HELP_TASKFILE);
    let stdout = format_top_help(&file, "cjtasks", false);
    let help_index = stdout.find("Project help.").expect("top help");
    let tasks_index = stdout.find("Tasks in ").expect("task listing");
    assert!(help_index < tasks_index);
    assert!(stdout.contains("build:dev"));
    assert!(stdout.contains("build development assets"));
    assert!(stdout.contains("deploy:prod"));
    assert!(stdout.contains("deploy production assets"));
    assert!(stdout.contains("+ commands with a + have help"));
    assert!(stdout.contains("run `cj help <task>` to view it"));
    assert!(!stdout.contains("Help available:"));
}

#[test]
fn help_command_prints_top_level_and_task_help() {
    let file = parse("@help:\n  Root help.\nbuild:dev:\n  @help:\n    Build dev help.\n  true\n");
    assert!(format_top_help(&file, "cjtasks", false).starts_with("Root help."));
    assert!(format_task_help(&file, "build:dev", "cjtasks", false).expect("task help").contains("Build dev help."));
    let err = format_task_help(&file, "missing", "cjtasks", false).expect_err("no section");
    assert_eq!(err.to_string(), "no help section 'missing' found in cjtasks");
}

#[test]
fn no_args_lists_discovered_tasks() {
    let file = parse("@help:\n  Root help.\nbuild:\n  @desc compile project\n  @help:\n    Build help.\n  true\n");
    let listing = format_task_listing(&file, "cjtasks", false);
    assert!(listing.starts_with("Tasks in cjtasks:"));
    assert!(listing.contains("build"));
    assert!(listing.contains("compile project"));
}

#[test]
fn task_arguments_appear_in_summary_and_task_help() {
    let file = parse("deploy (TARGET, TAG):\n  @desc deploy a release\n  @help:\n    Deploy help.\n  true\n");
    let summary = format_task_listing(&file, "cjtasks", false);
    assert!(summary.contains("+  deploy ($TARGET, $TAG)"));
    assert!(summary.contains("deploy a release"));
    let help = format_task_help(&file, "deploy", "cjtasks", false).expect("help");
    assert!(help.starts_with("deploy ($TARGET, $TAG)\n"));
}

#[test]
fn help_marker_precedes_nested_task_indentation() {
    let file = parse("plain:\n  true\nbuild:\n  child:\n    @help:\n      Child help.\n    true\n");
    let summary = format_task_listing(&file, "cjtasks", false);
    assert!(summary.contains("\n   plain\n"));
    assert!(summary.contains("\n   build\n"));
    assert!(summary.contains("\n+    build:child\n"));
}

#[test]
fn task_listing_aligns_descriptions_after_widest_visible_task() {
    let file = parse("a:\n  @desc short task\n  true\n\nlonger-task (TARGET):\n  @desc longer task\n  @help:\n    More help.\n  true\n");
    let summary = format_task_listing(&file, "cjtasks", false);
    let short = summary.lines().find(|line| line.contains("short task")).expect("short description row");
    let long = summary.lines().find(|line| line.contains("longer task")).expect("long description row");
    assert_eq!(short.find("short task"), long.find("longer task"));
    assert!(long.contains("longer-task ($TARGET)  longer task"));
}

#[test]
fn task_listing_uses_taskfile_path_relative_to_invocation_directory() {
    let file = parse("build:\n  true\n");
    assert!(format_task_listing(&file, "local.cjtasks", false).starts_with("Tasks in local.cjtasks:"));
}

#[test]
fn no_args_summary_hides_underscore_tasks() {
    let file = parse("build:\n  @desc visible build\n  true\n\n_internal:\n  @desc hidden helper\n  @help:\n    Internal helper help.\n  true\n");
    let summary = format_task_listing(&file, "cjtasks", false);
    assert!(summary.contains("visible build"));
    assert!(!summary.contains("_internal"));
    assert!(!summary.contains("hidden helper"));
}

#[test]
fn colored_listing_paints_the_heading() {
    let file = parse("build:\n  true\n");
    assert!(format_task_listing(&file, "cjtasks", true).starts_with("\u{1b}[1;33mTasks in cjtasks:\u{1b}[0m"));
}

#[test]
fn install_completions_observes_xdg_shell_locations() {
    let given = |s: &str| Some(chars(s));
    let path = |shell| text(&completion_install_path(shell, &given("/data"), &given("/config"), &given("/home/u")).expect("path"));
    assert_eq!(path(CompletionShell::Bash), "/data/bash-completion/completions/cj");
    assert_eq!(path(CompletionShell::Zsh), "/data/zsh/site-functions/_cj");
    assert_eq!(path(CompletionShell::Fish), "/config/fish/completions/cj.fish");
}

#[test]
fn install_completions_falls_back_to_home_xdg_defaults() {
    let home = Some(chars("/home/u"));
    let path = |shell| text(&completion_install_path(shell, &Some(chars("")), &None, &home).expect("path"));
    assert_eq!(path(CompletionShell::Bash), "/home/u/.local/share/bash-completion/completions/cj");
    assert_eq!(path(CompletionShell::Fish), "/home/u/.config/fish/completions/cj.fish");
    let err = completion_install_path(CompletionShell::Zsh, &None, &None, &None).expect_err("no home");
    assert_eq!(err.to_string(), "HOME is not set");
}

#[test]
fn edit_flag_opens_detected_taskfile_with_editor() {
    let argv = editor_command(&Some(chars("printf %s")), &chars("/p/cjtasks")).expect("editor");
    assert_eq!(argv, vec![chars("printf"), chars("%s"), chars("/p/cjtasks")]);
}

#[test]
fn edit_flag_requires_editor() {
    let err = editor_command(&None, &chars("/p/cjtasks")).expect_err("no editor");
    assert!(err.to_string().contains("EDITOR is not set"));
    let err = editor_command(&Some(chars("   ")), &chars("/p/cjtasks")).expect_err("blank editor");
    assert!(err.to_string().contains("EDITOR is not set"));
}
