use cjtaskrunner::runner::{
    clean_target_error, file_indents_fit, rename_target_error, Action, Event, FileOp, Runner, MAX_EXECUTION_STEPS,
};
use cjtaskrunner::task_file::{parse_task_file, TaskFile};
use cjtaskrunner::vars::VarMap;
use cjtaskrunner::version_file::rewrite_version;
use cjtaskrunner::layers::lay_overlays;
use cjtaskrunner::help_output::{format_task_listing, format_top_help};
use cjtaskrunner::environment::apply_taskfile_env;

fn chars(s: &str) -> Vec<char> {
    s.chars().collect()
}

fn text(v: &[char]) -> String {
    v.iter().collect()
}

/// A pretend file system and process table that answers a runner.
#[derive(Default)]
struct World {
    dirs: Vec<String>,
    files: Vec<String>,
    source: String,
    shells: Vec<(String, String, Option<String>)>,
    commands: Vec<(Vec<String>, String)>,
    printed: String,
    opened: Vec<String>,
    awaited: Vec<String>,
    failing: Vec<String>,
    file_ops: Vec<(FileOp, Vec<String>)>,
}

fn join(dir: &str, path: &str) -> String {
    let raw = if path.starts_with('/') { path.to_string() } else { format!("{dir}/{path}") };
    let mut parts: Vec<&str> = Vec::new();
    for part in raw.split('/') {
        match part {
            "" | "." => {}
            ".." => {
                parts.pop();
            }
            other => parts.push(other),
        }
    }
    format!("/{}", parts.join("/"))
}

impl World {
    fn new() -> World {
        World { dirs: vec!["/work".to_string()], ..World::default() }
    }

    fn has_path(&self, path: &str) -> bool {
        self.dirs.iter().any(|d| d == path) || self.files.iter().any(|f| f == path)
    }

    fn shell_lines(&self) -> Vec<String> {
        self.shells.iter().map(|(line, _, _)| line.clone()).collect()
    }

    fn answer(&mut self, file: &TaskFile, runner: &Runner, action: Action) -> Result<Event, Result<i32, String>> {
        Ok(match action {
            Action::Finished(code) => return Err(Ok(code)),
            Action::Failed(err) => return Err(Err(err.to_string())),
            Action::Run(argv, dir, capture) => {
                let argv: Vec<String> = argv.iter().map(|w| text(w)).collect();
                let code = if argv.first().is_some_and(|p| p == "false" || self.failing.contains(p)) { 1 } else { 0 };
                let output = if capture && argv.first().is_some_and(|p| p == "echo") {
                    format!("{}\n", argv[1..].join(" "))
                } else {
                    String::new()
                };
                self.commands.push((argv, text(&dir)));
                Event::Status(code, chars(&output))
            }
            Action::Shell(line, dir, capture) => {
                let line = text(&line);
                let secret = runner.exports().get(&chars("SECRET")).map(|v| text(&v));
                let output = match line.strip_prefix("printf ") {
                    Some(rest) if capture => rest.to_string(),
                    _ => String::new(),
                };
                self.shells.push((line, text(&dir), secret));
                Event::Status(0, chars(&output))
            }
            Action::Print(out) => {
                self.printed.push_str(&text(&out));
                Event::Done
            }
            Action::IsDir(dir, path) => {
                let joined = join(&text(&dir), &text(&path));
                let yes = self.dirs.contains(&joined);
                Event::Path(chars(&joined), yes)
            }
            Action::Exists(dir, path) => {
                let joined = join(&text(&dir), &text(&path));
                let yes = self.has_path(&joined);
                Event::Path(chars(&joined), yes)
            }
            Action::Remove(dir, path, base, line) => {
                let joined = join(&text(&dir), &text(&path));
                if !self.has_path(&joined) {
                    Event::Done
                } else {
                    let base = join(&text(&base), ".");
                    match clean_target_error(&chars(&joined), &chars(&base), line) {
                        Some(err) => Event::Failed(err),
                        None => {
                            self.files.retain(|f| f != &joined && !f.starts_with(&format!("{joined}/")));
                            self.dirs.retain(|d| d != &joined && !d.starts_with(&format!("{joined}/")));
                            Event::Done
                        }
                    }
                }
            }
            Action::Bump(name, op, pre, line) => {
                match rewrite_version(file, &self.source, &name, &op, pre.as_ref(), line) {
                    Ok((updated, key, value)) => {
                        self.source = updated;
                        Event::Bumped(key, value)
                    }
                    Err(err) => Event::Failed(err),
                }
            }
            Action::Files(op, dir, argv, line) => {
                let argv: Vec<String> = argv.iter().map(|w| text(w)).collect();
                self.file_ops.push((op, argv.clone()));
                if op == FileOp::Rename {
                    let source = join(&text(&dir), &argv[0]);
                    let destination = join(&text(&dir), &argv[1]);
                    if let Some(err) = rename_target_error(&chars(&source), &chars(&destination), line) {
                        return Ok(Event::Failed(err));
                    }
                }
                Event::Done
            }
            Action::Open(url) => {
                self.opened.push(text(&url));
                Event::Status(0, Vec::new())
            }
            Action::SelfHelp(_) => Event::Done,
            Action::Await(names, dir) => {
                let before = runner.exports().copy();
                let mut code = 0;
                let mut exported = VarMap::new();
                for name in names {
                    let key = text(&name);
                    if self.awaited.contains(&key) {
                        continue;
                    }
                    self.awaited.push(key);
                    let mut child = runner.child(file, &dir);
                    let first = child.start(file, &name, &Vec::new());
                    match self.drive(file, &mut child, first) {
                        Ok(status) => {
                            if code == 0 {
                                code = status;
                            }
                            exported.extend_from(&child.exports().changes_since(&before));
                        }
                        Err(message) => return Ok(Event::Failed(cjtaskrunner::error::CjError::from_str(&message))),
                    }
                }
                Event::Awaited(code, exported)
            }
            Action::Watch(_, _, _, _, _, _) => Event::Status(0, Vec::new()),
        })
    }

    fn drive(&mut self, file: &TaskFile, runner: &mut Runner, first: Action) -> Result<i32, String> {
        let mut action = first;
        loop {
            match self.answer(file, runner, action) {
                Err(end) => return end,
                Ok(event) => action = runner.resume(file, event),
            }
        }
    }
}

fn parse(source: &str) -> TaskFile {
    let file = parse_task_file(source, "cjtasks").expect("parse");
    assert!(file_indents_fit(&file));
    file
}

fn start_vars(pairs: &[(&str, &str)]) -> VarMap {
    let mut vars = VarMap::new();
    vars.insert(chars("PATH"), chars("/usr/bin"));
    for (k, v) in pairs {
        vars.insert(chars(k), chars(v));
    }
    vars
}

fn run_with(world: &mut World, file: &TaskFile, task: &str, args: &[&str], vars: &VarMap) -> (Result<i32, String>, Runner) {
    let mut runner = Runner::new(vars, &chars("/work"));
    let argv: Vec<Vec<char>> = args.iter().map(|a| chars(a)).collect();
    let first = runner.start(file, &chars(task), &argv);
    let result = world.drive(file, &mut runner, first);
    (result, runner)
}

fn run(world: &mut World, source: &str, task: &str, args: &[&str]) -> Result<i32, String> {
    let file = parse(source);
    world.source = source.to_string();
    run_with(world, &file, task, args, &start_vars(&[])).0
}

#[test]
fn open_directive_requires_exactly_one_url() {
    let mut world = World::new();
    let err = run(&mut world, "run:\n  @open\n", "run", &[]).expect_err("@open missing url should fail");
    assert!(err.contains("@open expects exactly one URL"));
    let err = run(&mut world, "run:\n  @open https://example.com extra\n", "run", &[])
        .expect_err("@open extra args should fail");
    assert!(err.contains("@open expects exactly one URL"));
    assert!(world.opened.is_empty());
}

#[test]
fn open_directive_only_accepts_http_urls() {
    let mut world = World::new();
    let err = run(&mut world, "run:\n  @open file:///tmp/report.html\n", "run", &[])
        .expect_err("@open non-http url should fail");
    assert!(err.contains("@open URL must begin with http:// or https://"));
}

#[test]
fn open_directive_hands_out_the_url() {
    let mut world = World::new();
    assert_eq!(run(&mut world, "run:\n  @open https://example.com\n", "run", &[]), Ok(0));
    assert_eq!(world.opened, vec!["https://example.com".to_string()]);
}

#[test]
fn task_calls_snapshot_runtime_state_and_resume_callers() {
    let source = r#"run:
  @set ORDER root
  @if true
    @set ORDER $ORDER-if
    @task child
    @set ORDER $ORDER-after-child
  @set ORDER $ORDER-after-if
  @shell printf "$ORDER" > order.txt
child:
  @set ORDER $ORDER-child
  @if true
    @task grandchild
  @set ORDER $ORDER-child-after
grandchild:
  @set ORDER $ORDER-grandchild
"#;
    let mut world = World::new();
    let file = parse(source);
    let (result, runner) = run_with(&mut world, &file, "run", &[], &start_vars(&[]));
    assert_eq!(result, Ok(0));
    assert_eq!(world.shells.len(), 1);
    assert!(world.shells[0].0.contains("root-if-after-child-after-if"));
    assert!(world.shells[0].0.ends_with("> order.txt"));
    assert!(runner.vars().get(&chars("ORDER")).is_none());
}

#[test]
fn task_exports_update_calling_context() {
    let source = r#"run:
  @set LOCAL parent
  @task child
  @shell printf "$LOCAL:$SHARED" > state.txt
child:
  @set LOCAL child
  @export SHARED child
"#;
    let mut world = World::new();
    let file = parse(source);
    let (result, runner) = run_with(&mut world, &file, "run", &[], &start_vars(&[]));
    assert_eq!(result, Ok(0));
    assert!(world.shells[0].0.contains("parent:child"));
    assert_eq!(runner.exports().get(&chars("SHARED")), Some(chars("child")));
}

#[test]
fn nested_task_cycle_reports_inner_call_chain() {
    let source = r#"root:
  @task alpha
alpha:
  @if true
    @task beta
beta:
  @task gamma
gamma:
  @task alpha
"#;
    let mut world = World::new();
    let err = run(&mut world, source, "root", &[]).expect_err("nested cycle should fail");
    assert!(err.contains("recursive @task cycle detected: alpha -> beta -> gamma -> alpha"));
}

#[test]
fn shared_await_tasks_run_once() {
    let source = r#"root:
  @await left right
left:
  @await shared
right:
  @await shared
shared:
  @shell printf x >> count.txt
"#;
    let mut world = World::new();
    assert_eq!(run(&mut world, source, "root", &[]), Ok(0));
    assert_eq!(world.shell_lines(), vec!["printf x >> count.txt".to_string()]);
}

#[test]
fn awaited_tasks_isolate_set_and_share_exports() {
    let source = r#"root:
  @set PORT root
  @await setup expose
  @shell printf "$PORT:$EXPORTED" > out.txt
setup:
  @set PORT 3000
expose:
  @export EXPORTED yes
"#;
    let mut world = World::new();
    assert_eq!(run(&mut world, source, "root", &[]), Ok(0));
    assert!(world.shells[0].0.contains("root:yes"));
}

#[test]
fn await_failure_skips_success_block_and_can_be_handled_by_or() {
    let source = r#"root:
  @await failer
    @shell printf bad > should-not-exist.txt
  @or
    @shell printf failed > failed.txt
failer:
  @fail
"#;
    let mut world = World::new();
    assert_eq!(run(&mut world, source, "root", &[]), Ok(0));
    assert_eq!(world.shell_lines(), vec!["printf failed > failed.txt".to_string()]);
}

#[test]
fn execution_set_is_internal_until_exported() {
    let source = r#"run:
  @set SECRET hidden
  @shell printf "\${SECRET:-missing}" > before.txt
  @export SECRET
  @shell printf "\$SECRET" > after.txt
"#;
    let mut world = World::new();
    assert_eq!(run(&mut world, source, "run", &[]), Ok(0));
    assert_eq!(world.shells.len(), 2);
    assert!(world.shells[0].0.contains("${SECRET:-missing}"));
    assert_eq!(world.shells[0].2, None);
    assert!(world.shells[1].0.contains("$SECRET"));
    assert_eq!(world.shells[1].2.as_deref(), Some("hidden"));
}

#[test]
fn execution_echo_clean_stop_and_status_chains() {
    let source = r#"run:
  false; @or
    @echo recovered
  @and
    @clean stale.txt
  @if-not-exists stale.txt
    @success
"#;
    let mut world = World::new();
    world.files.push("/work/stale.txt".to_string());
    assert_eq!(run(&mut world, source, "run", &[]), Ok(0));
    assert!(!world.has_path("/work/stale.txt"));
    assert_eq!(world.printed, "recovered\n");

    assert_eq!(run(&mut world, "run:\n  @stop nope\n  true\n", "run", &[]), Ok(1));
    assert!(world.printed.ends_with("nope\n"));
}

#[test]
fn clean_cannot_remove_scope_base_or_parent_directories() {
    let source = r#"clean-child:
  @clean child/grandchild/stale.txt
clean-scope:
  @clean .
clean-parent:
  @cd child
  @if true
    @clean ..
"#;
    let mut world = World::new();
    world.dirs.push("/work/child".to_string());
    world.dirs.push("/work/child/grandchild".to_string());
    world.files.push("/work/child/grandchild/stale.txt".to_string());

    assert_eq!(run(&mut world, source, "clean-child", &[]), Ok(0));
    assert!(!world.has_path("/work/child/grandchild/stale.txt"));

    let err = run(&mut world, source, "clean-scope", &[]).expect_err("cleaning scope base should fail");
    assert!(err.contains("@clean cannot remove the current scope directory or any parent directory"));
    assert!(world.has_path("/work"));

    let err = run(&mut world, source, "clean-parent", &[]).expect_err("cleaning parent should fail");
    assert!(err.contains("@clean cannot remove the current scope directory or any parent directory"));
    assert!(world.has_path("/work/child"));
}

#[test]
fn set_block_capture_requires_colon() {
    let mut world = World::new();
    let err = run(&mut world, "run:\n  @set OUT\n    @echo captured\n", "run", &[])
        .expect_err("missing colon should fail");
    assert!(err.contains("@set expects NAME and value"));
}

#[test]
fn cd_and_back_manage_scoped_working_directories() {
    let source = r#"run:
  @shell pwd > root.txt
  @cd sub
  @shell pwd > sub.txt
  @if true
    @cd child
    @shell pwd > child.txt
  @shell pwd > after-block.txt
  @back
  @shell pwd > after-back.txt
  @back
  @shell pwd > after-extra-back.txt
"#;
    let mut world = World::new();
    world.dirs.push("/work/sub".to_string());
    world.dirs.push("/work/sub/child".to_string());
    assert_eq!(run(&mut world, source, "run", &[]), Ok(0));
    let dirs: Vec<(String, String)> =
        world.shells.iter().map(|(line, dir, _)| (line.clone(), dir.clone())).collect();
    assert_eq!(
        dirs,
        vec![
            ("pwd > root.txt".to_string(), "/work".to_string()),
            ("pwd > sub.txt".to_string(), "/work/sub".to_string()),
            ("pwd > child.txt".to_string(), "/work/sub/child".to_string()),
            ("pwd > after-block.txt".to_string(), "/work/sub".to_string()),
            ("pwd > after-back.txt".to_string(), "/work".to_string()),
            ("pwd > after-extra-back.txt".to_string(), "/work".to_string()),
        ]
    );
}

#[test]
fn task_arguments_bind_locally_and_restore_previous_values() {
    let file = parse("show (VALUE):\n  @shell printf '%s' $VALUE > value.txt\n");
    let mut world = World::new();
    let (result, runner) = run_with(&mut world, &file, "show", &["child value"], &start_vars(&[("VALUE", "parent")]));
    assert_eq!(result, Ok(0));
    assert!(world.shells[0].0.contains("child value"));
    assert_eq!(runner.vars().get(&chars("VALUE")), Some(chars("parent")));
}

#[test]
fn task_argument_bindings_restore_after_failure_and_error() {
    let file = parse("fails (VALUE):\n  @fail\nerrors (VALUE):\n  @unknown\n");
    let mut world = World::new();
    let vars = start_vars(&[("VALUE", "parent")]);
    let (result, runner) = run_with(&mut world, &file, "fails", &["child"], &vars);
    assert_eq!(result, Ok(1));
    assert_eq!(runner.vars().get(&chars("VALUE")), Some(chars("parent")));

    let (result, runner) = run_with(&mut world, &file, "errors", &["child"], &vars);
    assert!(result.expect_err("run error").contains("unknown directive"));
    assert_eq!(runner.vars().get(&chars("VALUE")), Some(chars("parent")));
}

#[test]
fn task_argument_arity_is_validated_before_execution() {
    let source = "plain:\n  true\nplain:child:\n  true\ndeploy (TARGET, TAG):\n  true\n";
    let mut world = World::new();
    let missing = run(&mut world, source, "deploy", &["prod"]).expect_err("missing argument should fail");
    assert!(missing.contains("task 'deploy' expects 2 arguments, received 1"));

    let extra = run(&mut world, source, "plain", &["child"]).expect_err("unexpected argument should fail");
    assert!(extra.contains("task 'plain' expects 0 arguments, received 1"));
    assert!(extra.contains("Did you mean `plain:child`?"));

    let unrelated = run(&mut world, source, "plain", &["other"]).expect_err("unrelated argument should fail");
    assert!(!unrelated.contains("Did you mean"));
    assert!(world.commands.is_empty());
}

#[test]
fn task_directive_forwards_interpolated_arguments() {
    let source = r#"parent:
  @set DESTINATION production
  @task child $DESTINATION "release tag"

child (TARGET, TAG):
  @shell printf '%s|%s' $TARGET $TAG > forwarded.txt
"#;
    let mut world = World::new();
    assert_eq!(run(&mut world, source, "parent", &[]), Ok(0));
    let line = &world.shells[0].0;
    assert!(line.contains("production"));
    assert!(line.contains("'release tag'"));
}

#[test]
fn ordinary_commands_do_not_shell_split_interpolated_values() {
    let source = "@env:\n  CJTEST_VALUE: a b; echo injected\nrun:\n  sh -c 'test \"$1\" = \"a b; echo injected\"' ignored $CJTEST_VALUE\n";
    let file = parse(source);
    let mut world = World::new();
    let (result, _) = run_with(&mut world, &file, "run", &[], &file_vars(&file));
    assert_eq!(result, Ok(0));
    assert_eq!(
        world.commands[0].0,
        vec![
            "sh".to_string(),
            "-c".to_string(),
            "test \"$1\" = \"a b; echo injected\"".to_string(),
            "ignored".to_string(),
            "a b; echo injected".to_string(),
        ]
    );
}

#[test]
fn shell_directive_quotes_interpolated_values() {
    let source = "@env:\n  CJTEST_VALUE: safe; echo bad\nrun:\n  @shell printf '%s' $CJTEST_VALUE > out.txt\n";
    let file = parse(source);
    let mut world = World::new();
    let (result, _) = run_with(&mut world, &file, "run", &[], &file_vars(&file));
    assert_eq!(result, Ok(0));
    assert_eq!(world.shell_lines(), vec!["printf '%s' 'safe; echo bad' > out.txt".to_string()]);
}

#[test]
fn version_bump_directives_record_single_bump_kind_for_conditionals() {
    let source = r#"@version app 1.2.3
run:
  @patch app
  @if-bumped
    @shell printf bumped > bumped.txt
  @if-bumped app
    @shell printf any > any.txt
  @if-patch app
    @shell printf patch > patch.txt
  @if-not-patch app
    @shell printf not-patch > not-patch.txt
  @if-not-bumped
    @shell printf none > none.txt
  @if-minor app
    @shell printf minor > minor.txt
  @if-not-minor app
    @shell printf not-minor > not-minor.txt
"#;
    let mut world = World::new();
    let file = parse(source);
    world.source = source.to_string();
    let (result, _) = run_with(&mut world, &file, "run", &[], &start_vars(&[("VERSION_APP", "1.2.3")]));
    assert_eq!(result, Ok(0));
    assert_eq!(
        world.shell_lines(),
        vec![
            "printf bumped > bumped.txt".to_string(),
            "printf any > any.txt".to_string(),
            "printf patch > patch.txt".to_string(),
            "printf not-minor > not-minor.txt".to_string(),
        ]
    );
    assert!(world.source.starts_with("@version app 1.2.4\n"));
}

#[test]
fn version_bump_directive_interpolates_version_name() {
    let source = "@version app 1.2.3\nrun (NAME):\n  @patch $NAME\n  @if-patch $NAME\n    @shell printf matched > matched.txt\n";
    let mut world = World::new();
    let file = parse(source);
    world.source = source.to_string();
    let (result, _) = run_with(&mut world, &file, "run", &["app"], &start_vars(&[("VERSION_APP", "1.2.3")]));
    assert_eq!(result, Ok(0));
    assert_eq!(world.shell_lines(), vec!["printf matched > matched.txt".to_string()]);
}

#[test]
fn negative_version_condition_inverts_version_condition() {
    let source = r#"@version app 1.2.3-beta.1
run:
  @if-not-version app release
    @shell printf not-release > not-release.txt
  @if-not-version app >= 2.0.0
    @shell printf below-two > below-two.txt
  @if-not-version app prerelease
    @shell printf not-pre > not-pre.txt
"#;
    let mut world = World::new();
    let file = parse(source);
    let (result, _) = run_with(&mut world, &file, "run", &[], &start_vars(&[("VERSION_APP", "1.2.3-beta.1")]));
    assert_eq!(result, Ok(0));
    assert_eq!(
        world.shell_lines(),
        vec!["printf not-release > not-release.txt".to_string(), "printf below-two > below-two.txt".to_string()]
    );
}

#[test]
fn unbumped_without_arguments_matches_when_no_version_was_bumped() {
    let source = "@version app 1.2.3\nrun:\n  @if-bumped\n    @shell printf bumped > bumped.txt\n  @if-not-bumped\n    @shell printf none > none.txt\n";
    let mut world = World::new();
    let file = parse(source);
    let (result, _) = run_with(&mut world, &file, "run", &[], &start_vars(&[("VERSION_APP", "1.2.3")]));
    assert_eq!(result, Ok(0));
    assert_eq!(world.shell_lines(), vec!["printf none > none.txt".to_string()]);
}

#[test]
fn version_bump_directives_reject_second_bump_for_same_version() {
    let source = "@version app 1.2.3\nrun:\n  @patch app\n  @minor app\n";
    let mut world = World::new();
    let file = parse(source);
    world.source = source.to_string();
    let (result, _) = run_with(&mut world, &file, "run", &[], &start_vars(&[("VERSION_APP", "1.2.3")]));
    assert!(result
        .expect_err("second bump should fail")
        .contains("version 'app' was already bumped as patch in this run"));
}

#[test]
fn version_conditionals_use_semver_precedence() {
    let source = r#"@version app 1.2.3-beta.1
run:
  @if-version app < 1.2.3
    @shell printf prerelease-lower > lower.txt
  @if-version app prerelease
    @shell printf pre > pre.txt
  @if-version app release
    @shell printf release > release.txt
"#;
    let mut world = World::new();
    let file = parse(source);
    let (result, _) = run_with(&mut world, &file, "run", &[], &start_vars(&[("VERSION_APP", "1.2.3-beta.1")]));
    assert_eq!(result, Ok(0));
    assert_eq!(
        world.shell_lines(),
        vec!["printf prerelease-lower > lower.txt".to_string(), "printf pre > pre.txt".to_string()]
    );
}

#[test]
fn version_directive_is_header_only() {
    let late = parse_task_file("run:\n  true\n@version cli 0.1.0\n", "cjtasks").expect_err("@version after tasks should fail");
    assert!(late.to_string().contains("@version must appear before tasks"));

    let mut world = World::new();
    let err = run(&mut world, "@version cli 0.1.0\nbump:\n  @version inc patch cli\n", "bump", &[])
        .expect_err("task-body @version should fail");
    assert!(err.contains("@version can only be used as a top-level header"));
}

#[test]
fn a_failing_command_stops_the_task_with_its_status() {
    let mut world = World::new();
    world.failing.push("make".to_string());
    assert_eq!(run(&mut world, "run:\n  make build\n  echo after\n", "run", &[]), Ok(1));
    assert_eq!(world.commands.len(), 1);
}

#[test]
fn clean_target_error_accepts_only_paths_below_the_scope() {
    assert!(clean_target_error(&chars("/work/a"), &chars("/work"), 3).is_none());
    assert!(clean_target_error(&chars("/work"), &chars("/work"), 3).is_some());
    assert!(clean_target_error(&chars("/workshop"), &chars("/work"), 3).is_some());
    assert!(clean_target_error(&chars("/etc"), &chars("/"), 3).is_none());
    let err = clean_target_error(&chars("/"), &chars("/work"), 7).expect("parent refused");
    assert_eq!(
        err.to_string(),
        "line 7: @clean cannot remove the current scope directory or any parent directory"
    );
}

#[test]
fn conditionals_switches_and_runtime_env_mutations_work_together() {
    let source = r#"run:
  @set MODE prod
  @if $MODE == prod
    @shell printf yes > if.txt
  @else
    @shell printf no > if.txt
  @if-exists exists.txt
    @export FOUND 1
  @set FOUND_NAME FOUND
  @if-set $FOUND_NAME
    @shell printf found > found.txt
  @switch $MODE
    @case dev
      @shell printf dev > switch.txt
    @case prod
      @shell printf prod > switch.txt
    @default
      @shell printf default > switch.txt
  @unset $FOUND_NAME
  @if-not-set $FOUND_NAME
    @shell printf unset > unset.txt
"#;
    let mut world = World::new();
    world.files.push("/work/exists.txt".to_string());
    assert_eq!(run(&mut world, source, "run", &[]), Ok(0));
    assert_eq!(
        world.shell_lines(),
        vec![
            "printf yes > if.txt".to_string(),
            "printf found > found.txt".to_string(),
            "printf prod > switch.txt".to_string(),
            "printf unset > unset.txt".to_string(),
        ]
    );
}

#[test]
fn directive_variable_name_operands_are_interpolated_strings() {
    let source = r#"run:
  @set TARGET_NAME MODE
  @set $TARGET_NAME release
  @if-set $TARGET_NAME
    @shell printf %s $MODE > mode.txt
  @set CAPTURE_NAME COMMIT
  @set $CAPTURE_NAME:
    @shell printf abc123
  @export $CAPTURE_NAME
  @shell printf %s $COMMIT > commit.txt
  @unset $TARGET_NAME
  @if-not-set $TARGET_NAME
    @shell printf unset > unset.txt
"#;
    let mut world = World::new();
    let file = parse(source);
    let (result, runner) = run_with(&mut world, &file, "run", &[], &start_vars(&[]));
    assert_eq!(result, Ok(0));
    assert_eq!(
        world.shell_lines(),
        vec![
            "printf %s release > mode.txt".to_string(),
            "printf abc123".to_string(),
            "printf %s abc123 > commit.txt".to_string(),
            "printf unset > unset.txt".to_string(),
        ]
    );
    assert_eq!(runner.exports().get(&chars("COMMIT")), Some(chars("abc123")));
}

#[test]
fn if_tests_string_membership_in_a_list() {
    let source = r#"run (TARGET):
  @if-in $TARGET linux "mac os" windows
    @shell printf member > member.txt
  @else
    @shell printf missing > member.txt
  @if-in staging dev test prod
    @shell printf wrong > absent.txt
  @else
    @shell printf absent > absent.txt
  @if-not-in staging dev test prod
    @shell printf not-member > not-member.txt
  @if-not 0
    @shell printf falsey > falsey.txt
"#;
    let mut world = World::new();
    assert_eq!(run(&mut world, source, "run", &["mac os"]), Ok(0));
    assert_eq!(
        world.shell_lines(),
        vec![
            "printf member > member.txt".to_string(),
            "printf absent > absent.txt".to_string(),
            "printf not-member > not-member.txt".to_string(),
            "printf falsey > falsey.txt".to_string(),
        ]
    );
}

#[test]
fn if_in_requires_at_least_one_candidate() {
    let mut world = World::new();
    let err = run(&mut world, "run:\n  @if-in prod\n    @success\n", "run", &[]).expect_err("if-in");
    assert!(err.contains("@if-in expects '<needle> <candidate>...'"));
}

#[test]
fn if_rejects_inline_membership_syntax() {
    let mut world = World::new();
    let err = run(&mut world, "run:\n  @if prod in dev prod\n    @success\n", "run", &[]).expect_err("if");
    assert!(err.contains("@if expects a value, '<left> == <right>', or '<left> != <right>'"));
}

#[test]
fn set_capture_blocks_capture_stdout_without_leaking_nested_output() {
    let source = r#"run:
  @set OUT:
    @echo before
    @set INNER:
      @echo inner
    @echo after
  @shell printf %s $OUT > out.txt
  @shell printf %s $INNER > inner.txt
"#;
    let mut world = World::new();
    let file = parse(source);
    let (result, runner) = run_with(&mut world, &file, "run", &[], &start_vars(&[]));
    assert_eq!(result, Ok(0));
    assert_eq!(world.printed, "");
    assert_eq!(runner.vars().get(&chars("OUT")), None);
    assert!(world.shells[0].0.contains("before\nafter"));
    assert_eq!(world.shells[1].0, "printf %s inner > inner.txt");
}

#[test]
fn failed_if_else_can_skip_and_then_run_or_chain() {
    let source = r#"run:
  @set MYVAR arvo
  @if $MYVAR == arv2o
    @success
  @else
    @fail
  @and
    @echo there is success
  @or
    @echo we have failed
"#;
    let mut world = World::new();
    assert_eq!(run(&mut world, source, "run", &[]), Ok(0));
    assert_eq!(world.printed.trim(), "we have failed");
}

#[test]
fn return_directive_is_status_only() {
    let source = "run:\n  @return hello\n  @and\n    @echo after\nstatus:\n  @return 7\n";
    let mut world = World::new();
    assert_eq!(run(&mut world, source, "run", &[]), Ok(0));
    assert_eq!(world.printed, "after\n");
    let mut world = World::new();
    assert_eq!(run(&mut world, source, "status", &[]), Ok(7));
    assert!(world.printed.is_empty());
}

#[test]
fn braced_interpolation_defaults_to_empty_and_supports_required_forms() {
    let source = r#"@env:
  EMPTY:
run:
  @shell printf '%s|%s|%s|%s|%s' ${MISSING} ${EMPTY} ${MISSING?fallback} ${MISSING?"quoted fallback"} ${EMPTY?} > out.txt
required:
  @echo ${MISSING?}
invalid-interpolation:
  @echo ${1BAD}
"#;
    let file = parse(source);
    let mut vars = start_vars(&[]);
    cjtaskrunner::environment::apply_taskfile_env(&mut vars, file.overrides(), file.fallbacks());
    let mut world = World::new();
    let (result, _) = run_with(&mut world, &file, "run", &[], &vars);
    assert_eq!(result, Ok(0));
    assert!(world.shells[0].0.contains("fallback"));
    assert!(world.shells[0].0.contains("'quoted fallback'"));

    let (result, _) = run_with(&mut world, &file, "required", &[], &vars);
    assert!(result.expect_err("required").contains("missing variable: MISSING"));
    let (result, _) = run_with(&mut world, &file, "invalid-interpolation", &[], &vars);
    assert!(result.expect_err("invalid").contains("invalid variable interpolation"));
}

#[test]
fn task_composition_runs_tasks_and_reports_cycles() {
    let source = "first:\n  @task second\nsecond:\n  true\ncycle:\n  @task cycle\n";
    let mut world = World::new();
    assert_eq!(run(&mut world, source, "first", &[]), Ok(0));
    assert_eq!(world.commands.len(), 1);
    let err = run(&mut world, source, "cycle", &[]).expect_err("cycle");
    assert!(err.contains("recursive @task cycle"));
}

#[test]
fn cd_back_and_task_calls_restore_working_directories() {
    let source = r#"run:
  @cd sub
  @task write
  @shell pwd > after-task.txt
write:
  @shell pwd > task-start.txt
  @cd child
  @shell pwd > task-child.txt
"#;
    let mut world = World::new();
    world.dirs.push("/work/sub".to_string());
    world.dirs.push("/work/sub/child".to_string());
    assert_eq!(run(&mut world, source, "run", &[]), Ok(0));
    let dirs: Vec<String> = world.shells.iter().map(|(_, dir, _)| dir.clone()).collect();
    assert_eq!(dirs, vec!["/work/sub".to_string(), "/work/sub/child".to_string(), "/work/sub".to_string()]);
}

fn layered(base: &str, overlays: &[(&str, &str)]) -> Result<TaskFile, String> {
    let base = parse_task_file(base, "cjtasks").expect("parse base");
    let mut files = Vec::new();
    let mut names: Vec<&str> = Vec::new();
    for (name, source) in overlays {
        files.push(parse_task_file(source, name).expect("parse overlay"));
        names.push(name);
    }
    lay_overlays(base, files, &names).map_err(|e| e.to_string())
}

fn file_vars(file: &TaskFile) -> VarMap {
    let mut vars = start_vars(&[]);
    apply_taskfile_env(&mut vars, file.overrides(), file.fallbacks());
    vars
}

#[test]
fn layers_replace_tasks_env_and_help_by_precedence() {
    let file = layered(
        "@env:\n  VALUE: base\n@help:\n  base help\nshow (ARG):\n  @echo base-$VALUE-$ARG\n",
        &[
            ("production.cjtasks", "@env:\n  VALUE?: production\nshow (NAME):\n  @echo production-$VALUE-$NAME\n"),
            ("local.cjtasks", "@env:\n  VALUE: local\n@help:\n  local help\nshow (ITEM):\n  @echo local-$VALUE-$ITEM\n"),
        ],
    )
    .expect("layers");
    let mut world = World::new();
    let (result, _) = run_with(&mut world, &file, "show", &["value"], &file_vars(&file));
    assert_eq!(result, Ok(0));
    assert_eq!(world.printed.trim(), "local-local-value");
    assert!(format_top_help(&file, "cjtasks", false).contains("local help"));
}

#[test]
fn canonical_base_is_displayed_when_overlays_exist() {
    let file = layered("show:\n  @echo base\n", &[("local.cjtasks", "show:\n  @echo local\n")]).expect("layers");
    let listing = format_task_listing(&file, "cjtasks", false);
    assert!(listing.starts_with("Tasks in cjtasks:"));
    assert!(listing.contains("show"));
    let mut world = World::new();
    let (result, _) = run_with(&mut world, &file, "show", &[], &file_vars(&file));
    assert_eq!(result, Ok(0));
    assert_eq!(world.printed.trim(), "local");
}

#[test]
fn override_must_keep_task_arity() {
    let err = layered("build (TARGET):\n  @success\n", &[("local.cjtasks", "build:\n  @success\n")])
        .expect_err("arity change");
    assert!(err.contains("overrides arity 1 with arity 0"));
    assert_eq!(err, "task 'build' in local.cjtasks overrides arity 1 with arity 0");
}

#[test]
fn overlays_cannot_declare_versions_or_bump_them() {
    let err = layered("run:\n  @success\n", &[("local.cjtasks", "@version cli 1.0.0\nrun:\n  @success\n")])
        .expect_err("version in overlay");
    assert!(err.contains("@version is only allowed in cjtasks"));
    assert_eq!(err, "local.cjtasks:1: @version is only allowed in cjtasks");

    let err = layered("@version cli 1.0.0\n", &[("local.cjtasks", "release:\n  @patch cli\n")])
        .expect_err("bump in overlay");
    assert!(err.contains("version bump directives are only allowed in cjtasks"));
}

#[test]
fn overlay_can_reference_a_task_from_the_base() {
    let file = layered(
        "worker:\n  @echo worker\n",
        &[("development.cjtasks", "dev:\n  @await worker\n    @echo complete\n")],
    )
    .expect("layers");
    let mut world = World::new();
    let (result, _) = run_with(&mut world, &file, "dev", &[], &file_vars(&file));
    assert_eq!(result, Ok(0));
    assert_eq!(world.printed, "worker\ncomplete\n");
}

#[test]
fn base_bump_updates_the_base_when_overlays_are_loaded() {
    let base = "@version cli 1.0.0\nrelease:\n  @patch cli\n";
    let file = layered(base, &[("local.cjtasks", "local:\n  @success\n")]).expect("layers");
    let mut world = World::new();
    world.source = base.to_string();
    let (result, runner) = run_with(&mut world, &file, "release", &[], &file_vars(&file));
    assert_eq!(result, Ok(0));
    assert!(world.source.contains("@version cli 1.0.1"));
    assert_eq!(runner.exports().get(&chars("VERSION_CLI")), Some(chars("1.0.1")));
}

#[test]
fn later_layers_keep_tasks_they_do_not_name() {
    let file = layered(
        "a:\n  @echo a\nb:\n  @echo b\n",
        &[("staging.cjtasks", "c:\n  @echo c\nb:\n  @echo staged\n")],
    )
    .expect("layers");
    assert_eq!(file.task_order(), vec!["a".to_string(), "b".to_string(), "c".to_string()]);
    let mut world = World::new();
    let (result, _) = run_with(&mut world, &file, "b", &[], &file_vars(&file));
    assert_eq!(result, Ok(0));
    assert_eq!(world.printed, "staged\n");
}

#[test]
fn filesystem_directives_copy_create_and_rename() {
    let source = r#"run:
  @mkdir out/files out/dirs
  @cp a.txt b.txt out/files
  @cp a.txt out/single.txt
  @cpdir srcdir out/dirs
  @cpdir srcdir/ out/contents
  @rename out/single.txt out/renamed.txt
"#;
    let mut world = World::new();
    assert_eq!(run(&mut world, source, "run", &[]), Ok(0));
    let strings = |v: &[&str]| v.iter().map(|s| s.to_string()).collect::<Vec<_>>();
    assert_eq!(
        world.file_ops,
        vec![
            (FileOp::MakeDirs, strings(&["out/files", "out/dirs"])),
            (FileOp::CopyFiles, strings(&["a.txt", "b.txt", "out/files"])),
            (FileOp::CopyFiles, strings(&["a.txt", "out/single.txt"])),
            (FileOp::CopyDirs, strings(&["srcdir", "out/dirs"])),
            (FileOp::CopyDirs, strings(&["srcdir/", "out/contents"])),
            (FileOp::Rename, strings(&["out/single.txt", "out/renamed.txt"])),
        ]
    );
}

#[test]
fn rename_cannot_move_between_directories() {
    let mut world = World::new();
    let err = run(&mut world, "run:\n  @rename a.txt other/a.txt\n", "run", &[]).expect_err("rename should not move");
    assert!(err.contains("cannot move across directories"));
    assert_eq!(err, "line 2: @rename cannot move across directories");
}

#[test]
fn rename_target_error_compares_directories() {
    assert!(rename_target_error(&chars("/work/out/a.txt"), &chars("/work/out/b.txt"), 1).is_none());
    assert!(rename_target_error(&chars("/work/out/a/"), &chars("/work/out/b"), 1).is_none());
    assert!(rename_target_error(&chars("/work/a.txt"), &chars("/work/out/a.txt"), 4).is_some());
}

#[test]
fn file_directives_check_their_argument_counts() {
    let mut world = World::new();
    let err = run(&mut world, "run:\n  @cp a.txt\n", "run", &[]).expect_err("cp");
    assert!(err.contains("@cp expects one or more source files and a destination"));
    let err = run(&mut world, "run:\n  @rename a.txt\n", "run", &[]).expect_err("rename");
    assert!(err.contains("@rename expects source and destination"));
    assert!(world.file_ops.is_empty());
}

#[test]
fn watch_blocks_reject_await() {
    let mut world = World::new();
    let err = run(&mut world, "root:\n  @watch .\n    @await child\nchild:\n  @success\n", "root", &[])
        .expect_err("await inside watch");
    assert!(err.contains("@await cannot be used inside @watch"));
}

#[test]
fn watch_blocks_must_be_one_indented_line() {
    let mut world = World::new();
    let err = run(&mut world, "root:\n  @watch .\n    @echo first\n    @echo second\n", "root", &[])
        .expect_err("two lines");
    assert!(err.contains("@watch expects exactly one indented line"));
}

#[test]
fn watch_blocks_reject_task_calls_that_use_await() {
    let mut world = World::new();
    let source = "root:\n  @watch .\n    @task helper\nhelper:\n  @await child\nchild:\n  @success\n";
    let err = run(&mut world, source, "root", &[]).expect_err("task with await inside watch");
    assert!(err.contains("@await cannot be used inside @watch"));
}

#[test]
fn watch_hands_out_the_line_to_restart() {
    let file = parse("root:\n  @watch src\n    cargo build\n");
    let mut runner = Runner::new(&start_vars(&[]), &chars("/work"));
    let first = runner.start(&file, &chars("root"), &Vec::new());
    match first {
        Action::Watch(paths, dir, task, line, indent, directive_line) => {
            assert_eq!(paths, vec![chars("src")]);
            assert_eq!(text(&dir), "/work");
            assert_eq!((task, line, indent, directive_line), (0, 1, 4, 2));
            let mut child = runner.watch_child(&file, task, line, indent);
            match child.proceed(&file) {
                Action::Run(argv, _, _) => assert_eq!(argv, vec![chars("cargo"), chars("build")]),
                _ => panic!("expected the watched command"),
            }
        }
        _ => panic!("expected a watch"),
    }
}

#[test]
fn version_bump_directives_update_taskfile_version_headers() {
    let source = "@version cli 0.1.0\n@version lsp 0.0.1-alpha.1\n@version api 1.2.3\nbump:\n  @set NAME cli\n  @patch $NAME\n  @shell printf %s $VERSION_CLI > cli-version.txt\n  @pre lsp beta.\n  @minor api\n";
    let file = parse(source);
    let mut world = World::new();
    world.source = source.to_string();
    let (result, _) = run_with(&mut world, &file, "bump", &[], &file_vars(&file));
    assert_eq!(result, Ok(0));
    assert!(world.source.contains("@version cli 0.1.1"));
    assert!(world.source.contains("@version lsp 0.0.1-beta.0"));
    assert!(world.source.contains("@version api 1.3.0"));
    assert_eq!(world.shell_lines(), vec!["printf %s 0.1.1 > cli-version.txt".to_string()]);
}

#[test]
fn selfhelp_stops_the_task() {
    let mut world = World::new();
    let source = "cli:\n  @desc cli command group\n  @help:\n    CLI help body.\n  @selfhelp\n  @shell printf should-not-run > selfhelp-ran.txt\n";
    assert_eq!(run(&mut world, source, "cli", &[]), Ok(0));
    assert!(world.shells.is_empty());
}

#[test]
fn echo_output_of_a_run_is_printed_in_order() {
    let mut world = World::new();
    assert_eq!(run(&mut world, "run:\n  @echo one\n  @echo two; @echo three\n", "run", &[]), Ok(0));
    assert_eq!(world.printed, "one\ntwo\nthree\n");
}

#[test]
fn execution_step_limit_detects_possible_infinite_loop() {
    let mut world = World::new();
    let file = parse("run:\n  true\n");
    let mut runner = Runner::new_after_steps(&start_vars(&[]), &chars("/work"), MAX_EXECUTION_STEPS);
    let first = runner.start(&file, &chars("run"), &Vec::new());
    let err = world.drive(&file, &mut runner, first).expect_err("step limit should fail");
    assert!(err.contains("possible infinite loop"));
    assert!(world.commands.is_empty());
}
