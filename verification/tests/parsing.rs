use cjtaskrunner::task_file::parse_task_file;

fn chars(s: &str) -> Vec<char> {
    s.chars().collect()
}

#[test]
fn parsing_parses_env_and_tasks() {
    let parsed = parse_task_file(
        r#"
# Project tasks
@env:
  NODE_ENV: development
  PORT?: 5173
  EMPTY:

dev:
  @desc start development server
  echo # retained

test123:
  cargo test

build:dev:
  @desc build dev
  @help:
    Build dev artifacts.

    Use during local work.
  cargo build
"#,
        "cjtasks",
    )
    .expect("parse");

    assert_eq!(parsed.env_override("NODE_ENV").unwrap(), "development");
    assert_eq!(parsed.env_override("EMPTY").unwrap(), "");
    assert_eq!(parsed.env_fallback("PORT").unwrap(), "5173");
    assert_eq!(parsed.task_order(), vec!["dev", "test123", "build:dev"]);
    assert_eq!(parsed.description("dev").unwrap(), "start development server");
    assert_eq!(parsed.description("build:dev").unwrap(), "build dev");
    assert_eq!(
        parsed.task_help("build:dev").unwrap(),
        "Build dev artifacts.\n\nUse during local work."
    );
    assert_eq!(parsed.task_lines("dev").unwrap()[0], "echo # retained");
    assert_eq!(parsed.task_lines("test123").unwrap()[0], "cargo test");
    assert_eq!(parsed.task_lines("build:dev").unwrap()[0], "cargo build");
}

#[test]
fn parses_task_arguments() {
    let parsed = parse_task_file(
        r#"
deploy (TARGET, TAG):
  echo $TARGET $TAG

release:
  publish (REGISTRY):
    echo $REGISTRY
"#,
        "cjtasks",
    )
    .expect("parse task arguments");

    assert_eq!(parsed.task_order(), vec!["deploy", "release", "release:publish"]);
    assert_eq!(parsed.task_arguments("deploy").unwrap(), vec!["TARGET", "TAG"]);
    assert_eq!(parsed.task_arguments("release").unwrap(), Vec::<String>::new());
    assert_eq!(parsed.task_arguments("release:publish").unwrap(), vec!["REGISTRY"]);
    assert_eq!(parsed.task_lines("deploy").unwrap()[0], "echo $TARGET $TAG");
}

#[test]
fn rejects_invalid_task_argument_declarations() {
    for (source, expected) in [
        ("run ():\n  true\n", "task argument list cannot be empty"),
        ("run (FIRST SECOND):\n  true\n", "task arguments must be separated by commas"),
        ("run (VALUE, VALUE):\n  true\n", "duplicate task argument 'VALUE'"),
        ("run (bad-name):\n  true\n", "invalid task argument 'bad-name'"),
        ("run (VALUE:\n  true\n", "invalid task argument declaration"),
    ] {
        let err = parse_task_file(source, "cjtasks")
            .expect_err("invalid task argument declaration should fail");
        let text = err.to_string();
        assert!(text.contains(expected), "expected {expected:?} in {text}");
    }
}

#[test]
fn parses_version_headers_into_env_entries() {
    let parsed = parse_task_file(
        "@version cli 0.1.0\n@version lsp 0.0.1-alpha.1\nshow:\n  @echo $VERSION_CLI $VERSION_LSP\n",
        "cjtasks",
    )
    .expect("parse");

    assert_eq!(parsed.env_override("VERSION_CLI").unwrap(), "0.1.0");
    assert_eq!(parsed.env_override("VERSION_LSP").unwrap(), "0.0.1-alpha.1");
    assert_eq!(parsed.task_order(), vec!["show"]);
}

#[test]
fn version_headers_must_be_semver_without_build_metadata() {
    let leading_zero = parse_task_file("@version app 01.2.3\nrun:\n  true\n", "cjtasks")
        .expect_err("leading zeros should fail");
    assert!(leading_zero
        .to_string()
        .contains("version '01.2.3' must be semantic version"));

    let build_metadata = parse_task_file("@version app 1.2.3+build\nrun:\n  true\n", "cjtasks")
        .expect_err("build metadata should fail");
    assert!(build_metadata.to_string().contains("semantic"));
}

#[test]
fn parses_top_level_help_and_allows_help_task() {
    let parsed = parse_task_file("@help:\n  Project help.\n\nrun:\n  true\n", "cjtasks").expect("parse");
    assert_eq!(parsed.help().as_deref(), Some("Project help."));

    let parsed = parse_task_file("help:\n  ok\n", "cjtasks").expect("parse help task");
    assert_eq!(parsed.help(), None);
    assert_eq!(parsed.task_order(), vec!["help"]);
    assert_eq!(parsed.task_lines("help").unwrap()[0], "ok");
}

#[test]
fn rejects_variables_in_descriptions_and_help_text() {
    for (source, expected_line, expected_context) in [
        ("run:\n  @desc deploy $TARGET\n  true\n", "cjtasks:2", "@desc text cannot contain variables"),
        ("@help:\n  Home is ${HOME}\nrun:\n  true\n", "cjtasks:2", "@help: text cannot contain variables"),
        (
            "run:\n  @help:\n    Missing: ${NAME?fallback}\n  true\n",
            "cjtasks:3",
            "@help: text cannot contain variables",
        ),
    ] {
        let err = parse_task_file(source, "cjtasks").expect_err("metadata variables should fail");
        let message = err.to_string();
        assert!(message.contains(expected_line), "{message}");
        assert!(message.contains(expected_context), "{message}");
    }

    let parsed = parse_task_file(
        "@help:\n  Literal \\$HOME\nrun:\n  @desc Literal \\${NAME}\n  true\n",
        "cjtasks",
    )
    .expect("escaped dollars are literal metadata text");
    assert_eq!(parsed.help().as_deref(), Some("Literal $HOME"));
    assert_eq!(parsed.description("run").unwrap(), "Literal ${NAME}");
}

#[test]
fn rejects_task_groups_deeper_than_one_nested_level() {
    let err = parse_task_file("build:\n  dev:\n    fast:\n      true\n", "cjtasks")
        .expect_err("deep task group should fail");
    assert!(err.to_string().contains("limited to one level"));
}

#[test]
fn parsing_rejects_duplicate_env_entries() {
    let err = parse_task_file("@env:\n  NAME: one\n  NAME?: two\nrun:\n  echo hi\n", "cjtasks")
        .expect_err("duplicate env should fail");
    assert!(err.to_string().contains("duplicate env entry 'NAME'"));
}

#[test]
fn parses_env_as_plain_task_name() {
    let parsed = parse_task_file("env:\n  NAME: value\nrun:\n  echo hi\n", "cjtasks")
        .expect("parse env task");
    assert_eq!(parsed.task_order(), vec!["env", "run"]);
    assert_eq!(parsed.task_lines("env").unwrap()[0], "NAME: value");
}

#[test]
fn rejects_env_after_task_definitions() {
    let err = parse_task_file("run:\n  echo hi\n@env:\n  NAME: value\n", "cjtasks")
        .expect_err("@env after tasks should fail");
    assert!(err.to_string().contains("before"));
}

#[test]
fn parsing_rejects_bad_indentation() {
    let err = parse_task_file("run:\n   echo hi\n", "cjtasks").expect_err("bad indentation should fail");
    assert!(err.to_string().contains("indentation levels"));
}

#[test]
fn lib_rejects_bad_indentation() {
    let err = parse_task_file("run:\n   echo hi\n", "cjtasks").expect_err("bad indentation should fail");
    assert!(err.to_string().contains("even number of spaces"));
}

#[test]
fn accepts_tabs_when_the_file_uses_tabs_consistently() {
    let parsed = parse_task_file(
        "@env:\n\tNAME: value\nrun:\n\t@help:\n\t\tRun help.\n\t@echo $NAME\n",
        "cjtasks",
    )
    .expect("tab-indented taskfile");

    assert_eq!(parsed.env_override("NAME").unwrap(), "value");
    assert_eq!(parsed.task_help("run").unwrap(), "Run help.");
    let run = parsed.task_index(&chars("run")).unwrap();
    assert_eq!(parsed.line_at(run, 0).1, 2);
    assert_eq!(parsed.task_lines("run").unwrap()[0], "@echo $NAME");
}

#[test]
fn rejects_files_that_mix_leading_spaces_and_tabs() {
    let err = parse_task_file("run:\n  @echo spaces\n\t@echo tabs\n", "cjtasks")
        .expect_err("mixed indentation should fail");
    let message = err.to_string();
    assert!(message.contains("leading spaces and tabs"));
    assert!(message.contains("cj --format"));
}

#[test]
fn parsing_rejects_trailing_colon_directives() {
    parse_task_file("run:\n  @if true:\n    echo hi\n", "cjtasks").expect_err("directive colon should fail");
}

#[test]
fn rejects_pasted_shell_line_continuations_and_env_prefixes() {
    let continuation = parse_task_file(
        "install:\n  npm_config_runtime=electron \\\n  npm install\n",
        "cjtasks",
    )
    .expect_err("shell line continuation should fail");
    let message = continuation.to_string();
    assert!(message.contains("line continuations"));
    assert!(message.contains("@shell"));
    assert!(message.contains("@export"));

    let env_prefix = parse_task_file("install:\n  npm_config_runtime=electron npm install\n", "cjtasks")
        .expect_err("shell env prefix should fail");
    assert!(env_prefix.to_string().contains("NAME=value command prefixes"));
}

#[test]
fn lib_rejects_trailing_colon_directives() {
    let err = parse_task_file("run:\n  @if true:\n    echo hi\n", "cjtasks")
        .expect_err("directive colon should fail");
    assert!(err.to_string().contains("directives do not use trailing ':'"));
}

#[test]
fn lib_semicolons_split_same_level_expressions() {
    let parsed = parse_task_file("run:\n  @set MODE prod; @if $MODE == prod\n    true\n", "cjtasks")
        .expect("parse");
    let lines = parsed.task_lines("run").unwrap();
    assert_eq!(lines.len(), 3);
    assert_eq!(lines[0], "@set MODE prod");
    assert_eq!(lines[1], "@if $MODE == prod");
    assert_eq!(lines[2], "true");
}

#[test]
fn execution_semicolons_split_same_level_expressions() {
    let parsed = parse_task_file("run:\n  @set MODE prod; @if $MODE == prod\n    true\n", "cjtasks")
        .expect("parse");
    let lines = parsed.task_lines("run").unwrap();
    assert_eq!(lines.len(), 3);
    assert_eq!(lines[0], "@set MODE prod");
    assert_eq!(lines[1], "@if $MODE == prod");
    assert_eq!(lines[2], "true");
}

#[test]
fn rejects_parameterized_tasks_in_await() {
    let err = parse_task_file("dev:\n  @await server\nserver (PORT):\n  @echo $PORT\n", "cjtasks")
        .expect_err("parameterized awaited task should fail");
    assert!(err.to_string().contains("awaited task 'server' requires arguments"));
}

#[test]
fn rejects_help_without_colon() {
    let err = parse_task_file("run:\n  @help\n    nope\n", "cjtasks").expect_err("@help must use colon");
    assert!(err.to_string().contains("@help must use trailing ':'"));
}

#[test]
fn read_taskfiles_keep_names_distinct_and_lines_in_order() {
    let source = "@env:\n  A: 1\n  B?: 2\nbuild:\n  echo a; echo b\n  @if true\n    echo c\n  nested:\n    echo d\ntest:\n  echo e\n";
    let file = parse_task_file(source, "cjtasks").expect("parses");
    let total = source.lines().count();
    let mut names: Vec<String> = Vec::new();
    for t in 0..file.task_count() {
        let name: String = file.task_name(t).iter().collect();
        assert!(!names.contains(&name), "{name} twice");
        names.push(name);
        let mut last = 0;
        for i in 0..file.line_count(t) {
            let (line, indent, _) = file.line_at(t, i);
            assert!(indent >= 2 && indent % 2 == 0);
            assert!(1 <= line && line <= total);
            assert!(line >= last);
            last = line;
        }
    }
    assert_eq!(names, ["build", "build:nested", "test"]);
    let clash = parse_task_file("@env:\n  A: 1\n  A?: 2\nrun:\n  true\n", "cjtasks").expect_err("clash");
    assert!(clash.to_string().contains("duplicate env entry 'A'"));
}

#[test]
fn read_errors_point_at_a_line_and_lines_are_trimmed() {
    for (source, line) in [("run:\n   echo hi\n", 2), ("a:\n  true\na:\n  true\n", 3), ("run:\n  @if true:\n", 2)] {
        let err = parse_task_file(source, "dir/cjtasks").expect_err("fails");
        assert!(err.to_string().starts_with(&format!("dir/cjtasks:{line}: ")), "{}", err.to_string());
    }
    let file = parse_task_file("run:\n  echo a ;  echo b  ;\n", "cjtasks").expect("parses");
    for i in 0..file.line_count(0) {
        let (_, _, text) = file.line_at(0, i);
        let text: String = text.iter().collect();
        assert!(!text.is_empty());
        assert_eq!(text.trim(), text);
    }
}
