use cjtaskrunner::lsp_analysis::{analyze, Analysis};
use cjtaskrunner::lsp_queries::{
    completion_kind, definition_index, document_outline, hover_text, symbol_detail,
    task_reference_at, word_at, CompletionKind,
};

fn text(v: &[char]) -> String {
    v.iter().collect()
}

fn any_message(analysis: &Analysis, needle: &str) -> bool {
    analysis.messages().iter().any(|m| m.contains(needle))
}

fn no_diagnostics(analysis: &Analysis) -> bool {
    analysis.diagnostics.is_empty()
}

#[test]
fn lsp_and_editor_outline_share_taskfile_fixture() {
    let analysis = analyze(
        "build:\n  @desc build tasks\n  dev:\n    @desc build dev assets\n    true\nhelp:\n  echo help\nenv:\n  echo env\n",
    );

    assert!(no_diagnostics(&analysis), "unexpected diagnostics: {:?}", analysis.messages());
    assert_eq!(analysis.task_order(), ["build", "build:dev", "help", "env"]);
    assert_eq!(analysis.task_description("build").as_deref(), Some("build tasks"));
    assert_eq!(analysis.task_description("build:dev").as_deref(), Some("build dev assets"));
}

#[test]
fn tests_lsp_analyzes_multiple_diagnostics_and_symbols() {
    let analysis = analyze(
        r#"@env:
  NAME: one
  NAME?: two
build:
  @task test
  @unknown
test:
  true
"#,
    );

    assert!(analysis.has_task("build"));
    assert!(analysis.has_task("test"));
    assert!(analysis.has_variable("NAME"));
    assert!(any_message(&analysis, "duplicate env entry"));
    assert!(any_message(&analysis, "unknown directive"));
}

#[test]
fn lsp_rejects_late_header_entries() {
    let analysis = analyze(
        r#"run:
  true
@env:
  NAME: value
@version cli 0.1.0
"#,
    );

    assert!(any_message(&analysis, "@env: must appear before tasks"));
    assert!(any_message(&analysis, "@version must appear before tasks"));
}

#[test]
fn lsp_allows_env_and_help_task_names() {
    let analysis = analyze(
        r#"env:
  echo env
help:
  echo help
"#,
    );

    assert!(no_diagnostics(&analysis));
    assert!(analysis.has_task("env"));
    assert!(analysis.has_task("help"));
}

#[test]
fn lsp_accepts_desc_text() {
    let analysis = analyze(
        r#"build:
  @desc build project
  true
"#,
    );

    assert!(no_diagnostics(&analysis), "unexpected diagnostics: {:?}", analysis.messages());
}

#[test]
fn lsp_accepts_help_colon_block() {
    let analysis = analyze(
        r#"@help:
  Project help.

build:
  @help:
    Build help.
  true
"#,
    );

    assert!(no_diagnostics(&analysis), "unexpected diagnostics: {:?}", analysis.messages());
}

#[test]
fn lsp_accepts_consistent_tabs_and_rejects_mixed_indentation() {
    let tabs = analyze("run:\n\t@echo tabbed\n");
    assert!(no_diagnostics(&tabs), "unexpected diagnostics: {:?}", tabs.messages());
    assert!(tabs.has_task("run"));

    let mixed = analyze("run:\n  @echo spaces\n\t@echo tabs\n");
    assert!(any_message(&mixed, "cj --format"));
}

#[test]
fn lsp_guides_pasted_shell_line_continuations_and_env_prefixes() {
    let analysis = analyze(
        "install:\n  npm_config_runtime=electron \\\n  npm_config_target=9.4.4 \\\n  npm install\ncheck:\n  RUST_LOG=debug cargo test\n",
    );

    let messages = analysis.messages();
    assert!(messages.iter().any(|message| message.contains("line continuations")));
    assert!(messages.iter().any(|message| message.contains("NAME=value command prefixes")));
    assert!(messages
        .iter()
        .all(|message| message.contains("@shell") && message.contains("@export")));
}

#[test]
fn lsp_rejects_variables_in_descriptions_and_help_text() {
    let analysis = analyze(
        r#"@help:
  Home is $HOME
build:
  @desc build $TARGET
  @help:
    Missing: ${NAME?fallback}
  true
literal:
  @desc Literal \${NAME}
  @help:
    Literal \$HOME
  true
"#,
    );

    let messages = analysis.messages();
    assert_eq!(
        messages
            .iter()
            .filter(|message| message.contains("text cannot contain variables"))
            .count(),
        3
    );
    assert!(!analysis.has_variable("HOME"));
    assert!(!analysis.has_variable("TARGET"));
    assert!(!analysis.has_variable("NAME"));
    assert_eq!(analysis.task_description("literal").as_deref(), Some("Literal ${NAME}"));
}

#[test]
fn lsp_accepts_selfhelp_directive() {
    let analysis = analyze(
        r#"cli:
  @desc cli commands
  @help:
    CLI help.
  @selfhelp
"#,
    );

    assert!(no_diagnostics(&analysis), "unexpected diagnostics: {:?}", analysis.messages());
}

#[test]
fn lsp_validates_if_membership_conditions() {
    let valid = analyze(
        r#"run:
  @if-in $TARGET linux "mac os" windows
    true
  @if-not-in staging dev prod
    true
"#,
    );
    assert!(no_diagnostics(&valid), "unexpected diagnostics: {:?}", valid.messages());

    let invalid = analyze(
        r#"run:
  @if-in prod
    true
"#,
    );
    assert!(any_message(&invalid, "@if-in expects '<needle> <candidate>...'"));
}

#[test]
fn lsp_analyzes_nested_task_blocks() {
    let analysis = analyze(
        r#"build:
  @desc build tasks
  dev:
    @desc build development assets
    true
"#,
    );

    assert!(no_diagnostics(&analysis), "unexpected diagnostics: {:?}", analysis.messages());
    assert!(analysis.has_task("build"));
    assert!(analysis.has_task("build:dev"));
    assert_eq!(analysis.task_description("build").as_deref(), Some("build tasks"));
    assert_eq!(
        analysis.task_description("build:dev").as_deref(),
        Some("build development assets")
    );
}

#[test]
fn lsp_analyzes_task_arguments_without_changing_symbol_names() {
    let analysis = analyze(
        r#"deploy (TARGET, TAG):
  @desc deploy a release
  true
release:
  publish (REGISTRY):
    true
"#,
    );

    assert!(no_diagnostics(&analysis), "unexpected diagnostics: {:?}", analysis.messages());
    assert!(analysis.has_task("deploy"));
    assert!(analysis.has_task("release:publish"));
    assert!(analysis.has_variable("TARGET"));
    assert!(analysis.has_variable("TAG"));
    assert!(analysis.has_variable("REGISTRY"));

    let symbols = document_outline(&analysis);
    assert_eq!(analysis.task_name(symbols[0].0), "deploy");
    assert_eq!(analysis.task_name(symbols[1].0), "release");
    assert_eq!(analysis.task_name(symbols[1].1[0]), "release:publish");
}

#[test]
fn lsp_reports_invalid_task_argument_declarations() {
    let analysis = analyze(
        r#"bad (FIRST SECOND):
  true
duplicate (VALUE, VALUE):
  true
"#,
    );

    assert!(any_message(&analysis, "task arguments must be separated by commas"));
    assert!(any_message(&analysis, "duplicate task argument 'VALUE'"));
}

#[test]
fn lsp_rejects_task_groups_deeper_than_one_nested_level() {
    let analysis = analyze(
        r#"build:
  dev:
    fast:
      true
"#,
    );

    assert!(any_message(&analysis, "limited to one level"));
}

#[test]
fn lsp_document_symbols_are_nested_and_span_task_blocks() {
    let analysis = analyze(
        r#"build:
  @desc build tasks
  dev:
    @desc build development assets
    true
  docs:
    @desc build docs
    true
test:
  true
"#,
    );
    let symbols = document_outline(&analysis);

    assert_eq!(symbols.len(), 2);
    let build = &analysis.tasks[symbols[0].0];
    assert_eq!(analysis.task_name(symbols[0].0), "build");
    assert_eq!(build.line, 0);
    assert_eq!(build.end_line, 8);
    let children = &symbols[0].1;
    assert_eq!(children.len(), 2);
    let dev = &analysis.tasks[children[0]];
    assert_eq!(analysis.task_name(children[0]), "build:dev");
    assert_eq!(dev.line, 2);
    assert_eq!(dev.end_line, 5);
    let docs = &analysis.tasks[children[1]];
    assert_eq!(analysis.task_name(children[1]), "build:docs");
    assert_eq!(docs.line, 5);
    assert_eq!(docs.end_line, 8);
    assert_eq!(analysis.task_name(symbols[1].0), "test");
    assert!(symbols[1].1.is_empty());
}

#[test]
fn lsp_accepts_version_headers_and_bump_directives() {
    let analysis = analyze(
        r#"@version cli 0.1.0
@version lsp 0.0.1-alpha.1
bump:
  @patch cli
  @set NAME cli
  @patch $NAME
  @pre lsp beta.
  @if-bumped
    @echo bumped
  @if-not-bumped
    @echo none
  @if-patch cli
    @echo bumped level
  @if-not-patch lsp
    @echo lsp was not patched
  @if-not-version cli < 0.1.0
    @echo cli is not below 0.1.0
  @echo $VERSION_CLI $VERSION_LSP
"#,
    );

    assert!(no_diagnostics(&analysis), "unexpected diagnostics: {:?}", analysis.messages());
    assert!(analysis.has_variable("VERSION_CLI"));
    assert!(analysis.has_variable("VERSION_LSP"));
    assert!(analysis.has_variable("NAME"));
}

#[test]
fn diagnostics_carry_line_and_byte_columns() {
    let analysis = analyze("run:\n  @bogus x\n");
    assert_eq!(analysis.diagnostics.len(), 1);
    let d = &analysis.diagnostics[0];
    assert_eq!(d.line, 1);
    assert_eq!(d.start, 2);
    assert_eq!(d.end, 2 + "@bogus".len());
    assert_eq!(text(&d.message), "unknown directive @bogus");
}

#[test]
fn mixed_indentation_yields_only_that_diagnostic() {
    let analysis = analyze("run:\n  @echo a\n\t@bogus\n");
    assert_eq!(analysis.diagnostics.len(), 1);
    assert_eq!(analysis.diagnostics[0].line, 2);
    assert_eq!(analysis.diagnostics[0].end, 1);
    assert!(analysis.tasks.is_empty());
}

#[test]
fn arity_errors_name_the_directive() {
    let analysis = analyze("run:\n  @cd\n  @task\n  @back now\n");
    let messages = analysis.messages();
    assert!(messages.contains(&"@cd expects exactly 1 argument".to_string()));
    assert!(messages.contains(&"@task expects at least 1 argument(s)".to_string()));
    assert!(messages.contains(&"@back does not take arguments".to_string()));
}

#[test]
fn task_block_runs_to_the_end_of_the_document() {
    let analysis = analyze("only:\n  true\n  true");
    assert_eq!(analysis.tasks[0].end_line, 2);
    assert_eq!(analysis.tasks[0].end_character, 6);
}

#[test]
fn word_hover_and_references_follow_the_cursor() {
    let doc = "build:\n  @task test now\ntest:\n  @echo hi\n";
    assert_eq!(word_at(doc, 1, 4).map(|w| text(&w)).as_deref(), Some("@task"));
    assert_eq!(word_at(doc, 1, 2).map(|w| text(&w)).as_deref(), Some("@task"));
    assert_eq!(word_at(doc, 9, 0), None);
    let hover = hover_text(doc, 3, 3).map(|h| text(&h)).expect("hover");
    assert!(hover.starts_with("`@echo`\n\n"));
    assert_eq!(task_reference_at(doc, 1, 9).map(|n| text(&n)).as_deref(), Some("test"));
    assert_eq!(task_reference_at(doc, 1, 14), None);
    let analysis = analyze(doc);
    assert_eq!(definition_index(&analysis, doc, 1, 10), Some(1));
    assert_eq!(completion_kind(doc, 1, 8), CompletionKind::Tasks);
    assert_eq!(completion_kind("run:\n  echo $H\n", 1, 9), CompletionKind::Variables);
    assert_eq!(completion_kind("run:\n  @ec\n", 1, 5), CompletionKind::Directives);
}

#[test]
fn outline_details_show_description_or_arguments() {
    let analysis = analyze("a (X, Y):\n  true\nb:\n  @desc the b task\n  true\nc:\n  true\n");
    assert_eq!(text(&symbol_detail(&analysis.tasks[0])), "(X, Y)");
    assert_eq!(text(&symbol_detail(&analysis.tasks[1])), "the b task");
    assert_eq!(text(&symbol_detail(&analysis.tasks[2])), "task");
}

#[test]
fn analysis_keeps_task_names_distinct_and_diagnostics_on_text_lines() {
    let text = "build:\n  @nope\nbuild:\n   echo x\nrun:\n  @if\n";
    let analysis = analyze(text);
    let names: Vec<String> = analysis.tasks.iter().map(|t| t.name.iter().collect()).collect();
    let mut unique = names.clone();
    unique.sort();
    unique.dedup();
    assert_eq!(names.len(), unique.len());
    assert!(!analysis.diagnostics.is_empty());
    let count = text.lines().count();
    for d in &analysis.diagnostics {
        assert!(d.line < count);
    }
}
