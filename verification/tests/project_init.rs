use cjtaskrunner::project_init::{
    available_task_name, import_group, json_entries, json_import_group, justfile_names,
    makefile_names, package_manager, plan_auto_import, ImportGroup, JsonDocument, JsonEntry,
};

fn chars(s: &str) -> Vec<char> {
    s.chars().collect()
}

fn strings(v: &[Vec<char>]) -> Vec<String> {
    v.iter().map(|x| x.iter().collect()).collect()
}

fn names(v: &[&str]) -> Vec<Vec<char>> {
    v.iter().map(|s| chars(s)).collect()
}

fn package_json() -> JsonDocument {
    JsonDocument::Object(vec![
        (chars("packageManager"), JsonEntry::Text(chars("pnpm@10.0.0"))),
        (
            chars("scripts"),
            JsonEntry::Object(vec![(chars("build"), true), (chars("lint:fix"), true)]),
        ),
    ])
}

fn common_groups() -> Vec<ImportGroup> {
    let pkg = json_import_group(
        "package.json",
        "/p/package.json",
        r#"{"packageManager": "pnpm@10.0.0", "scripts": {"build": "tsc", "lint:fix": "eslint --fix"}}"#,
        "scripts",
        None,
        false,
        false,
        false,
        false,
    )
    .expect("package.json");
    let deno = json_import_group(
        "deno.json",
        "/p/deno.json",
        r#"{"tasks": {"build": "deno run build.ts"}}"#,
        "tasks",
        Some("deno task"),
        false,
        false,
        false,
        false,
    )
    .expect("deno.json");
    let make = makefile_names(".PHONY: build release\nVERSION := 1\nbuild:\n\ttrue\nrelease: build\n\ttrue\n");
    let just = justfile_names("build:\n  cargo build\ndeploy target:\n  echo {{target}}\nvalue := 'x'\n");
    vec![
        pkg,
        deno,
        import_group("Makefile", "make", &make),
        import_group("Justfile", "just", &just),
    ]
}

fn group_tasks(group: &ImportGroup) -> Vec<(String, String)> {
    group.tasks.iter().map(|(b, c)| (b.iter().collect(), c.iter().collect())).collect()
}

#[test]
fn json_text_is_read_into_an_import_group() {
    let groups = common_groups();
    assert_eq!(groups[0].source.iter().collect::<String>(), "package.json");
    assert_eq!(
        group_tasks(&groups[0]),
        [
            ("build".to_string(), "pnpm run build".to_string()),
            ("lintfix".to_string(), "pnpm run lint:fix".to_string()),
        ]
    );
    assert_eq!(group_tasks(&groups[1]), [("build".to_string(), "deno task build".to_string())]);
    let yarn = json_import_group("package.json", "package.json", r#"{"scripts": {"z": "1", "a": "2"}}"#, "scripts", None, false, true, false, false)
        .expect("yarn");
    assert_eq!(
        group_tasks(&yarn),
        [("a".to_string(), "yarn run a".to_string()), ("z".to_string(), "yarn run z".to_string())]
    );
}

#[test]
fn json_text_errors_name_the_file() {
    let broken = json_import_group("package.json", "/p/package.json", "{\"scripts\": ", "scripts", None, false, false, false, false);
    let message = broken.err().expect("broken JSON").to_string();
    assert!(message.starts_with("failed to parse /p/package.json: "), "{message}");
    assert!(message.len() > "failed to parse /p/package.json: ".len());
    let list = json_import_group("deno.json", "/p/deno.json", "[1, 2]", "tasks", Some("deno task"), false, false, false, false);
    assert_eq!(list.err().expect("not an object").to_string(), "/p/deno.json must contain a top-level JSON object");
    let bad = json_import_group("deno.json", "/p/deno.json", r#"{"tasks": {"x": 1}}"#, "tasks", Some("deno task"), false, false, false, false);
    assert_eq!(bad.err().expect("number").to_string(), "/p/deno.json tasks entry 'x' must be a string");
    let none = json_import_group("deno.json", "/p/deno.json", r#"{"name": "x"}"#, "tasks", Some("deno task"), false, false, false, false)
        .expect("no tasks");
    assert!(none.tasks.is_empty());
}

#[test]
fn makefile_and_justfile_names_skip_special_entries() {
    let make = makefile_names(".PHONY: build release\nVERSION := 1\nbuild:\n\ttrue\nrelease: build\n\ttrue\n");
    assert_eq!(strings(&make), ["build", "release"]);
    let just = justfile_names("build:\n  cargo build\ndeploy target:\n  echo {{target}}\nvalue := 'x'\n");
    assert_eq!(strings(&just), ["build"]);
    let pattern = makefile_names("%.o: %.c\nall clean: \n\t@true\n# note: x\n  indented: y\n");
    assert_eq!(strings(&pattern), ["all", "clean"]);
}

#[test]
fn package_manager_follows_declaration_then_lockfiles() {
    assert_eq!(package_manager(&package_json(), false, true, false, false), "pnpm");
    let plain = JsonDocument::Object(vec![]);
    assert_eq!(package_manager(&plain, false, false, false, false), "npm");
    assert_eq!(package_manager(&plain, false, true, false, false), "yarn");
    assert_eq!(package_manager(&plain, false, false, false, true), "bun");
    assert_eq!(package_manager(&plain, true, true, false, false), "pnpm");
    let other = JsonDocument::Object(vec![(chars("packageManager"), JsonEntry::Text(chars("deno@1")))]);
    assert_eq!(package_manager(&other, false, false, false, false), "npm");
}

#[test]
fn json_entries_are_sorted_and_checked() {
    let doc = JsonDocument::Object(vec![(
        chars("scripts"),
        JsonEntry::Object(vec![(chars("zeta"), true), (chars("alpha"), true)]),
    )]);
    assert_eq!(strings(&json_entries("package.json", &doc, "scripts").unwrap()), ["alpha", "zeta"]);
    assert!(json_entries("package.json", &doc, "tasks").unwrap().is_empty());

    let not_object = json_entries("deno.json", &JsonDocument::NotObject, "tasks").unwrap_err();
    assert_eq!(not_object.to_string(), "deno.json must contain a top-level JSON object");

    let wrong = JsonDocument::Object(vec![(chars("scripts"), JsonEntry::Text(chars("x")))]);
    let err = json_entries("package.json", &wrong, "scripts").unwrap_err();
    assert_eq!(err.to_string(), "package.json 'scripts' must be an object");

    let bad_entry = JsonDocument::Object(vec![(
        chars("scripts"),
        JsonEntry::Object(vec![(chars("ok"), true), (chars("bad"), false)]),
    )]);
    let err = json_entries("package.json", &bad_entry, "scripts").unwrap_err();
    assert_eq!(err.to_string(), "package.json scripts entry 'bad' must be a string");
}

#[test]
fn import_group_normalizes_and_quotes_names() {
    let group = import_group("package.json", "npm run", &names(&["lint:fix", "a b", "$$", "x$y"]));
    let tasks: Vec<(String, String)> = group
        .tasks
        .iter()
        .map(|(b, c)| (b.iter().collect(), c.iter().collect()))
        .collect();
    assert_eq!(tasks[0], ("lintfix".to_string(), "npm run lint:fix".to_string()));
    assert_eq!(tasks[1], ("ab".to_string(), "npm run 'a b'".to_string()));
    assert_eq!(tasks[2].0, "xy");
    assert_eq!(tasks[2].1, "npm run \"x\\\\\"'$y'");
    assert_eq!(tasks.len(), 3);
}

#[test]
fn available_task_name_skips_tasks_and_directories() {
    let base = chars("build");
    assert_eq!(strings(&[available_task_name(&base, &vec![], &vec![])]), ["build"]);
    let known = names(&["build", "build2"]);
    let dirs = names(&["build3"]);
    assert_eq!(strings(&[available_task_name(&base, &known, &dirs)]), ["build4"]);
}

#[test]
fn auto_imports_common_task_systems_and_is_idempotent() {
    let groups = common_groups();
    let plan = plan_auto_import(&groups, "", "cjtasks", &vec![]).expect("plan");
    assert_eq!(plan.added, 6);
    let source = plan.updated.expect("new text");
    assert!(source.starts_with("# Imported from package.json by cj --auto\n"));
    for expected in [
        "build:\n  pnpm run build",
        "lintfix:\n  pnpm run lint:fix",
        "build2:\n  deno task build",
        "build3:\n  make build",
        "release:\n  make release",
        "build4:\n  just build",
    ] {
        assert!(source.contains(expected), "missing generated task: {expected}");
    }
    assert!(!source.contains("deploy:"));
    assert!(!source.contains("PHONY:"));

    let second = plan_auto_import(&groups, &source, "cjtasks", &vec![]).expect("second plan");
    assert_eq!(second.added, 0);
    assert!(second.updated.is_none());
    assert_eq!(second.skipped, 6);
}

#[test]
fn auto_preserves_existing_cjtasks() {
    let groups = vec![import_group("package.json", "npm run", &names(&["build", "test"]))];
    let existing = "build:\n  @echo custom build\nbuild2:\n  @echo another custom build\n";
    let plan = plan_auto_import(&groups, existing, "cjtasks", &vec![]).expect("plan");
    assert_eq!(plan.added, 2);
    let source = plan.updated.expect("new text");
    assert!(source.starts_with(existing));
    assert!(source.contains("build:\n  @echo custom build"));
    assert!(source.contains("build2:\n  @echo another custom build"));
    assert!(source.contains("build3:\n  npm run build"));
    assert!(source.contains("test:\n  npm run test"));
    assert!(source.contains("another custom build\n\n# Imported from package.json by cj --auto\n"));
}

#[test]
fn auto_requires_an_importable_task_source() {
    let groups = vec![import_group("Makefile", "make", &vec![])];
    let err = plan_auto_import(&groups, "", "cjtasks", &vec![]).err().expect("error");
    assert!(err.to_string().contains("no importable tasks found"));
    let none: Vec<ImportGroup> = vec![];
    assert!(plan_auto_import(&none, "", "cjtasks", &vec![]).is_err());
}

#[test]
fn auto_names_avoid_directories() {
    let groups = vec![import_group("Makefile", "make", &names(&["docs"]))];
    let plan = plan_auto_import(&groups, "", "cjtasks", &names(&["docs"])).expect("plan");
    assert!(plan.updated.expect("text").contains("docs2:\n  make docs\n"));
}

#[test]
fn auto_reports_a_broken_existing_taskfile() {
    let groups = vec![import_group("Makefile", "make", &names(&["docs"]))];
    let err = plan_auto_import(&groups, "broken\n", "cjtasks", &vec![]).err().expect("error");
    assert!(err.to_string().starts_with("cjtasks:1: "));
}
