use cjtaskrunner::awaited::awaited_event;
use cjtaskrunner::conditions::{evaluate_condition, settle_condition};
use cjtaskrunner::file_copy::{bad_source_error, copy_dir_source, copy_target, several_sources_error, CopyInto};
use cjtaskrunner::environment::{
    activate_selected_venv, activate_venv, add_absent, apply_taskfile_env, build_effective_env, parse_dot_env,
    select_venv, venv_bin, venv_from_env,
};
use cjtaskrunner::runner::Event;
use cjtaskrunner::watch::{watch_decide, WatchAction, WatchEvent, WatchPhase};
use cjtaskrunner::runtime::{BumpKind, CwdState};
use cjtaskrunner::semver::{bump_semver, compare_semver, parse_semver, Precedence};
use cjtaskrunner::task_file::parse_task_file;
use cjtaskrunner::vars::VarMap;

fn chars(s: &str) -> Vec<char> {
    s.chars().collect()
}

fn text(v: &[char]) -> String {
    v.iter().collect()
}

fn get(map: &VarMap, key: &str) -> Option<String> {
    map.get(&chars(key)).map(|v| text(&v))
}

#[test]
fn written_versions_parse_back() {
    for value in ["0.1.0", "1.2.3-beta.1", "10.20.30-rc.1.x-y"] {
        let v = parse_semver(&chars(value)).expect("valid");
        assert_eq!(text(&v.to_chars()), value);
        let again = parse_semver(&v.to_chars()).expect("reads back");
        assert_eq!(compare_semver(&v, &again), Precedence::Equal);
    }
}

#[test]
fn bumps_follow_semantic_versioning() {
    let bump = |value: &str, op: &str, arg: Option<&str>| {
        let a = arg.map(chars);
        text(&bump_semver(&chars(value), &chars(op), a.as_ref()).expect("bump").to_chars())
    };
    assert_eq!(bump("1.2.3", "patch", None), "1.2.4");
    assert_eq!(bump("1.2.3", "minor", None), "1.3.0");
    assert_eq!(bump("1.2.3-beta.1", "major", None), "2.0.0");
    assert_eq!(bump("1.2.3-beta.1", "release", None), "1.2.3");
    assert_eq!(bump("1.2.3-beta.1", "pre", None), "1.2.3-beta.2");
    assert_eq!(bump("1.2.3", "pre", None), "1.2.3-0");
    assert_eq!(bump("0.0.1-alpha.1", "pre", Some("beta.")), "0.0.1-beta.0");
    assert_eq!(bump("0.0.1-beta.4", "pre", Some("beta.")), "0.0.1-beta.5");
    assert_eq!(bump("0.0.1", "pre", Some("rc")), "0.0.1-rc");
    assert!(bump_semver(&chars("1.2"), &chars("patch"), None).is_err());
    assert!(bump_semver(&chars("1.2.3"), &chars("sideways"), None).is_err());
}

#[test]
fn every_bump_result_reads_back() {
    for (value, op, arg) in [("1.2.3", "pre", Some("beta.")), ("9.9.9-x.7", "pre", None), ("1.0.0", "major", None)] {
        let a = arg.map(chars);
        let bumped = bump_semver(&chars(value), &chars(op), a.as_ref()).expect("bump");
        let again = parse_semver(&bumped.to_chars()).expect("reads back");
        assert_eq!(compare_semver(&bumped, &again), Precedence::Equal);
        assert_eq!(text(&again.to_chars()), text(&bumped.to_chars()));
    }
}

#[test]
fn precedence_orders_prereleases_below_releases() {
    let v = |s: &str| parse_semver(&chars(s)).expect("valid");
    assert_eq!(compare_semver(&v("1.2.3-beta.1"), &v("1.2.3")), Precedence::Less);
    assert_eq!(compare_semver(&v("1.2.3-alpha"), &v("1.2.3-beta")), Precedence::Less);
    assert_eq!(compare_semver(&v("1.2.3-2"), &v("1.2.3-10")), Precedence::Less);
    assert_eq!(compare_semver(&v("1.2.3-10"), &v("1.2.3-alpha")), Precedence::Less);
    assert_eq!(compare_semver(&v("2.0.0"), &v("1.99.99")), Precedence::Greater);
    assert!(parse_semver(&chars("01.2.3")).is_none());
    assert!(parse_semver(&chars("1.2.3+build")).is_none());
}

#[test]
fn bump_kinds_read_back_their_names() {
    for kind in [BumpKind::Major, BumpKind::Minor, BumpKind::Patch, BumpKind::Pre, BumpKind::Release] {
        assert_eq!(BumpKind::parse(&chars(kind.as_str())), Some(kind));
    }
    assert_eq!(BumpKind::parse(&chars("prerelease")), Some(BumpKind::Pre));
    assert_eq!(BumpKind::parse(&chars("huge")), None);
}

#[test]
fn back_undoes_cd_within_a_scope() {
    let mut cwd = CwdState::new(&chars("/work"));
    cwd.cd(chars("/work/sub"));
    cwd.push_scope();
    cwd.cd(chars("/work/sub/child"));
    assert_eq!(text(&cwd.current()), "/work/sub/child");
    assert_eq!(text(&cwd.scope_base()), "/work/sub");
    cwd.back();
    assert_eq!(text(&cwd.current()), "/work/sub");
    cwd.back();
    assert_eq!(text(&cwd.current()), "/work/sub");
    cwd.cd(chars("/elsewhere"));
    cwd.pop_scope();
    assert_eq!(text(&cwd.current()), "/work/sub");
    cwd.back();
    assert_eq!(text(&cwd.current()), "/work");
    cwd.back();
    assert_eq!(text(&cwd.current()), "/work");
}

#[test]
fn dot_env_and_task_env_merge_with_absent_only_fallbacks() {
    let mut env = VarMap::new();
    env.insert(chars("CJTEST_EXISTING"), chars(""));
    env.insert(chars("CJTEST_FALLBACK_EMPTY"), chars(""));
    let entries = parse_dot_env(
        "CJTEST_FROM_DOT=dot\nCJTEST_EXISTING=dot\nCJTEST_QUOTED=\"quoted value\"\n",
        ".env",
    )
    .expect(".env");
    add_absent(&mut env, &entries);
    let file = parse_task_file(
        "@env:\n  CJTEST_FALLBACK_EMPTY?: fallback\n  CJTEST_ONLY_FALLBACK?: fallback\n  CJTEST_EXISTING: override\n",
        "cjtasks",
    )
    .expect("parse");
    apply_taskfile_env(&mut env, file.overrides(), file.fallbacks());
    assert_eq!(get(&env, "CJTEST_FROM_DOT").as_deref(), Some("dot"));
    assert_eq!(get(&env, "CJTEST_EXISTING").as_deref(), Some("override"));
    assert_eq!(get(&env, "CJTEST_FALLBACK_EMPTY").as_deref(), Some(""));
    assert_eq!(get(&env, "CJTEST_ONLY_FALLBACK").as_deref(), Some("fallback"));
    assert_eq!(get(&env, "CJTEST_QUOTED").as_deref(), Some("quoted value"));
}

#[test]
fn dot_env_errors_name_the_file_and_line() {
    let err = parse_dot_env("# comment\n\nNOPE\n", "/p/.env").expect_err("missing =");
    assert_eq!(err.to_string(), "/p/.env:3: .env entry must contain '='");
    let err = parse_dot_env("1BAD=x\n", "/p/.env").expect_err("bad name");
    assert!(err.to_string().starts_with("/p/.env:1: invalid .env name '1BAD': "));
}

#[test]
fn execution_local_venv_prepends_bin_to_path() {
    let mut env = VarMap::new();
    env.insert(chars("PATH"), chars("/usr/bin"));
    assert_eq!(venv_from_env(&env), None);
    activate_venv(&mut env, &chars("/p/.venv"), &chars("/p/.venv/bin"));
    assert_eq!(get(&env, "VIRTUAL_ENV").as_deref(), Some("/p/.venv"));
    assert!(get(&env, "PATH").expect("path").starts_with("/p/.venv/bin:"));
    assert_eq!(venv_from_env(&env), Some(chars("/p/.venv")));

    let mut bare = VarMap::new();
    bare.insert(chars("CJ_VENV"), chars("/v"));
    assert_eq!(venv_from_env(&bare), Some(chars("/v")));
    activate_venv(&mut bare, &chars("/v"), &chars("/v/bin"));
    assert_eq!(get(&bare, "PATH").as_deref(), Some("/v/bin"));
}

#[test]
fn changes_since_keeps_new_and_changed_values() {
    let mut before = VarMap::new();
    before.insert(chars("A"), chars("1"));
    before.insert(chars("B"), chars("2"));
    let mut after = before.copy();
    after.insert(chars("B"), chars("3"));
    after.insert(chars("C"), chars("4"));
    let changes = after.changes_since(&before);
    assert_eq!(changes.len(), 2);
    assert_eq!(get(&changes, "A"), None);
    assert_eq!(get(&changes, "B").as_deref(), Some("3"));
    assert_eq!(get(&changes, "C").as_deref(), Some("4"));
    let mut merged = before.copy();
    merged.extend_from(&changes);
    assert_eq!(get(&merged, "A").as_deref(), Some("1"));
    assert_eq!(get(&merged, "B").as_deref(), Some("3"));
    assert_eq!(get(&merged, "C").as_deref(), Some("4"));
}

fn pairs(v: &[(&str, &str)]) -> Vec<(Vec<char>, Vec<char>)> {
    v.iter().map(|(k, x)| (chars(k), chars(x))).collect()
}

fn map_of(v: &[(&str, &str)]) -> VarMap {
    let mut m = VarMap::new();
    for (k, x) in v {
        m.insert(chars(k), chars(x));
    }
    m
}

#[test]
fn effective_env_merges_process_dot_env_and_taskfile_in_order() {
    let process = pairs(&[("HOME", "/h"), ("A", "process"), ("B", "process")]);
    let overrides = map_of(&[("B", "override")]);
    let fallbacks = map_of(&[("A", "fallback"), ("C", "fallback"), ("D", "fallback")]);
    let env = build_effective_env(
        &process,
        Some(("A=dot\nD=dot\nE='dot'\n", "/p/.env")),
        &overrides,
        &fallbacks,
    )
    .expect("env");
    assert_eq!(get(&env, "A").as_deref(), Some("process"));
    assert_eq!(get(&env, "B").as_deref(), Some("override"));
    assert_eq!(get(&env, "C").as_deref(), Some("fallback"));
    assert_eq!(get(&env, "D").as_deref(), Some("dot"));
    assert_eq!(get(&env, "E").as_deref(), Some("dot"));
    assert_eq!(get(&env, "HOME").as_deref(), Some("/h"));
    let plain = build_effective_env(&process, None, &overrides, &fallbacks).expect("no .env");
    assert_eq!(get(&plain, "D").as_deref(), Some("fallback"));
    let err = build_effective_env(&process, Some(("oops\n", "/p/.env")), &overrides, &fallbacks)
        .err()
        .expect("bad .env");
    assert!(err.to_string().starts_with("/p/.env:1: "), "{}", err.to_string());
}

#[test]
fn venv_is_named_by_the_environment_or_found_beside_the_taskfile() {
    let local = chars("/p/.venv");
    let named = map_of(&[("VIRTUAL_ENV", "/v"), ("CJ_VENV", "/c")]);
    assert_eq!(select_venv(&named, &local, true).map(|v| text(&v)).as_deref(), Some("/v"));
    let cj = map_of(&[("VIRTUAL_ENV", ""), ("CJ_VENV", "/c")]);
    assert_eq!(select_venv(&cj, &local, true).map(|v| text(&v)).as_deref(), Some("/c"));
    let none = map_of(&[]);
    assert_eq!(select_venv(&none, &local, true).map(|v| text(&v)).as_deref(), Some("/p/.venv"));
    assert!(select_venv(&none, &local, false).is_none());
    assert_eq!(text(&venv_bin(&chars("/p/.venv"))), "/p/.venv/bin");
    assert_eq!(text(&venv_bin(&chars("/p/.venv/"))), "/p/.venv/bin");
    assert_eq!(text(&venv_bin(&chars(""))), "bin");
}

#[test]
fn tooling_selected_venv_requires_bin_directory() {
    let mut env = map_of(&[("PATH", "/usr/bin")]);
    let err = activate_selected_venv(&mut env, &chars("/p/.venv"), false).err().expect("missing bin");
    assert_eq!(err.to_string(), "python virtualenv executable directory does not exist: /p/.venv/bin");
    assert_eq!(get(&env, "PATH").as_deref(), Some("/usr/bin"));
    activate_selected_venv(&mut env, &chars("/p/.venv"), true).expect("bin exists");
    assert_eq!(get(&env, "PATH").as_deref(), Some("/p/.venv/bin:/usr/bin"));
    assert_eq!(get(&env, "VIRTUAL_ENV").as_deref(), Some("/p/.venv"));
}

#[test]
fn awaited_tasks_answer_first_failure_or_first_nonzero_status() {
    let ok = awaited_event(&vec![
        Ok((0, map_of(&[("A", "1")]))),
        Ok((3, map_of(&[("B", "2"), ("A", "x")]))),
        Ok((4, map_of(&[]))),
    ]);
    match ok {
        Event::Awaited(code, exports) => {
            assert_eq!(code, 3);
            assert_eq!(get(&exports, "A").as_deref(), Some("x"));
            assert_eq!(get(&exports, "B").as_deref(), Some("2"));
        }
        _ => panic!("expected awaited"),
    }
    let failed = awaited_event(&vec![Ok((1, map_of(&[]))), Err(chars("task 'b' failed")), Err(chars("later"))]);
    match failed {
        Event::Failed(err) => assert_eq!(err.to_string(), "task 'b' failed"),
        _ => panic!("expected failure"),
    }
    match awaited_event(&vec![]) {
        Event::Awaited(code, exports) => {
            assert_eq!(code, 0);
            assert_eq!(exports.len(), 0);
        }
        _ => panic!("expected awaited"),
    }
}

#[test]
fn watch_restarts_only_after_a_change_has_settled() {
    assert!(matches!(watch_decide(WatchPhase::Watching, &WatchEvent::Changed(true)), WatchAction::Keep));
    assert!(matches!(watch_decide(WatchPhase::Watching, &WatchEvent::Changed(false)), WatchAction::Settle));
    assert!(matches!(watch_decide(WatchPhase::Settling, &WatchEvent::Changed(false)), WatchAction::Keep));
    assert!(matches!(watch_decide(WatchPhase::Settling, &WatchEvent::ActionFinished), WatchAction::Keep));
    assert!(matches!(watch_decide(WatchPhase::Settling, &WatchEvent::SettleTimeOver), WatchAction::Restart));
    assert!(matches!(watch_decide(WatchPhase::Watching, &WatchEvent::ActionFinished), WatchAction::Finish));
    assert!(matches!(watch_decide(WatchPhase::Watching, &WatchEvent::Interrupted), WatchAction::Stop));
    match watch_decide(WatchPhase::Settling, &WatchEvent::WatchFailed(chars("boom"))) {
        WatchAction::Fail(m) => assert_eq!(text(&m), "file watch failed: boom"),
        _ => panic!("expected failure"),
    }
    match watch_decide(WatchPhase::Watching, &WatchEvent::Disconnected) {
        WatchAction::Fail(m) => assert_eq!(text(&m), "file watcher stopped unexpectedly"),
        _ => panic!("expected failure"),
    }
}

#[test]
fn closing_a_scope_undoes_any_nested_cd_and_back() {
    let mut cwd = CwdState::new(&chars("/w"));
    cwd.cd(chars("/w/a"));
    cwd.push_scope();
    cwd.back();
    assert_eq!(text(&cwd.current()), "/w/a");
    cwd.cd(chars("/w/b"));
    cwd.push_scope();
    cwd.cd(chars("/w/c"));
    cwd.cd(chars("/w/d"));
    cwd.back();
    cwd.pop_scope();
    assert_eq!(text(&cwd.current()), "/w/b");
    cwd.cd(chars("/w/e"));
    cwd.pop_scope();
    assert_eq!(text(&cwd.current()), "/w/a");
    cwd.back();
    assert_eq!(text(&cwd.current()), "/w");
}

#[test]
fn copy_rules_follow_destination_and_trailing_separators() {
    let (contents, dir) = copy_dir_source(&chars("assets//"));
    assert!(contents);
    assert_eq!(text(&dir), "assets");
    let (contents, dir) = copy_dir_source(&chars("assets"));
    assert!(!contents);
    assert_eq!(text(&dir), "assets");
    assert_eq!(copy_target(true, true), CopyInto::Destination);
    assert_eq!(copy_target(false, true), CopyInto::UnderDestination);
    assert_eq!(copy_target(false, false), CopyInto::Destination);
    let err = several_sources_error(false, 2, false, 4).expect("needs a directory");
    assert_eq!(err.to_string(), "line 4: @cp destination must be a directory when copying multiple files");
    assert!(several_sources_error(true, 2, true, 4).is_none());
    assert!(several_sources_error(true, 1, false, 4).is_none());
    let err = bad_source_error(true, false, &chars("/w/x"), 7).expect("not a directory");
    assert_eq!(err.to_string(), "line 7: @cpdir source is not a directory: /w/x");
    assert!(bad_source_error(false, true, &chars("/w/x"), 7).is_none());
}

#[test]
fn not_conditions_negate_their_positive_forms() {
    let vars = map_of(&[("A", "1"), ("V", "1.2.3")]);
    let bumped = map_of(&[("V", "minor")]);
    let cases = [
        ("if", "true"),
        ("if", "a == b"),
        ("if", "a b"),
        ("if-in", "a a b"),
        ("if-exists", "out.txt"),
        ("if-set", "A"),
        ("if-set", "B"),
        ("if-version", "1.2.3 < 2.0.0"),
        ("if-bumped", ""),
        ("if-minor", "V"),
        ("if-major", "V"),
        ("if-release", "V W"),
    ];
    for (pos, args) in cases {
        let neg = format!("if-not{}", &pos[2..]);
        let p = evaluate_condition(&chars(pos), &chars(args), &vars, &bumped);
        let q = evaluate_condition(&chars(&neg), &chars(args), &vars, &bumped);
        match (p, q) {
            (Ok(p), Ok(q)) => {
                for exists in [false, true] {
                    assert_eq!(settle_condition(&q, exists), !settle_condition(&p, exists), "{pos} {args}");
                }
            }
            (Err(_), Err(_)) => {}
            _ => panic!("only one of {pos} and {neg} failed on {args:?}"),
        }
    }
}

#[test]
fn release_bumps_drop_the_prerelease() {
    for op in ["major", "minor", "patch", "release"] {
        let v = bump_semver(&chars("1.2.3-rc.1"), &chars(op), None).expect("bumps");
        assert!(!text(&v.to_chars()).contains('-'), "{op}");
    }
}
