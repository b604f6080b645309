use cjtaskrunner::formatter::format_taskfile_source;

#[test]
fn formats_taskfile_source_without_ast() {
    let source = "@env:\t\n\tNAME: value\t\ndeploy ( TARGET ,TAG ):\n   @desc build\t\n\tcargo build\t\n\n";
    let formatted = format_taskfile_source(source);
    assert_eq!(
        formatted,
        "@env:\n  NAME: value\ndeploy (TARGET, TAG):\n  @desc build\n  cargo build\n\n"
    );
}

#[test]
fn every_if_directive_has_a_matching_if_not_directive() {
    let names = cjtaskrunner::directive_info::directive_names();
    for name in &names {
        if let Some(rest) = name.strip_prefix("if-") {
            if rest.starts_with("not") {
                continue;
            }
            let negated = format!("if-not-{rest}");
            assert!(names.contains(&negated.as_str()), "{negated} is missing");
        }
    }
    assert!(names.contains(&"if-not"));
}

#[test]
fn every_listed_directive_is_described() {
    let names = cjtaskrunner::directive_info::directive_names();
    let mut seen: Vec<&str> = Vec::new();
    for name in &names {
        let chars: Vec<char> = name.chars().collect();
        assert!(cjtaskrunner::directive_info::directive_description(&chars).is_some(), "{name}");
        assert!(!seen.contains(name), "{name} listed twice");
        seen.push(name);
    }
    assert_eq!(
        cjtaskrunner::directive_info::directive_description(&"selfhelp".chars().collect()),
        Some("Show the help of the running task, then stop.")
    );
}

#[test]
fn formatting_twice_changes_nothing() {
    for source in [
        "@env:\t\n\tNAME: value\t\ndeploy ( TARGET ,TAG ):\n   @desc build\t\n\tcargo build\t\n\n",
        "build:\r\n\t\techo ok\r\n   odd:\n     true",
        "weird ( a,,b ) :\n  x ( y ):\n",
        "",
    ] {
        let once = format_taskfile_source(source);
        assert_eq!(format_taskfile_source(&once), once);
    }
    assert_eq!(format_taskfile_source("weird ( a,,b ) :\n"), "weird (a, , b):\n");
    assert_eq!(format_taskfile_source("a:\n     x\n"), "a:\n    x\n");
    assert_eq!(format_taskfile_source("a:\n x\n"), "a:\n  x\n");
}

#[test]
fn formatting_rewrites_each_plain_line_on_its_own() {
    let source = "build:\n\techo one  \n   echo two\t\n \n\t\t\t@if true\n";
    assert_eq!(
        format_taskfile_source(source),
        "build:\n  echo one\n  echo two\n\n      @if true\n"
    );
    assert_eq!(format_taskfile_source(""), "");
    assert_eq!(format_taskfile_source("x:\n y"), "x:\n  y\n");
}

#[test]
fn formatting_text_without_carriage_returns_twice_changes_nothing() {
    for source in ["build ( A ,B ):\n\t\techo $A  \n\n x\n", "", "a:\n   b\n\tc", "x:\n  y (z,  w):\n"] {
        let once = format_taskfile_source(source);
        assert_eq!(format_taskfile_source(&once), once, "{source:?}");
    }
}
