//! What each directive does and what arguments it takes, for listings,
//! hovers and completions.
use vstd::prelude::*;

use crate::text::chars_eq_str;

verus! {

/// The arguments a directive takes.
#[derive(Clone, Copy, Debug, PartialEq, Eq, Structural)]
pub enum ArgumentRule {
    Any,
    NoArguments,
    AtLeast(usize),
    Exactly(usize),
    Variable,
    SetValue,
    Export,
    IfCondition,
    IfInCondition,
    VersionCondition,
    BumpedCondition,
    BumpKindCondition,
    VersionBump,
    PreBump,
}

/// A directive: its name (without `@`), what it does, its arguments.
#[derive(Clone, Copy, Debug)]
pub struct DirectiveInfo {
    pub name: &'static str,
    pub description: &'static str,
    pub arguments: ArgumentRule,
}

/// The description and argument rule of the directive called `name`.
pub open spec fn directive_spec(name: Seq<char>) -> Option<(Seq<char>, ArgumentRule)> {
    if name == "shell"@ {
        Some(("Run command through /bin/sh -c on Unix."@, ArgumentRule::Any))
    } else if name == "open"@ {
        Some(("Open a URL with the system browser."@, ArgumentRule::Exactly(1)))
    } else if name == "task"@ {
        Some(("Run another task from same taskfile."@, ArgumentRule::AtLeast(1)))
    } else if name == "await"@ {
        Some(("Run tasks in parallel, then optionally run a success block."@, ArgumentRule::AtLeast(1)))
    } else if name == "watch"@ {
        Some(("Run one line and restart it after watched paths change."@, ArgumentRule::AtLeast(1)))
    } else if name == "desc"@ {
        Some(("Describe task for listings and editor task views."@, ArgumentRule::Any))
    } else if name == "help:"@ {
        Some(("Document task help text."@, ArgumentRule::NoArguments))
    } else if name == "env:"@ {
        Some(("Declare top-level taskfile environment entries."@, ArgumentRule::NoArguments))
    } else if name == "selfhelp"@ {
        Some(("Show the help of the running task, then stop."@, ArgumentRule::NoArguments))
    } else if name == "cd"@ {
        Some(("Change working directory for current scope."@, ArgumentRule::Exactly(1)))
    } else if name == "back"@ {
        Some(("Undo one @cd within current scope."@, ArgumentRule::NoArguments))
    } else if name == "echo"@ {
        Some(("Write text plus newline to stdout."@, ArgumentRule::Any))
    } else if name == "clean"@ {
        Some(("Remove file or directory relative to current working directory."@, ArgumentRule::Exactly(1)))
    } else if name == "mkdir"@ {
        Some(("Create one or more directories."@, ArgumentRule::AtLeast(1)))
    } else if name == "cp"@ {
        Some(("Copy one or more files."@, ArgumentRule::AtLeast(2)))
    } else if name == "cpdir"@ {
        Some(("Copy one or more directories."@, ArgumentRule::AtLeast(2)))
    } else if name == "rename"@ {
        Some(("Rename a file or directory without moving it."@, ArgumentRule::Exactly(2)))
    } else if name == "stop"@ {
        Some(("Write optional text, then stop with status 1."@, ArgumentRule::Any))
    } else if name == "set"@ {
        Some(("Set runtime variable, or capture block stdout with @set NAME:."@, ArgumentRule::SetValue))
    } else if name == "export"@ {
        Some(("Export variable to later child processes."@, ArgumentRule::Export))
    } else if name == "unset"@ {
        Some(("Remove runtime variable and export overlay."@, ArgumentRule::Variable))
    } else if name == "version"@ {
        Some(("Declare a top-level taskfile version header."@, ArgumentRule::Exactly(2)))
    } else if name == "patch"@ {
        Some(("Patch a taskfile @version header."@, ArgumentRule::VersionBump))
    } else if name == "minor"@ {
        Some(("Minor-bump a taskfile @version header."@, ArgumentRule::VersionBump))
    } else if name == "major"@ {
        Some(("Major-bump a taskfile @version header."@, ArgumentRule::VersionBump))
    } else if name == "pre"@ {
        Some(("Prerelease-bump a taskfile @version header."@, ArgumentRule::PreBump))
    } else if name == "release"@ {
        Some(("Release a taskfile @version header."@, ArgumentRule::VersionBump))
    } else if name == "return"@ {
        Some(("Return a derived status, or return block status."@, ArgumentRule::Any))
    } else if name == "success"@ {
        Some(("Return status 0."@, ArgumentRule::NoArguments))
    } else if name == "fail"@ {
        Some(("Return status 1."@, ArgumentRule::NoArguments))
    } else if name == "and"@ {
        Some(("Run block when previous expression returned 0."@, ArgumentRule::NoArguments))
    } else if name == "or"@ {
        Some(("Run block when previous expression returned non-zero."@, ArgumentRule::NoArguments))
    } else if name == "if"@ {
        Some(("Run block when a value is truthy, equal, or unequal."@, ArgumentRule::IfCondition))
    } else if name == "if-not"@ {
        Some(("Run block when an @if condition would be false."@, ArgumentRule::IfCondition))
    } else if name == "if-in"@ {
        Some(("Run block when a value is in a list."@, ArgumentRule::IfInCondition))
    } else if name == "if-not-in"@ {
        Some(("Run block when a value is not in a list."@, ArgumentRule::IfInCondition))
    } else if name == "else"@ {
        Some(("Else block for matching @if."@, ArgumentRule::NoArguments))
    } else if name == "if-exists"@ {
        Some(("Run block when path exists."@, ArgumentRule::Exactly(1)))
    } else if name == "if-not-exists"@ {
        Some(("Run block when path does not exist."@, ArgumentRule::Exactly(1)))
    } else if name == "if-set"@ {
        Some(("Run block when variable is set."@, ArgumentRule::Variable))
    } else if name == "if-not-set"@ {
        Some(("Run block when variable is not set."@, ArgumentRule::Variable))
    } else if name == "if-version"@ {
        Some(("Run block when a taskfile version condition matches."@, ArgumentRule::VersionCondition))
    } else if name == "if-not-version"@ {
        Some(("Run block when a taskfile version condition does not match."@, ArgumentRule::VersionCondition))
    } else if name == "if-bumped"@ {
        Some(("Run block when a version was bumped in this invocation."@, ArgumentRule::BumpedCondition))
    } else if name == "if-not-bumped"@ {
        Some(("Run block when a version was not bumped in this invocation."@, ArgumentRule::BumpedCondition))
    } else if name == "if-patch"@ {
        Some(("Run block when a version received a patch bump in this invocation."@, ArgumentRule::BumpKindCondition))
    } else if name == "if-not-patch"@ {
        Some(("Run block when a version did not receive a patch bump in this invocation."@, ArgumentRule::BumpKindCondition))
    } else if name == "if-minor"@ {
        Some(("Run block when a version received a minor bump in this invocation."@, ArgumentRule::BumpKindCondition))
    } else if name == "if-not-minor"@ {
        Some(("Run block when a version did not receive a minor bump in this invocation."@, ArgumentRule::BumpKindCondition))
    } else if name == "if-major"@ {
        Some(("Run block when a version received a major bump in this invocation."@, ArgumentRule::BumpKindCondition))
    } else if name == "if-not-major"@ {
        Some(("Run block when a version did not receive a major bump in this invocation."@, ArgumentRule::BumpKindCondition))
    } else if name == "if-pre"@ {
        Some(("Run block when a version received a prerelease bump in this invocation."@, ArgumentRule::BumpKindCondition))
    } else if name == "if-not-pre"@ {
        Some(("Run block when a version did not receive a prerelease bump in this invocation."@, ArgumentRule::BumpKindCondition))
    } else if name == "if-release"@ {
        Some(("Run block when a version received a release bump in this invocation."@, ArgumentRule::BumpKindCondition))
    } else if name == "if-not-release"@ {
        Some(("Run block when a version did not receive a release bump in this invocation."@, ArgumentRule::BumpKindCondition))
    } else if name == "switch"@ {
        Some(("Switch on one value."@, ArgumentRule::Exactly(1)))
    } else if name == "case"@ {
        Some(("Case inside @switch."@, ArgumentRule::Exactly(1)))
    } else if name == "default"@ {
        Some(("Default case inside @switch."@, ArgumentRule::NoArguments))
    } else {
        None
    }
}

/// Looks up a directive by name.
pub fn directive(name: &Vec<char>) -> (r: Option<DirectiveInfo>)
    ensures
        match r {
            Some(info) => directive_spec(name@) == Some((info.description@, info.arguments))
                && info.name@ == name@,
            None => directive_spec(name@) is None,
        },
{
    if chars_eq_str(name, "shell") {
        return Some(DirectiveInfo { name: "shell", description: "Run command through /bin/sh -c on Unix.", arguments: ArgumentRule::Any });
    }
    if chars_eq_str(name, "open") {
        return Some(DirectiveInfo { name: "open", description: "Open a URL with the system browser.", arguments: ArgumentRule::Exactly(1) });
    }
    if chars_eq_str(name, "task") {
        return Some(DirectiveInfo { name: "task", description: "Run another task from same taskfile.", arguments: ArgumentRule::AtLeast(1) });
    }
    if chars_eq_str(name, "await") {
        return Some(DirectiveInfo { name: "await", description: "Run tasks in parallel, then optionally run a success block.", arguments: ArgumentRule::AtLeast(1) });
    }
    if chars_eq_str(name, "watch") {
        return Some(DirectiveInfo { name: "watch", description: "Run one line and restart it after watched paths change.", arguments: ArgumentRule::AtLeast(1) });
    }
    if chars_eq_str(name, "desc") {
        return Some(DirectiveInfo { name: "desc", description: "Describe task for listings and editor task views.", arguments: ArgumentRule::Any });
    }
    if chars_eq_str(name, "help:") {
        return Some(DirectiveInfo { name: "help:", description: "Document task help text.", arguments: ArgumentRule::NoArguments });
    }
    if chars_eq_str(name, "env:") {
        return Some(DirectiveInfo { name: "env:", description: "Declare top-level taskfile environment entries.", arguments: ArgumentRule::NoArguments });
    }
    if chars_eq_str(name, "selfhelp") {
        return Some(DirectiveInfo { name: "selfhelp", description: "Show the help of the running task, then stop.", arguments: ArgumentRule::NoArguments });
    }
    if chars_eq_str(name, "cd") {
        return Some(DirectiveInfo { name: "cd", description: "Change working directory for current scope.", arguments: ArgumentRule::Exactly(1) });
    }
    if chars_eq_str(name, "back") {
        return Some(DirectiveInfo { name: "back", description: "Undo one @cd within current scope.", arguments: ArgumentRule::NoArguments });
    }
    if chars_eq_str(name, "echo") {
        return Some(DirectiveInfo { name: "echo", description: "Write text plus newline to stdout.", arguments: ArgumentRule::Any });
    }
    if chars_eq_str(name, "clean") {
        return Some(DirectiveInfo { name: "clean", description: "Remove file or directory relative to current working directory.", arguments: ArgumentRule::Exactly(1) });
    }
    if chars_eq_str(name, "mkdir") {
        return Some(DirectiveInfo { name: "mkdir", description: "Create one or more directories.", arguments: ArgumentRule::AtLeast(1) });
    }
    if chars_eq_str(name, "cp") {
        return Some(DirectiveInfo { name: "cp", description: "Copy one or more files.", arguments: ArgumentRule::AtLeast(2) });
    }
    if chars_eq_str(name, "cpdir") {
        return Some(DirectiveInfo { name: "cpdir", description: "Copy one or more directories.", arguments: ArgumentRule::AtLeast(2) });
    }
    if chars_eq_str(name, "rename") {
        return Some(DirectiveInfo { name: "rename", description: "Rename a file or directory without moving it.", arguments: ArgumentRule::Exactly(2) });
    }
    if chars_eq_str(name, "stop") {
        return Some(DirectiveInfo { name: "stop", description: "Write optional text, then stop with status 1.", arguments: ArgumentRule::Any });
    }
    if chars_eq_str(name, "set") {
        return Some(DirectiveInfo { name: "set", description: "Set runtime variable, or capture block stdout with @set NAME:.", arguments: ArgumentRule::SetValue });
    }
    if chars_eq_str(name, "export") {
        return Some(DirectiveInfo { name: "export", description: "Export variable to later child processes.", arguments: ArgumentRule::Export });
    }
    if chars_eq_str(name, "unset") {
        return Some(DirectiveInfo { name: "unset", description: "Remove runtime variable and export overlay.", arguments: ArgumentRule::Variable });
    }
    if chars_eq_str(name, "version") {
        return Some(DirectiveInfo { name: "version", description: "Declare a top-level taskfile version header.", arguments: ArgumentRule::Exactly(2) });
    }
    if chars_eq_str(name, "patch") {
        return Some(DirectiveInfo { name: "patch", description: "Patch a taskfile @version header.", arguments: ArgumentRule::VersionBump });
    }
    if chars_eq_str(name, "minor") {
        return Some(DirectiveInfo { name: "minor", description: "Minor-bump a taskfile @version header.", arguments: ArgumentRule::VersionBump });
    }
    if chars_eq_str(name, "major") {
        return Some(DirectiveInfo { name: "major", description: "Major-bump a taskfile @version header.", arguments: ArgumentRule::VersionBump });
    }
    if chars_eq_str(name, "pre") {
        return Some(DirectiveInfo { name: "pre", description: "Prerelease-bump a taskfile @version header.", arguments: ArgumentRule::PreBump });
    }
    if chars_eq_str(name, "release") {
        return Some(DirectiveInfo { name: "release", description: "Release a taskfile @version header.", arguments: ArgumentRule::VersionBump });
    }
    if chars_eq_str(name, "return") {
        return Some(DirectiveInfo { name: "return", description: "Return a derived status, or return block status.", arguments: ArgumentRule::Any });
    }
    if chars_eq_str(name, "success") {
        return Some(DirectiveInfo { name: "success", description: "Return status 0.", arguments: ArgumentRule::NoArguments });
    }
    if chars_eq_str(name, "fail") {
        return Some(DirectiveInfo { name: "fail", description: "Return status 1.", arguments: ArgumentRule::NoArguments });
    }
    if chars_eq_str(name, "and") {
        return Some(DirectiveInfo { name: "and", description: "Run block when previous expression returned 0.", arguments: ArgumentRule::NoArguments });
    }
    if chars_eq_str(name, "or") {
        return Some(DirectiveInfo { name: "or", description: "Run block when previous expression returned non-zero.", arguments: ArgumentRule::NoArguments });
    }
    if chars_eq_str(name, "if") {
        return Some(DirectiveInfo { name: "if", description: "Run block when a value is truthy, equal, or unequal.", arguments: ArgumentRule::IfCondition });
    }
    if chars_eq_str(name, "if-not") {
        return Some(DirectiveInfo { name: "if-not", description: "Run block when an @if condition would be false.", arguments: ArgumentRule::IfCondition });
    }
    if chars_eq_str(name, "if-in") {
        return Some(DirectiveInfo { name: "if-in", description: "Run block when a value is in a list.", arguments: ArgumentRule::IfInCondition });
    }
    if chars_eq_str(name, "if-not-in") {
        return Some(DirectiveInfo { name: "if-not-in", description: "Run block when a value is not in a list.", arguments: ArgumentRule::IfInCondition });
    }
    if chars_eq_str(name, "else") {
        return Some(DirectiveInfo { name: "else", description: "Else block for matching @if.", arguments: ArgumentRule::NoArguments });
    }
    if chars_eq_str(name, "if-exists") {
        return Some(DirectiveInfo { name: "if-exists", description: "Run block when path exists.", arguments: ArgumentRule::Exactly(1) });
    }
    if chars_eq_str(name, "if-not-exists") {
        return Some(DirectiveInfo { name: "if-not-exists", description: "Run block when path does not exist.", arguments: ArgumentRule::Exactly(1) });
    }
    if chars_eq_str(name, "if-set") {
        return Some(DirectiveInfo { name: "if-set", description: "Run block when variable is set.", arguments: ArgumentRule::Variable });
    }
    if chars_eq_str(name, "if-not-set") {
        return Some(DirectiveInfo { name: "if-not-set", description: "Run block when variable is not set.", arguments: ArgumentRule::Variable });
    }
    if chars_eq_str(name, "if-version") {
        return Some(DirectiveInfo { name: "if-version", description: "Run block when a taskfile version condition matches.", arguments: ArgumentRule::VersionCondition });
    }
    if chars_eq_str(name, "if-not-version") {
        return Some(DirectiveInfo { name: "if-not-version", description: "Run block when a taskfile version condition does not match.", arguments: ArgumentRule::VersionCondition });
    }
    if chars_eq_str(name, "if-bumped") {
        return Some(DirectiveInfo { name: "if-bumped", description: "Run block when a version was bumped in this invocation.", arguments: ArgumentRule::BumpedCondition });
    }
    if chars_eq_str(name, "if-not-bumped") {
        return Some(DirectiveInfo { name: "if-not-bumped", description: "Run block when a version was not bumped in this invocation.", arguments: ArgumentRule::BumpedCondition });
    }
    if chars_eq_str(name, "if-patch") {
        return Some(DirectiveInfo { name: "if-patch", description: "Run block when a version received a patch bump in this invocation.", arguments: ArgumentRule::BumpKindCondition });
    }
    if chars_eq_str(name, "if-not-patch") {
        return Some(DirectiveInfo { name: "if-not-patch", description: "Run block when a version did not receive a patch bump in this invocation.", arguments: ArgumentRule::BumpKindCondition });
    }
    if chars_eq_str(name, "if-minor") {
        return Some(DirectiveInfo { name: "if-minor", description: "Run block when a version received a minor bump in this invocation.", arguments: ArgumentRule::BumpKindCondition });
    }
    if chars_eq_str(name, "if-not-minor") {
        return Some(DirectiveInfo { name: "if-not-minor", description: "Run block when a version did not receive a minor bump in this invocation.", arguments: ArgumentRule::BumpKindCondition });
    }
    if chars_eq_str(name, "if-major") {
        return Some(DirectiveInfo { name: "if-major", description: "Run block when a version received a major bump in this invocation.", arguments: ArgumentRule::BumpKindCondition });
    }
    if chars_eq_str(name, "if-not-major") {
        return Some(DirectiveInfo { name: "if-not-major", description: "Run block when a version did not receive a major bump in this invocation.", arguments: ArgumentRule::BumpKindCondition });
    }
    if chars_eq_str(name, "if-pre") {
        return Some(DirectiveInfo { name: "if-pre", description: "Run block when a version received a prerelease bump in this invocation.", arguments: ArgumentRule::BumpKindCondition });
    }
    if chars_eq_str(name, "if-not-pre") {
        return Some(DirectiveInfo { name: "if-not-pre", description: "Run block when a version did not receive a prerelease bump in this invocation.", arguments: ArgumentRule::BumpKindCondition });
    }
    if chars_eq_str(name, "if-release") {
        return Some(DirectiveInfo { name: "if-release", description: "Run block when a version received a release bump in this invocation.", arguments: ArgumentRule::BumpKindCondition });
    }
    if chars_eq_str(name, "if-not-release") {
        return Some(DirectiveInfo { name: "if-not-release", description: "Run block when a version did not receive a release bump in this invocation.", arguments: ArgumentRule::BumpKindCondition });
    }
    if chars_eq_str(name, "switch") {
        return Some(DirectiveInfo { name: "switch", description: "Switch on one value.", arguments: ArgumentRule::Exactly(1) });
    }
    if chars_eq_str(name, "case") {
        return Some(DirectiveInfo { name: "case", description: "Case inside @switch.", arguments: ArgumentRule::Exactly(1) });
    }
    if chars_eq_str(name, "default") {
        return Some(DirectiveInfo { name: "default", description: "Default case inside @switch.", arguments: ArgumentRule::NoArguments });
    }
    None
}

/// What the directive called `name` does.
pub fn directive_description(name: &Vec<char>) -> (r: Option<&'static str>)
    ensures
        match r {
            Some(d) => directive_spec(name@) matches Some((desc, _)) && desc == d@,
            None => directive_spec(name@) is None,
        },
{
    match directive(name) {
        Some(info) => {
            assert(directive_spec(name@) == Some((info.description@, info.arguments)));
            Some(info.description)
        },
        None => None,
    }
}

/// The names of the directives, in the order of the directive reference.
pub open spec fn directive_name_list() -> Seq<Seq<char>> {
    seq!["shell"@, "open"@, "task"@, "await"@, "watch"@, "desc"@, "help:"@, "env:"@, "selfhelp"@, "cd"@, "back"@, "echo"@, "clean"@, "mkdir"@, "cp"@, "cpdir"@, "rename"@, "stop"@, "set"@, "export"@, "unset"@, "version"@, "patch"@, "minor"@, "major"@, "pre"@, "release"@, "return"@, "success"@, "fail"@, "and"@, "or"@, "if"@, "if-not"@, "if-in"@, "if-not-in"@, "else"@, "if-exists"@, "if-not-exists"@, "if-set"@, "if-not-set"@, "if-version"@, "if-not-version"@, "if-bumped"@, "if-not-bumped"@, "if-patch"@, "if-not-patch"@, "if-minor"@, "if-not-minor"@, "if-major"@, "if-not-major"@, "if-pre"@, "if-not-pre"@, "if-release"@, "if-not-release"@, "switch"@, "case"@, "default"@]
}

/// Every directive name, in the order of the directive reference.
pub fn directive_names() -> (r: Vec<&'static str>)
    ensures
        r@.map_values(|n: &str| n@) == directive_name_list(),
{
    let mut r: Vec<&'static str> = Vec::new();
    r.push("shell");
    r.push("open");
    r.push("task");
    r.push("await");
    r.push("watch");
    r.push("desc");
    r.push("help:");
    r.push("env:");
    r.push("selfhelp");
    r.push("cd");
    r.push("back");
    r.push("echo");
    r.push("clean");
    r.push("mkdir");
    r.push("cp");
    r.push("cpdir");
    r.push("rename");
    r.push("stop");
    r.push("set");
    r.push("export");
    r.push("unset");
    r.push("version");
    r.push("patch");
    r.push("minor");
    r.push("major");
    r.push("pre");
    r.push("release");
    r.push("return");
    r.push("success");
    r.push("fail");
    r.push("and");
    r.push("or");
    r.push("if");
    r.push("if-not");
    r.push("if-in");
    r.push("if-not-in");
    r.push("else");
    r.push("if-exists");
    r.push("if-not-exists");
    r.push("if-set");
    r.push("if-not-set");
    r.push("if-version");
    r.push("if-not-version");
    r.push("if-bumped");
    r.push("if-not-bumped");
    r.push("if-patch");
    r.push("if-not-patch");
    r.push("if-minor");
    r.push("if-not-minor");
    r.push("if-major");
    r.push("if-not-major");
    r.push("if-pre");
    r.push("if-not-pre");
    r.push("if-release");
    r.push("if-not-release");
    r.push("switch");
    r.push("case");
    r.push("default");
    assert(r@.map_values(|n: &str| n@) =~= directive_name_list());
    r
}

} // verus!
