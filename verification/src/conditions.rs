//! The conditions of `@if` and its relatives, decided on the interpolated
//! arguments, the variables and the versions bumped so far. A condition on
//! the file system comes back as the path to look at.
use vstd::prelude::*;

use crate::command_text::{interpolate_argv, interpolate_argv_spec};
use crate::error::{line_prefixed_text, CjError};
use crate::names::{env_name_error, validate_env_name, version_env_key, version_env_key_spec};
use crate::runtime::{bump_kind_of, BumpKind};
use crate::semver::{
    compare_semver, failure_message, parse_semver, parse_semver_spec, precedence, Precedence,
    SemverModel,
    SemverError, SemverFailure,
};
use crate::task_header::{wrap, wrap_msg};
use crate::text::{
    append_str, chars_eq, chars_eq_ignore_ascii_case, chars_eq_str, eq_ignore_ascii_case,
    str_chars, subvec,
};
use crate::vars::VarMap;

verus! {

/// What a condition came to: a truth value, or a path whose existence
/// decides it (true where the path must exist).
pub enum Condition {
    Known(bool),
    PathCheck(Vec<char>, bool),
}

pub enum ConditionModel {
    Known(bool),
    PathCheck(Seq<char>, bool),
}

impl View for Condition {
    type V = ConditionModel;

    open spec fn view(&self) -> ConditionModel {
        match self {
            Condition::Known(b) => ConditionModel::Known(*b),
            Condition::PathCheck(p, e) => ConditionModel::PathCheck(p@, *e),
        }
    }
}

/// A value counts as false when empty, `0` or `false` in any case.
pub open spec fn truthy(v: Seq<char>) -> bool {
    !(v.len() == 0 || v == "0"@ || eq_ignore_ascii_case(v, "false"@))
}

pub fn is_truthy(v: &Vec<char>) -> (b: bool)
    ensures
        b == truthy(v@),
{
    let f = str_chars("false");
    !(v.len() == 0 || chars_eq_str(v, "0") || chars_eq_ignore_ascii_case(v, &f))
}

pub open spec fn if_error_text() -> Seq<char> {
    "@if expects a value, '<left> == <right>', or '<left> != <right>'"@
}

pub open spec fn if_in_error_text() -> Seq<char> {
    "@if-in expects '<needle> <candidate>...'"@
}

pub open spec fn version_condition_error_text() -> Seq<char> {
    "@if-version expects '<name> <op> <version>', '<name> prerelease', or '<name> release'"@
}

/// `@if VALUE`, `@if A == B`, `@if A != B`.
pub open spec fn if_spec(argv: Seq<Seq<char>>) -> Result<bool, Seq<char>> {
    if argv.len() == 1 {
        Ok(truthy(argv[0]))
    } else if argv.len() == 3 && argv[1] == "=="@ {
        Ok(argv[0] == argv[2])
    } else if argv.len() == 3 && argv[1] == "!="@ {
        Ok(argv[0] != argv[2])
    } else {
        Err(if_error_text())
    }
}

/// `@if-in NEEDLE CANDIDATE...`: whether one of the candidates equals the needle.
pub open spec fn if_in_spec(argv: Seq<Seq<char>>) -> Result<bool, Seq<char>> {
    if argv.len() >= 2 {
        Ok(argv.drop_first().contains(argv[0]))
    } else {
        Err(if_in_error_text())
    }
}

/// The variable a token names: `${NAME}`, `$NAME` or `NAME`.
pub open spec fn variable_token_name(t: Seq<char>) -> Seq<char> {
    if t.len() >= 3 && t[0] == '$' && t[1] == '{' && t.last() == '}' {
        t.subrange(2, t.len() - 1)
    } else if t.len() >= 1 && t[0] == '$' {
        t.drop_first()
    } else {
        t
    }
}

pub open spec fn variable_name_spec(t: Seq<char>) -> Result<Seq<char>, Seq<char>> {
    let n = variable_token_name(t);
    match env_name_error(n) {
        Some(e) => Err(wrap("invalid variable name '"@, t, "': "@ + e.spec_message())),
        None => Ok(n),
    }
}

/// The value of a `@version` entry by its name.
pub open spec fn version_value_spec(vars: Map<Seq<char>, Seq<char>>, name: Seq<char>) -> Result<
    Seq<char>,
    Seq<char>,
> {
    match version_env_key_spec(name) {
        Err(e) => Err(wrap("invalid version name '"@, name, "': "@ + e.spec_message())),
        Ok(key) => if vars.contains_key(key) {
            Ok(vars[key])
        } else {
            Err(wrap("unknown version '"@, name, "'"@))
        },
    }
}

pub open spec fn invalid_version_text(v: Seq<char>) -> Seq<char> {
    line_prefixed_text(0, failure_message(SemverFailure::Invalid(v)))
}

/// Whether a version value has a prerelease part.
pub open spec fn is_prerelease_spec(v: Seq<char>) -> Result<bool, Seq<char>> {
    match parse_semver_spec(v) {
        None => Err(invalid_version_text(v)),
        Some(s) => Ok(s.pre.len() > 0),
    }
}

pub open spec fn is_order_op(op: Seq<char>) -> bool {
    op == "=="@ || op == "!="@ || op == "<"@ || op == "<="@ || op == ">"@ || op == ">="@
}

pub open spec fn order_holds(op: Seq<char>, p: Precedence) -> bool {
    if op == "=="@ {
        p == Precedence::Equal
    } else if op == "!="@ {
        p != Precedence::Equal
    } else if op == "<"@ {
        p == Precedence::Less
    } else if op == "<="@ {
        p != Precedence::Greater
    } else if op == ">"@ {
        p == Precedence::Greater
    } else {
        p != Precedence::Less
    }
}

/// `@if-version NAME prerelease|pre|release` and `@if-version NAME OP VERSION`.
pub open spec fn version_condition_spec(argv: Seq<Seq<char>>, vars: Map<Seq<char>, Seq<char>>) -> Result<
    bool,
    Seq<char>,
> {
    if argv.len() == 2 && (argv[1] == "prerelease"@ || argv[1] == "pre"@) {
        match version_value_spec(vars, argv[0]) {
            Err(m) => Err(m),
            Ok(v) => is_prerelease_spec(v),
        }
    } else if argv.len() == 2 && argv[1] == "release"@ {
        match version_value_spec(vars, argv[0]) {
            Err(m) => Err(m),
            Ok(v) => match is_prerelease_spec(v) {
                Err(m) => Err(m),
                Ok(b) => Ok(!b),
            },
        }
    } else if argv.len() == 3 && is_order_op(argv[1]) {
        match version_value_spec(vars, argv[0]) {
            Err(m) => Err(m),
            Ok(left) => match parse_semver_spec(left) {
                None => Err(invalid_version_text(left)),
                Some(l) => match parse_semver_spec(argv[2]) {
                    None => Err(invalid_version_text(argv[2])),
                    Some(r) => Ok(order_holds(argv[1], precedence(l, r))),
                },
            },
        }
    } else {
        Err(version_condition_error_text())
    }
}

/// The bump kind that a `@if-KIND` or `@if-not-KIND` condition asks about,
/// and whether it asks for a match.
pub open spec fn bump_condition_kind(name: Seq<char>) -> Option<(BumpKind, bool)> {
    if name == "if-major"@ {
        Some((BumpKind::Major, true))
    } else if name == "if-minor"@ {
        Some((BumpKind::Minor, true))
    } else if name == "if-patch"@ {
        Some((BumpKind::Patch, true))
    } else if name == "if-pre"@ {
        Some((BumpKind::Pre, true))
    } else if name == "if-release"@ {
        Some((BumpKind::Release, true))
    } else if name == "if-not-major"@ {
        Some((BumpKind::Major, false))
    } else if name == "if-not-minor"@ {
        Some((BumpKind::Minor, false))
    } else if name == "if-not-patch"@ {
        Some((BumpKind::Patch, false))
    } else if name == "if-not-pre"@ {
        Some((BumpKind::Pre, false))
    } else if name == "if-not-release"@ {
        Some((BumpKind::Release, false))
    } else {
        None
    }
}

/// The names of the condition directives.
pub open spec fn is_condition_name(name: Seq<char>) -> bool {
    name == "if"@ || name == "if-not"@ || name == "if-in"@ || name == "if-not-in"@ || name
        == "if-exists"@ || name == "if-not-exists"@ || name == "if-set"@ || name == "if-not-set"@
        || name == "if-version"@ || name == "if-not-version"@ || name == "if-bumped"@ || name
        == "if-not-bumped"@ || bump_condition_kind(name) is Some
}

pub open spec fn known(r: Result<bool, Seq<char>>, expect: bool) -> Result<ConditionModel, Seq<char>> {
    match r {
        Ok(b) => Ok(ConditionModel::Known(b == expect)),
        Err(m) => Err(m),
    }
}

/// A condition on its interpolated arguments. `bumped` maps each version
/// bumped in this run to the name of the kind of bump.
pub open spec fn condition_on(
    name: Seq<char>,
    argv: Seq<Seq<char>>,
    vars: Map<Seq<char>, Seq<char>>,
    bumped: Map<Seq<char>, Seq<char>>,
) -> Result<ConditionModel, Seq<char>> {
    if name == "if"@ || name == "if-not"@ {
        known(if_spec(argv), name == "if"@)
    } else if name == "if-in"@ || name == "if-not-in"@ {
        known(if_in_spec(argv), name == "if-in"@)
    } else if name == "if-exists"@ || name == "if-not-exists"@ {
        if argv.len() != 1 {
            Err("@"@ + name + " expects exactly one path"@)
        } else {
            Ok(ConditionModel::PathCheck(argv[0], name == "if-exists"@))
        }
    } else if name == "if-set"@ || name == "if-not-set"@ {
        if argv.len() != 1 {
            Err("@"@ + name + " expects exactly one variable name"@)
        } else {
            match variable_name_spec(argv[0]) {
                Err(m) => Err(m),
                Ok(v) => Ok(ConditionModel::Known(vars.contains_key(v) == (name == "if-set"@))),
            }
        }
    } else if name == "if-version"@ || name == "if-not-version"@ {
        known(version_condition_spec(argv, vars), name == "if-version"@)
    } else if name == "if-bumped"@ || name == "if-not-bumped"@ {
        if argv.len() == 0 {
            Ok(ConditionModel::Known((bumped.dom().len() > 0) == (name == "if-bumped"@)))
        } else if argv.len() == 1 {
            Ok(ConditionModel::Known(bumped.contains_key(argv[0]) == (name == "if-bumped"@)))
        } else {
            Err("@"@ + name + " expects no arguments or '<name>'"@)
        }
    } else {
        let (kind, expect) = bump_condition_kind(name)->0;
        if argv.len() != 1 {
            Err("@"@ + name + " expects exactly one name"@)
        } else {
            Ok(
                ConditionModel::Known(
                    (bumped.contains_key(argv[0]) && bump_kind_of(bumped[argv[0]]) == Some(kind))
                        == expect,
                ),
            )
        }
    }
}

/// A condition directive with its raw arguments.
pub open spec fn condition_spec(
    name: Seq<char>,
    args: Seq<char>,
    vars: Map<Seq<char>, Seq<char>>,
    bumped: Map<Seq<char>, Seq<char>>,
) -> Result<ConditionModel, Seq<char>> {
    match interpolate_argv_spec(args, vars) {
        Err(m) => Err(m),
        Ok(argv) => condition_on(name, argv, vars, bumped),
    }
}

/// The condition once the path, where there is one, has been looked at.
pub open spec fn settle(c: ConditionModel, exists: bool) -> bool {
    match c {
        ConditionModel::Known(b) => b,
        ConditionModel::PathCheck(_, expect) => exists == expect,
    }
}

pub fn settle_condition(c: &Condition, exists: bool) -> (b: bool)
    ensures
        b == settle(c@, exists),
{
    match c {
        Condition::Known(b) => *b,
        Condition::PathCheck(_, expect) => exists == *expect,
    }
}

fn msg_error(name: &Vec<char>, tail: &str) -> (e: CjError)
    ensures
        e@ == "@"@ + name@ + tail@,
{
    let mut m = str_chars("@");
    crate::text::append(&mut m, name);
    append_str(&mut m, tail);
    CjError::new(&m)
}

fn if_exec(argv: &Vec<Vec<char>>) -> (r: Result<bool, CjError>)
    ensures
        match r {
            Ok(b) => if_spec(argv@.map_values(|x: Vec<char>| x@)) == Ok::<bool, Seq<char>>(b),
            Err(e) => if_spec(argv@.map_values(|x: Vec<char>| x@)) == Err::<bool, Seq<char>>(e@),
        },
{
    let ghost a = argv@.map_values(|x: Vec<char>| x@);
    if argv.len() == 1 {
        assert(a[0] == argv@[0]@);
        return Ok(is_truthy(&argv[0]));
    }
    if argv.len() == 3 {
        assert(a[0] == argv@[0]@ && a[1] == argv@[1]@ && a[2] == argv@[2]@);
        if chars_eq_str(&argv[1], "==") {
            return Ok(chars_eq(&argv[0], &argv[2]));
        }
        if chars_eq_str(&argv[1], "!=") {
            return Ok(!chars_eq(&argv[0], &argv[2]));
        }
    }
    Err(CjError::from_str("@if expects a value, '<left> == <right>', or '<left> != <right>'"))
}

fn if_in_exec(argv: &Vec<Vec<char>>) -> (r: Result<bool, CjError>)
    ensures
        match r {
            Ok(b) => if_in_spec(argv@.map_values(|x: Vec<char>| x@)) == Ok::<bool, Seq<char>>(b),
            Err(e) => if_in_spec(argv@.map_values(|x: Vec<char>| x@)) == Err::<bool, Seq<char>>(e@),
        },
{
    let ghost a = argv@.map_values(|x: Vec<char>| x@);
    if argv.len() < 2 {
        return Err(CjError::from_str("@if-in expects '<needle> <candidate>...'"));
    }
    let ghost rest = a.drop_first();
    assert(a[0] == argv@[0]@);
    let mut k: usize = 1;
    while k < argv.len()
        invariant
            1 <= k <= argv.len(),
            a == argv@.map_values(|x: Vec<char>| x@),
            rest == a.drop_first(),
            a[0] == argv@[0]@,
            forall|j: int| 0 <= j < k - 1 ==> rest[j] != a[0],
        decreases argv.len() - k,
    {
        assert(rest[k - 1] == argv@[k as int]@);
        if chars_eq(&argv[k], &argv[0]) {
            assert(rest.contains(a[0]));
            return Ok(true);
        }
        k = k + 1;
    }
    assert(!rest.contains(a[0])) by {
        if rest.contains(a[0]) {
            let j = choose|j: int| 0 <= j < rest.len() && rest[j] == a[0];
            assert(rest[j] != a[0]);
        }
    }
    Ok(false)
}

/// The variable that `${NAME}`, `$NAME` or `NAME` names, checked to be a
/// valid variable name.
pub fn parse_variable_name_token(token: &Vec<char>) -> (r: Result<Vec<char>, CjError>)
    ensures
        match r {
            Ok(n) => variable_name_spec(token@) == Ok::<Seq<char>, Seq<char>>(n@),
            Err(e) => variable_name_spec(token@) == Err::<Seq<char>, Seq<char>>(e@),
        },
{
    let n = token.len();
    let name = if n >= 3 && token[0] == '$' && token[1] == '{' && token[n - 1] == '}' {
        subvec(token, 2, n - 1)
    } else if n >= 1 && token[0] == '$' {
        subvec(token, 1, n)
    } else {
        token.clone()
    };
    assert(name@ =~= variable_token_name(token@));
    match validate_env_name(&name) {
        Err(e) => {
            let mut m = wrap_msg("invalid variable name '", token, "': ");
            append_str(&mut m, e.message());
            assert(m@ =~= wrap("invalid variable name '"@, token@, "': "@ + e.spec_message()));
            Err(CjError::new(&m))
        },
        Ok(()) => Ok(name),
    }
}

/// The value of the `@version` entry called `name`.
pub fn version_value(vars: &VarMap, name: &Vec<char>) -> (r: Result<Vec<char>, CjError>)
    requires
        vars.wf(),
    ensures
        match r {
            Ok(v) => version_value_spec(vars@, name@) == Ok::<Seq<char>, Seq<char>>(v@),
            Err(e) => version_value_spec(vars@, name@) == Err::<Seq<char>, Seq<char>>(e@),
        },
{
    match version_env_key(name) {
        Err(e) => {
            let mut m = wrap_msg("invalid version name '", name, "': ");
            append_str(&mut m, e.message());
            assert(m@ =~= wrap("invalid version name '"@, name@, "': "@ + e.spec_message()));
            Err(CjError::new(&m))
        },
        Ok(key) => match vars.get(&key) {
            Some(v) => Ok(v),
            None => {
                let m = wrap_msg("unknown version '", name, "'");
                Err(CjError::new(&m))
            },
        },
    }
}

fn invalid_version(v: &Vec<char>) -> (e: CjError)
    ensures
        e@ == invalid_version_text(v@),
{
    let m = SemverError::Invalid(v.clone()).message();
    crate::error::line_prefixed(0, &m)
}

fn prerelease_exec(v: &Vec<char>) -> (r: Result<bool, CjError>)
    ensures
        match r {
            Ok(b) => is_prerelease_spec(v@) == Ok::<bool, Seq<char>>(b),
            Err(e) => is_prerelease_spec(v@) == Err::<bool, Seq<char>>(e@),
        },
{
    match parse_semver(v) {
        None => Err(invalid_version(v)),
        Some(s) => Ok(s.prerelease.len() > 0),
    }
}

fn order_exec(op: &Vec<char>, p: Precedence) -> (b: bool)
    ensures
        b == order_holds(op@, p),
{
    if chars_eq_str(op, "==") {
        p == Precedence::Equal
    } else if chars_eq_str(op, "!=") {
        p != Precedence::Equal
    } else if chars_eq_str(op, "<") {
        p == Precedence::Less
    } else if chars_eq_str(op, "<=") {
        p != Precedence::Greater
    } else if chars_eq_str(op, ">") {
        p == Precedence::Greater
    } else {
        p != Precedence::Less
    }
}

fn is_order_op_exec(op: &Vec<char>) -> (b: bool)
    ensures
        b == is_order_op(op@),
{
    chars_eq_str(op, "==") || chars_eq_str(op, "!=") || chars_eq_str(op, "<") || chars_eq_str(
        op,
        "<=",
    ) || chars_eq_str(op, ">") || chars_eq_str(op, ">=")
}

fn version_condition_exec(argv: &Vec<Vec<char>>, vars: &VarMap) -> (r: Result<bool, CjError>)
    requires
        vars.wf(),
    ensures
        match r {
            Ok(b) => version_condition_spec(argv@.map_values(|x: Vec<char>| x@), vars@) == Ok::<
                bool,
                Seq<char>,
            >(b),
            Err(e) => version_condition_spec(argv@.map_values(|x: Vec<char>| x@), vars@) == Err::<
                bool,
                Seq<char>,
            >(e@),
        },
{
    let ghost a = argv@.map_values(|x: Vec<char>| x@);
    if argv.len() == 2 {
        assert(a[0] == argv@[0]@ && a[1] == argv@[1]@);
        if chars_eq_str(&argv[1], "prerelease") || chars_eq_str(&argv[1], "pre") {
            let v = version_value(vars, &argv[0])?;
            return prerelease_exec(&v);
        }
        if chars_eq_str(&argv[1], "release") {
            let v = version_value(vars, &argv[0])?;
            let b = prerelease_exec(&v)?;
            return Ok(!b);
        }
    }
    if argv.len() == 3 {
        assert(a[0] == argv@[0]@ && a[1] == argv@[1]@ && a[2] == argv@[2]@);
        if is_order_op_exec(&argv[1]) {
            let left = version_value(vars, &argv[0])?;
            let l = match parse_semver(&left) {
                None => {
                    return Err(invalid_version(&left));
                },
                Some(l) => l,
            };
            let r = match parse_semver(&argv[2]) {
                None => {
                    return Err(invalid_version(&argv[2]));
                },
                Some(r) => r,
            };
            let p = compare_semver(&l, &r);
            return Ok(order_exec(&argv[1], p));
        }
    }
    Err(
        CjError::from_str(
            "@if-version expects '<name> <op> <version>', '<name> prerelease', or '<name> release'",
        ),
    )
}

fn bump_condition_kind_exec(name: &Vec<char>) -> (r: Option<(BumpKind, bool)>)
    ensures
        r == bump_condition_kind(name@),
{
    if chars_eq_str(name, "if-major") {
        Some((BumpKind::Major, true))
    } else if chars_eq_str(name, "if-minor") {
        Some((BumpKind::Minor, true))
    } else if chars_eq_str(name, "if-patch") {
        Some((BumpKind::Patch, true))
    } else if chars_eq_str(name, "if-pre") {
        Some((BumpKind::Pre, true))
    } else if chars_eq_str(name, "if-release") {
        Some((BumpKind::Release, true))
    } else if chars_eq_str(name, "if-not-major") {
        Some((BumpKind::Major, false))
    } else if chars_eq_str(name, "if-not-minor") {
        Some((BumpKind::Minor, false))
    } else if chars_eq_str(name, "if-not-patch") {
        Some((BumpKind::Patch, false))
    } else if chars_eq_str(name, "if-not-pre") {
        Some((BumpKind::Pre, false))
    } else if chars_eq_str(name, "if-not-release") {
        Some((BumpKind::Release, false))
    } else {
        None
    }
}

/// Whether `name` is one of the condition directives.
pub fn is_condition_directive(name: &Vec<char>) -> (b: bool)
    ensures
        b == is_condition_name(name@),
{
    chars_eq_str(name, "if") || chars_eq_str(name, "if-not") || chars_eq_str(name, "if-in")
        || chars_eq_str(name, "if-not-in") || chars_eq_str(name, "if-exists") || chars_eq_str(
        name,
        "if-not-exists",
    ) || chars_eq_str(name, "if-set") || chars_eq_str(name, "if-not-set") || chars_eq_str(
        name,
        "if-version",
    ) || chars_eq_str(name, "if-not-version") || chars_eq_str(name, "if-bumped")
        || chars_eq_str(name, "if-not-bumped") || bump_condition_kind_exec(name).is_some()
}

/// Decides a condition directive: interpolates its arguments, then applies
/// the rule of the directive. `bumped` maps each version bumped in this run
/// to the name of its kind of bump.
pub fn evaluate_condition(name: &Vec<char>, args: &Vec<char>, vars: &VarMap, bumped: &VarMap) -> (r:
    Result<Condition, CjError>)
    requires
        vars.wf(),
        bumped.wf(),
        is_condition_name(name@),
    ensures
        match r {
            Ok(c) => condition_spec(name@, args@, vars@, bumped@) == Ok::<
                ConditionModel,
                Seq<char>,
            >(c@),
            Err(e) => condition_spec(name@, args@, vars@, bumped@) == Err::<
                ConditionModel,
                Seq<char>,
            >(e@),
        },
{
    let argv = interpolate_argv(args, vars)?;
    let ghost a = argv@.map_values(|x: Vec<char>| x@);
    if chars_eq_str(name, "if") || chars_eq_str(name, "if-not") {
        let b = if_exec(&argv)?;
        return Ok(Condition::Known(b == chars_eq_str(name, "if")));
    }
    if chars_eq_str(name, "if-in") || chars_eq_str(name, "if-not-in") {
        let b = if_in_exec(&argv)?;
        return Ok(Condition::Known(b == chars_eq_str(name, "if-in")));
    }
    if chars_eq_str(name, "if-exists") || chars_eq_str(name, "if-not-exists") {
        if argv.len() != 1 {
            return Err(msg_error(name, " expects exactly one path"));
        }
        assert(a[0] == argv@[0]@);
        return Ok(Condition::PathCheck(argv[0].clone(), chars_eq_str(name, "if-exists")));
    }
    if chars_eq_str(name, "if-set") || chars_eq_str(name, "if-not-set") {
        if argv.len() != 1 {
            return Err(msg_error(name, " expects exactly one variable name"));
        }
        assert(a[0] == argv@[0]@);
        let v = parse_variable_name_token(&argv[0])?;
        return Ok(Condition::Known(vars.contains_key(&v) == chars_eq_str(name, "if-set")));
    }
    if chars_eq_str(name, "if-version") || chars_eq_str(name, "if-not-version") {
        let b = version_condition_exec(&argv, vars)?;
        return Ok(Condition::Known(b == chars_eq_str(name, "if-version")));
    }
    if chars_eq_str(name, "if-bumped") || chars_eq_str(name, "if-not-bumped") {
        let expect = chars_eq_str(name, "if-bumped");
        if argv.len() == 0 {
            proof {
                bumped.lemma_key_order();
                lemma_dom_len(bumped@, bumped.key_order());
            }
            return Ok(Condition::Known((bumped.len() > 0) == expect));
        }
        if argv.len() == 1 {
            assert(a[0] == argv@[0]@);
            return Ok(Condition::Known(bumped.contains_key(&argv[0]) == expect));
        }
        return Err(msg_error(name, " expects no arguments or '<name>'"));
    }
    let (kind, expect) = match bump_condition_kind_exec(name) {
        Some(p) => p,
        None => {
            return Err(CjError::from_str("unknown condition"));
        },
    };
    if argv.len() != 1 {
        return Err(msg_error(name, " expects exactly one name"));
    }
    assert(a[0] == argv@[0]@);
    let matched = match bumped.get(&argv[0]) {
        Some(v) => BumpKind::parse(&v) == Some(kind),
        None => false,
    };
    Ok(Condition::Known(matched == expect))
}

/// A map whose keys are listed once each in `keys` has as many keys as the list.
proof fn lemma_dom_len(m: Map<Seq<char>, Seq<char>>, keys: Seq<Seq<char>>)
    requires
        forall|k: Seq<char>| m.contains_key(k) <==> keys.contains(k),
        keys.no_duplicates(),
    ensures
        m.dom().finite(),
        m.dom().len() == keys.len(),
{
    assert(m.dom() =~= keys.to_set());
    keys.unique_seq_to_set();
}


/// The condition directives and their `-not-` forms: `if`/`if-not`,
/// `if-X`/`if-not-X`.
pub open spec fn negation_pair(pos: Seq<char>, neg: Seq<char>) -> bool {
    ||| pos == "if"@ && neg == "if-not"@
    ||| pos == "if-in"@ && neg == "if-not-in"@
    ||| pos == "if-exists"@ && neg == "if-not-exists"@
    ||| pos == "if-set"@ && neg == "if-not-set"@
    ||| pos == "if-version"@ && neg == "if-not-version"@
    ||| pos == "if-bumped"@ && neg == "if-not-bumped"@
    ||| pos == "if-major"@ && neg == "if-not-major"@
    ||| pos == "if-minor"@ && neg == "if-not-minor"@
    ||| pos == "if-patch"@ && neg == "if-not-patch"@
    ||| pos == "if-pre"@ && neg == "if-not-pre"@
    ||| pos == "if-release"@ && neg == "if-not-release"@
}

/// Each `-not-` condition fails exactly where its positive form fails, and
/// otherwise gives the opposite answer, whatever a checked path turns out
/// to be.
pub proof fn lemma_not_negates(
    pos: Seq<char>,
    neg: Seq<char>,
    args: Seq<char>,
    vars: Map<Seq<char>, Seq<char>>,
    bumped: Map<Seq<char>, Seq<char>>,
    exists: bool,
)
    requires
        negation_pair(pos, neg),
    ensures
        condition_spec(pos, args, vars, bumped) is Err <==> condition_spec(neg, args, vars, bumped) is Err,
        condition_spec(pos, args, vars, bumped) is Ok ==> settle(condition_spec(neg, args, vars, bumped)->Ok_0, exists)
            == !settle(condition_spec(pos, args, vars, bumped)->Ok_0, exists),
{
    match interpolate_argv_spec(args, vars) {
        Err(_) => {},
        Ok(argv) => lemma_not_negates_on(pos, neg, argv, vars, bumped, exists),
    }
}

proof fn lemma_not_negates_on(
    pos: Seq<char>,
    neg: Seq<char>,
    argv: Seq<Seq<char>>,
    vars: Map<Seq<char>, Seq<char>>,
    bumped: Map<Seq<char>, Seq<char>>,
    exists: bool,
)
    requires
        negation_pair(pos, neg),
    ensures
        condition_on(pos, argv, vars, bumped) is Err <==> condition_on(neg, argv, vars, bumped) is Err,
        condition_on(pos, argv, vars, bumped) is Ok ==> settle(condition_on(neg, argv, vars, bumped)->Ok_0, exists)
            == !settle(condition_on(pos, argv, vars, bumped)->Ok_0, exists),
{
    reveal_strlit("if");
    reveal_strlit("if-not");
    reveal_strlit("if-in");
    reveal_strlit("if-not-in");
    reveal_strlit("if-exists");
    reveal_strlit("if-not-exists");
    reveal_strlit("if-set");
    reveal_strlit("if-not-set");
    reveal_strlit("if-version");
    reveal_strlit("if-not-version");
    reveal_strlit("if-bumped");
    reveal_strlit("if-not-bumped");
    reveal_strlit("if-major");
    reveal_strlit("if-not-major");
    reveal_strlit("if-minor");
    reveal_strlit("if-not-minor");
    reveal_strlit("if-patch");
    reveal_strlit("if-not-patch");
    reveal_strlit("if-pre");
    reveal_strlit("if-not-pre");
    reveal_strlit("if-release");
    reveal_strlit("if-not-release");
    if pos == "if"@ {
        assert(pos.len() == 2);
        assert(neg == "if-not"@);
        assert(neg.len() == 6 && neg[3] == 'n' && "if-set"@[3] == 's' && neg[3] == 'n' && "if-pre"@[3] == 'p');
        let a = condition_on(pos, argv, vars, bumped);
        let b = condition_on(neg, argv, vars, bumped);
        assert(a is Err <==> b is Err);
        assert(a is Ok ==> settle(b->Ok_0, exists) == !settle(a->Ok_0, exists));
    } else if pos == "if-in"@ {
        assert(pos.len() == 5);
        assert(neg == "if-not-in"@);
        assert(neg.len() == 9 && neg[3] == 'n' && "if-exists"@[3] == 'e' && neg[3] == 'n' && "if-bumped"@[3] == 'b');
        let a = condition_on(pos, argv, vars, bumped);
        let b = condition_on(neg, argv, vars, bumped);
        assert(a is Err <==> b is Err);
        assert(a is Ok ==> settle(b->Ok_0, exists) == !settle(a->Ok_0, exists));
    } else if pos == "if-exists"@ {
        assert(pos.len() == 9 && pos[3] == 'e' && "if-not-in"@[3] == 'n' && pos[3] == 'e' && "if-bumped"@[3] == 'b');
        assert(neg == "if-not-exists"@);
        assert(neg.len() == 13 && neg[7] == 'e' && "if-not-bumped"@[7] == 'b');
        let a = condition_on(pos, argv, vars, bumped);
        let b = condition_on(neg, argv, vars, bumped);
        assert(a is Err <==> b is Err);
        assert(a is Ok ==> settle(b->Ok_0, exists) == !settle(a->Ok_0, exists));
    } else if pos == "if-set"@ {
        assert(pos.len() == 6 && pos[3] == 's' && "if-not"@[3] == 'n' && pos[3] == 's' && "if-pre"@[3] == 'p');
        assert(neg == "if-not-set"@);
        assert(neg.len() == 10 && neg[3] == 'n' && "if-version"@[3] == 'v' && neg[7] == 's' && "if-not-pre"@[7] == 'p' && neg[3] == 'n' && "if-release"@[3] == 'r');
        let a = condition_on(pos, argv, vars, bumped);
        let b = condition_on(neg, argv, vars, bumped);
        assert(a is Err <==> b is Err);
        assert(a is Ok ==> settle(b->Ok_0, exists) == !settle(a->Ok_0, exists));
    } else if pos == "if-version"@ {
        assert(pos.len() == 10 && pos[3] == 'v' && "if-not-set"@[3] == 'n' && pos[3] == 'v' && "if-not-pre"@[3] == 'n' && pos[3] == 'v' && "if-release"@[3] == 'r');
        assert(neg == "if-not-version"@);
        assert(neg.len() == 14 && neg[7] == 'v' && "if-not-release"@[7] == 'r');
        let a = condition_on(pos, argv, vars, bumped);
        let b = condition_on(neg, argv, vars, bumped);
        assert(a is Err <==> b is Err);
        assert(a is Ok ==> settle(b->Ok_0, exists) == !settle(a->Ok_0, exists));
    } else if pos == "if-bumped"@ {
        assert(pos.len() == 9 && pos[3] == 'b' && "if-not-in"@[3] == 'n' && pos[3] == 'b' && "if-exists"@[3] == 'e');
        assert(neg == "if-not-bumped"@);
        assert(neg.len() == 13 && neg[7] == 'b' && "if-not-exists"@[7] == 'e');
        let a = condition_on(pos, argv, vars, bumped);
        let b = condition_on(neg, argv, vars, bumped);
        assert(a is Err <==> b is Err);
        assert(a is Ok ==> settle(b->Ok_0, exists) == !settle(a->Ok_0, exists));
    } else if pos == "if-major"@ {
        assert(pos.len() == 8 && pos[4] == 'a' && "if-minor"@[4] == 'i' && pos[3] == 'm' && "if-patch"@[3] == 'p');
        assert(neg == "if-not-major"@);
        assert(neg.len() == 12 && neg[8] == 'a' && "if-not-minor"@[8] == 'i' && neg[7] == 'm' && "if-not-patch"@[7] == 'p');
        let a = condition_on(pos, argv, vars, bumped);
        let b = condition_on(neg, argv, vars, bumped);
        assert(a is Err <==> b is Err);
        assert(a is Ok ==> settle(b->Ok_0, exists) == !settle(a->Ok_0, exists));
    } else if pos == "if-minor"@ {
        assert(pos.len() == 8 && pos[4] == 'i' && "if-major"@[4] == 'a' && pos[3] == 'm' && "if-patch"@[3] == 'p');
        assert(neg == "if-not-minor"@);
        assert(neg.len() == 12 && neg[8] == 'i' && "if-not-major"@[8] == 'a' && neg[7] == 'm' && "if-not-patch"@[7] == 'p');
        let a = condition_on(pos, argv, vars, bumped);
        let b = condition_on(neg, argv, vars, bumped);
        assert(a is Err <==> b is Err);
        assert(a is Ok ==> settle(b->Ok_0, exists) == !settle(a->Ok_0, exists));
    } else if pos == "if-patch"@ {
        assert(pos.len() == 8 && pos[3] == 'p' && "if-major"@[3] == 'm' && pos[3] == 'p' && "if-minor"@[3] == 'm');
        assert(neg == "if-not-patch"@);
        assert(neg.len() == 12 && neg[7] == 'p' && "if-not-major"@[7] == 'm' && neg[7] == 'p' && "if-not-minor"@[7] == 'm');
        let a = condition_on(pos, argv, vars, bumped);
        let b = condition_on(neg, argv, vars, bumped);
        assert(a is Err <==> b is Err);
        assert(a is Ok ==> settle(b->Ok_0, exists) == !settle(a->Ok_0, exists));
    } else if pos == "if-pre"@ {
        assert(pos.len() == 6 && pos[3] == 'p' && "if-not"@[3] == 'n' && pos[3] == 'p' && "if-set"@[3] == 's');
        assert(neg == "if-not-pre"@);
        assert(neg.len() == 10 && neg[7] == 'p' && "if-not-set"@[7] == 's' && neg[3] == 'n' && "if-version"@[3] == 'v' && neg[3] == 'n' && "if-release"@[3] == 'r');
        let a = condition_on(pos, argv, vars, bumped);
        let b = condition_on(neg, argv, vars, bumped);
        assert(a is Err <==> b is Err);
        assert(a is Ok ==> settle(b->Ok_0, exists) == !settle(a->Ok_0, exists));
    } else if pos == "if-release"@ {
        assert(pos.len() == 10 && pos[3] == 'r' && "if-not-set"@[3] == 'n' && pos[3] == 'r' && "if-version"@[3] == 'v' && pos[3] == 'r' && "if-not-pre"@[3] == 'n');
        assert(neg == "if-not-release"@);
        assert(neg.len() == 14 && neg[7] == 'r' && "if-not-version"@[7] == 'v');
        let a = condition_on(pos, argv, vars, bumped);
        let b = condition_on(neg, argv, vars, bumped);
        assert(a is Err <==> b is Err);
        assert(a is Ok ==> settle(b->Ok_0, exists) == !settle(a->Ok_0, exists));
    }
}


/// The comparisons of `@if-version` agree with each other for every
/// precedence: exactly one of `<`, `==`, `>` holds; `<=` is `<` or `==`;
/// `>=` is `>` or `==`; `!=` is not `==`.
pub proof fn lemma_version_comparisons_agree(p: Precedence)
    ensures
        order_holds("<"@, p) || order_holds("=="@, p) || order_holds(">"@, p),
        !(order_holds("<"@, p) && order_holds("=="@, p)),
        !(order_holds("<"@, p) && order_holds(">"@, p)),
        !(order_holds("=="@, p) && order_holds(">"@, p)),
        order_holds("<="@, p) == (order_holds("<"@, p) || order_holds("=="@, p)),
        order_holds(">="@, p) == (order_holds(">"@, p) || order_holds("=="@, p)),
        order_holds("!="@, p) == !order_holds("=="@, p),
{
    lemma_order_ops(p);
}

/// Every version compares equal to itself, so `<=`, `>=` and `==` hold
/// between a version and itself, and `<`, `>`, `!=` do not.
pub proof fn lemma_version_compared_with_itself(v: SemverModel)
    ensures
        order_holds("<="@, precedence(v, v)),
        order_holds(">="@, precedence(v, v)),
        order_holds("=="@, precedence(v, v)),
        !order_holds("<"@, precedence(v, v)),
        !order_holds(">"@, precedence(v, v)),
        !order_holds("!="@, precedence(v, v)),
{
    crate::semver::lemma_precedence_reflexive(v);
    lemma_version_comparisons_agree(precedence(v, v));
}


proof fn lemma_order_ops(p: Precedence)
    ensures
        order_holds("=="@, p) == (p == Precedence::Equal),
        order_holds("!="@, p) == (p != Precedence::Equal),
        order_holds("<"@, p) == (p == Precedence::Less),
        order_holds("<="@, p) == (p != Precedence::Greater),
        order_holds(">"@, p) == (p == Precedence::Greater),
        order_holds(">="@, p) == (p != Precedence::Less),
{
    reveal_strlit("==");
    reveal_strlit("!=");
    reveal_strlit("<");
    reveal_strlit("<=");
    reveal_strlit(">");
    reveal_strlit(">=");
    assert("<"@[0] == '<' && ">"@[0] == '>');
    assert("=="@[0] == '=' && "!="@[0] == '!' && "<="@[0] == '<' && ">="@[0] == '>');
    assert("<="@[1] == '=' && "=="@[1] == '=' && "!="@[1] == '=');
    assert("=="@[0] != "!="@[0]);
    assert("=="@ != "!="@);
    assert("=="@ != "<"@);
    assert("=="@[0] != "<="@[0]);
    assert("=="@ != "<="@);
    assert("=="@ != ">"@);
    assert("=="@[0] != ">="@[0]);
    assert("=="@ != ">="@);
    assert("!="@ != "<"@);
    assert("!="@[0] != "<="@[0]);
    assert("!="@ != "<="@);
    assert("!="@ != ">"@);
    assert("!="@[0] != ">="@[0]);
    assert("!="@ != ">="@);
    assert("<"@.len() == 1 && "<="@.len() == 2 && ">"@.len() == 1 && ">="@.len() == 2);
    assert("<"@ != "<="@);
    assert("<"@[0] != ">"@[0]);
    assert("<"@ != ">"@);
    assert("<"@ != ">="@);
    assert("<="@ != ">"@);
    assert("<="@[0] != ">="@[0]);
    assert("<="@ != ">="@);
    assert(">"@ != ">="@);
}

/// Swapping the two versions swaps `<` and `>` (and `<=` and `>=`).
pub proof fn lemma_version_comparisons_swap(a: SemverModel, b: SemverModel)
    ensures
        order_holds("<"@, precedence(a, b)) == order_holds(">"@, precedence(b, a)),
        order_holds("<="@, precedence(a, b)) == order_holds(">="@, precedence(b, a)),
        order_holds("=="@, precedence(a, b)) == order_holds("=="@, precedence(b, a)),
{
    crate::semver::lemma_precedence_flip(a, b);
    lemma_order_ops(precedence(a, b));
    lemma_order_ops(precedence(b, a));
}

} // verus!
