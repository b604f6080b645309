//! The environment a run starts with: the process environment, then `.env`
//! entries where a variable is absent, the taskfile's fallbacks where a
//! variable is still absent, its overrides always, and a Python virtualenv
//! put first on `PATH`.
use vstd::prelude::*;

use crate::error::{line_error, line_error_text, CjError};
use crate::names::{env_name_error, validate_env_name};
use crate::scan::{
    lemma_source_lines_len, source_lines, split_source_lines, strip_matching_quotes,
    strip_matching_quotes_spec,
};
use crate::task_header::{wrap, wrap_msg};
use crate::text::{
    append, append_str, chars_find, chars_trim, find_char, lemma_find_char, str_chars, subvec,
    trim,
};
use crate::vars::{map_of, VarMap};

verus! {

/// The entries of a `.env` text in order, or the message of its first bad
/// line. Blank lines and `#` comments are skipped; an entry is
/// `NAME=value`, quotes around the value removed.
pub open spec fn dot_env_fold(lines: Seq<Seq<char>>, path: Seq<char>) -> Result<
    Seq<(Seq<char>, Seq<char>)>,
    Seq<char>,
>
    decreases lines.len(),
{
    if lines.len() == 0 {
        Ok(seq![])
    } else {
        match dot_env_fold(lines.drop_last(), path) {
            Err(m) => Err(m),
            Ok(done) => {
                let line = lines.last();
                let ln = lines.len();
                let t = trim(line);
                if t.len() == 0 || t[0] == '#' {
                    Ok(done)
                } else {
                    match find_char(line, '=') {
                        None => Err(line_error_text(path, ln, ".env entry must contain '='"@)),
                        Some(i) => match env_name_error(line.take(i)) {
                            Some(e) => Err(
                                line_error_text(
                                    path,
                                    ln,
                                    wrap("invalid .env name '"@, line.take(i), "': "@ + e.spec_message()),
                                ),
                            ),
                            None => Ok(
                                done.push((line.take(i), strip_matching_quotes_spec(line.skip(i + 1)))),
                            ),
                        },
                    }
                }
            },
        }
    }
}

pub open spec fn dot_env_spec(source: Seq<char>, path: Seq<char>) -> Result<
    Seq<(Seq<char>, Seq<char>)>,
    Seq<char>,
> {
    dot_env_fold(source_lines(source), path)
}

proof fn lemma_dot_env_err(lines: Seq<Seq<char>>, path: Seq<char>, k: int)
    requires
        0 <= k <= lines.len(),
        dot_env_fold(lines.take(k), path) is Err,
    ensures
        dot_env_fold(lines, path) == dot_env_fold(lines.take(k), path),
    decreases lines.len() - k,
{
    if k < lines.len() {
        assert(lines.take(k + 1).drop_last() =~= lines.take(k));
        lemma_dot_env_err(lines, path, k + 1);
    } else {
        assert(lines.take(k) =~= lines);
    }
}

pub open spec fn pair_list(v: Seq<(Vec<char>, Vec<char>)>) -> Seq<(Seq<char>, Seq<char>)> {
    v.map_values(|p: (Vec<char>, Vec<char>)| (p.0@, p.1@))
}

/// Reads the entries of a `.env` text; errors name `path` and the line.
pub fn parse_dot_env(source: &str, path: &str) -> (r: Result<Vec<(Vec<char>, Vec<char>)>, CjError>)
    ensures
        match r {
            Ok(v) => dot_env_spec(source@, path@) == Ok::<Seq<(Seq<char>, Seq<char>)>, Seq<char>>(
                pair_list(v@),
            ),
            Err(e) => dot_env_spec(source@, path@) == Err::<Seq<(Seq<char>, Seq<char>)>, Seq<char>>(
                e@,
            ),
        },
{
    let src = str_chars(source);
    let p = str_chars(path);
    let lines = split_source_lines(&src);
    let ghost lv = lines@.map_values(|x: Vec<char>| x@);
    let mut out: Vec<(Vec<char>, Vec<char>)> = Vec::new();
    let mut k: usize = 0;
    assert(lv.take(0) =~= seq![]);
    assert(pair_list(out@) =~= seq![]);
    while k < lines.len()
        invariant
            k <= lines@.len(),
            lv == lines@.map_values(|x: Vec<char>| x@),
            lv == source_lines(source@),
            p@ == path@,
            dot_env_fold(lv.take(k as int), p@) == Ok::<Seq<(Seq<char>, Seq<char>)>, Seq<char>>(
                pair_list(out@),
            ),
        decreases lines@.len() - k,
    {
        assert(lv.take(k + 1).drop_last() =~= lv.take(k as int));
        assert(lv.take(k + 1).last() == lines@[k as int]@);
        let line = &lines[k];
        let t = chars_trim(line);
        if !(t.len() == 0 || t[0] == '#') {
            let i = match chars_find(line, '=') {
                None => {
                    let m = str_chars(".env entry must contain '='");
                    proof {
                        lemma_dot_env_err(lv, p@, k + 1);
                    }
                    return Err(line_error(&p, k + 1, &m));
                },
                Some(i) => i,
            };
            proof {
                lemma_find_char(line@, '=');
            }
            let key = subvec(line, 0, i);
            match validate_env_name(&key) {
                Err(e) => {
                    let mut m = wrap_msg("invalid .env name '", &key, "': ");
                    append_str(&mut m, e.message());
                    assert(m@ =~= wrap("invalid .env name '"@, key@, "': "@ + e.spec_message()));
                    proof {
                        lemma_dot_env_err(lv, p@, k + 1);
                    }
                    return Err(line_error(&p, k + 1, &m));
                },
                Ok(()) => {},
            }
            let value = strip_matching_quotes(&subvec(line, i + 1, line.len()));
            let ghost before = pair_list(out@);
            let ghost kv = key@;
            let ghost vv = value@;
            out.push((key, value));
            assert(pair_list(out@) =~= before.push((kv, vv)));
        }
        k = k + 1;
    }
    assert(lv.take(lines@.len() as int) =~= lv);
    Ok(out)
}

/// Entries added where a name is absent, the first entry of a name winning.
pub open spec fn absent_only(m: Map<Seq<char>, Seq<char>>, entries: Seq<(Seq<char>, Seq<char>)>) -> Map<
    Seq<char>,
    Seq<char>,
>
    decreases entries.len(),
{
    if entries.len() == 0 {
        m
    } else {
        let m2 = absent_only(m, entries.drop_last());
        if m2.contains_key(entries.last().0) {
            m2
        } else {
            m2.insert(entries.last().0, entries.last().1)
        }
    }
}

/// Adds each entry whose name is not set yet.
pub fn add_absent(env: &mut VarMap, entries: &Vec<(Vec<char>, Vec<char>)>)
    requires
        old(env).wf(),
    ensures
        final(env).wf(),
        final(env)@ == absent_only(old(env)@, pair_list(entries@)),
{
    let ghost start = env@;
    let ghost ev = pair_list(entries@);
    let mut k: usize = 0;
    assert(ev.take(0) =~= seq![]);
    while k < entries.len()
        invariant
            env.wf(),
            k <= entries@.len(),
            ev == pair_list(entries@),
            env@ == absent_only(start, ev.take(k as int)),
        decreases entries@.len() - k,
    {
        assert(ev.take(k + 1).drop_last() =~= ev.take(k as int));
        assert(ev.take(k + 1).last() == (entries@[k as int].0@, entries@[k as int].1@));
        if !env.contains_key(&entries[k].0) {
            env.insert(entries[k].0.clone(), entries[k].1.clone());
        }
        k = k + 1;
    }
    assert(ev.take(entries@.len() as int) =~= ev);
}

/// The environment once the taskfile's entries apply: overrides always,
/// fallbacks where a name is absent.
pub open spec fn with_taskfile_env(
    env: Map<Seq<char>, Seq<char>>,
    overrides: Map<Seq<char>, Seq<char>>,
    fallbacks: Map<Seq<char>, Seq<char>>,
) -> Map<Seq<char>, Seq<char>> {
    Map::new(
        |k: Seq<char>| env.contains_key(k) || fallbacks.contains_key(k) || overrides.contains_key(k),
        |k: Seq<char>|
            if overrides.contains_key(k) {
                overrides[k]
            } else if env.contains_key(k) {
                env[k]
            } else {
                fallbacks[k]
            },
    )
}

/// Applies the taskfile's `@env:` entries.
pub fn apply_taskfile_env(env: &mut VarMap, overrides: &VarMap, fallbacks: &VarMap)
    requires
        old(env).wf(),
        overrides.wf(),
        fallbacks.wf(),
    ensures
        final(env).wf(),
        final(env)@ == with_taskfile_env(old(env)@, overrides@, fallbacks@),
{
    let ghost e0 = env@;
    let ghost fk = fallbacks.key_order();
    let ghost ok = overrides.key_order();
    proof {
        fallbacks.lemma_key_order();
        overrides.lemma_key_order();
    }
    let mut i: usize = 0;
    assert(env@ =~= Map::new(
        |k: Seq<char>| e0.contains_key(k) || fk.take(0).contains(k),
        |k: Seq<char>|
            if e0.contains_key(k) {
                e0[k]
            } else {
                fallbacks@[k]
            },
    ));
    while i < fallbacks.len()
        invariant
            env.wf(),
            fallbacks.wf(),
            fk == fallbacks.key_order(),
            i <= fk.len(),
            env@ == Map::new(
                |k: Seq<char>| e0.contains_key(k) || fk.take(i as int).contains(k),
                |k: Seq<char>|
                    if e0.contains_key(k) {
                        e0[k]
                    } else {
                        fallbacks@[k]
                    },
            ),
        decreases fk.len() - i,
    {
        let (k, v) = fallbacks.entry(i);
        let ghost kv = k@;
        assert(fk.take(i + 1)[i as int] == kv);
        if !env.contains_key(&k) {
            env.insert(k, v);
        }
        let ghost target = Map::new(
            |k: Seq<char>| e0.contains_key(k) || fk.take(i + 1).contains(k),
            |k: Seq<char>|
                if e0.contains_key(k) {
                    e0[k]
                } else {
                    fallbacks@[k]
                },
        );
        assert forall|x: Seq<char>| #[trigger] env@.contains_key(x) == target.contains_key(x) by {
            if fk.take(i as int).contains(x) {
                let q = choose|q: int| 0 <= q < i && #[trigger] fk.take(i as int)[q] == x;
                assert(fk.take(i + 1)[q] == x);
            }
            if fk.take(i + 1).contains(x) && x != kv {
                let q = choose|q: int| 0 <= q < i + 1 && #[trigger] fk.take(i + 1)[q] == x;
                assert(q != i);
                assert(fk.take(i as int)[q] == x);
            }
        }
        assert(env@ =~= target);
        i = i + 1;
    }
    assert(fk.take(fk.len() as int) =~= fk);
    let ghost e1 = env@;
    let mut j: usize = 0;
    assert(env@ =~= Map::new(
        |k: Seq<char>| e1.contains_key(k) || ok.take(0).contains(k),
        |k: Seq<char>|
            if ok.take(0).contains(k) {
                overrides@[k]
            } else {
                e1[k]
            },
    ));
    while j < overrides.len()
        invariant
            env.wf(),
            overrides.wf(),
            ok == overrides.key_order(),
            j <= ok.len(),
            env@ == Map::new(
                |k: Seq<char>| e1.contains_key(k) || ok.take(j as int).contains(k),
                |k: Seq<char>|
                    if ok.take(j as int).contains(k) {
                        overrides@[k]
                    } else {
                        e1[k]
                    },
            ),
        decreases ok.len() - j,
    {
        let (k, v) = overrides.entry(j);
        let ghost kv = k@;
        assert(ok.take(j + 1)[j as int] == kv);
        env.insert(k, v);
        let ghost target = Map::new(
            |k: Seq<char>| e1.contains_key(k) || ok.take(j + 1).contains(k),
            |k: Seq<char>|
                if ok.take(j + 1).contains(k) {
                    overrides@[k]
                } else {
                    e1[k]
                },
        );
        assert forall|x: Seq<char>| #[trigger] env@.contains_key(x) == target.contains_key(x) by {
            if ok.take(j as int).contains(x) {
                let q = choose|q: int| 0 <= q < j && #[trigger] ok.take(j as int)[q] == x;
                assert(ok.take(j + 1)[q] == x);
            }
            if ok.take(j + 1).contains(x) && x != kv {
                let q = choose|q: int| 0 <= q < j + 1 && #[trigger] ok.take(j + 1)[q] == x;
                assert(q != j);
                assert(ok.take(j as int)[q] == x);
            }
        }
        assert forall|x: Seq<char>| env@.contains_key(x) implies #[trigger] env@[x] == target[x] by {
            if ok.take(j as int).contains(x) {
                let q = choose|q: int| 0 <= q < j && #[trigger] ok.take(j as int)[q] == x;
                assert(ok.take(j + 1)[q] == x);
            }
            if ok.take(j + 1).contains(x) && x != kv {
                let q = choose|q: int| 0 <= q < j + 1 && #[trigger] ok.take(j + 1)[q] == x;
                assert(q != j);
                assert(ok.take(j as int)[q] == x);
            }
        }
        assert(env@ =~= target);
        j = j + 1;
    }
    assert(ok.take(ok.len() as int) =~= ok);
    assert(env@ =~= with_taskfile_env(e0, overrides@, fallbacks@));
}

/// An override always wins; a fallback never replaces a value that is
/// already set, and fills in one that is not.
pub proof fn lemma_taskfile_env_precedence(
    env: Map<Seq<char>, Seq<char>>,
    overrides: Map<Seq<char>, Seq<char>>,
    fallbacks: Map<Seq<char>, Seq<char>>,
    k: Seq<char>,
)
    ensures
        overrides.contains_key(k) ==> with_taskfile_env(env, overrides, fallbacks)[k]
            == overrides[k],
        !overrides.contains_key(k) && env.contains_key(k) ==> with_taskfile_env(
            env,
            overrides,
            fallbacks,
        )[k] == env[k],
        !overrides.contains_key(k) && !env.contains_key(k) && fallbacks.contains_key(k)
            ==> with_taskfile_env(env, overrides, fallbacks)[k] == fallbacks[k],
        with_taskfile_env(env, overrides, fallbacks).contains_key(k) <==> (env.contains_key(k)
            || overrides.contains_key(k) || fallbacks.contains_key(k)),
{
}

/// A variable's value when it is set and not empty.
pub fn non_empty_env(env: &VarMap, key: &str) -> (r: Option<Vec<char>>)
    requires
        env.wf(),
    ensures
        match r {
            Some(v) => env@.contains_key(key@) && env@[key@] == v@ && v@.len() > 0,
            None => !env@.contains_key(key@) || env@[key@].len() == 0,
        },
{
    let k = str_chars(key);
    match env.get(&k) {
        Some(v) => if v.len() > 0 {
            Some(v)
        } else {
            None
        },
        None => None,
    }
}

/// The virtualenv that the environment names: `VIRTUAL_ENV`, else
/// `CJ_VENV` (each only when not empty). Where it names none, a `.venv`
/// directory beside the taskfile is used if there is one.
pub open spec fn named_venv(env: Map<Seq<char>, Seq<char>>) -> Option<Seq<char>> {
    if env.contains_key("VIRTUAL_ENV"@) && env["VIRTUAL_ENV"@].len() > 0 {
        Some(env["VIRTUAL_ENV"@])
    } else if env.contains_key("CJ_VENV"@) && env["CJ_VENV"@].len() > 0 {
        Some(env["CJ_VENV"@])
    } else {
        None
    }
}

pub fn venv_from_env(env: &VarMap) -> (r: Option<Vec<char>>)
    requires
        env.wf(),
    ensures
        opt_seq(r) == named_venv(env@),
{
    match non_empty_env(env, "VIRTUAL_ENV") {
        Some(v) => Some(v),
        None => non_empty_env(env, "CJ_VENV"),
    }
}

pub open spec fn opt_seq(o: Option<Vec<char>>) -> Option<Seq<char>> {
    match o {
        Some(v) => Some(v@),
        None => None,
    }
}

/// The environment with a virtualenv active: its executable directory
/// first on `PATH` (alone where `PATH` is unset or empty), `VIRTUAL_ENV` set.
pub open spec fn with_venv(env: Map<Seq<char>, Seq<char>>, venv: Seq<char>, bin: Seq<char>) -> Map<
    Seq<char>,
    Seq<char>,
> {
    let path = if env.contains_key("PATH"@) && env["PATH"@].len() > 0 {
        bin + ":"@ + env["PATH"@]
    } else {
        bin
    };
    env.insert("PATH"@, path).insert("VIRTUAL_ENV"@, venv)
}

pub fn activate_venv(env: &mut VarMap, venv: &Vec<char>, bin: &Vec<char>)
    requires
        old(env).wf(),
    ensures
        final(env).wf(),
        final(env)@ == with_venv(old(env)@, venv@, bin@),
{
    let path = match non_empty_env(env, "PATH") {
        Some(existing) => {
            let mut p = bin.clone();
            append_str(&mut p, ":");
            append(&mut p, &existing);
            p
        },
        None => bin.clone(),
    };
    env.insert(str_chars("PATH"), path);
    env.insert(str_chars("VIRTUAL_ENV"), venv.clone());
}


/// The environment of a run before its virtualenv: the process environment
/// (a later pair wins), then the `.env` entries where a variable is absent,
/// then the taskfile's fallbacks and overrides.
pub open spec fn effective_env_spec(
    process: Seq<(Seq<char>, Seq<char>)>,
    dot_env: Option<(Seq<char>, Seq<char>)>,
    overrides: Map<Seq<char>, Seq<char>>,
    fallbacks: Map<Seq<char>, Seq<char>>,
) -> Result<Map<Seq<char>, Seq<char>>, Seq<char>> {
    let base = map_of(process);
    match dot_env {
        None => Ok(with_taskfile_env(base, overrides, fallbacks)),
        Some((source, path)) => match dot_env_spec(source, path) {
            Ok(entries) => Ok(with_taskfile_env(absent_only(base, entries), overrides, fallbacks)),
            Err(m) => Err(m),
        },
    }
}

/// Builds the environment of a run from the process environment, the text
/// and path of the `.env` file beside the taskfile (where there is one) and
/// the taskfile's `@env:` entries.
pub fn build_effective_env(
    process: &Vec<(Vec<char>, Vec<char>)>,
    dot_env: Option<(&str, &str)>,
    overrides: &VarMap,
    fallbacks: &VarMap,
) -> (r: Result<VarMap, CjError>)
    requires
        overrides.wf(),
        fallbacks.wf(),
    ensures
        match effective_env_spec(
            pair_list(process@),
            match dot_env {
                Some((source, path)) => Some((source@, path@)),
                None => None,
            },
            overrides@,
            fallbacks@,
        ) {
            Ok(m) => r matches Ok(v) && v.wf() && v@ == m,
            Err(m) => r matches Err(e) && e@ == m,
        },
{
    let ghost pv = pair_list(process@);
    let mut vars = VarMap::new();
    let mut k: usize = 0;
    assert(pv.take(0) =~= seq![]);
    while k < process.len()
        invariant
            k <= process.len(),
            pv == pair_list(process@),
            vars.wf(),
            vars@ == map_of(pv.take(k as int)),
        decreases process.len() - k,
    {
        assert(pv.take(k + 1).drop_last() =~= pv.take(k as int));
        vars.insert(process[k].0.clone(), process[k].1.clone());
        k = k + 1;
    }
    assert(pv.take(process.len() as int) =~= pv);
    match dot_env {
        Some((source, path)) => {
            let entries = parse_dot_env(source, path)?;
            add_absent(&mut vars, &entries);
        },
        None => {},
    }
    apply_taskfile_env(&mut vars, overrides, fallbacks);
    Ok(vars)
}

/// The virtualenv a run uses: the one the environment names, else the
/// `.venv` directory beside the taskfile where there is one.
pub fn select_venv(env: &VarMap, local_venv: &Vec<char>, local_is_dir: bool) -> (r: Option<Vec<char>>)
    requires
        env.wf(),
    ensures
        opt_seq(r) == match named_venv(env@) {
            Some(v) => Some(v),
            None => if local_is_dir {
                Some(local_venv@)
            } else {
                None
            },
        },
{
    match venv_from_env(env) {
        Some(v) => Some(v),
        None => if local_is_dir {
            Some(local_venv.clone())
        } else {
            None
        },
    }
}

/// A path with one more component, as `Path::join` writes it: a `/` between
/// them unless the path is empty or already ends with one.
pub open spec fn join_component(base: Seq<char>, name: Seq<char>) -> Seq<char> {
    if base.len() == 0 || base.last() == '/' {
        base + name
    } else {
        base + "/"@ + name
    }
}

/// The executable directory of a virtualenv: its `bin`.
pub fn venv_bin(venv: &Vec<char>) -> (r: Vec<char>)
    ensures
        r@ == join_component(venv@, "bin"@),
{
    proof {
        reveal_strlit("bin");
        reveal_strlit("/bin");
        reveal_strlit("/");
    }
    let mut r: Vec<char> = Vec::new();
    append(&mut r, venv);
    assert(r@ =~= venv@);
    if venv.len() == 0 || venv[venv.len() - 1] == '/' {
        append_str(&mut r, "bin");
        assert(r@ == venv@ + "bin"@);
    } else {
        append_str(&mut r, "/bin");
        assert(r@ =~= venv@ + "/"@ + "bin"@);
    }
    r
}

/// Activates the selected virtualenv, whose executable directory must exist
/// (`bin_is_dir` says whether it does); else the run does not start.
pub fn activate_selected_venv(env: &mut VarMap, venv: &Vec<char>, bin_is_dir: bool) -> (r: Result<(), CjError>)
    requires
        old(env).wf(),
    ensures
        final(env).wf(),
        bin_is_dir ==> r is Ok && final(env)@ == with_venv(old(env)@, venv@, join_component(venv@, "bin"@)),
        !bin_is_dir ==> (r matches Err(e) && e@ == "python virtualenv executable directory does not exist: "@
            + join_component(venv@, "bin"@)) && final(env)@ == old(env)@,
{
    let bin = venv_bin(venv);
    if !bin_is_dir {
        let mut m = str_chars("python virtualenv executable directory does not exist: ");
        append(&mut m, &bin);
        return Err(CjError::new(&m));
    }
    activate_venv(env, venv, &bin);
    Ok(())
}

} // verus!
