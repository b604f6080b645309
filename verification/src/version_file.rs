//! Bumping a `@version` header in the text of the taskfile that declares it.
use vstd::prelude::*;

use crate::error::{line_prefixed, line_prefixed_text, CjError};
use crate::help_output::join_lines;
use crate::scan::{source_lines, split_source_lines, split_whitespace, ws_words};
use crate::semver::{bump_semver, bump_spec, display, failure_message, opt_view};
use crate::task_file::{TaskFile, VersionModel};
use crate::task_header::{wrap, wrap_msg};
use crate::text::{append, append_str, chars_eq, chars_eq_str, str_chars};

verus! {

/// The name and value of a `@version NAME VALUE` line.
pub open spec fn header_parts(line: Seq<char>) -> Option<(Seq<char>, Seq<char>)> {
    let w = ws_words(line);
    if w.len() == 3 && w[0] == "@version"@ {
        Some((w[1], w[2]))
    } else {
        None
    }
}

/// The first version header called `name`.
pub open spec fn find_version(versions: Seq<VersionModel>, name: Seq<char>) -> Option<int>
    decreases versions.len(),
{
    if versions.len() == 0 {
        None
    } else {
        match find_version(versions.drop_last(), name) {
            Some(i) => Some(i),
            None => if versions.last().name == name {
                Some(versions.len() - 1)
            } else {
                None
            },
        }
    }
}

/// The taskfile text with version `name` bumped by `op`, the variable that
/// holds the version and its new value; or the error, prefixed with line
/// `ln` of the directive that asked.
pub open spec fn rewrite_spec(
    versions: Seq<VersionModel>,
    source: Seq<char>,
    name: Seq<char>,
    op: Seq<char>,
    pre: Option<Seq<char>>,
    ln: nat,
) -> Result<(Seq<char>, Seq<char>, Seq<char>), Seq<char>> {
    match find_version(versions, name) {
        None => Err(line_prefixed_text(ln, wrap("unknown version '"@, name, "'"@))),
        Some(i) => {
            let e = versions[i];
            let lines = source_lines(source);
            if e.line_number == 0 {
                Err(line_prefixed_text(ln, wrap("invalid version header location for '"@, name, "'"@)))
            } else if e.line_number - 1 >= lines.len() {
                Err(line_prefixed_text(ln, wrap("version header for '"@, name, "' no longer exists"@)))
            } else {
                let idx = e.line_number - 1;
                match header_parts(lines[idx]) {
                    None => Err(
                        line_prefixed_text(
                            ln,
                            wrap("version header for '"@, name, "' no longer matches @version syntax"@),
                        ),
                    ),
                    Some((cn, cv)) => if cn != e.name {
                        Err(
                            line_prefixed_text(
                                ln,
                                wrap("version header changed from '"@, e.name, "' to '"@) + cn + "'"@,
                            ),
                        )
                    } else {
                        match bump_spec(cv, op, pre) {
                            Err(f) => Err(line_prefixed_text(ln, failure_message(f))),
                            Ok(v) => {
                                let nv = display(v);
                                let body = join_lines(
                                    lines.update(idx, "@version "@ + e.name + " "@ + nv),
                                );
                                let text = if source.len() > 0 && source.last() == '\n' {
                                    body + "\n"@
                                } else {
                                    body
                                };
                                Ok((text, e.env_key, nv))
                            },
                        }
                    },
                }
            }
        },
    }
}

fn find_version_exec(file: &TaskFile, name: &Vec<char>) -> (r: Option<usize>)
    ensures
        match r {
            Some(i) => i < file@.versions.len() && find_version(file@.versions, name@) == Some(i as int),
            None => find_version(file@.versions, name@) is None,
        },
{
    let ghost vs = file@.versions;
    let n = file.version_count();
    let mut k: usize = 0;
    assert(vs.take(0) =~= seq![]);
    while k < n
        invariant
            n == vs.len(),
            vs == file@.versions,
            k <= n,
            find_version(vs.take(k as int), name@) is None,
        decreases n - k,
    {
        assert(vs.take(k + 1).drop_last() =~= vs.take(k as int));
        let (vn, _, _) = file.version_at(k);
        if chars_eq(&vn, name) {
            proof {
                lemma_find_version_sticks(vs, name@, k + 1);
            }
            return Some(k);
        }
        k = k + 1;
    }
    assert(vs.take(n as int) =~= vs);
    None
}

proof fn lemma_find_version_sticks(vs: Seq<VersionModel>, name: Seq<char>, j: int)
    requires
        0 <= j <= vs.len(),
        find_version(vs.take(j), name) is Some,
    ensures
        find_version(vs, name) == find_version(vs.take(j), name),
    decreases vs.len() - j,
{
    if j < vs.len() {
        assert(vs.take(j + 1).drop_last() =~= vs.take(j));
        lemma_find_version_sticks(vs, name, j + 1);
    } else {
        assert(vs.take(j) =~= vs);
    }
}

fn join_newlines(lines: &Vec<Vec<char>>) -> (r: Vec<char>)
    ensures
        r@ == join_lines(lines@.map_values(|x: Vec<char>| x@)),
{
    let ghost lv = lines@.map_values(|x: Vec<char>| x@);
    let mut r: Vec<char> = Vec::new();
    let mut k: usize = 0;
    assert(lv.take(0) =~= seq![]);
    while k < lines.len()
        invariant
            k <= lines@.len(),
            lv == lines@.map_values(|x: Vec<char>| x@),
            r@ == join_lines(lv.take(k as int)),
        decreases lines@.len() - k,
    {
        if k > 0 {
            r.push('\n');
        }
        append(&mut r, &lines[k]);
        assert(lv.take(k + 1).drop_last() =~= lv.take(k as int));
        assert(lv[k as int] == lines@[k as int]@);
        if k == 0 {
            assert(lv.take(1) =~= seq![lv[0]]);
        }
        assert(r@ =~= join_lines(lv.take(k + 1))) by {
            reveal_strlit("\n");
        }
        k = k + 1;
    }
    assert(lv.take(lines@.len() as int) =~= lv);
    r
}

/// Bumps version `name` in the taskfile text `source`: returns the new text,
/// the variable that holds the version and its new value.
pub fn rewrite_version(
    file: &TaskFile,
    source: &str,
    name: &Vec<char>,
    op: &Vec<char>,
    pre: Option<&Vec<char>>,
    ln: usize,
) -> (r: Result<(String, Vec<char>, Vec<char>), CjError>)
    ensures
        match r {
            Ok((text, key, value)) => rewrite_spec(file@.versions, source@, name@, op@, opt_view(pre), ln as nat)
                == Ok::<(Seq<char>, Seq<char>, Seq<char>), Seq<char>>((text@, key@, value@)),
            Err(e) => rewrite_spec(file@.versions, source@, name@, op@, opt_view(pre), ln as nat)
                == Err::<(Seq<char>, Seq<char>, Seq<char>), Seq<char>>(e@),
        },
{
    let i = match find_version_exec(file, name) {
        None => {
            let m = wrap_msg("unknown version '", name, "'");
            return Err(line_prefixed(ln, &m));
        },
        Some(i) => i,
    };
    let (vname, vline, vkey) = file.version_at(i);
    if vline == 0 {
        let m = wrap_msg("invalid version header location for '", name, "'");
        return Err(line_prefixed(ln, &m));
    }
    let src = str_chars(source);
    let lines = split_source_lines(&src);
    let ghost lv = lines@.map_values(|x: Vec<char>| x@);
    let idx = vline - 1;
    if idx >= lines.len() {
        let m = wrap_msg("version header for '", name, "' no longer exists");
        return Err(line_prefixed(ln, &m));
    }
    assert(lv[idx as int] == lines@[idx as int]@);
    let words = split_whitespace(&lines[idx]);
    assert(words@.map_values(|x: Vec<char>| x@) == ws_words(lines@[idx as int]@));
    if !(words.len() == 3 && chars_eq_str(&words[0], "@version")) {
        let m = wrap_msg("version header for '", name, "' no longer matches @version syntax");
        assert(words@.len() == 3 ==> ws_words(lv[idx as int])[0] == words@[0]@);
        return Err(line_prefixed(ln, &m));
    }
    assert(ws_words(lv[idx as int])[1] == words@[1]@);
    assert(ws_words(lv[idx as int])[2] == words@[2]@);
    if !chars_eq(&words[1], &vname) {
        let mut m = wrap_msg("version header changed from '", &vname, "' to '");
        append(&mut m, &words[1]);
        append_str(&mut m, "'");
        return Err(line_prefixed(ln, &m));
    }
    let v = match bump_semver(&words[2], op, pre) {
        Err(f) => {
            return Err(line_prefixed(ln, &f.message()));
        },
        Ok(v) => v,
    };
    let nv = v.to_chars();
    let mut header = str_chars("@version ");
    append(&mut header, &vname);
    append_str(&mut header, " ");
    append(&mut header, &nv);
    let ghost hv = header@;
    let mut lines = lines;
    lines.set(idx, header);
    assert(lines@.map_values(|x: Vec<char>| x@) =~= lv.update(idx as int, hv));
    let mut text = join_newlines(&lines);
    if src.len() > 0 && src[src.len() - 1] == '\n' {
        text.push('\n');
        assert(text@ =~= join_lines(lv.update(idx as int, hv)) + "\n"@) by {
            reveal_strlit("\n");
        }
    }
    Ok((crate::text::string_from(&text), vkey, nv))
}

} // verus!
