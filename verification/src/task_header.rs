//! Task headers (`name:` and `name (ARG, ...):`) and the syntax checks that a
//! task expression must pass.
use vstd::prelude::*;

use crate::names::{
    env_name_error, is_name_char, split_chars, split_on, valid_env_name, valid_task_name_part,
    validate_env_name, is_valid_task_name_part,
};
use crate::scan::{split_directive, split_directive_spec, split_whitespace, ws_words};
use crate::text::{
    append, append_str, chars_ends_with_str, chars_eq_str, chars_find, chars_starts_with_str,
    chars_trim, chars_trim_end, ends_with, find_char, is_ws, lemma_find_char, str_chars, subvec,
    trim, trim_end, char_is_ws,
};

verus! {

/// `a`, then `x`, then `b`: the shape of messages that quote a value.
pub open spec fn wrap(a: Seq<char>, x: Seq<char>, b: Seq<char>) -> Seq<char> {
    a + x + b
}

pub fn wrap_msg(a: &str, x: &Vec<char>, b: &str) -> (r: Vec<char>)
    ensures
        r@ == wrap(a@, x@, b@),
{
    let mut r = str_chars(a);
    append(&mut r, x);
    append_str(&mut r, b);
    r
}

/// The first problem among task arguments, checked one argument after the
/// other: whitespace inside one, an invalid name, a repeated name.
pub open spec fn arguments_error(args: Seq<Seq<char>>) -> Option<Seq<char>>
    decreases args.len(),
{
    if args.len() == 0 {
        None
    } else {
        match arguments_error(args.drop_last()) {
            Some(m) => Some(m),
            None => {
                let a = args.last();
                if exists|i: int| 0 <= i < a.len() && is_ws(#[trigger] a[i]) {
                    Some("task arguments must be separated by commas"@)
                } else if env_name_error(a) is Some {
                    Some(
                        wrap(
                            "invalid task argument '"@,
                            a,
                            "': "@ + env_name_error(a)->0.spec_message(),
                        ),
                    )
                } else if args.drop_last().contains(a) {
                    Some(wrap("duplicate task argument '"@, a, "'"@))
                } else {
                    None
                }
            },
        }
    }
}

/// A task header: the name and the declared arguments, or the message of
/// what is wrong with it.
pub open spec fn parse_task_header_spec(line: Seq<char>) -> Result<
    (Seq<char>, Seq<Seq<char>>),
    Seq<char>,
> {
    if !ends_with(line, ":"@) {
        Err("top-level entries must be a key followed by ':'"@)
    } else {
        let head = line.drop_last();
        match find_char(head, '(') {
            Some(p) => {
                let name = trim(head.take(p));
                let rest = head.skip(p);
                if !(rest.len() >= 2 && rest.last() == ')') {
                    Err("invalid task argument declaration"@)
                } else {
                    let inner = rest.subrange(1, rest.len() - 1);
                    if trim(inner).len() == 0 {
                        Err("task argument list cannot be empty"@)
                    } else if name.len() == 0 {
                        Err("invalid top-level key"@)
                    } else {
                        let args = split_on(inner, ',').map_values(|a: Seq<char>| trim(a));
                        match arguments_error(args) {
                            Some(m) => Err(m),
                            None => Ok((name, args)),
                        }
                    }
                }
            },
            None => if head.len() == 0 || trim(head) != head {
                Err("invalid top-level key"@)
            } else {
                Ok((head, seq![]))
            },
        }
    }
}

/// Whether an indented task line is a nested task header: it does not start
/// with `@`, it ends with `:`, and what stands before `(` (or before the `:`)
/// is a task name part.
pub open spec fn nested_header_name(text: Seq<char>) -> Seq<char> {
    let head = text.drop_last();
    trim(
        match find_char(head, '(') {
            Some(p) => head.take(p),
            None => head,
        },
    )
}

pub open spec fn is_nested_header(text: Seq<char>) -> bool {
    text.len() > 0 && text[0] != '@' && ends_with(text, ":"@) && valid_task_name_part(
        nested_header_name(text),
    )
}

proof fn lemma_arguments_error_sticks(all: Seq<Seq<char>>, j: int)
    requires
        0 <= j <= all.len(),
        arguments_error(all.take(j)) is Some,
    ensures
        arguments_error(all) == arguments_error(all.take(j)),
    decreases all.len() - j,
{
    if j < all.len() {
        assert(all.take(j + 1).drop_last() =~= all.take(j));
        lemma_arguments_error_sticks(all, j + 1);
    } else {
        assert(all.take(j) =~= all);
    }
}

#[verifier::loop_isolation(false)]
fn check_arguments(args: &Vec<Vec<char>>) -> (r: Option<Vec<char>>)
    ensures
        match r {
            Some(m) => arguments_error(args@.map_values(|a: Vec<char>| a@)) == Some(m@),
            None => arguments_error(args@.map_values(|a: Vec<char>| a@)) is None,
        },
{
    let ghost all = args@.map_values(|a: Vec<char>| a@);
    let mut k: usize = 0;
    assert(all.take(0) =~= seq![]);
    while k < args.len()
        invariant
            k <= args.len(),
            all == args@.map_values(|a: Vec<char>| a@),
            arguments_error(all.take(k as int)) is None,
        decreases args.len() - k,
    {
        let a = &args[k];
        let ghost pre = all.take(k as int);
        assert(all.take(k + 1).drop_last() =~= pre);
        assert(all.take(k + 1).last() == a@);
        let mut j: usize = 0;
        while j < a.len()
            invariant
                j <= a.len(),
                forall|i: int| 0 <= i < j ==> !is_ws(#[trigger] a@[i]),
            decreases a.len() - j,
        {
            if char_is_ws(a[j]) {
                assert(is_ws(a@[j as int]));
                let m = str_chars("task arguments must be separated by commas");
                proof {
                    assert(arguments_error(all.take(k + 1)) == Some(m@));
                    lemma_arguments_error_sticks(all, k + 1);
                }
                return Some(m);
            }
            j = j + 1;
        }
        match validate_env_name(a) {
            Err(e) => {
                let mut m = wrap_msg("invalid task argument '", a, "': ");
                append_str(&mut m, e.message());
                proof {
                    assert(arguments_error(all.take(k + 1)) == Some(m@));
                    lemma_arguments_error_sticks(all, k + 1);
                }
                return Some(m);
            },
            Ok(()) => {},
        }
        let mut p: usize = 0;
        while p < k
            invariant
                p <= k < args.len(),
                all == args@.map_values(|a: Vec<char>| a@),
                pre == all.take(k as int),
                a@ == args@[k as int]@,
                forall|q: int| 0 <= q < p ==> all[q] != args@[k as int]@,
            decreases k - p,
        {
            if crate::text::chars_eq(&args[p], &args[k]) {
                assert(pre[p as int] == a@);
                let m = wrap_msg("duplicate task argument '", &args[k], "'");
                proof {
                    assert(pre.contains(a@));
                    assert(arguments_error(all.take(k + 1)) == Some(m@));
                    lemma_arguments_error_sticks(all, k + 1);
                }
                return Some(m);
            }
            p = p + 1;
        }
        assert(!pre.contains(a@)) by {
            if pre.contains(a@) {
                let q = choose|q: int| 0 <= q < pre.len() && pre[q] == a@;
                assert(all[q] == pre[q]);
            }
        }
        k = k + 1;
    }
    assert(all.take(args.len() as int) =~= all);
    None
}

/// Reads a task header.
pub fn parse_task_header(line: &Vec<char>) -> (r: Result<(Vec<char>, Vec<Vec<char>>), Vec<char>>)
    ensures
        match r {
            Ok((name, args)) => parse_task_header_spec(line@) == Ok::<
                (Seq<char>, Seq<Seq<char>>),
                Seq<char>,
            >((name@, args@.map_values(|a: Vec<char>| a@))),
            Err(m) => parse_task_header_spec(line@) == Err::<
                (Seq<char>, Seq<Seq<char>>),
                Seq<char>,
            >(m@),
        },
{
    if !chars_ends_with_str(line, ":") {
        return Err(str_chars("top-level entries must be a key followed by ':'"));
    }
    proof {
        reveal_strlit(":");
    }
    let head = subvec(line, 0, line.len() - 1);
    assert(head@ =~= line@.drop_last());
    match chars_find(&head, '(') {
        Some(p) => {
            proof {
                lemma_find_char(head@, '(');
            }
            let name_part = subvec(&head, 0, p);
            let name = chars_trim(&name_part);
            let rest = subvec(&head, p, head.len());
            assert(rest@ =~= head@.skip(p as int));
            if !(rest.len() >= 2 && rest[rest.len() - 1] == ')') {
                return Err(str_chars("invalid task argument declaration"));
            }
            let inner = subvec(&rest, 1, rest.len() - 1);
            let inner_trimmed = chars_trim(&inner);
            if inner_trimmed.len() == 0 {
                return Err(str_chars("task argument list cannot be empty"));
            }
            if name.len() == 0 {
                return Err(str_chars("invalid top-level key"));
            }
            let pieces = split_chars(&inner, ',');
            let mut args: Vec<Vec<char>> = Vec::new();
            let mut k: usize = 0;
            while k < pieces.len()
                invariant
                    k <= pieces@.len(),
                    pieces@.len() == split_on(inner@, ',').len(),
                    forall|m: int|
                        0 <= m < pieces@.len() ==> #[trigger] pieces@[m]@ == split_on(inner@, ',')[m],
                    args@.len() == k,
                    forall|m: int| 0 <= m < k ==> #[trigger] args@[m]@ == trim(split_on(inner@, ',')[m]),
                decreases pieces.len() - k,
            {
                let t = chars_trim(&pieces[k]);
                args.push(t);
                k = k + 1;
            }
            let ghost spec_args = split_on(inner@, ',').map_values(|a: Seq<char>| trim(a));
            assert(args@.map_values(|a: Vec<char>| a@) =~= spec_args);
            match check_arguments(&args) {
                Some(m) => Err(m),
                None => Ok((name, args)),
            }
        },
        None => {
            let t = chars_trim(&head);
            if head.len() == 0 || !crate::text::chars_eq(&t, &head) {
                return Err(str_chars("invalid top-level key"));
            }
            let args: Vec<Vec<char>> = Vec::new();
            assert(args@.map_values(|a: Vec<char>| a@) =~= seq![]);
            Ok((head, args))
        },
    }
}

/// Whether an indented task line is a nested task header.
pub fn nested_header(text: &Vec<char>) -> (b: bool)
    ensures
        b == is_nested_header(text@),
{
    if text.len() == 0 || text[0] == '@' || !chars_ends_with_str(text, ":") {
        return false;
    }
    proof {
        reveal_strlit(":");
    }
    let head = subvec(text, 0, text.len() - 1);
    assert(head@ =~= text@.drop_last());
    let part = match chars_find(&head, '(') {
        Some(p) => {
            proof {
                lemma_find_char(head@, '(');
            }
            subvec(&head, 0, p)
        },
        None => head,
    };
    let name = chars_trim(&part);
    is_valid_task_name_part(&name)
}

/// `\` at the end of a line: a shell line continuation.
pub open spec fn continuation_message() -> Seq<char> {
    "shell line continuations are not supported; put the command on one line, set variables with @export, or run it with @shell"@
}

/// `NAME=value command`: a shell environment prefix.
pub open spec fn env_prefix_message() -> Seq<char> {
    "NAME=value command prefixes are not supported; set the variable with @export first, or run the line with @shell"@
}

/// Whether a word is `NAME=...` with a valid variable name.
pub open spec fn is_env_assignment(w: Seq<char>) -> bool {
    match find_char(w, '=') {
        Some(i) => valid_env_name(w.take(i)),
        None => false,
    }
}

/// What is wrong with a command expression pasted from a shell script.
pub open spec fn expression_syntax_error(expr: Seq<char>) -> Option<Seq<char>> {
    if expr.len() > 0 && expr[0] == '@' {
        None
    } else if ends_with(trim_end(expr), "\\"@) {
        Some(continuation_message())
    } else if ws_words(expr).len() >= 2 && is_env_assignment(ws_words(expr)[0]) {
        Some(env_prefix_message())
    } else {
        None
    }
}

/// Directives that open a block.
pub open spec fn is_block_directive(name: Seq<char>) -> bool {
    name == "if"@ || (name.len() > 3 && name.take(3) == "if-"@) || name == "else"@ || name
        == "switch"@ || name == "case"@ || name == "default"@
}

/// What is wrong with a directive's spelling: `@help` needs its `:`, and no
/// other directive takes a trailing `:`.
pub open spec fn directive_syntax_error(expr: Seq<char>) -> Option<Seq<char>> {
    if expr.len() > 0 && expr[0] == '@' {
        let (name, args) = split_directive_spec(expr.drop_first());
        if name == "help:"@ {
            None
        } else if name == "help"@ {
            Some("@help must use trailing ':'"@)
        } else if ends_with(name, ":"@) || (is_block_directive(name) && ends_with(
            trim_end(args),
            ":"@,
        )) {
            Some("CJTaskrunner directives do not use trailing ':'"@)
        } else {
            None
        }
    } else {
        None
    }
}

fn is_env_assignment_exec(w: &Vec<char>) -> (b: bool)
    ensures
        b == is_env_assignment(w@),
{
    match chars_find(w, '=') {
        Some(i) => {
            proof {
                lemma_find_char(w@, '=');
            }
            let name = subvec(w, 0, i);
            validate_env_name(&name).is_ok()
        },
        None => false,
    }
}

pub fn check_expression_syntax(expr: &Vec<char>) -> (r: Option<Vec<char>>)
    ensures
        match r {
            Some(m) => expression_syntax_error(expr@) == Some(m@),
            None => expression_syntax_error(expr@) is None,
        },
{
    if expr.len() > 0 && expr[0] == '@' {
        return None;
    }
    let t = chars_trim_end(expr);
    if chars_ends_with_str(&t, "\\") {
        return Some(
            str_chars(
                "shell line continuations are not supported; put the command on one line, set variables with @export, or run it with @shell",
            ),
        );
    }
    let words = split_whitespace(expr);
    if words.len() >= 2 {
        assert(ws_words(expr@)[0] == words@[0]@);
        if is_env_assignment_exec(&words[0]) {
            return Some(
                str_chars(
                    "NAME=value command prefixes are not supported; set the variable with @export first, or run the line with @shell",
                ),
            );
        }
    }
    None
}

pub(crate) fn is_block_directive_exec(name: &Vec<char>) -> (b: bool)
    ensures
        b == is_block_directive(name@),
{
    let if_dash = if name.len() > 3 {
        let p = subvec(name, 0, 3);
        chars_eq_str(&p, "if-")
    } else {
        false
    };
    chars_eq_str(name, "if") || if_dash || chars_eq_str(name, "else") || chars_eq_str(
        name,
        "switch",
    ) || chars_eq_str(name, "case") || chars_eq_str(name, "default")
}

pub fn check_directive_syntax(expr: &Vec<char>) -> (r: Option<Vec<char>>)
    ensures
        match r {
            Some(m) => directive_syntax_error(expr@) == Some(m@),
            None => directive_syntax_error(expr@) is None,
        },
{
    if !(expr.len() > 0 && expr[0] == '@') {
        return None;
    }
    let rest = subvec(expr, 1, expr.len());
    assert(rest@ =~= expr@.drop_first());
    let (name, args) = split_directive(&rest);
    if chars_eq_str(&name, "help:") {
        return None;
    }
    if chars_eq_str(&name, "help") {
        return Some(str_chars("@help must use trailing ':'"));
    }
    let args_t = chars_trim_end(&args);
    if chars_ends_with_str(&name, ":") || (is_block_directive_exec(&name) && chars_ends_with_str(
        &args_t,
        ":",
    )) {
        return Some(str_chars("CJTaskrunner directives do not use trailing ':'"));
    }
    None
}

} // verus!
