//! Values that directives compute from their arguments: the status of
//! `@return`, the name and value of `@set` and `@export`, and the variable
//! that a capturing `@set NAME:` block fills.
use vstd::prelude::*;

use crate::command_text::{
    interpolate_spec, interpolate_text, split_words, split_words_spec, QuoteMode,
};
use crate::conditions::{is_truthy, truthy};
use crate::error::{line_prefixed, line_prefixed_text, CjError};
use crate::names::{env_name_error, validate_env_name};
use crate::scan::{
    find_ws, split_directive, split_directive_spec, strip_matching_quotes,
    strip_matching_quotes_spec,
};
use crate::task_header::{wrap, wrap_msg};
use crate::text::{
    append_str, chars_eq_ignore_ascii_case, chars_trim, chars_trim_end, chars_trim_start,
    eq_ignore_ascii_case, parse_u64, parse_u64_spec, str_chars, subvec, trim, trim_end, trim_start,
};
use crate::vars::VarMap;

verus! {

/// What `str::parse::<i32>` gives: an optional sign, then a non-empty run of
/// digits whose value fits.
pub open spec fn parse_i32_spec(s: Seq<char>) -> Option<i32> {
    let neg = s.len() > 0 && s[0] == '-';
    let d = if s.len() > 0 && (s[0] == '-' || s[0] == '+') {
        s.drop_first()
    } else {
        s
    };
    match parse_u64_spec(d) {
        None => None,
        Some(v) => if neg {
            if v <= 2147483648 {
                Some((0 - v) as i32)
            } else {
                None
            }
        } else if v <= 2147483647 {
            Some(v as i32)
        } else {
            None
        },
    }
}

pub fn parse_i32(s: &Vec<char>) -> (r: Option<i32>)
    ensures
        r == parse_i32_spec(s@),
{
    let neg = s.len() > 0 && s[0] == '-';
    let d = if s.len() > 0 && (s[0] == '-' || s[0] == '+') {
        subvec(s, 1, s.len())
    } else {
        s.clone()
    };
    assert(s.len() > 0 && (s@[0] == '-' || s@[0] == '+') ==> d@ =~= s@.drop_first());
    match parse_u64(&d) {
        None => None,
        Some(v) => if neg {
            if v <= 2147483648 {
                let w: i64 = v as i64;
                Some((0 - w) as i32)
            } else {
                None
            }
        } else if v <= 2147483647 {
            Some(v as i32)
        } else {
            None
        },
    }
}

/// The status that a `@return VALUE` line gives: `true` is 0, `false` is 1
/// (any case), a number is itself, any other value is 0 when truthy and 1
/// otherwise. Quotes around the trimmed value are removed first.
pub open spec fn status_of_value(value: Seq<char>) -> i32 {
    let v = strip_matching_quotes_spec(trim(value));
    if eq_ignore_ascii_case(v, "true"@) {
        0
    } else if eq_ignore_ascii_case(v, "false"@) {
        1
    } else if parse_i32_spec(v) is Some {
        parse_i32_spec(v)->0
    } else if truthy(v) {
        0
    } else {
        1
    }
}

pub open spec fn return_status_spec(args: Seq<char>, vars: Map<Seq<char>, Seq<char>>) -> Result<
    i32,
    Seq<char>,
> {
    match interpolate_spec(args, vars, QuoteMode::Raw) {
        Err(m) => Err(m),
        Ok(v) => Ok(status_of_value(v)),
    }
}

/// The status of `@return VALUE`.
pub fn return_value_status(args: &Vec<char>, vars: &VarMap) -> (r: Result<i32, CjError>)
    requires
        vars.wf(),
    ensures
        match r {
            Ok(s) => return_status_spec(args@, vars@) == Ok::<i32, Seq<char>>(s),
            Err(e) => return_status_spec(args@, vars@) == Err::<i32, Seq<char>>(e@),
        },
{
    let value = match interpolate_text(args, vars, QuoteMode::Raw) {
        Ok(v) => v,
        Err(m) => {
            return Err(CjError::new(&m));
        },
    };
    let t = chars_trim(&value);
    let v = strip_matching_quotes(&t);
    let yes = str_chars("true");
    let no = str_chars("false");
    if chars_eq_ignore_ascii_case(&v, &yes) {
        Ok(0)
    } else if chars_eq_ignore_ascii_case(&v, &no) {
        Ok(1)
    } else {
        match parse_i32(&v) {
            Some(code) => Ok(code),
            None => if is_truthy(&v) {
                Ok(0)
            } else {
                Ok(1)
            },
        }
    }
}

pub open spec fn invalid_env_text(ln: nat, key: Seq<char>, err: Seq<char>) -> Seq<char> {
    line_prefixed_text(ln, wrap("invalid env name '"@, key, "': "@ + err))
}

fn invalid_env(ln: usize, key: &Vec<char>, err: &str) -> (e: CjError)
    ensures
        e@ == invalid_env_text(ln as nat, key@, err@),
{
    let mut m = wrap_msg("invalid env name '", key, "': ");
    append_str(&mut m, err);
    assert(m@ =~= wrap("invalid env name '"@, key@, "': "@ + err@));
    line_prefixed(ln, &m)
}

/// `@set NAME VALUE`: the name (interpolated, then checked) and the
/// interpolated value.
pub open spec fn set_mutation_spec(args: Seq<char>, vars: Map<Seq<char>, Seq<char>>, ln: nat) -> Result<
    (Seq<char>, Seq<char>),
    Seq<char>,
> {
    if find_ws(trim_start(args)) is None {
        Err(line_prefixed_text(ln, "@set expects NAME and value"@))
    } else {
        let (raw_key, raw_value) = split_directive_spec(args);
        match interpolate_spec(raw_key, vars, QuoteMode::Raw) {
            Err(m) => Err(m),
            Ok(key) => match env_name_error(key) {
                Some(e) => Err(invalid_env_text(ln, key, e.spec_message())),
                None => match interpolate_spec(raw_value, vars, QuoteMode::Raw) {
                    Err(m) => Err(m),
                    Ok(value) => Ok((key, value)),
                },
            },
        }
    }
}

/// `@export NAME VALUE`, or `@export NAME` for a variable already set.
pub open spec fn export_mutation_spec(args: Seq<char>, vars: Map<Seq<char>, Seq<char>>, ln: nat) -> Result<
    (Seq<char>, Seq<char>),
    Seq<char>,
> {
    let t = trim_start(args);
    if t.len() == 0 {
        Err(line_prefixed_text(ln, "@export expects NAME or NAME value"@))
    } else if find_ws(t) is Some {
        let (raw_key, raw_value) = split_directive_spec(args);
        match interpolate_spec(raw_key, vars, QuoteMode::Raw) {
            Err(m) => Err(m),
            Ok(key) => match env_name_error(key) {
                Some(e) => Err(invalid_env_text(ln, key, e.spec_message())),
                None => match interpolate_spec(raw_value, vars, QuoteMode::Raw) {
                    Err(m) => Err(m),
                    Ok(value) => Ok((key, value)),
                },
            },
        }
    } else {
        match interpolate_spec(t, vars, QuoteMode::Raw) {
            Err(m) => Err(m),
            Ok(key) => match env_name_error(key) {
                Some(e) => Err(invalid_env_text(ln, key, e.spec_message())),
                None => if vars.contains_key(key) {
                    Ok((key, vars[key]))
                } else {
                    Err(line_prefixed_text(ln, wrap("cannot export unset variable '"@, key, "'"@)))
                },
            },
        }
    }
}

fn interpolated_key(raw: &Vec<char>, vars: &VarMap, ln: usize) -> (r: Result<Vec<char>, CjError>)
    requires
        vars.wf(),
    ensures
        match r {
            Ok(k) => interpolate_spec(raw@, vars@, QuoteMode::Raw) == Ok::<Seq<char>, Seq<char>>(
                k@,
            ) && env_name_error(k@) is None,
            Err(e) => match interpolate_spec(raw@, vars@, QuoteMode::Raw) {
                Err(m) => e@ == m,
                Ok(k) => env_name_error(k) is Some && e@ == invalid_env_text(
                    ln as nat,
                    k,
                    env_name_error(k)->0.spec_message(),
                ),
            },
        },
{
    let key = match interpolate_text(raw, vars, QuoteMode::Raw) {
        Ok(k) => k,
        Err(m) => {
            return Err(CjError::new(&m));
        },
    };
    match validate_env_name(&key) {
        Err(e) => Err(invalid_env(ln, &key, e.message())),
        Ok(()) => Ok(key),
    }
}

/// The name and value that `@set NAME VALUE` assigns.
pub fn parse_env_mutation(args: &Vec<char>, vars: &VarMap, ln: usize) -> (r: Result<
    (Vec<char>, Vec<char>),
    CjError,
>)
    requires
        vars.wf(),
    ensures
        match r {
            Ok((k, v)) => set_mutation_spec(args@, vars@, ln as nat) == Ok::<
                (Seq<char>, Seq<char>),
                Seq<char>,
            >((k@, v@)),
            Err(e) => set_mutation_spec(args@, vars@, ln as nat) == Err::<
                (Seq<char>, Seq<char>),
                Seq<char>,
            >(e@),
        },
{
    let t = chars_trim_start(args);
    if crate::scan::chars_find_ws(&t).is_none() {
        let m = str_chars("@set expects NAME and value");
        return Err(line_prefixed(ln, &m));
    }
    let (raw_key, raw_value) = split_directive(args);
    let key = interpolated_key(&raw_key, vars, ln)?;
    match interpolate_text(&raw_value, vars, QuoteMode::Raw) {
        Ok(v) => Ok((key, v)),
        Err(m) => Err(CjError::new(&m)),
    }
}

/// The name and value that `@export` exports.
pub fn parse_export_mutation(args: &Vec<char>, vars: &VarMap, ln: usize) -> (r: Result<
    (Vec<char>, Vec<char>),
    CjError,
>)
    requires
        vars.wf(),
    ensures
        match r {
            Ok((k, v)) => export_mutation_spec(args@, vars@, ln as nat) == Ok::<
                (Seq<char>, Seq<char>),
                Seq<char>,
            >((k@, v@)),
            Err(e) => export_mutation_spec(args@, vars@, ln as nat) == Err::<
                (Seq<char>, Seq<char>),
                Seq<char>,
            >(e@),
        },
{
    let t = chars_trim_start(args);
    if t.len() == 0 {
        let m = str_chars("@export expects NAME or NAME value");
        return Err(line_prefixed(ln, &m));
    }
    if crate::scan::chars_find_ws(&t).is_some() {
        let (raw_key, raw_value) = split_directive(args);
        let key = interpolated_key(&raw_key, vars, ln)?;
        return match interpolate_text(&raw_value, vars, QuoteMode::Raw) {
            Ok(v) => Ok((key, v)),
            Err(m) => Err(CjError::new(&m)),
        };
    }
    let key = interpolated_key(&t, vars, ln)?;
    match vars.get(&key) {
        Some(v) => Ok((key, v)),
        None => {
            let m = wrap_msg("cannot export unset variable '", &key, "'");
            Err(line_prefixed(ln, &m))
        },
    }
}

/// The text with every trailing `c` removed, as `trim_end_matches(c)`.
pub open spec fn trim_end_char(s: Seq<char>, c: char) -> Seq<char>
    decreases s.len(),
{
    if s.len() > 0 && s.last() == c {
        trim_end_char(s.drop_last(), c)
    } else {
        s
    }
}

pub fn chars_trim_end_char(s: &Vec<char>, c: char) -> (r: Vec<char>)
    ensures
        r@ == trim_end_char(s@, c),
{
    let mut n = s.len();
    assert(s@.take(n as int) =~= s@);
    while n > 0 && s[n - 1] == c
        invariant
            n <= s.len(),
            trim_end_char(s@, c) == trim_end_char(s@.take(n as int), c),
        decreases n,
    {
        assert(s@.take(n as int).drop_last() =~= s@.take(n - 1));
        n = n - 1;
    }
    let r = subvec(s, 0, n);
    assert(r@ =~= s@.take(n as int));
    r
}

/// Whether `@set` arguments open a capturing block: they end in `:` and,
/// without the colons, are one word.
pub open spec fn set_capture_args(args: Seq<char>) -> bool {
    let t = trim_end(args);
    t.len() > 0 && t.last() == ':' && match split_words_spec(trim_end_char(args, ':')) {
        Ok(w) => w.len() == 1,
        Err(_) => false,
    }
}

pub fn is_set_capture_args(args: &Vec<char>) -> (b: bool)
    ensures
        b == set_capture_args(args@),
{
    let t = chars_trim_end(args);
    if !(t.len() > 0 && t[t.len() - 1] == ':') {
        return false;
    }
    let stripped = chars_trim_end_char(args, ':');
    match split_words(&stripped) {
        Ok(w) => w.len() == 1,
        Err(_) => false,
    }
}

/// The variable that a capturing `@set NAME:` block fills.
pub open spec fn capture_name_spec(args: Seq<char>, vars: Map<Seq<char>, Seq<char>>, ln: nat) -> Result<
    Seq<char>,
    Seq<char>,
> {
    match split_words_spec(trim_end_char(args, ':')) {
        Err(m) => Err(m),
        Ok(w) => if w.len() != 1 {
            Err(line_prefixed_text(ln, "@set block expects exactly one variable name"@))
        } else {
            match interpolate_spec(w[0], vars, QuoteMode::Raw) {
                Err(m) => Err(m),
                Ok(key) => match env_name_error(key) {
                    Some(e) => Err(invalid_env_text(ln, key, e.spec_message())),
                    None => Ok(key),
                },
            }
        },
    }
}

pub fn parse_set_capture_name(args: &Vec<char>, vars: &VarMap, ln: usize) -> (r: Result<
    Vec<char>,
    CjError,
>)
    requires
        vars.wf(),
    ensures
        match r {
            Ok(k) => capture_name_spec(args@, vars@, ln as nat) == Ok::<Seq<char>, Seq<char>>(k@),
            Err(e) => capture_name_spec(args@, vars@, ln as nat) == Err::<Seq<char>, Seq<char>>(e@),
        },
{
    let stripped = chars_trim_end_char(args, ':');
    let words = match split_words(&stripped) {
        Ok(w) => w,
        Err(m) => {
            return Err(CjError::new(&m));
        },
    };
    if words.len() != 1 {
        let m = str_chars("@set block expects exactly one variable name");
        return Err(line_prefixed(ln, &m));
    }
    assert(words@.map_values(|x: Vec<char>| x@)[0] == words@[0]@);
    interpolated_key(&words[0], vars, ln)
}


/// `@return false` makes the task fail with status 1, and `@return true`
/// makes it succeed with status 0, whatever the case of the word, the
/// blanks around it and matching quotes around it, for every argument text
/// that names no variable.
pub proof fn lemma_return_false_fails_true_succeeds(args: Seq<char>, vars: Map<Seq<char>, Seq<char>>)
    requires
        !args.contains('$'),
    ensures
        eq_ignore_ascii_case(strip_matching_quotes_spec(trim(args)), "false"@) ==> return_status_spec(args, vars)
            == Ok::<i32, Seq<char>>(1),
        eq_ignore_ascii_case(strip_matching_quotes_spec(trim(args)), "true"@) ==> return_status_spec(args, vars)
            == Ok::<i32, Seq<char>>(0),
{
    crate::command_text::lemma_dollar_free_text_unchanged(args, vars, QuoteMode::Raw);
    reveal_strlit("true");
    reveal_strlit("false");
    let v = strip_matching_quotes_spec(trim(args));
    if eq_ignore_ascii_case(v, "false"@) {
        assert(!eq_ignore_ascii_case(v, "true"@)) by {
            assert(v.len() == 5);
        }
    }
}


/// `@return N` for a number `N` written in decimal ends the task with status
/// `N`, for every status a process can report as non-negative.
pub proof fn lemma_return_number_is_status(n: nat, vars: Map<Seq<char>, Seq<char>>)
    requires
        n <= 2147483647,
    ensures
        return_status_spec(crate::text::decimal(n), vars) == Ok::<i32, Seq<char>>(n as i32),
{
    let d = crate::text::decimal(n);
    crate::semver::lemma_decimal_digits(n);
    assert(!d.contains('$')) by {
        if d.contains('$') {
            let i = choose|i: int| 0 <= i < d.len() && d[i] == '$';
            assert(crate::text::is_ascii_digit(d[i]));
        }
    }
    crate::command_text::lemma_dollar_free_text_unchanged(d, vars, QuoteMode::Raw);
    assert(crate::text::is_ascii_digit(d[0]));
    assert(crate::text::is_ascii_digit(d.last())) by {
        assert(d.last() == d[d.len() - 1]);
    }
    crate::formatter::lemma_trim_of_trimmed(d);
    reveal_strlit("true");
    reveal_strlit("false");
    assert(!eq_ignore_ascii_case(d, "true"@)) by {
        if d.len() == "true"@.len() {
            assert(crate::text::ascii_lower(d[0]) != crate::text::ascii_lower("true"@[0]));
        }
    }
    assert(!eq_ignore_ascii_case(d, "false"@)) by {
        if d.len() == "false"@.len() {
            assert(crate::text::ascii_lower(d[0]) != crate::text::ascii_lower("false"@[0]));
        }
    }
}

} // verus!
